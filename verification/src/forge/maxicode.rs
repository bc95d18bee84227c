//! MaxiCode symbol encoding: the six-bit codeword stream of a MaxiCode
//! symbol (modes 2, 3 and 4), with its Reed-Solomon error correction over
//! GF(64) and the shortest-path text compaction of the secondary message.

use vstd::prelude::*;
use crate::error::ZplError;
use crate::text::{
    append_all, chars_of, decimal_chars, decimal_digits, hex_padded, hex_padded_chars, is_digit,
    signed_decimal, string_of, utf8_len,
};
use super::maxicode_tables::{
    code_set_flags, code_set_flags_of, lemma_code_set_shape, lemma_symbol_char_six_bit, symbol_char,
    symbol_char_of,
};

verus! {

/// Discrete logarithm table of GF(64) (primitive polynomial x^6 + x + 1):
/// `LOGT[x] = e` such that alpha^e = x. `LOGT[0]` is unused.
pub const LOGT: [u8; 64] = [
    0x00, 0x00, 0x01, 0x06, 0x02, 0x0C, 0x07, 0x1A, 0x03, 0x20, 0x0D, 0x23, 0x08, 0x30, 0x1B, 0x12,
    0x04, 0x18, 0x21, 0x10, 0x0E, 0x34, 0x24, 0x36, 0x09, 0x2D, 0x31, 0x26, 0x1C, 0x29, 0x13, 0x38,
    0x05, 0x3E, 0x19, 0x0B, 0x22, 0x1F, 0x11, 0x2F, 0x0F, 0x17, 0x35, 0x33, 0x25, 0x2C, 0x37, 0x28,
    0x0A, 0x3D, 0x2E, 0x1E, 0x32, 0x16, 0x27, 0x2B, 0x1D, 0x3C, 0x2A, 0x15, 0x14, 0x3B, 0x39, 0x3A,
];

/// Antilogarithm table of GF(64), doubled so that sums of two logarithms
/// index it without reduction: `ALOG[i] = alpha^(i mod 63)`.
pub const ALOG: [u8; 126] = [
    0x01, 0x02, 0x04, 0x08, 0x10, 0x20, 0x03, 0x06, 0x0C, 0x18, 0x30, 0x23, 0x05, 0x0A, 0x14, 0x28,
    0x13, 0x26, 0x0F, 0x1E, 0x3C, 0x3B, 0x35, 0x29, 0x11, 0x22, 0x07, 0x0E, 0x1C, 0x38, 0x33, 0x25,
    0x09, 0x12, 0x24, 0x0B, 0x16, 0x2C, 0x1B, 0x36, 0x2F, 0x1D, 0x3A, 0x37, 0x2D, 0x19, 0x32, 0x27,
    0x0D, 0x1A, 0x34, 0x2B, 0x15, 0x2A, 0x17, 0x2E, 0x1F, 0x3E, 0x3F, 0x3D, 0x39, 0x31, 0x21,
    // Doubled for wrap-around (index 63..125)
    0x01, 0x02, 0x04, 0x08, 0x10, 0x20, 0x03, 0x06, 0x0C, 0x18, 0x30, 0x23, 0x05, 0x0A, 0x14, 0x28,
    0x13, 0x26, 0x0F, 0x1E, 0x3C, 0x3B, 0x35, 0x29, 0x11, 0x22, 0x07, 0x0E, 0x1C, 0x38, 0x33, 0x25,
    0x09, 0x12, 0x24, 0x0B, 0x16, 0x2C, 0x1B, 0x36, 0x2F, 0x1D, 0x3A, 0x37, 0x2D, 0x19, 0x32, 0x27,
    0x0D, 0x1A, 0x34, 0x2B, 0x15, 0x2A, 0x17, 0x2E, 0x1F, 0x3E, 0x3F, 0x3D, 0x39, 0x31, 0x21,
];

// ---------------------------------------------------------------------------
// Table facts
// ---------------------------------------------------------------------------

pub proof fn lemma_tables_six_bit()
    ensures
        forall|i: int| 0 <= i < 126 ==> #[trigger] ALOG@[i] < 64,
        forall|i: int| 0 <= i < 64 ==> #[trigger] LOGT@[i] < 63,
{
    assert forall|i: int| 0 <= i < 126 implies #[trigger] ALOG@[i] < 64 by {
        assert(ALOG@.len() == 126);
    }
    assert forall|i: int| 0 <= i < 64 implies #[trigger] LOGT@[i] < 63 by {
        assert(LOGT@.len() == 64);
    }
}

pub proof fn lemma_xor_six_bit(a: u8, b: u8)
    requires
        a < 64,
        b < 64,
    ensures
        a ^ b < 64,
{
    assert(a < 64 && b < 64 ==> a ^ b < 64) by (bit_vector);
}

// ---------------------------------------------------------------------------
// Reed-Solomon encoding over GF(64)
// ---------------------------------------------------------------------------

pub open spec fn logt(x: u8) -> int {
    LOGT@[x as int] as int
}

/// One step of the generator-polynomial recurrence: multiplies the
/// polynomial `p` by `(x + alpha^i)` in the table-driven form of the encoder.
pub open spec fn gen_step(p: Seq<u8>, i: int) -> Seq<u8> {
    Seq::new(
        p.len(),
        |k: int|
            if k == 0 {
                ALOG@[logt(p[0]) + i]
            } else if k < i {
                (if p[k] != 0 {
                    ALOG@[logt(p[k]) + i]
                } else {
                    0u8
                }) ^ p[k - 1]
            } else if k == i {
                1u8
            } else {
                p[k]
            },
    )
}

/// The generator polynomial after `i` steps, for `nsym` check symbols.
pub open spec fn gen_iter(nsym: int, i: int) -> Seq<u8>
    decreases i,
{
    if i <= 0 {
        Seq::new((nsym + 1) as nat, |k: int| if k == 0 { 1u8 } else { 0u8 })
    } else {
        gen_step(gen_iter(nsym, i - 1), i)
    }
}

/// Coefficients of the Reed-Solomon generator polynomial with roots
/// alpha^1 .. alpha^nsym, lowest degree first.
pub open spec fn spec_generator(nsym: int) -> Seq<u8> {
    gen_iter(nsym, nsym)
}

pub open spec fn six_bit(s: Seq<u8>) -> bool {
    forall|k: int| 0 <= k < s.len() ==> #[trigger] s[k] < 64
}

/// Computes the generator polynomial for `nsym` error-correction symbols.
pub fn rs_build_generator(nsym: usize) -> (poly: Vec<u8>)
    requires
        nsym <= 63,
    ensures
        poly@ == spec_generator(nsym as int),
        poly@.len() == nsym + 1,
        six_bit(poly@),
{
    proof {
        lemma_tables_six_bit();
    }
    let mut poly: Vec<u8> = Vec::new();
    poly.push(1);
    let mut j: usize = 0;
    while j < nsym
        invariant
            j <= nsym,
            poly@.len() == j + 1,
            forall|k: int| 0 <= k <= j ==> poly@[k] == (if k == 0 { 1u8 } else { 0u8 }),
        decreases nsym - j,
    {
        poly.push(0);
        j = j + 1;
    }
    assert(poly@ == gen_iter(nsym as int, 0));
    let mut i: usize = 1;
    while i <= nsym
        invariant
            1 <= i <= nsym + 1,
            nsym <= 63,
            poly@ == gen_iter(nsym as int, i - 1),
            poly@.len() == nsym + 1,
            six_bit(poly@),
            forall|x: int| 0 <= x < 126 ==> #[trigger] ALOG@[x] < 64,
            forall|x: int| 0 <= x < 64 ==> #[trigger] LOGT@[x] < 63,
        decreases nsym + 1 - i,
    {
        let ghost before = poly@;
        poly.set(i, 1);
        let mut k: usize = i - 1;
        while k >= 1
            invariant
                k < i <= nsym,
                nsym <= 63,
                poly@.len() == nsym + 1,
                six_bit(poly@),
                six_bit(before),
                before.len() == nsym + 1,
                forall|x: int| 0 <= x < 126 ==> #[trigger] ALOG@[x] < 64,
                forall|x: int| 0 <= x < 64 ==> #[trigger] LOGT@[x] < 63,
                forall|j: int| 0 <= j <= k ==> poly@[j] == before[j],
                forall|j: int| k < j < i ==> poly@[j] == gen_step(before, i as int)[j],
                poly@[i as int] == 1,
                forall|j: int| i < j <= nsym ==> poly@[j] == before[j],
            decreases k,
        {
            let pk = poly[k];
            let hi: u8 = if pk != 0 {
                ALOG[LOGT[pk as usize] as usize + i]
            } else {
                pk
            };
            let v = hi ^ poly[k - 1];
            proof {
                lemma_xor_six_bit(hi, poly@[k - 1]);
            }
            poly.set(k, v);
            k = k - 1;
        }
        let p0 = poly[0];
        poly.set(0, ALOG[LOGT[p0 as usize] as usize + i]);
        assert(poly@ =~= gen_step(before, i as int));
        i = i + 1;
    }
    poly
}

/// One data symbol shifted through the encoder's linear-feedback register.
pub open spec fn rs_reg_step(reg: Seq<u8>, d: u8, g: Seq<u8>) -> Seq<u8> {
    let n = reg.len() as int;
    let m = reg[n - 1] ^ d;
    if m != 0 {
        Seq::new(
            n as nat,
            |k: int|
                if k == 0 {
                    ALOG@[logt(m) + logt(g[0])]
                } else {
                    reg[k - 1] ^ ALOG@[logt(m) + logt(g[k])]
                },
        )
    } else {
        Seq::new(n as nat, |k: int| if k == 0 { 0u8 } else { reg[k - 1] })
    }
}

/// The register after shifting in all of `data`.
pub open spec fn rs_reg(data: Seq<u8>, n: int, g: Seq<u8>) -> Seq<u8>
    decreases data.len(),
{
    if data.len() == 0 {
        Seq::new(n as nat, |k: int| 0u8)
    } else {
        rs_reg_step(rs_reg(data.drop_last(), n, g), data.last(), g)
    }
}

/// The `n` Reed-Solomon check symbols of `data` under generator `g`,
/// highest-order symbol first.
pub open spec fn spec_rs_check(data: Seq<u8>, n: int, g: Seq<u8>) -> Seq<u8> {
    rs_reg(data, n, g).reverse()
}

// ---------------------------------------------------------------------------
// The Reed-Solomon law: data followed by its check words is a multiple of the
// generator polynomial
// ---------------------------------------------------------------------------

/// Product in GF(64), by the logarithm tables.
pub open spec fn gf_mul(a: u8, b: u8) -> u8 {
    if a == 0 || b == 0 {
        0
    } else {
        ALOG@[logt(a) + logt(b)]
    }
}

/// Coefficient `k` of a polynomial stored lowest degree first (0 outside).
pub open spec fn coef_at(p: Seq<u8>, k: int) -> u8 {
    if 0 <= k < p.len() {
        p[k]
    } else {
        0
    }
}

/// Coefficient `k` of the product of `q` and `g` over GF(64), both stored
/// lowest degree first: the sum (XOR) of `q[j] * g[k - j]`.
pub open spec fn poly_mul_coef(q: Seq<u8>, g: Seq<u8>, k: int) -> u8
    decreases q.len(),
{
    if q.len() == 0 {
        0
    } else {
        gf_mul(q[0], coef_at(g, k)) ^ poly_mul_coef(q.drop_first(), g, k - 1)
    }
}

/// The product of `q` and `g` over GF(64), lowest degree first.
pub open spec fn poly_mul(q: Seq<u8>, g: Seq<u8>) -> Seq<u8> {
    Seq::new((q.len() + g.len() - 1) as nat, |k: int| poly_mul_coef(q, g, k))
}

/// The codeword polynomial of `data` followed by its check words `check`
/// (both highest degree first), stored lowest degree first.
pub open spec fn codeword_poly(data: Seq<u8>, check: Seq<u8>) -> Seq<u8> {
    (data + check).reverse()
}

proof fn lemma_xor_facts(a: u8, b: u8)
    ensures
        a ^ 0u8 == a,
        0u8 ^ a == a,
        a ^ b == b ^ a,
        (a ^ b) ^ a == b,
{
    assert(a ^ 0u8 == a) by (bit_vector);
    assert(0u8 ^ a == a) by (bit_vector);
    assert(a ^ b == b ^ a) by (bit_vector);
    assert((a ^ b) ^ a == b) by (bit_vector);
}

proof fn lemma_gf_mul_one(m: u8)
    requires
        m < 64,
    ensures
        gf_mul(m, 1) == m,
{
    if m != 0 {
        assert(LOGT@[1] == 0);
        assert(forall|x: int| 1 <= x < 64 ==> #[trigger] ALOG@[LOGT@[x] as int] == x);
    }
}

/// Coefficients of a product vanish outside its degree range.
proof fn lemma_poly_mul_coef_outside(q: Seq<u8>, g: Seq<u8>, k: int)
    requires
        g.len() >= 1,
        k < 0 || k >= q.len() + g.len() - 1,
    ensures
        poly_mul_coef(q, g, k) == 0,
    decreases q.len(),
{
    if q.len() > 0 {
        lemma_poly_mul_coef_outside(q.drop_first(), g, k - 1);
        assert(coef_at(g, k) == 0);
        lemma_xor_facts(0, 0);
    }
}

/// The register is six-bit and `n` long.
proof fn lemma_rs_reg_shape(data: Seq<u8>, n: int, g: Seq<u8>)
    requires
        1 <= n,
        g.len() == n + 1,
        six_bit(data),
        six_bit(g),
    ensures
        rs_reg(data, n, g).len() == n,
        six_bit(rs_reg(data, n, g)),
    decreases data.len(),
{
    if data.len() > 0 {
        assert(six_bit(data.drop_last()));
        lemma_rs_reg_shape(data.drop_last(), n, g);
        let reg = rs_reg(data.drop_last(), n, g);
        let d = data.last();
        lemma_tables_six_bit();
        lemma_xor_six_bit(reg[n - 1], d);
        let m = reg[n - 1] ^ d;
        let r2 = rs_reg_step(reg, d, g);
        assert forall|k: int| 0 <= k < r2.len() implies #[trigger] r2[k] < 64 by {
            if m != 0 {
                assert(LOGT@[m as int] < 63 && LOGT@[g[k] as int] < 63);
                assert(ALOG@[logt(m) + logt(g[k])] < 64);
                if k > 0 {
                    lemma_xor_six_bit(reg[k - 1], ALOG@[logt(m) + logt(g[k])]);
                }
            }
        }
    }
}

/// The quotient of the division that the encoder's register performs: the
/// product of the quotient and the generator is the data, shifted past the
/// check words, plus the register.
proof fn lemma_rs_quotient(data: Seq<u8>, n: int, g: Seq<u8>) -> (q: Seq<u8>)
    requires
        1 <= n,
        g.len() == n + 1,
        g[n] == 1,
        forall|k: int| 0 <= k < n ==> #[trigger] g[k] != 0,
        six_bit(data),
        six_bit(g),
    ensures
        q.len() == data.len(),
        forall|t: int| 0 <= t < data.len() + n ==> #[trigger] poly_mul_coef(q, g, t) == (rs_reg(
            data,
            n,
            g,
        ) + data.reverse())[t],
    decreases data.len(),
{
    if data.len() == 0 {
        let q = Seq::<u8>::empty();
        assert forall|t: int| 0 <= t < data.len() + n implies #[trigger] poly_mul_coef(q, g, t) == (
        rs_reg(data, n, g) + data.reverse())[t] by {}
        q
    } else {
        let p = data.drop_last();
        let c = data.last();
        assert(six_bit(p));
        let q0 = lemma_rs_quotient(p, n, g);
        lemma_rs_reg_shape(p, n, g);
        let reg = rs_reg(p, n, g);
        let m = reg[n - 1] ^ c;
        lemma_xor_six_bit(reg[n - 1], c);
        let q = seq![m] + q0;
        assert(q.drop_first() =~= q0);
        let reg2 = rs_reg(data, n, g);
        assert(reg2 == rs_reg_step(reg, c, g));
        let old_t = reg + p.reverse();
        let new_t = reg2 + data.reverse();
        assert forall|t: int| 0 <= t < data.len() + n implies #[trigger] poly_mul_coef(q, g, t) == new_t[t] by {
            assert(poly_mul_coef(q, g, t) == gf_mul(m, coef_at(g, t)) ^ poly_mul_coef(q0, g, t - 1));
            if t == 0 {
                lemma_poly_mul_coef_outside(q0, g, -1);
                lemma_xor_facts(gf_mul(m, g[0]), 0);
            } else {
                assert(poly_mul_coef(q0, g, t - 1) == old_t[t - 1]);
                if t < n {
                    lemma_xor_facts(gf_mul(m, g[t]), reg[t - 1]);
                    if m == 0 {
                        lemma_xor_facts(reg[t - 1], 0);
                    }
                } else if t == n {
                    lemma_gf_mul_one(m);
                    lemma_xor_facts(reg[n - 1], c);
                    lemma_xor_facts(m, reg[n - 1]);
                    assert(new_t[t] == data.reverse()[0]);
                } else {
                    assert(coef_at(g, t) == 0);
                    lemma_xor_facts(old_t[t - 1], 0);
                    assert(new_t[t] == data.reverse()[t - n]);
                    assert(old_t[t - 1] == p.reverse()[t - 1 - n]);
                }
            }
        }
        q
    }
}

/// Reed-Solomon: for a monic generator whose other coefficients are all
/// non-zero (so that the encoder's table product is the field product),
/// the data followed by its check words, as a polynomial, is a multiple of
/// the generator; it therefore vanishes wherever the generator does.
pub proof fn law_rs_divisible(data: Seq<u8>, n: int, g: Seq<u8>)
    requires
        1 <= n,
        g.len() == n + 1,
        g[n] == 1,
        forall|k: int| 0 <= k < n ==> #[trigger] g[k] != 0,
        six_bit(data),
        six_bit(g),
    ensures
        exists|q: Seq<u8>|
            q.len() == data.len() && #[trigger] poly_mul(q, g) == codeword_poly(
                data,
                spec_rs_check(data, n, g),
            ),
{
    let q = lemma_rs_quotient(data, n, g);
    lemma_rs_reg_shape(data, n, g);
    let reg = rs_reg(data, n, g);
    assert(codeword_poly(data, spec_rs_check(data, n, g)) =~= reg + data.reverse());
    assert(poly_mul(q, g) =~= reg + data.reverse());
}

/// Shifts one data symbol through the encoder register.
fn rs_shift(res: &mut Vec<u8>, d: u8, generator: &[u8])
    requires
        1 <= old(res)@.len(),
        generator@.len() >= old(res)@.len(),
        six_bit(generator@),
        six_bit(old(res)@),
        d < 64,
    ensures
        final(res)@ == rs_reg_step(old(res)@, d, generator@),
        six_bit(final(res)@),
{
    proof {
        lemma_tables_six_bit();
    }
    let n = res.len();
    let ghost before = res@;
    let m = res[n - 1] ^ d;
    proof {
        lemma_xor_six_bit(res@[n - 1], d);
    }
    if m != 0 {
        let log_m = LOGT[m as usize] as usize;
        let mut k: usize = n - 1;
        while k >= 1
            invariant
                k < n,
                res@.len() == n,
                before.len() == n,
                six_bit(res@),
                six_bit(before),
                generator@.len() >= n,
                six_bit(generator@),
                log_m == logt(m),
                m == before[n - 1] ^ d,
                m != 0,
                m < 64,
                forall|x: int| 0 <= x < 126 ==> #[trigger] ALOG@[x] < 64,
                forall|x: int| 0 <= x < 64 ==> #[trigger] LOGT@[x] < 63,
                forall|j: int| 0 <= j <= k ==> res@[j] == before[j],
                forall|j: int| k < j < n ==> res@[j] == rs_reg_step(before, d, generator@)[j],
            decreases k,
        {
            let g = generator[k];
            let prod = ALOG[log_m + LOGT[g as usize] as usize];
            let v = res[k - 1] ^ prod;
            proof {
                lemma_xor_six_bit(res@[k - 1], prod);
            }
            res.set(k, v);
            k = k - 1;
        }
        let g0 = generator[0];
        res.set(0, ALOG[log_m + LOGT[g0 as usize] as usize]);
    } else {
        let mut k: usize = n - 1;
        while k >= 1
            invariant
                k < n,
                res@.len() == n,
                before.len() == n,
                six_bit(res@),
                six_bit(before),
                m == before[n - 1] ^ d,
                m == 0,
                forall|j: int| 0 <= j <= k ==> res@[j] == before[j],
                forall|j: int| k < j < n ==> res@[j] == rs_reg_step(before, d, generator@)[j],
            decreases k,
        {
            let v = res[k - 1];
            res.set(k, v);
            k = k - 1;
        }
        res.set(0, 0);
    }
    assert(res@ =~= rs_reg_step(before, d, generator@));
}

/// The elements of `v` in reverse order.
fn reversed(v: &Vec<u8>) -> (out: Vec<u8>)
    ensures
        out@ == v@.reverse(),
{
    let n = v.len();
    let mut out: Vec<u8> = Vec::new();
    let mut i: usize = n;
    while i > 0
        invariant
            i <= n,
            v@.len() == n,
            out@.len() == n - i,
            forall|k: int| 0 <= k < n - i ==> out@[k] == v@[n - 1 - k],
        decreases i,
    {
        out.push(v[i - 1]);
        i = i - 1;
    }
    assert(out@ =~= v@.reverse());
    out
}

/// Computes the `nsym` Reed-Solomon check symbols of `data`.
pub fn rs_encode(data: &[u8], nsym: usize, generator: &[u8]) -> (res: Vec<u8>)
    requires
        1 <= nsym,
        generator@.len() >= nsym,
        six_bit(generator@),
        six_bit(data@),
    ensures
        res@ == spec_rs_check(data@, nsym as int, generator@),
        res@.len() == nsym,
        six_bit(res@),
{
    let n = nsym;
    let mut res: Vec<u8> = Vec::new();
    let mut j: usize = 0;
    while j < n
        invariant
            j <= n,
            res@.len() == j,
            forall|k: int| 0 <= k < j ==> res@[k] == 0u8,
        decreases n - j,
    {
        res.push(0);
        j = j + 1;
    }
    assert(res@ =~= rs_reg(data@.subrange(0, 0), n as int, generator@));
    let mut t: usize = 0;
    while t < data.len()
        invariant
            t <= data@.len(),
            1 <= n,
            generator@.len() >= n,
            six_bit(generator@),
            six_bit(data@),
            res@.len() == n,
            six_bit(res@),
            res@ == rs_reg(data@.subrange(0, t as int), n as int, generator@),
        decreases data@.len() - t,
    {
        rs_shift(&mut res, data[t], generator);
        assert(data@.subrange(0, t + 1).drop_last() =~= data@.subrange(0, t as int));
        t = t + 1;
    }
    assert(data@.subrange(0, data@.len() as int) =~= data@);
    let out = reversed(&res);
    proof {
        assert forall|k: int| 0 <= k < out@.len() implies #[trigger] out@[k] < 64 by {
            assert(out@[k] == res@[res@.len() - 1 - k]);
        }
    }
    out
}

// ---------------------------------------------------------------------------
// Secondary message: shortest-path text compaction over code sets A-E
// ---------------------------------------------------------------------------

pub const SET_A: usize = 0;
pub const SET_B: usize = 1;
pub const SET_E: usize = 2;
pub const SET_C: usize = 3;
pub const SET_D: usize = 4;
pub const SET_COUNT: usize = 5;
pub const SET_FLAGS: [u8; 5] = [0x01, 0x02, 0x04, 0x08, 0x10];
pub const PAD_CODEWORD: u8 = 33;

/// One way of consuming input in a code set: a character of the set itself,
/// a single shifted character of another set, or a run of one to three
/// Set A characters behind a Set A shift.
#[derive(Clone, Copy, PartialEq, Eq, Debug)]
pub enum TextOperation {
    Direct(usize),
    Shift(usize),
    ShiftA(usize),
}

/// The operations available while code set `set` is active.
pub open spec fn spec_operations(set: int) -> Seq<TextOperation> {
    if set == SET_A as int {
        seq![
            TextOperation::Direct(SET_A),
            TextOperation::Shift(SET_B),
            TextOperation::Shift(SET_E),
            TextOperation::Shift(SET_C),
            TextOperation::Shift(SET_D),
        ]
    } else if set == SET_B as int {
        seq![
            TextOperation::Direct(SET_B),
            TextOperation::ShiftA(1),
            TextOperation::ShiftA(2),
            TextOperation::ShiftA(3),
            TextOperation::Shift(SET_E),
            TextOperation::Shift(SET_C),
            TextOperation::Shift(SET_D),
        ]
    } else if set == SET_E as int {
        seq![TextOperation::Direct(SET_E), TextOperation::Shift(SET_C), TextOperation::Shift(SET_D)]
    } else if set == SET_C as int {
        seq![TextOperation::Direct(SET_C), TextOperation::Shift(SET_E), TextOperation::Shift(SET_D)]
    } else {
        seq![TextOperation::Direct(SET_D), TextOperation::Shift(SET_E), TextOperation::Shift(SET_C)]
    }
}

pub fn operations(set: usize) -> (ops: Vec<TextOperation>)
    requires
        set < SET_COUNT,
    ensures
        ops@ == spec_operations(set as int),
{
    let mut v: Vec<TextOperation> = Vec::new();
    if set == SET_A {
        v.push(TextOperation::Direct(SET_A));
        v.push(TextOperation::Shift(SET_B));
        v.push(TextOperation::Shift(SET_E));
        v.push(TextOperation::Shift(SET_C));
        v.push(TextOperation::Shift(SET_D));
    } else if set == SET_B {
        v.push(TextOperation::Direct(SET_B));
        v.push(TextOperation::ShiftA(1));
        v.push(TextOperation::ShiftA(2));
        v.push(TextOperation::ShiftA(3));
        v.push(TextOperation::Shift(SET_E));
        v.push(TextOperation::Shift(SET_C));
        v.push(TextOperation::Shift(SET_D));
    } else if set == SET_E {
        v.push(TextOperation::Direct(SET_E));
        v.push(TextOperation::Shift(SET_C));
        v.push(TextOperation::Shift(SET_D));
    } else if set == SET_C {
        v.push(TextOperation::Direct(SET_C));
        v.push(TextOperation::Shift(SET_E));
        v.push(TextOperation::Shift(SET_D));
    } else {
        v.push(TextOperation::Direct(SET_D));
        v.push(TextOperation::Shift(SET_E));
        v.push(TextOperation::Shift(SET_C));
    }
    assert(v@ =~= spec_operations(set as int));
    v
}

/// Codewords that latch from code set `from` to code set `to`.
pub open spec fn spec_latch(from: int, to: int) -> Seq<u8> {
    if from == to {
        seq![]
    } else if to == SET_A as int {
        if from == SET_B as int {
            seq![63u8]
        } else {
            seq![58u8]
        }
    } else if to == SET_B as int {
        seq![63u8]
    } else if to == SET_E as int {
        seq![62u8, 62u8]
    } else if to == SET_C as int {
        seq![60u8, 60u8]
    } else {
        seq![61u8, 61u8]
    }
}

pub fn latch_sequence(from: usize, to: usize) -> (r: Vec<u8>)
    requires
        from < SET_COUNT,
        to < SET_COUNT,
    ensures
        r@ == spec_latch(from as int, to as int),
{
    let mut v: Vec<u8> = Vec::new();
    if from == to {
    } else if to == SET_A {
        if from == SET_B {
            v.push(63);
        } else {
            v.push(58);
        }
    } else if to == SET_B {
        v.push(63);
    } else if to == SET_E {
        v.push(62);
        v.push(62);
    } else if to == SET_C {
        v.push(60);
        v.push(60);
    } else {
        v.push(61);
        v.push(61);
    }
    assert(v@ =~= spec_latch(from as int, to as int));
    v
}

/// Whether byte `ch` belongs to code set `set`.
pub open spec fn in_set(ch: u8, set: int) -> bool {
    code_set_flags(ch) & SET_FLAGS@[set] != 0
}

/// The value of byte `ch` in code set `set`.
pub open spec fn spec_symbol_for_set(set: int, ch: u8) -> u8 {
    let flags = code_set_flags(ch);
    if flags == SET_FLAGS@[set] || set == SET_A as int {
        symbol_char(ch)
    } else if set == SET_B as int && ch == 32 {
        47
    } else if set == SET_B as int && ch == 44 {
        48
    } else if set == SET_B as int && ch == 46 {
        49
    } else if set == SET_B as int && ch == 47 {
        50
    } else if set == SET_B as int && ch == 58 {
        51
    } else if set == SET_E as int && 28 <= ch <= 30 {
        (ch + 4) as u8
    } else if ch == 32 {
        59
    } else {
        ch
    }
}

pub fn symbol_for_set(set: usize, ch: u8) -> (r: u8)
    requires
        set < SET_COUNT,
    ensures
        r == spec_symbol_for_set(set as int, ch),
{
    let flags = code_set_flags_of(ch);
    if flags == SET_FLAGS[set] || set == SET_A {
        return symbol_char_of(ch);
    }
    if set == SET_B {
        if ch == 32 {
            return 47;
        } else if ch == 44 {
            return 48;
        } else if ch == 46 {
            return 49;
        } else if ch == 47 {
            return 50;
        } else if ch == 58 {
            return 51;
        }
    }
    if set == SET_E && 28 <= ch && ch <= 30 {
        return ch + 4;
    }
    if ch == 32 {
        59
    } else {
        ch
    }
}

/// The codeword that shifts a single character into code set `set`.
pub open spec fn spec_shift_codeword(set: int) -> u8 {
    if set == SET_A as int || set == SET_B as int {
        59
    } else if set == SET_C as int {
        60
    } else if set == SET_D as int {
        61
    } else {
        62
    }
}

/// The codeword that shifts a run of `count` Set A characters.
pub open spec fn spec_shift_a_codeword(count: int) -> u8 {
    if count == 1 {
        59
    } else if count == 2 {
        56
    } else {
        57
    }
}

/// Codewords that `op` emits for the input at `pos`, if it applies there.
pub open spec fn spec_op_codewords(op: TextOperation, msg: Seq<u8>, pos: int) -> Option<Seq<u8>> {
    match op {
        TextOperation::Direct(set) => {
            if 0 <= pos < msg.len() && set < SET_COUNT && in_set(msg[pos], set as int) {
                Some(seq![spec_symbol_for_set(set as int, msg[pos])])
            } else {
                None
            }
        },
        TextOperation::Shift(set) => {
            if 0 <= pos < msg.len() && set < SET_COUNT && in_set(msg[pos], set as int) {
                Some(
                    seq![spec_shift_codeword(set as int), spec_symbol_for_set(set as int, msg[pos])],
                )
            } else {
                None
            }
        },
        TextOperation::ShiftA(count) => {
            if 0 <= pos && pos + count <= msg.len() && 1 <= count <= 3 && (forall|j: int|
                pos <= j < pos + count ==> in_set(#[trigger] msg[j], SET_A as int)) {
                Some(
                    seq![spec_shift_a_codeword(count as int)] + msg.subrange(
                        pos,
                        pos + count,
                    ).map_values(|c: u8| spec_symbol_for_set(SET_A as int, c)),
                )
            } else {
                None
            }
        },
    }
}

/// Number of input bytes that `op` consumes.
pub open spec fn spec_intake(op: TextOperation) -> int {
    match op {
        TextOperation::ShiftA(count) => count as int,
        _ => 1,
    }
}

pub fn operation_intake(operation: TextOperation) -> (r: usize)
    ensures
        r == spec_intake(operation),
{
    match operation {
        TextOperation::ShiftA(count) => count,
        TextOperation::Direct(_) => 1,
        TextOperation::Shift(_) => 1,
    }
}

pub fn operation_codewords(operation: TextOperation, msg: &[u8], position: usize) -> (r: Option<
    Vec<u8>,
>)
    ensures
        match spec_op_codewords(operation, msg@, position as int) {
            Some(e) => r is Some && r->0@ == e,
            None => r is None,
        },
{
    match operation {
        TextOperation::Direct(set) => {
            if position < msg.len() && set < SET_COUNT {
                let ch = msg[position];
                if code_set_flags_of(ch) & SET_FLAGS[set] != 0 {
                    let mut v: Vec<u8> = Vec::new();
                    v.push(symbol_for_set(set, ch));
                    assert(v@ =~= seq![spec_symbol_for_set(set as int, ch)]);
                    return Some(v);
                }
            }
            None
        },
        TextOperation::Shift(set) => {
            if position < msg.len() && set < SET_COUNT {
                let ch = msg[position];
                if code_set_flags_of(ch) & SET_FLAGS[set] != 0 {
                    let shift: u8 = if set == SET_A || set == SET_B {
                        59
                    } else if set == SET_C {
                        60
                    } else if set == SET_D {
                        61
                    } else {
                        62
                    };
                    let mut v: Vec<u8> = Vec::new();
                    v.push(shift);
                    v.push(symbol_for_set(set, ch));
                    assert(v@ =~= seq![
                        spec_shift_codeword(set as int),
                        spec_symbol_for_set(set as int, ch),
                    ]);
                    return Some(v);
                }
            }
            None
        },
        TextOperation::ShiftA(count) => {
            if count < 1 || count > 3 || position > msg.len() || count > msg.len() - position {
                return None;
            }
            let end = position + count;
            let mut j: usize = position;
            while j < end
                invariant
                    operation == TextOperation::ShiftA(count),
                    1 <= count <= 3,
                    end == position + count,
                    position <= j <= position + count <= msg@.len(),
                    forall|i: int| position <= i < j ==> in_set(#[trigger] msg@[i], SET_A as int),
                decreases position + count - j,
            {
                if code_set_flags_of(msg[j]) & SET_FLAGS[SET_A] == 0 {
                    assert(!in_set(msg@[j as int], SET_A as int));
                    assert(!(forall|i: int|
                        position <= i < position + count ==> in_set(
                            #[trigger] msg@[i],
                            SET_A as int,
                        )));
                    return None;
                }
                j = j + 1;
            }
            let mut v: Vec<u8> = Vec::new();
            v.push(
                if count == 1 {
                    59
                } else if count == 2 {
                    56
                } else {
                    57
                },
            );
            let mut k: usize = position;
            while k < end
                invariant
                    end == position + count,
                    position <= k <= position + count <= msg@.len(),
                    v@ == seq![spec_shift_a_codeword(count as int)] + msg@.subrange(
                        position as int,
                        k as int,
                    ).map_values(|c: u8| spec_symbol_for_set(SET_A as int, c)),
                decreases position + count - k,
            {
                v.push(symbol_for_set(SET_A, msg[k]));
                assert(msg@.subrange(position as int, k + 1) =~= msg@.subrange(
                    position as int,
                    k as int,
                ).push(msg@[k as int]));
                k = k + 1;
            }
            Some(v)
        },
    }
}

/// Decimal value of a run of ASCII digits.
pub open spec fn spec_decimal(s: Seq<u8>) -> nat
    decreases s.len(),
{
    if s.len() == 0 {
        0
    } else {
        spec_decimal(s.drop_last()) * 10 + (s.last() - 48) as nat
    }
}

pub open spec fn all_ascii_digits(s: Seq<u8>) -> bool {
    forall|j: int| 0 <= j < s.len() ==> 48 <= #[trigger] s[j] <= 57
}

/// The numeric shift: nine digits at `pos` packed into six codewords.
pub open spec fn spec_numeric(msg: Seq<u8>, pos: int) -> Option<Seq<u8>> {
    if 0 <= pos && pos + 9 <= msg.len() && all_ascii_digits(msg.subrange(pos, pos + 9)) {
        let v = spec_decimal(msg.subrange(pos, pos + 9)) as u32;
        Some(
            seq![
                31u8,
                ((v >> 24u32) & 0x3f) as u8,
                ((v >> 18u32) & 0x3f) as u8,
                ((v >> 12u32) & 0x3f) as u8,
                ((v >> 6u32) & 0x3f) as u8,
                (v & 0x3f) as u8,
            ],
        )
    } else {
        None
    }
}

/// 10 to the power `n`.
pub open spec fn pow10(n: nat) -> nat
    decreases n,
{
    if n == 0 {
        1
    } else {
        10 * pow10((n - 1) as nat)
    }
}

pub fn numeric_codewords(msg: &[u8], pos: usize) -> (r: Option<Vec<u8>>)
    ensures
        match spec_numeric(msg@, pos as int) {
            Some(e) => r is Some && r->0@ == e,
            None => r is None,
        },
{
    if pos > msg.len() || msg.len() - pos < 9 {
        return None;
    }
    let mut value: u32 = 0;
    let mut j: usize = 0;
    assert(pow10(9) == 1_000_000_000) by {
        reveal_with_fuel(pow10, 10);
    }
    while j < 9
        invariant
            j <= 9,
            pos + 9 <= msg@.len(),
            msg@.len() == msg.len(),
            all_ascii_digits(msg@.subrange(pos as int, pos + j)),
            value == spec_decimal(msg@.subrange(pos as int, pos + j)),
            value < pow10(j as nat),
            pow10(9) == 1_000_000_000,
        decreases 9 - j,
    {
        assert(pos + j < msg.len());
        let d = msg[pos + j];
        if d < 48 || d > 57 {
            proof {
                assert(msg@.subrange(pos as int, pos + 9)[j as int] == d);
            }
            return None;
        }
        proof {
            assert(pow10((j + 1) as nat) == 10 * pow10(j as nat));
            assert(pow10(j as nat) <= 100_000_000) by {
                reveal_with_fuel(pow10, 10);
            }
            assert(value * 10 + 9 < 10 * pow10(j as nat)) by (nonlinear_arith)
                requires
                    value < pow10(j as nat),
            ;
            let t = msg@.subrange(pos as int, pos + j + 1);
            assert(t.drop_last() =~= msg@.subrange(pos as int, pos + j));
            assert forall|i: int| 0 <= i < t.len() implies 48 <= #[trigger] t[i] <= 57 by {
                if i < j {
                    assert(t[i] == msg@.subrange(pos as int, pos + j)[i]);
                }
            }
        }
        value = value * 10 + (d - 48) as u32;
        j = j + 1;
    }
    let b1: u32 = (value >> 24) & 0x3f;
    let b2: u32 = (value >> 18) & 0x3f;
    let b3: u32 = (value >> 12) & 0x3f;
    let b4: u32 = (value >> 6) & 0x3f;
    let b5: u32 = value & 0x3f;
    assert(b1 < 64 && b2 < 64 && b3 < 64 && b4 < 64 && b5 < 64) by (bit_vector)
        requires
            b1 == (value >> 24) & 0x3f,
            b2 == (value >> 18) & 0x3f,
            b3 == (value >> 12) & 0x3f,
            b4 == (value >> 6) & 0x3f,
            b5 == value & 0x3f,
    ;
    let mut out: Vec<u8> = Vec::new();
    out.push(31);
    out.push(b1 as u8);
    out.push(b2 as u8);
    out.push(b3 as u8);
    out.push(b4 as u8);
    out.push(b5 as u8);
    proof {
        assert(msg@.subrange(pos as int, pos + 9 as int) =~= msg@.subrange(pos as int, pos + j));
        assert(out@ =~= spec_numeric(msg@, pos as int)->0);
    }
    Some(out)
}

/// The codewords and next position of a compaction step from code set
/// `from` at input position `pos` into code set `to`, using operation `op`
/// of that set (`None` is the numeric shift). Nine digits at `pos` always
/// take the numeric shift, and nothing else is tried there.
#[verifier::opaque]
pub open spec fn spec_edge(msg: Seq<u8>, pos: int, from: int, to: int, op: Option<int>) -> Option<
    (int, Seq<u8>),
> {
    if !(0 <= to < 5) {
        None
    } else {
        match spec_numeric(msg, pos) {
            Some(n) => if op is None {
                Some((pos + 9, spec_latch(from, to) + n))
            } else {
                None
            },
            None => match op {
                None => None,
                Some(k) => if 0 <= k < spec_operations(to).len() {
                    match spec_op_codewords(spec_operations(to)[k], msg, pos) {
                        Some(e) => Some(
                            (pos + spec_intake(spec_operations(to)[k]), spec_latch(from, to) + e),
                        ),
                        None => None,
                    }
                } else {
                    None
                },
            },
        }
    }
}

/// Follows a sequence of compaction steps from the start state (position 0,
/// code set A); gives the final position, code set and emitted codewords.
pub open spec fn spec_walk(msg: Seq<u8>, steps: Seq<(int, Option<int>)>) -> Option<
    (int, int, Seq<u8>),
>
    decreases steps.len(),
{
    if steps.len() == 0 {
        Some((0, SET_A as int, Seq::empty()))
    } else {
        match spec_walk(msg, steps.drop_last()) {
            Some(prev) => match spec_edge(msg, prev.0, prev.1, steps.last().0, steps.last().1) {
                Some(e) => Some((e.0, steps.last().0, prev.2 + e.1)),
                None => None,
            },
            None => None,
        }
    }
}

/// `cw` encodes all of `msg`, ending in code set `end`.
pub open spec fn is_text_encoding(msg: Seq<u8>, cw: Seq<u8>, end: int) -> bool {
    exists|steps: Seq<(int, Option<int>)>|
        #[trigger] spec_walk(msg, steps) == Some((msg.len() as int, end, cw))
}

/// `cw` is a shortest encoding of `msg` ending in code set `end`.
pub open spec fn is_shortest_text_encoding(msg: Seq<u8>, cw: Seq<u8>, end: int) -> bool {
    &&& is_text_encoding(msg, cw, end)
    &&& forall|cw2: Seq<u8>, end2: int|
        #[trigger] is_text_encoding(msg, cw2, end2) ==> cw.len() <= cw2.len()
}

/// Largest input length that `max_slots` codewords could ever hold (nine
/// digits per six codewords).
pub open spec fn max_message_input(max_slots: int) -> int {
    (max_slots / 6) * 9 + max_slots % 6
}

/// The data codewords that hold encoding `cw` ending in set `end`: Sets C
/// and D first return to Set A when there is room, then the remainder is
/// padded (with the Set E pad in Set E).
pub open spec fn spec_finish(cw: Seq<u8>, end: int, max_slots: int) -> Seq<u8> {
    let c1 = if cw.len() < max_slots && (end == SET_C as int || end == SET_D as int) {
        cw.push(58u8)
    } else {
        cw
    };
    let pad: u8 = if end == SET_E as int {
        28
    } else {
        PAD_CODEWORD
    };
    c1 + Seq::new((max_slots - c1.len()) as nat, |i: int| pad)
}

pub proof fn lemma_symbol_six_bit(set: int, ch: u8)
    requires
        0 <= set < 5,
        in_set(ch, set),
    ensures
        spec_symbol_for_set(set, ch) < 64,
{
    lemma_symbol_char_six_bit();
    lemma_code_set_shape();
    let f = code_set_flags(ch);
    let sf = SET_FLAGS@[set];
    assert(sf == 1 || sf == 2 || sf == 4 || sf == 8 || sf == 16);
    if ch >= 64 {
        assert(f == 1 || f == 2 || f == 4 || f == 8 || f == 16);
        assert((f == 1 || f == 2 || f == 4 || f == 8 || f == 16) && (sf == 1 || sf == 2 || sf == 4
            || sf == 8 || sf == 16) && (f & sf) != 0 ==> f == sf) by (bit_vector);
    }
}

pub proof fn lemma_numeric_six_bit(v: u32)
    ensures
        ((v >> 24u32) & 0x3f) < 64,
        ((v >> 18u32) & 0x3f) < 64,
        ((v >> 12u32) & 0x3f) < 64,
        ((v >> 6u32) & 0x3f) < 64,
        (v & 0x3f) < 64,
{
    assert(((v >> 24u32) & 0x3f) < 64) by (bit_vector);
    assert(((v >> 18u32) & 0x3f) < 64) by (bit_vector);
    assert(((v >> 12u32) & 0x3f) < 64) by (bit_vector);
    assert(((v >> 6u32) & 0x3f) < 64) by (bit_vector);
    assert((v & 0x3f) < 64) by (bit_vector);
}

/// A step advances the position, stays within the input and emits six-bit
/// codewords.
pub proof fn lemma_edge_props(msg: Seq<u8>, pos: int, from: int, to: int, op: Option<int>)
    requires
        0 <= pos,
        spec_edge(msg, pos, from, to, op) is Some,
    ensures
        pos < spec_edge(msg, pos, from, to, op).unwrap().0 <= msg.len(),
        0 <= to < 5,
        six_bit(spec_edge(msg, pos, from, to, op).unwrap().1),
        op matches Some(k) ==> 0 <= k < 7,
{
    reveal(spec_edge);
    let e = spec_edge(msg, pos, from, to, op)->0;
    let latch = spec_latch(from, to);
    assert(six_bit(latch));
    match spec_numeric(msg, pos) {
        Some(n) => {
            let v = spec_decimal(msg.subrange(pos, pos + 9)) as u32;
            lemma_numeric_six_bit(v);
            assert(six_bit(n));
            assert(e.1 == latch + n);
        },
        None => {
            let k = op->0;
            let o = spec_operations(to)[k];
            let enc = spec_op_codewords(o, msg, pos)->0;
            assert(e.1 == latch + enc);
            match o {
                TextOperation::Direct(set) => {
                    lemma_symbol_six_bit(set as int, msg[pos]);
                    assert(six_bit(enc));
                },
                TextOperation::Shift(set) => {
                    lemma_symbol_six_bit(set as int, msg[pos]);
                    assert(six_bit(enc));
                },
                TextOperation::ShiftA(count) => {
                    assert forall|i: int| 0 <= i < enc.len() implies #[trigger] enc[i] < 64 by {
                        if i > 0 {
                            assert(in_set(msg[pos + i - 1], SET_A as int));
                            lemma_symbol_six_bit(SET_A as int, msg[pos + i - 1]);
                        }
                    }
                },
            }
        },
    }
}

/// Walks stay within the input, end in a valid code set, emit six-bit
/// codewords, and every step advances the position.
pub proof fn lemma_walk_props(msg: Seq<u8>, steps: Seq<(int, Option<int>)>)
    requires
        spec_walk(msg, steps) is Some,
    ensures
        0 <= spec_walk(msg, steps).unwrap().0 <= msg.len(),
        0 <= spec_walk(msg, steps).unwrap().1 < 5,
        six_bit(spec_walk(msg, steps).unwrap().2),
        steps.len() > 0 ==> spec_walk(msg, steps.drop_last()) is Some && spec_walk(
            msg,
            steps.drop_last(),
        ).unwrap().0 < spec_walk(msg, steps).unwrap().0,
    decreases steps.len(),
{
    if steps.len() > 0 {
        let prev = spec_walk(msg, steps.drop_last())->0;
        lemma_walk_props(msg, steps.drop_last());
        lemma_edge_props(msg, prev.0, prev.1, steps.last().0, steps.last().1);
        let e = spec_edge(msg, prev.0, prev.1, steps.last().0, steps.last().1)->0;
        assert(spec_walk(msg, steps).unwrap().2 == prev.2 + e.1);
    }
}

// Dynamic-programming table: slot (q, s) holds the shortest codeword
// sequence found so far that encodes msg[..q] and ends in code set s.

pub open spec fn slot(paths: Seq<Option<Vec<u8>>>, q: int, s: int) -> Option<Vec<u8>> {
    paths[q * 5 + s]
}

pub open spec fn improved(paths: Seq<Option<Vec<u8>>>, q: int, s: int, bound: int) -> bool {
    slot(paths, q, s) is Some && slot(paths, q, s)->0@.len() <= bound
}

pub open spec fn table_sound(
    msg: Seq<u8>,
    paths: Seq<Option<Vec<u8>>>,
    wit: Seq<Seq<(int, Option<int>)>>,
    n: int,
) -> bool {
    &&& paths.len() == (n + 1) * 5
    &&& wit.len() == paths.len()
    &&& forall|q: int, s: int|
        0 <= q <= n && 0 <= s < 5 && (#[trigger] slot(paths, q, s)) is Some ==> spec_walk(
            msg,
            wit[q * 5 + s],
        ) == Some((q, s, slot(paths, q, s)->0@))
}

#[verifier::opaque]
pub open spec fn table_mono(old: Seq<Option<Vec<u8>>>, new: Seq<Option<Vec<u8>>>, n: int) -> bool {
    &&& new.len() == old.len()
    &&& forall|q: int, s: int|
        0 <= q <= n && 0 <= s < 5 && (#[trigger] slot(old, q, s)) is Some ==> improved(
            new,
            q,
            s,
            slot(old, q, s)->0@.len() as int,
        )
}

/// Every walk whose steps all start before position `p` is matched or
/// beaten by the table.
#[verifier::opaque]
pub open spec fn opt_before(msg: Seq<u8>, paths: Seq<Option<Vec<u8>>>, p: int) -> bool {
    forall|steps: Seq<(int, Option<int>)>|
        #[trigger] spec_walk(msg, steps) is Some && (steps.len() == 0 || spec_walk(
            msg,
            steps.drop_last(),
        ).unwrap().0 < p) ==> improved(
            paths,
            spec_walk(msg, steps).unwrap().0,
            spec_walk(msg, steps).unwrap().1,
            spec_walk(msg, steps).unwrap().2.len() as int,
        )
}

/// Operation number `j` of the relaxation order: 0 is the numeric shift,
/// `j > 0` is operation `j - 1` of the target set.
pub open spec fn op_of(j: int) -> Option<int> {
    if j == 0 {
        None
    } else {
        Some(j - 1)
    }
}

pub open spec fn edge_done(
    msg: Seq<u8>,
    base: Seq<Option<Vec<u8>>>,
    paths: Seq<Option<Vec<u8>>>,
    p: int,
    f: int,
    t: int,
    j: int,
) -> bool {
    match spec_edge(msg, p, f, t, op_of(j)) {
        Some(e) => slot(base, p, f) is Some ==> improved(
            paths,
            e.0,
            t,
            (slot(base, p, f)->0@.len() + e.1.len()) as int,
        ),
        None => true,
    }
}

pub open spec fn lex_before(f2: int, t2: int, j2: int, f: int, t: int, j: int) -> bool {
    f2 < f || (f2 == f && (t2 < t || (t2 == t && j2 < j)))
}

#[verifier::opaque]
pub open spec fn done_upto(
    msg: Seq<u8>,
    base: Seq<Option<Vec<u8>>>,
    paths: Seq<Option<Vec<u8>>>,
    p: int,
    f: int,
    t: int,
    j: int,
) -> bool {
    forall|f2: int, t2: int, j2: int|
        0 <= f2 < 5 && 0 <= t2 < 5 && 0 <= j2 < 8 && lex_before(f2, t2, j2, f, t, j)
            ==> #[trigger] edge_done(msg, base, paths, p, f2, t2, j2)
}

/// A slot of the table as codewords.
pub open spec fn slot_view(paths: Seq<Option<Vec<u8>>>, q: int, s: int) -> Option<Seq<u8>> {
    match slot(paths, q, s) {
        Some(v) => Some(v@),
        None => None,
    }
}

/// What a slot holds after `candidate` is offered to it: the candidate when
/// the slot is empty or the candidate is strictly shorter, else what it held,
/// so that among equally short candidates the first one offered stays.
pub open spec fn keep_first_shortest(cur: Option<Seq<u8>>, candidate: Seq<u8>) -> Option<Seq<u8>> {
    match cur {
        Some(c) => if candidate.len() < c.len() {
            Some(candidate)
        } else {
            Some(c)
        },
        None => Some(candidate),
    }
}

/// The content of slot (`q`, `s`) of the compaction search (the codewords
/// kept for `msg[..q]` ending in code set `s`) once it has been offered, in
/// this order, every step out of the positions below `p`, then the steps out
/// of position `p` from the code sets below `f`, then the first `j` steps
/// (numbered as in `op_of`) from code set `f` into `s`. Positions are taken
/// in increasing order, and within a position the code sets it starts from,
/// then the operations. Before any step only slot (0, A) holds the empty
/// encoding.
pub open spec fn search_slot(msg: Seq<u8>, q: int, s: int, p: int, f: int, j: int) -> Option<
    Seq<u8>,
>
    decreases q, p, f, j,
{
    if j > 0 {
        let cur = search_slot(msg, q, s, p, f, j - 1);
        if 0 <= p < q {
            match search_slot(msg, p, f, p, 0, 0) {
                Some(pre) => match spec_edge(msg, p, f, s, op_of(j - 1)) {
                    Some(e) => if e.0 == q {
                        keep_first_shortest(cur, pre + e.1)
                    } else {
                        cur
                    },
                    None => cur,
                },
                None => cur,
            }
        } else {
            cur
        }
    } else if f > 0 {
        search_slot(msg, q, s, p, f - 1, 8)
    } else if p > 0 {
        search_slot(msg, q, s, p - 1, 5, 0)
    } else if q == 0 && s == SET_A as int {
        Some(Seq::empty())
    } else {
        None
    }
}

/// The codewords the search keeps for the whole of `msg` ending in code set
/// `end`: of the shortest walks it finds, the first one in the search order
/// of `search_slot`.
pub open spec fn search_result(msg: Seq<u8>, end: int) -> Option<Seq<u8>> {
    search_slot(msg, msg.len() as int, end, msg.len() as int, 0, 0)
}

/// What slot (`q`, `s`) holds at step (`p`, `f`, `t`, `j`) of the search,
/// where the steps from `f` into the sets below `t` are all done and `j` of
/// those into `t`.
pub open spec fn search_progress(msg: Seq<u8>, q: int, s: int, p: int, f: int, t: int, j: int) -> Option<Seq<u8>> {
    search_slot(
        msg,
        q,
        s,
        p,
        f,
        if s < t {
            8
        } else if s == t {
            j
        } else {
            0
        },
    )
}

/// Every slot of the table holds what the search has at step (`p`, `f`,
/// `t`, `j`).
#[verifier::opaque]
pub open spec fn table_follows(msg: Seq<u8>, paths: Seq<Option<Vec<u8>>>, p: int, f: int, t: int, j: int) -> bool {
    forall|q: int, s: int|
        0 <= q <= msg.len() && 0 <= s < 5 ==> #[trigger] slot_view(paths, q, s) == search_progress(
            msg,
            q,
            s,
            p,
            f,
            t,
            j,
        )
}

/// Steps out of an empty slot change nothing.
pub proof fn lemma_search_empty_source(msg: Seq<u8>, q: int, s: int, p: int, f: int, j: int)
    requires
        0 <= p,
        0 <= j <= 8,
        0 <= f,
        search_slot(msg, p, f, p, 0, 0) is None,
    ensures
        search_slot(msg, q, s, p, f, j) == search_slot(msg, q, s, p, f, 0),
    decreases j,
{
    if j > 0 {
        lemma_search_empty_source(msg, q, s, p, f, j - 1);
    }
}

/// Offering a candidate to the slot that the step leads to moves the table
/// one step on.
pub proof fn lemma_follows_offer(
    msg: Seq<u8>,
    before: Seq<Option<Vec<u8>>>,
    after: Seq<Option<Vec<u8>>>,
    p: int,
    f: int,
    t: int,
    j: int,
    q0: int,
    pre: Seq<u8>,
    c: Seq<u8>,
)
    requires
        table_follows(msg, before, p, f, t, j),
        before.len() == (msg.len() + 1) * 5,
        after.len() == before.len(),
        0 <= p < q0 <= msg.len(),
        0 <= f < 5,
        0 <= t < 5,
        0 <= j < 8,
        search_slot(msg, p, f, p, 0, 0) == Some(pre),
        spec_edge(msg, p, f, t, op_of(j)) == Some((q0, c)),
        slot_view(after, q0, t) == keep_first_shortest(slot_view(before, q0, t), pre + c),
        forall|i: int| 0 <= i < before.len() && i != q0 * 5 + t ==> after[i] == before[i],
    ensures
        table_follows(msg, after, p, f, t, j + 1),
{
    reveal(table_follows);
    assert forall|q: int, s: int| 0 <= q <= msg.len() && 0 <= s < 5 implies #[trigger] slot_view(
        after,
        q,
        s,
    ) == search_progress(msg, q, s, p, f, t, j + 1) by {
        assert(slot_view(before, q, s) == search_progress(msg, q, s, p, f, t, j));
        if q != q0 || s != t {
            assert(q * 5 + s != q0 * 5 + t);
            assert(after[q * 5 + s] == before[q * 5 + s]);
        }
        if s == t {
            assert(j + 1 - 1 == j);
        }
    }
}

/// A step that leads nowhere, or starts from an empty slot, leaves the
/// table as it is and moves it one step on.
pub proof fn lemma_follows_skip(msg: Seq<u8>, paths: Seq<Option<Vec<u8>>>, p: int, f: int, t: int, j: int)
    requires
        table_follows(msg, paths, p, f, t, j),
        0 <= p,
        0 <= f < 5,
        0 <= t < 5,
        0 <= j < 8,
        spec_edge(msg, p, f, t, op_of(j)) is None || search_slot(msg, p, f, p, 0, 0) is None,
    ensures
        table_follows(msg, paths, p, f, t, j + 1),
{
    reveal(table_follows);
    assert forall|q: int, s: int| 0 <= q <= msg.len() && 0 <= s < 5 implies #[trigger] slot_view(
        paths,
        q,
        s,
    ) == search_progress(msg, q, s, p, f, t, j + 1) by {
        if s == t {
            assert(j + 1 - 1 == j);
        }
    }
}

/// The remaining steps into `t` lead nowhere: the table moves on to set
/// `t + 1`.
pub proof fn lemma_follows_rest(msg: Seq<u8>, paths: Seq<Option<Vec<u8>>>, p: int, f: int, t: int, j: int)
    requires
        table_follows(msg, paths, p, f, t, j),
        0 <= p,
        0 <= f < 5,
        0 <= t < 5,
        0 <= j <= 8,
        forall|j2: int| j <= j2 < 8 ==> spec_edge(msg, p, f, t, #[trigger] op_of(j2)) is None,
    ensures
        table_follows(msg, paths, p, f, t + 1, 0),
    decreases 8 - j,
{
    if j < 8 {
        assert(spec_edge(msg, p, f, t, op_of(j)) is None);
        lemma_follows_skip(msg, paths, p, f, t, j);
        lemma_follows_rest(msg, paths, p, f, t, j + 1);
    } else {
        reveal(table_follows);
    }
}

/// Once every set is done from `f`, the table moves on to set `f + 1`.
pub proof fn lemma_follows_next_from(msg: Seq<u8>, paths: Seq<Option<Vec<u8>>>, p: int, f: int)
    requires
        table_follows(msg, paths, p, f, 5, 0),
        0 <= f < 5,
    ensures
        table_follows(msg, paths, p, f + 1, 0, 0),
{
    reveal(table_follows);
}

/// From an empty slot nothing happens: the table moves on to set `f + 1`.
pub proof fn lemma_follows_empty_from(msg: Seq<u8>, paths: Seq<Option<Vec<u8>>>, p: int, f: int)
    requires
        table_follows(msg, paths, p, f, 0, 0),
        0 <= p,
        0 <= f < 5,
        search_slot(msg, p, f, p, 0, 0) is None,
    ensures
        table_follows(msg, paths, p, f + 1, 0, 0),
{
    reveal(table_follows);
    assert forall|q: int, s: int| 0 <= q <= msg.len() && 0 <= s < 5 implies #[trigger] slot_view(
        paths,
        q,
        s,
    ) == search_progress(msg, q, s, p, f + 1, 0, 0) by {
        lemma_search_empty_source(msg, q, s, p, f, 8);
    }
}

/// Once every set is done at position `p`, the table moves on to `p + 1`.
pub proof fn lemma_follows_next_position(msg: Seq<u8>, paths: Seq<Option<Vec<u8>>>, p: int)
    requires
        table_follows(msg, paths, p, 5, 0, 0),
        0 <= p,
    ensures
        table_follows(msg, paths, p + 1, 0, 0, 0),
{
    reveal(table_follows);
}

/// The slots at position `p` hold what the search settled for them.
pub proof fn lemma_follows_settled(msg: Seq<u8>, paths: Seq<Option<Vec<u8>>>, p: int)
    requires
        table_follows(msg, paths, p, 0, 0, 0),
        0 <= p <= msg.len(),
    ensures
        forall|s: int| 0 <= s < 5 ==> #[trigger] slot_view(paths, p, s) == search_slot(msg, p, s, p, 0, 0),
{
    reveal(table_follows);
    assert forall|s: int| 0 <= s < 5 implies #[trigger] slot_view(paths, p, s) == search_slot(msg, p, s, p, 0, 0) by {
        assert(slot_view(paths, p, s) == search_progress(msg, p, s, p, 0, 0, 0));
    }
}

pub proof fn lemma_done_mono(
    msg: Seq<u8>,
    base: Seq<Option<Vec<u8>>>,
    old: Seq<Option<Vec<u8>>>,
    new: Seq<Option<Vec<u8>>>,
    p: int,
    f: int,
    t: int,
    j: int,
    n: int,
)
    requires
        0 <= p < n,
        n == msg.len(),
        old.len() == (n + 1) * 5,
        done_upto(msg, base, old, p, f, t, j),
        table_mono(old, new, n),
    ensures
        done_upto(msg, base, new, p, f, t, j),
{
    reveal(done_upto);
    reveal(table_mono);
    assert forall|f2: int, t2: int, j2: int|
        0 <= f2 < 5 && 0 <= t2 < 5 && 0 <= j2 < 8 && lex_before(
            f2,
            t2,
            j2,
            f,
            t,
            j,
        ) implies #[trigger] edge_done(msg, base, new, p, f2, t2, j2) by {
        assert(edge_done(msg, base, old, p, f2, t2, j2));
        if spec_edge(msg, p, f2, t2, op_of(j2)) is Some {
            lemma_edge_props(msg, p, f2, t2, op_of(j2));
            let e = spec_edge(msg, p, f2, t2, op_of(j2))->0;
            if slot(base, p, f2) is Some {
                assert(slot(old, e.0, t2) is Some);
            }
        }
    }
}

/// One walk, checked against the table after all steps out of `p` are relaxed.
pub proof fn lemma_opt_step_one(
    msg: Seq<u8>,
    base: Seq<Option<Vec<u8>>>,
    paths: Seq<Option<Vec<u8>>>,
    p: int,
    n: int,
    steps: Seq<(int, Option<int>)>,
)
    requires
        0 <= p < n,
        n == msg.len(),
        base.len() == (n + 1) * 5,
        opt_before(msg, base, p),
        table_mono(base, paths, n),
        done_upto(msg, base, paths, p, 5, 0, 0),
        spec_walk(msg, steps) is Some,
        steps.len() == 0 || spec_walk(msg, steps.drop_last()).unwrap().0 < p + 1,
    ensures
        improved(
            paths,
            spec_walk(msg, steps).unwrap().0,
            spec_walk(msg, steps).unwrap().1,
            spec_walk(msg, steps).unwrap().2.len() as int,
        ),
{
    reveal(opt_before);
    reveal(table_mono);
    reveal(done_upto);
    let w = spec_walk(msg, steps).unwrap();
    lemma_walk_props(msg, steps);
    if steps.len() == 0 || spec_walk(msg, steps.drop_last()).unwrap().0 < p {
        assert(improved(base, w.0, w.1, w.2.len() as int));
        assert(slot(base, w.0, w.1) is Some);
    } else {
        let pre = steps.drop_last();
        let pw = spec_walk(msg, pre).unwrap();
        lemma_walk_props(msg, pre);
        assert(spec_walk(msg, pre) is Some);
        assert(pre.len() == 0 || spec_walk(msg, pre.drop_last()).unwrap().0 < p);
        assert(improved(base, pw.0, pw.1, pw.2.len() as int));
        let last = steps.last();
        let op = last.1;
        let e = spec_edge(msg, pw.0, pw.1, last.0, op).unwrap();
        lemma_edge_props(msg, pw.0, pw.1, last.0, op);
        let j: int = if op is None {
            0
        } else {
            op->0 + 1
        };
        if op is Some {
            assert(op_of(j) == Some(op->0));
        }
        assert(op_of(j) == op);
        lemma_edge_props(msg, pw.0, pw.1, last.0, op);
        assert(0 <= j < 8);
        assert(lex_before(pw.1, last.0, j, 5, 0, 0));
        assert(edge_done(msg, base, paths, p, pw.1, last.0, j));
        assert(w.2 == pw.2 + e.1);
    }
}

/// Once every step out of position `p` has been relaxed, the table is
/// optimal for walks whose steps start before `p + 1`.
pub proof fn lemma_opt_step(
    msg: Seq<u8>,
    base: Seq<Option<Vec<u8>>>,
    paths: Seq<Option<Vec<u8>>>,
    p: int,
    n: int,
)
    requires
        0 <= p < n,
        n == msg.len(),
        base.len() == (n + 1) * 5,
        opt_before(msg, base, p),
        table_mono(base, paths, n),
        done_upto(msg, base, paths, p, 5, 0, 0),
    ensures
        opt_before(msg, paths, p + 1),
{
    reveal(opt_before);
    assert forall|steps: Seq<(int, Option<int>)>|
        #[trigger] spec_walk(msg, steps) is Some && (steps.len() == 0 || spec_walk(
            msg,
            steps.drop_last(),
        ).unwrap().0 < p + 1) implies improved(
        paths,
        spec_walk(msg, steps).unwrap().0,
        spec_walk(msg, steps).unwrap().1,
        spec_walk(msg, steps).unwrap().2.len() as int,
    ) by {
        lemma_opt_step_one(msg, base, paths, p, n, steps);
    }
}

/// Keeps the shorter of the slot's current content and `candidate`.
pub fn update_shortest(slot: &mut Option<Vec<u8>>, candidate: Vec<u8>)
    ensures
        match *old(slot) {
            None => *final(slot) == Some(candidate),
            Some(cur) => if candidate@.len() < cur@.len() {
                *final(slot) == Some(candidate)
            } else {
                *final(slot) == *old(slot)
            },
        },
{
    let better = match &*slot {
        Some(cur) => candidate.len() < cur.len(),
        None => true,
    };
    if better {
        *slot = Some(candidate);
    }
}

/// Offers `candidate`, the codewords of walk `steps`, for slot (`q`, `s`).
fn relax_slot(
    paths: &mut Vec<Option<Vec<u8>>>,
    msg: &[u8],
    q: usize,
    s: usize,
    candidate: Vec<u8>,
    Ghost(wit): Ghost<Seq<Seq<(int, Option<int>)>>>,
    Ghost(steps): Ghost<Seq<(int, Option<int>)>>,
) -> (new_wit: Ghost<Seq<Seq<(int, Option<int>)>>>)
    requires
        q <= msg@.len(),
        s < 5,
        table_sound(msg@, old(paths)@, wit, msg@.len() as int),
        spec_walk(msg@, steps) == Some((q as int, s as int, candidate@)),
    ensures
        table_sound(msg@, final(paths)@, new_wit@, msg@.len() as int),
        table_mono(old(paths)@, final(paths)@, msg@.len() as int),
        improved(final(paths)@, q as int, s as int, candidate@.len() as int),
        slot_view(final(paths)@, q as int, s as int) == keep_first_shortest(
            slot_view(old(paths)@, q as int, s as int),
            candidate@,
        ),
        forall|i: int| 0 <= i < old(paths)@.len() && i != q * 5 + s ==> final(paths)@[i] == old(
            paths,
        )@[i],
        new_wit@.len() == wit.len(),
        forall|i: int| 0 <= i < wit.len() && i != q * 5 + s ==> new_wit@[i] == wit[i],
{
    let ghost n = msg@.len() as int;
    assert(q * 5 + s < paths.len());
    let idx = q * 5 + s;
    let mut cur: Option<Vec<u8>> = None;
    paths.set_and_swap(idx, &mut cur);
    let ghost old_cur = cur;
    update_shortest(&mut cur, candidate);
    let ghost changed = cur != old_cur;
    paths.set(idx, cur);
    reveal(table_mono);
    let ghost new_wit = if changed {
        wit.update(idx as int, steps)
    } else {
        wit
    };
    assert forall|q2: int, s2: int|
        0 <= q2 <= n && 0 <= s2 < 5 && (#[trigger] slot(paths@, q2, s2)) is Some implies spec_walk(
        msg@,
        new_wit[q2 * 5 + s2],
    ) == Some((q2, s2, slot(paths@, q2, s2)->0@)) by {
        if q2 * 5 + s2 != idx {
            assert(slot(paths@, q2, s2) == slot(old(paths)@, q2, s2));
        } else {
            assert(q2 == q && s2 == s);
        }
    }
    assert forall|q2: int, s2: int|
        0 <= q2 <= n && 0 <= s2 < 5 && (#[trigger] slot(old(paths)@, q2, s2)) is Some implies improved(
        paths@,
        q2,
        s2,
        slot(old(paths)@, q2, s2)->0@.len() as int,
    ) by {
        if q2 * 5 + s2 != idx {
            assert(slot(paths@, q2, s2) == slot(old(paths)@, q2, s2));
        } else {
            assert(q2 == q && s2 == s);
        }
    }
    Ghost(new_wit)
}

/// A copy of a codeword vector.
fn copy_codewords(v: &Vec<u8>) -> (r: Vec<u8>)
    ensures
        r@ == v@,
{
    let mut r: Vec<u8> = Vec::new();
    crate::text::append_all(&mut r, v.as_slice());
    r
}

/// The codewords of `a`, then `b`, then `c`.
fn concat3(a: &Vec<u8>, b: &[u8], c: &[u8]) -> (r: Vec<u8>)
    ensures
        r@ == a@ + b@ + c@,
{
    let mut r = copy_codewords(a);
    crate::text::append_all(&mut r, b);
    crate::text::append_all(&mut r, c);
    r
}

pub proof fn lemma_mono_trans(
    a: Seq<Option<Vec<u8>>>,
    b: Seq<Option<Vec<u8>>>,
    c: Seq<Option<Vec<u8>>>,
    n: int,
)
    requires
        table_mono(a, b, n),
        table_mono(b, c, n),
    ensures
        table_mono(a, c, n),
{
    reveal(table_mono);
    assert forall|q: int, s: int|
        0 <= q <= n && 0 <= s < 5 && (#[trigger] slot(a, q, s)) is Some implies improved(
        c,
        q,
        s,
        slot(a, q, s)->0@.len() as int,
    ) by {
        assert(slot(b, q, s) is Some);
    }
}

pub proof fn lemma_mono_refl(a: Seq<Option<Vec<u8>>>, n: int)
    ensures
        table_mono(a, a, n),
{
    reveal(table_mono);
}

pub proof fn lemma_done_extend(
    msg: Seq<u8>,
    base: Seq<Option<Vec<u8>>>,
    paths: Seq<Option<Vec<u8>>>,
    p: int,
    f: int,
    t: int,
    j: int,
)
    requires
        done_upto(msg, base, paths, p, f, t, j),
        edge_done(msg, base, paths, p, f, t, j),
    ensures
        done_upto(msg, base, paths, p, f, t, j + 1),
{
    reveal(done_upto);
}

pub proof fn lemma_done_trivial_rest(
    msg: Seq<u8>,
    base: Seq<Option<Vec<u8>>>,
    paths: Seq<Option<Vec<u8>>>,
    p: int,
    f: int,
    t: int,
    j: int,
)
    requires
        0 <= t < 5,
        0 <= j <= 8,
        done_upto(msg, base, paths, p, f, t, j),
        forall|j2: int| j <= j2 < 8 ==> spec_edge(msg, p, f, t, #[trigger] op_of(j2)) is None,
    ensures
        done_upto(msg, base, paths, p, f, t + 1, 0),
{
    reveal(done_upto);
    assert forall|f2: int, t2: int, j2: int|
        0 <= f2 < 5 && 0 <= t2 < 5 && 0 <= j2 < 8 && lex_before(
            f2,
            t2,
            j2,
            f,
            t + 1,
            0,
        ) implies #[trigger] edge_done(msg, base, paths, p, f2, t2, j2) by {
        if f2 == f && t2 == t && j2 >= j {
            assert(spec_edge(msg, p, f, t, op_of(j2)) is None);
        }
    }
}

pub proof fn lemma_done_next_from(
    msg: Seq<u8>,
    base: Seq<Option<Vec<u8>>>,
    paths: Seq<Option<Vec<u8>>>,
    p: int,
    f: int,
)
    requires
        done_upto(msg, base, paths, p, f, 5, 0) || (done_upto(msg, base, paths, p, f, 0, 0) && slot(
            base,
            p,
            f,
        ) is None),
    ensures
        done_upto(msg, base, paths, p, f + 1, 0, 0),
{
    reveal(done_upto);
}

/// Relaxes every compaction step out of position `p`.
fn relax_position(
    paths: &mut Vec<Option<Vec<u8>>>,
    msg: &[u8],
    p: usize,
    Ghost(wit): Ghost<Seq<Seq<(int, Option<int>)>>>,
) -> (new_wit: Ghost<Seq<Seq<(int, Option<int>)>>>)
    requires
        p < msg@.len(),
        table_sound(msg@, old(paths)@, wit, msg@.len() as int),
        table_follows(msg@, old(paths)@, p as int, 0, 0, 0),
    ensures
        table_follows(msg@, final(paths)@, p + 1, 0, 0, 0),
        table_sound(msg@, final(paths)@, new_wit@, msg@.len() as int),
        table_mono(old(paths)@, final(paths)@, msg@.len() as int),
        done_upto(msg@, old(paths)@, final(paths)@, p as int, 5, 0, 0),
{
    let ghost n = msg@.len() as int;
    let ghost base = paths@;
    let ghost mut w = wit;
    let msg_len = msg.len();
    let numeric = numeric_codewords(msg, p);
    proof {
        lemma_mono_refl(base, n);
        reveal(done_upto);
        lemma_follows_settled(msg@, base, p as int);
    }
    let mut f: usize = 0;
    while f < 5
        invariant
            0 <= f <= 5,
            p < n,
            n == msg@.len(),
            msg_len == n,
            base.len() == (n + 1) * 5,
            table_sound(msg@, paths@, w, n),
            table_mono(base, paths@, n),
            forall|s: int| 0 <= s < 5 ==> #[trigger] slot(paths@, p as int, s) == slot(base, p as int, s),
            forall|i: int| 0 <= i < (p + 1) * 5 ==> w[i] == wit[i],
            done_upto(msg@, base, paths@, p as int, f as int, 0, 0),
            table_follows(msg@, paths@, p as int, f as int, 0, 0),
            forall|s: int|
                0 <= s < 5 ==> #[trigger] slot_view(base, p as int, s) == search_slot(
                    msg@,
                    p as int,
                    s,
                    p as int,
                    0,
                    0,
                ),
            match spec_numeric(msg@, p as int) {
                Some(e) => numeric is Some && numeric->0@ == e,
                None => numeric is None,
            },
        decreases 5 - f,
    {
        assert(p * 5 + f < paths.len());
        let prefix_opt: Option<Vec<u8>> = match &paths[p * 5 + f] {
            Some(v) => Some(copy_codewords(v)),
            None => None,
        };
        match prefix_opt {
            None => {
                proof {
                    assert(slot(base, p as int, f as int) is None);
                    lemma_done_next_from(msg@, base, paths@, p as int, f as int);
                    assert(slot_view(base, p as int, f as int) is None);
                    lemma_follows_empty_from(msg@, paths@, p as int, f as int);
                }
            },
            Some(prefix) => {
                let ghost pre_steps = w[p * 5 + f];
                proof {
                    assert(slot(paths@, p as int, f as int) is Some);
                    assert(spec_walk(msg@, pre_steps) == Some((p as int, f as int, prefix@)));
                    assert(slot_view(base, p as int, f as int) == Some(prefix@));
                }
                let mut t: usize = 0;
                while t < 5
                    invariant
                        0 <= f < 5,
                        0 <= t <= 5,
                        p < n,
                        n == msg@.len(),
            msg_len == n,
                        base.len() == (n + 1) * 5,
                        table_sound(msg@, paths@, w, n),
                        table_mono(base, paths@, n),
                        forall|s: int|
                            0 <= s < 5 ==> #[trigger] slot(paths@, p as int, s) == slot(
                                base,
                                p as int,
                                s,
                            ),
                        forall|i: int| 0 <= i < (p + 1) * 5 ==> w[i] == wit[i],
                        done_upto(msg@, base, paths@, p as int, f as int, t as int, 0),
                        table_follows(msg@, paths@, p as int, f as int, t as int, 0),
                        forall|s: int|
                            0 <= s < 5 ==> #[trigger] slot_view(base, p as int, s) == search_slot(
                                msg@,
                                p as int,
                                s,
                                p as int,
                                0,
                                0,
                            ),
                        search_slot(msg@, p as int, f as int, p as int, 0, 0) == Some(prefix@),
                        slot(base, p as int, f as int) is Some,
                        slot(base, p as int, f as int)->0@ == prefix@,
                        spec_walk(msg@, pre_steps) == Some((p as int, f as int, prefix@)),
                        match spec_numeric(msg@, p as int) {
                            Some(e) => numeric is Some && numeric->0@ == e,
                            None => numeric is None,
                        },
                    decreases 5 - t,
                {
                    let latch = latch_sequence(f, t);
                    match &numeric {
                        Some(num) => {
                            let cand = concat3(&prefix, latch.as_slice(), num.as_slice());
                            let ghost before = paths@;
                            let ghost step: (int, Option<int>) = (t as int, None);
                            proof {
                                reveal(spec_edge);
                                assert(spec_edge(msg@, p as int, f as int, t as int, None) == Some(
                                    (p + 9, latch@ + num@),
                                ));
                                assert(pre_steps.push(step).drop_last() =~= pre_steps);
                                assert(cand@ =~= prefix@ + (latch@ + num@));
                                lemma_edge_props(msg@, p as int, f as int, t as int, None);
                                assert(p + 9 <= msg@.len());
                            }
                            let ghost_w = relax_slot(
                                paths,
                                msg,
                                p + 9,
                                t,
                                cand,
                                Ghost(w),
                                Ghost(pre_steps.push(step)),
                            );
                            proof {
                                w = ghost_w@;
                                lemma_follows_offer(
                                    msg@,
                                    before,
                                    paths@,
                                    p as int,
                                    f as int,
                                    t as int,
                                    0,
                                    p + 9,
                                    prefix@,
                                    latch@ + num@,
                                );
                                assert forall|s: int| 0 <= s < 5 implies #[trigger] slot(
                                    paths@,
                                    p as int,
                                    s,
                                ) == slot(base, p as int, s) by {
                                    assert(p * 5 + s < before.len());
                                    assert(paths@[p * 5 + s] == before[p * 5 + s]);
                                    assert(slot(before, p as int, s) == slot(base, p as int, s));
                                }
                                lemma_done_mono(
                                    msg@,
                                    base,
                                    before,
                                    paths@,
                                    p as int,
                                    f as int,
                                    t as int,
                                    0,
                                    n,
                                );
                                lemma_mono_trans(base, before, paths@, n);
                                assert(op_of(0) == None::<int>);
                                assert(edge_done(msg@, base, paths@, p as int, f as int, t as int, 0));
                                lemma_done_extend(
                                    msg@,
                                    base,
                                    paths@,
                                    p as int,
                                    f as int,
                                    t as int,
                                    0,
                                );
                                assert forall|j2: int| 1 <= j2 < 8 implies spec_edge(
                                    msg@,
                                    p as int,
                                    f as int,
                                    t as int,
                                    #[trigger] op_of(j2),
                                ) is None by {
                                    reveal(spec_edge);
                                }
                                lemma_done_trivial_rest(
                                    msg@,
                                    base,
                                    paths@,
                                    p as int,
                                    f as int,
                                    t as int,
                                    1,
                                );
                                lemma_follows_rest(msg@, paths@, p as int, f as int, t as int, 1);
                            }
                        },
                        None => {
                            proof {
                                reveal(spec_edge);
                                assert(op_of(0) == None::<int>);
                                assert(spec_edge(msg@, p as int, f as int, t as int, op_of(0))
                                    is None);
                                lemma_done_extend(
                                    msg@,
                                    base,
                                    paths@,
                                    p as int,
                                    f as int,
                                    t as int,
                                    0,
                                );
                                lemma_follows_skip(msg@, paths@, p as int, f as int, t as int, 0);
                            }
                            let ops = operations(t);
                            let mut k: usize = 0;
                            while k < ops.len()
                                invariant
                                    0 <= f < 5,
                                    0 <= t < 5,
                                    0 <= k <= ops@.len(),
                                    ops@ == spec_operations(t as int),
                                    ops@.len() <= 7,
                                    p < n,
                                    n == msg@.len(),
            msg_len == n,
                                    base.len() == (n + 1) * 5,
                                    table_sound(msg@, paths@, w, n),
                                    table_mono(base, paths@, n),
                                    forall|s: int|
                                        0 <= s < 5 ==> #[trigger] slot(paths@, p as int, s)
                                            == slot(base, p as int, s),
                                    forall|i: int| 0 <= i < (p + 1) * 5 ==> w[i] == wit[i],
                                    done_upto(
                                        msg@,
                                        base,
                                        paths@,
                                        p as int,
                                        f as int,
                                        t as int,
                                        k + 1,
                                    ),
                                    table_follows(
                                        msg@,
                                        paths@,
                                        p as int,
                                        f as int,
                                        t as int,
                                        k + 1,
                                    ),
                                    search_slot(msg@, p as int, f as int, p as int, 0, 0) == Some(
                                        prefix@,
                                    ),
                                    slot(base, p as int, f as int) is Some,
                                    slot(base, p as int, f as int)->0@ == prefix@,
                                    spec_walk(msg@, pre_steps) == Some(
                                        (p as int, f as int, prefix@),
                                    ),
                                    spec_numeric(msg@, p as int) is None,
                                    latch@ == spec_latch(f as int, t as int),
                                decreases ops@.len() - k,
                            {
                                let op = ops[k];
                                let ghost step: (int, Option<int>) = (t as int, Some(k as int));
                                proof {
                                    assert(op_of(k + 1) == Some(k as int));
                                }
                                match operation_codewords(op, msg, p) {
                                    Some(enc) => {
                                        let intake = operation_intake(op);
                                        proof {
                                            reveal(spec_edge);
                                            assert(spec_edge(
                                                msg@,
                                                p as int,
                                                f as int,
                                                t as int,
                                                Some(k as int),
                                            ) == Some((p + intake, latch@ + enc@)));
                                            lemma_edge_props(
                                                msg@,
                                                p as int,
                                                f as int,
                                                t as int,
                                                Some(k as int),
                                            );
                                            assert(pre_steps.push(step).drop_last() =~= pre_steps);
                                            assert(p + intake <= msg@.len());
                                        }
                                        let cand = concat3(&prefix, latch.as_slice(), enc.as_slice());
                                        proof {
                                            assert(cand@ =~= prefix@ + (latch@ + enc@));
                                        }
                                        let ghost before = paths@;
                                        let ghost_w = relax_slot(
                                            paths,
                                            msg,
                                            p + intake,
                                            t,
                                            cand,
                                            Ghost(w),
                                            Ghost(pre_steps.push(step)),
                                        );
                                        proof {
                                            w = ghost_w@;
                                            lemma_follows_offer(
                                                msg@,
                                                before,
                                                paths@,
                                                p as int,
                                                f as int,
                                                t as int,
                                                k + 1,
                                                p + intake,
                                                prefix@,
                                                latch@ + enc@,
                                            );
                                            assert forall|s: int| 0 <= s < 5 implies #[trigger] slot(
                                                paths@,
                                                p as int,
                                                s,
                                            ) == slot(base, p as int, s) by {
                                                assert(p * 5 + s < before.len());
                                    assert(paths@[p * 5 + s] == before[p * 5 + s]);
                                    assert(slot(before, p as int, s) == slot(base, p as int, s));
                                            }
                                            lemma_done_mono(
                                                msg@,
                                                base,
                                                before,
                                                paths@,
                                                p as int,
                                                f as int,
                                                t as int,
                                                k + 1,
                                                n,
                                            );
                                            lemma_mono_trans(base, before, paths@, n);
                                            assert(edge_done(
                                                msg@,
                                                base,
                                                paths@,
                                                p as int,
                                                f as int,
                                                t as int,
                                                k + 1,
                                            ));
                                        }
                                    },
                                    None => {
                                        proof {
                                            reveal(spec_edge);
                                            assert(spec_edge(
                                                msg@,
                                                p as int,
                                                f as int,
                                                t as int,
                                                Some(k as int),
                                            ) is None);
                                            assert(op_of(k + 1) == Some(k as int));
                                            lemma_follows_skip(
                                                msg@,
                                                paths@,
                                                p as int,
                                                f as int,
                                                t as int,
                                                k + 1,
                                            );
                                        }
                                    },
                                }
                                proof {
                                    lemma_done_extend(
                                        msg@,
                                        base,
                                        paths@,
                                        p as int,
                                        f as int,
                                        t as int,
                                        k + 1,
                                    );
                                }
                                k = k + 1;
                            }
                            proof {
                                assert forall|j2: int| ops@.len() as int + 1 <= j2 < 8 implies spec_edge(
                                    msg@,
                                    p as int,
                                    f as int,
                                    t as int,
                                    #[trigger] op_of(j2),
                                ) is None by {
                                    reveal(spec_edge);
                                }
                                lemma_done_trivial_rest(
                                    msg@,
                                    base,
                                    paths@,
                                    p as int,
                                    f as int,
                                    t as int,
                                    ops@.len() as int + 1,
                                );
                                lemma_follows_rest(
                                    msg@,
                                    paths@,
                                    p as int,
                                    f as int,
                                    t as int,
                                    ops@.len() as int + 1,
                                );
                            }
                        },
                    }
                    t = t + 1;
                }
                proof {
                    lemma_done_next_from(msg@, base, paths@, p as int, f as int);
                    lemma_follows_next_from(msg@, paths@, p as int, f as int);
                }
            },
        }
        f = f + 1;
    }
    proof {
        lemma_follows_next_position(msg@, paths@, p as int);
    }
    Ghost(w)
}

/// `cw` is the encoding the compaction chooses: a shortest one, and among
/// the shortest the one ending in the lowest-numbered code set.
pub open spec fn is_chosen_text_encoding(msg: Seq<u8>, cw: Seq<u8>, end: int) -> bool {
    &&& is_shortest_text_encoding(msg, cw, end)
    &&& forall|cw2: Seq<u8>, end2: int|
        #[trigger] is_text_encoding(msg, cw2, end2) && cw2.len() == cw.len() ==> end <= end2
}

/// The first byte of `msg` that belongs to no code set, or 0.
pub open spec fn first_unencodable(msg: Seq<u8>) -> u8
    decreases msg.len(),
{
    if msg.len() == 0 {
        0
    } else if code_set_flags(msg[0]) == 0 {
        msg[0]
    } else {
        first_unencodable(msg.drop_first())
    }
}

/// Error text for a message that does not fit in `max_slots` codewords.
pub open spec fn capacity_error(max_slots: nat) -> Seq<char> {
    "MaxiCode message exceeds the "@ + decimal_digits(max_slots) + "-codeword capacity"@
}

/// Error text for a byte that no code set holds.
pub open spec fn byte_error(b: u8) -> Seq<char> {
    "MaxiCode cannot encode byte 0x"@ + hex_padded(b as nat, 2)
}

/// A walk that reaches the end of the input is matched or beaten by the
/// final row of an optimal table.
pub proof fn lemma_final_optimal(
    msg: Seq<u8>,
    paths: Seq<Option<Vec<u8>>>,
    cw: Seq<u8>,
    end: int,
)
    requires
        opt_before(msg, paths, msg.len() as int),
        is_text_encoding(msg, cw, end),
    ensures
        0 <= end < 5,
        improved(paths, msg.len() as int, end, cw.len() as int),
{
    reveal(opt_before);
    let steps = choose|steps: Seq<(int, Option<int>)>|
        #[trigger] spec_walk(msg, steps) == Some((msg.len() as int, end, cw));
    lemma_walk_props(msg, steps);
    assert(spec_walk(msg, steps) is Some);
}

fn capacity_error_string(max_slots: usize) -> (e: String)
    ensures
        e@ == capacity_error(max_slots as nat),
{
    let mut v: Vec<char> = Vec::new();
    crate::text::push_str(&mut v, "MaxiCode message exceeds the ");
    let d = decimal_chars(max_slots as u64);
    crate::text::append_all(&mut v, d.as_slice());
    crate::text::push_str(&mut v, "-codeword capacity");
    string_of(v.as_slice())
}

fn first_unencodable_byte(msg: &[u8]) -> (b: u8)
    ensures
        b == first_unencodable(msg@),
{
    let mut i: usize = 0;
    proof {
        assert(msg@.subrange(0, msg@.len() as int) =~= msg@);
    }
    while i < msg.len()
        invariant
            0 <= i <= msg@.len(),
            first_unencodable(msg@) == first_unencodable(msg@.subrange(i as int, msg@.len() as int)),
        decreases msg@.len() - i,
    {
        let ghost rest = msg@.subrange(i as int, msg@.len() as int);
        if code_set_flags_of(msg[i]) == 0 {
            return msg[i];
        }
        proof {
            assert(rest.drop_first() =~= msg@.subrange(i + 1, msg@.len() as int));
        }
        i = i + 1;
    }
    proof {
        assert(msg@.subrange(i as int, msg@.len() as int).len() == 0);
    }
    0
}

fn byte_error_string(b: u8) -> (e: String)
    ensures
        e@ == byte_error(b),
{
    let mut v: Vec<char> = Vec::new();
    crate::text::push_str(&mut v, "MaxiCode cannot encode byte 0x");
    let d = hex_padded_chars(b as u32, 2);
    crate::text::append_all(&mut v, d.as_slice());
    string_of(v.as_slice())
}

/// The compaction table before any step: only slot (0, A) holds the empty
/// encoding.
fn initial_table(msg: &[u8]) -> (res: (Vec<Option<Vec<u8>>>, Ghost<Seq<Seq<(int, Option<int>)>>>))
    requires
        (msg@.len() + 1) * 5 <= usize::MAX,
    ensures
        table_sound(msg@, res.0@, res.1@, msg@.len() as int),
        opt_before(msg@, res.0@, 0),
        table_follows(msg@, res.0@, 0, 0, 0, 0),
{
    let n = msg.len();
    let ghost ni = n as int;
    let total = (n + 1) * 5;
    let mut paths: Vec<Option<Vec<u8>>> = Vec::new();
    let mut i: usize = 0;
    while i < total
        invariant
            i <= total,
            paths@.len() == i,
            forall|j: int| 0 <= j < i ==> paths@[j] is None,
        decreases total - i,
    {
        paths.push(None);
        i = i + 1;
    }
    paths.set(SET_A, Some(Vec::new()));
    let ghost wit: Seq<Seq<(int, Option<int>)>> = Seq::new(
        total as nat,
        |j: int| Seq::<(int, Option<int>)>::empty(),
    );
    proof {
        assert forall|q: int, s: int|
            0 <= q <= ni && 0 <= s < 5 && (#[trigger] slot(paths@, q, s)) is Some implies spec_walk(
            msg@,
            wit[q * 5 + s],
        ) == Some((q, s, slot(paths@, q, s)->0@)) by {
            assert(q * 5 + s == 0);
            assert(slot(paths@, q, s)->0@ =~= Seq::<u8>::empty());
        }
        reveal(table_follows);
        assert forall|q: int, s: int| 0 <= q <= ni && 0 <= s < 5 implies #[trigger] slot_view(
            paths@,
            q,
            s,
        ) == search_progress(msg@, q, s, 0, 0, 0, 0) by {
            assert(search_progress(msg@, q, s, 0, 0, 0, 0) == search_slot(msg@, q, s, 0, 0, 0));
            if q == 0 && s == 0 {
                assert(slot(paths@, q, s)->0@ =~= Seq::<u8>::empty());
            } else {
                assert(q * 5 + s != 0);
            }
        }
        reveal(opt_before);
        assert forall|steps: Seq<(int, Option<int>)>|
            #[trigger] spec_walk(msg@, steps) is Some && (steps.len() == 0 || spec_walk(
                msg@,
                steps.drop_last(),
            ).unwrap().0 < 0) implies improved(
            paths@,
            spec_walk(msg@, steps).unwrap().0,
            spec_walk(msg@, steps).unwrap().1,
            spec_walk(msg@, steps).unwrap().2.len() as int,
        ) by {
            lemma_walk_props(msg@, steps);
            if steps.len() > 0 {
                lemma_walk_props(msg@, steps.drop_last());
            }
        }
    }
    (paths, Ghost(wit))
}

/// The shortest entry of the table's last row and its length, the lowest
/// code set among equals; `None` when the row is empty.
fn select_final(paths: &Vec<Option<Vec<u8>>>, n: usize) -> (r: Option<(usize, usize)>)
    requires
        paths@.len() == (n + 1) * 5,
    ensures
        r is None ==> forall|s: int| 0 <= s < 5 ==> #[trigger] slot(paths@, n as int, s) is None,
        r matches Some(b) ==> b.0 < 5 && slot(paths@, n as int, b.0 as int) is Some && slot(
            paths@,
            n as int,
            b.0 as int,
        )->0@.len() == b.1,
        r matches Some(b) ==> forall|s2: int|
            0 <= s2 < 5 && (#[trigger] slot(paths@, n as int, s2)) is Some ==> b.1 <= slot(
                paths@,
                n as int,
                s2,
            )->0@.len() && (slot(paths@, n as int, s2)->0@.len() == b.1 ==> b.0 <= s2),
{
    let mut best: usize = 5;
    let mut best_len: usize = 0;
    let mut s: usize = 0;
    let total = paths.len();
    while s < 5
        invariant
            s <= 5,
            paths@.len() == (n + 1) * 5,
            total == paths@.len(),
            best == 5 ==> forall|s2: int| 0 <= s2 < s ==> #[trigger] slot(paths@, n as int, s2) is None,
            best < 5 ==> best < s && slot(paths@, n as int, best as int) is Some && slot(
                paths@,
                n as int,
                best as int,
            )->0@.len() == best_len,
            best < 5 ==> forall|s2: int|
                0 <= s2 < s && (#[trigger] slot(paths@, n as int, s2)) is Some ==> best_len <= slot(
                    paths@,
                    n as int,
                    s2,
                )->0@.len() && (slot(paths@, n as int, s2)->0@.len() == best_len ==> best <= s2),
            best <= 5,
        decreases 5 - s,
    {
        match &paths[n * 5 + s] {
            Some(v) => {
                if best == 5 || v.len() < best_len {
                    best = s;
                    best_len = v.len();
                }
            },
            None => {},
        }
        s = s + 1;
    }
    if best == 5 {
        None
    } else {
        Some((best, best_len))
    }
}

/// Completes encoding `cw`, ending in code set `end`, to `max_slots`
/// codewords (see `spec_finish`).
fn finish_codewords(cw: Vec<u8>, end: usize, max_slots: usize) -> (out: Vec<u8>)
    requires
        cw@.len() <= max_slots,
    ensures
        out@ == spec_finish(cw@, end as int, max_slots as int),
{
    let ghost cws = cw@;
    let mut out = cw;
    if out.len() < max_slots && (end == SET_C || end == SET_D) {
        out.push(58);
    }
    let ghost c1 = out@;
    let pad: u8 = if end == SET_E {
        28
    } else {
        PAD_CODEWORD
    };
    while out.len() < max_slots
        invariant
            out@.len() <= max_slots,
            c1.len() <= out@.len(),
            out@ =~= c1 + Seq::new((out@.len() - c1.len()) as nat, |i: int| pad),
        decreases max_slots - out@.len(),
    {
        out.push(pad);
    }
    proof {
        assert(out@ =~= spec_finish(cws, end as int, max_slots as int));
    }
    out
}

/// Finishing a six-bit encoding keeps it six-bit and gives `max_slots`
/// codewords.
pub proof fn lemma_finish_props(cw: Seq<u8>, end: int, max_slots: int)
    requires
        six_bit(cw),
        cw.len() <= max_slots,
    ensures
        spec_finish(cw, end, max_slots).len() == max_slots,
        six_bit(spec_finish(cw, end, max_slots)),
{
    let out = spec_finish(cw, end, max_slots);
    assert forall|i: int| 0 <= i < out.len() implies #[trigger] out[i] < 64 by {
        if i < cw.len() {
            assert(out[i] == cw[i]);
        }
    }
}

/// `msg` fits in `max_slots` codewords: it is not longer than any such
/// message can be, and a shortest encoding of it takes at most `max_slots`.
pub open spec fn message_fits(msg: Seq<u8>, max_slots: int) -> bool {
    &&& msg.len() <= max_message_input(max_slots)
    &&& exists|cw: Seq<u8>, end: int|
        #[trigger] is_shortest_text_encoding(msg, cw, end) && cw.len() <= max_slots
}

/// The error for a message that does not fit in `max_slots` codewords.
pub open spec fn message_error(msg: Seq<u8>, max_slots: int) -> Seq<char> {
    if msg.len() > max_message_input(max_slots) || exists|cw: Seq<u8>, end: int|
        #[trigger] is_text_encoding(msg, cw, end) {
        capacity_error(max_slots as nat)
    } else {
        byte_error(first_unencodable(msg))
    }
}

/// Encodes `msg` into exactly `max_slots` data codewords: the shortest
/// compaction over code sets A to E (see `is_chosen_text_encoding`), the
/// one that the search keeps (`search_result`: among equally short ones, the
/// first found), completed by `spec_finish`.
pub fn encode_message(msg: &[u8], max_slots: usize) -> (r: Result<Vec<u8>, String>)
    requires
        (max_message_input(max_slots as int) + 1) * 5 <= usize::MAX,
    ensures
        r is Ok <==> message_fits(msg@, max_slots as int),
        r matches Ok(out) ==> exists|cw: Seq<u8>, end: int|
            #[trigger] is_chosen_text_encoding(msg@, cw, end) && search_result(msg@, end) == Some(
                cw,
            ) && cw.len() <= max_slots && out@ == spec_finish(cw, end, max_slots as int),
        r matches Ok(out) ==> out@.len() == max_slots && six_bit(out@),
        r matches Err(e) ==> e@ == message_error(msg@, max_slots as int),
{
    let maximum_input = (max_slots / 6) * 9 + (max_slots % 6);
    if msg.len() > maximum_input {
        return Err(capacity_error_string(max_slots));
    }
    let n = msg.len();
    let ghost ni = n as int;
    let (mut paths, Ghost(wit0)) = initial_table(msg);
    let ghost mut wit = wit0;
    let mut p: usize = 0;
    while p < n
        invariant
            n == msg@.len(),
            ni == n,
            p <= n,
            table_sound(msg@, paths@, wit, ni),
            opt_before(msg@, paths@, p as int),
            table_follows(msg@, paths@, p as int, 0, 0, 0),
        decreases n - p,
    {
        let ghost before = paths@;
        let nw = relax_position(&mut paths, msg, p, Ghost(wit));
        proof {
            wit = nw@;
            lemma_opt_step(msg@, before, paths@, p as int, ni);
        }
        p = p + 1;
    }
    let chosen = select_final(&paths, n);
    let (best, best_len) = match chosen {
        None => {
            proof {
                assert forall|cw: Seq<u8>, end: int| !#[trigger] is_text_encoding(msg@, cw, end) by {
                    if is_text_encoding(msg@, cw, end) {
                        lemma_final_optimal(msg@, paths@, cw, end);
                        assert(slot(paths@, n as int, end) is Some);
                    }
                }
            }
            return Err(byte_error_string(first_unencodable_byte(msg)));
        },
        Some(b) => b,
    };
    let cw: Vec<u8> = match &paths[n * 5 + best] {
        Some(v) => copy_codewords(v),
        None => Vec::new(),
    };
    let ghost cws = cw@;
    proof {
        lemma_follows_settled(msg@, paths@, ni);
        assert(slot_view(paths@, ni, best as int) == search_slot(msg@, ni, best as int, ni, 0, 0));
        assert(search_result(msg@, best as int) == Some(cws));
        let steps = wit[n * 5 + best];
        assert(spec_walk(msg@, steps) == Some((ni, best as int, cws)));
        assert(is_text_encoding(msg@, cws, best as int));
        lemma_walk_props(msg@, steps);
        assert forall|cw2: Seq<u8>, end2: int|
            #[trigger] is_text_encoding(msg@, cw2, end2) implies cws.len() <= cw2.len() && (cw2.len()
            == cws.len() ==> best <= end2) by {
            lemma_final_optimal(msg@, paths@, cw2, end2);
            assert(slot(paths@, n as int, end2) is Some);
        }
        assert(is_chosen_text_encoding(msg@, cws, best as int));
    }
    if best_len > max_slots {
        proof {
            assert forall|cw2: Seq<u8>, end2: int|
                #[trigger] is_shortest_text_encoding(msg@, cw2, end2) implies cw2.len() > max_slots by {
                assert(is_text_encoding(msg@, cws, best as int));
            }
        }
        return Err(capacity_error_string(max_slots));
    }
    let out = finish_codewords(cw, best, max_slots);
    proof {
        lemma_finish_props(cws, best as int, max_slots as int);
        assert(is_shortest_text_encoding(msg@, cws, best as int));
    }
    Ok(out)
}

// ---------------------------------------------------------------------------
// Primary message, error correction and the whole symbol
// ---------------------------------------------------------------------------

/// The ten primary codewords of mode 2: a numeric postal code of up to nine
/// digits, its length, the country and the service class.
pub open spec fn spec_primary_mode2(postal: Seq<u8>, country: u32, service: u32) -> Seq<u8> {
    let pn: u32 = spec_decimal(postal) as u32;
    let len: u32 = postal.len() as u32;
    seq![
        (((pn & 0x03) << 4u32) | 2) as u8,
        ((pn & 0xFC) >> 2u32) as u8,
        ((pn & 0x3F00) >> 8u32) as u8,
        ((pn & 0xFC000) >> 14u32) as u8,
        ((pn & 0x3F00000) >> 20u32) as u8,
        (((pn & 0x3C000000) >> 26u32) | ((len & 0x03) << 4u32)) as u8,
        (((len & 0x3C) >> 2u32) | ((country & 0x03) << 4u32)) as u8,
        ((country & 0xFC) >> 2u32) as u8,
        (((country & 0x300) >> 8u32) | ((service & 0x0F) << 2u32)) as u8,
        ((service & 0x3F0) >> 4u32) as u8,
    ]
}

/// The mode of a primary message: the low four bits of its first codeword.
pub open spec fn primary_mode(cw: Seq<u8>) -> u32 {
    (cw[0] as u32) & 0x0F
}

/// The 30-bit postal-code number of a mode-2 primary message, least
/// significant bits first: two bits in codeword 0, six in each of codewords
/// 1 to 4, four in codeword 5.
pub open spec fn primary_postal_number(cw: Seq<u8>) -> u32 {
    (((cw[0] as u32) >> 4u32) & 0x03) | (((cw[1] as u32) & 0x3F) << 2u32) | (((cw[2] as u32) & 0x3F)
        << 8u32) | (((cw[3] as u32) & 0x3F) << 14u32) | (((cw[4] as u32) & 0x3F) << 20u32) | (((
    cw[5] as u32) & 0x0F) << 26u32)
}

/// The 6-bit postal-code length of a mode-2 primary message: two bits in
/// codeword 5, four in codeword 6.
pub open spec fn primary_postal_length(cw: Seq<u8>) -> u32 {
    (((cw[5] as u32) >> 4u32) & 0x03) | (((cw[6] as u32) & 0x0F) << 2u32)
}

/// The 10-bit country code of a primary message: two bits in codeword 6,
/// six in codeword 7, two in codeword 8.
pub open spec fn primary_country(cw: Seq<u8>) -> u32 {
    (((cw[6] as u32) >> 4u32) & 0x03) | (((cw[7] as u32) & 0x3F) << 2u32) | (((cw[8] as u32) & 0x03)
        << 8u32)
}

/// The 10-bit service class of a primary message: four bits in codeword 8,
/// six in codeword 9.
pub open spec fn primary_service(cw: Seq<u8>) -> u32 {
    (((cw[8] as u32) >> 2u32) & 0x0F) | (((cw[9] as u32) & 0x3F) << 4u32)
}

proof fn lemma_mode2_fields(
    pn: u32,
    len: u32,
    country: u32,
    service: u32,
    c0: u8,
    c1: u8,
    c2: u8,
    c3: u8,
    c4: u8,
    c5: u8,
    c6: u8,
    c7: u8,
    c8: u8,
    c9: u8,
) by (bit_vector)
    requires
        pn < 0x4000_0000,
        len < 64,
        country < 1024,
        service < 1024,
        c0 == (((pn & 0x03) << 4u32) | 2) as u8,
        c1 == ((pn & 0xFC) >> 2u32) as u8,
        c2 == ((pn & 0x3F00) >> 8u32) as u8,
        c3 == ((pn & 0xFC000) >> 14u32) as u8,
        c4 == ((pn & 0x3F00000) >> 20u32) as u8,
        c5 == (((pn & 0x3C000000) >> 26u32) | ((len & 0x03) << 4u32)) as u8,
        c6 == (((len & 0x3C) >> 2u32) | ((country & 0x03) << 4u32)) as u8,
        c7 == ((country & 0xFC) >> 2u32) as u8,
        c8 == (((country & 0x300) >> 8u32) | ((service & 0x0F) << 2u32)) as u8,
        c9 == ((service & 0x3F0) >> 4u32) as u8,
    ensures
        (c0 as u32) & 0x0F == 2,
        (((c0 as u32) >> 4u32) & 0x03) | (((c1 as u32) & 0x3F) << 2u32) | (((c2 as u32) & 0x3F) << 8u32)
            | (((c3 as u32) & 0x3F) << 14u32) | (((c4 as u32) & 0x3F) << 20u32) | (((c5 as u32) & 0x0F)
            << 26u32) == pn,
        (((c5 as u32) >> 4u32) & 0x03) | (((c6 as u32) & 0x0F) << 2u32) == len,
        (((c6 as u32) >> 4u32) & 0x03) | (((c7 as u32) & 0x3F) << 2u32) | (((c8 as u32) & 0x03) << 8u32)
            == country,
        (((c8 as u32) >> 2u32) & 0x0F) | (((c9 as u32) & 0x3F) << 4u32) == service,
        c0 < 64 && c1 < 64 && c2 < 64 && c3 < 64 && c4 < 64,
        c5 < 64 && c6 < 64 && c7 < 64 && c8 < 64 && c9 < 64,
{
}

proof fn lemma_spec_decimal_bound(s: Seq<u8>)
    requires
        all_ascii_digits(s),
    ensures
        spec_decimal(s) < pow10(s.len()),
    decreases s.len(),
{
    if s.len() > 0 {
        assert(all_ascii_digits(s.drop_last()));
        lemma_spec_decimal_bound(s.drop_last());
        assert(48 <= s.last() <= 57);
    }
}

/// MaxiCode mode 2: reading the primary message back gives mode 2, the
/// postal code's number and its number of digits (so the digits
/// themselves), the country and the service class, each from its own bit
/// field of the ten six-bit codewords.
pub proof fn law_primary_mode2_round_trip(postal: Seq<u8>, country: u32, service: u32)
    requires
        all_ascii_digits(postal),
        postal.len() <= 9,
        country < 1024,
        service < 1024,
    ensures
        spec_primary_mode2(postal, country, service).len() == 10,
        six_bit(spec_primary_mode2(postal, country, service)),
        primary_mode(spec_primary_mode2(postal, country, service)) == 2,
        primary_postal_number(spec_primary_mode2(postal, country, service)) == spec_decimal(postal),
        primary_postal_length(spec_primary_mode2(postal, country, service)) == postal.len(),
        primary_country(spec_primary_mode2(postal, country, service)) == country,
        primary_service(spec_primary_mode2(postal, country, service)) == service,
{
    lemma_spec_decimal_bound(postal);
    assert(pow10(9) == 1_000_000_000) by {
        reveal_with_fuel(pow10, 10);
    }
    let k = postal.len();
    assert(pow10(k) <= pow10(9)) by {
        lemma_pow10_mono(k, 9);
    }
    let pn: u32 = spec_decimal(postal) as u32;
    let len: u32 = postal.len() as u32;
    let cw = spec_primary_mode2(postal, country, service);
    lemma_mode2_fields(pn, len, country, service, cw[0], cw[1], cw[2], cw[3], cw[4], cw[5], cw[6], cw[7], cw[8], cw[9]);
}

proof fn lemma_pow10_mono(a: nat, b: nat)
    requires
        a <= b,
    ensures
        pow10(a) <= pow10(b),
    decreases b,
{
    if a < b {
        lemma_pow10_mono(a, (b - 1) as nat);
    }
}

/// Upper-case form of an ASCII byte.
pub open spec fn ascii_upper(ch: u8) -> u8 {
    if 97 <= ch <= 122 {
        (ch - 32) as u8
    } else {
        ch
    }
}

/// The ten primary codewords of mode 3: a six-character alphanumeric
/// postal code, the country and the service class.
pub open spec fn spec_primary_mode3(postal: Seq<u8>, country: u32, service: u32) -> Seq<u8> {
    let pc = Seq::new(6, |i: int| symbol_char(ascii_upper(postal[i])));
    seq![
        ((pc[5] & 0x03) << 4u8) | 3,
        ((pc[4] & 0x03) << 4u8) | ((pc[5] & 0x3C) >> 2u8),
        ((pc[3] & 0x03) << 4u8) | ((pc[4] & 0x3C) >> 2u8),
        ((pc[2] & 0x03) << 4u8) | ((pc[3] & 0x3C) >> 2u8),
        ((pc[1] & 0x03) << 4u8) | ((pc[2] & 0x3C) >> 2u8),
        ((pc[0] & 0x03) << 4u8) | ((pc[1] & 0x3C) >> 2u8),
        ((((pc[0] as u32) & 0x3C) >> 2u32) | ((country & 0x03) << 4u32)) as u8,
        ((country & 0xFC) >> 2u32) as u8,
        (((country & 0x300) >> 8u32) | ((service & 0x0F) << 2u32)) as u8,
        ((service & 0x3F0) >> 4u32) as u8,
    ]
}

/// The decimal value of a run of ASCII digits.
fn decimal_value(digits: &[u8]) -> (v: u32)
    requires
        all_ascii_digits(digits@),
        digits@.len() <= 9,
    ensures
        v == spec_decimal(digits@),
        v < pow10(digits@.len()),
{
    let mut value: u32 = 0;
    let mut j: usize = 0;
    proof {
        assert(digits@.subrange(0, 0) =~= Seq::<u8>::empty());
    }
    while j < digits.len()
        invariant
            j <= digits@.len(),
            digits@.len() <= 9,
            all_ascii_digits(digits@),
            value == spec_decimal(digits@.subrange(0, j as int)),
            value < pow10(j as nat),
        decreases digits@.len() - j,
    {
        let d = digits[j];
        proof {
            assert(48 <= digits@[j as int] <= 57);
            assert(pow10((j + 1) as nat) == 10 * pow10(j as nat));
            assert(pow10(j as nat) <= 100_000_000) by {
                reveal_with_fuel(pow10, 10);
            }
            assert(value * 10 + 9 < 10 * pow10(j as nat)) by (nonlinear_arith)
                requires
                    value < pow10(j as nat),
            ;
            assert(digits@.subrange(0, j + 1).drop_last() =~= digits@.subrange(0, j as int));
        }
        value = value * 10 + (d - 48) as u32;
        j = j + 1;
    }
    proof {
        assert(digits@.subrange(0, j as int) =~= digits@);
    }
    value
}

/// Primary codewords of mode 2.
fn encode_primary_mode2(postcode: &[u8], country: u32, service: u32) -> (r: Vec<u8>)
    requires
        all_ascii_digits(postcode@),
        postcode@.len() <= 9,
    ensures
        r@ == spec_primary_mode2(postcode@, country, service),
        six_bit(r@),
{
    let pn = decimal_value(postcode);
    let len: u32 = postcode.len() as u32;
    let mut r: Vec<u8> = Vec::new();
    let c0 = (((pn & 0x03) << 4u32) | 2) as u8;
    let c1 = ((pn & 0xFC) >> 2u32) as u8;
    let c2 = ((pn & 0x3F00) >> 8u32) as u8;
    let c3 = ((pn & 0xFC000) >> 14u32) as u8;
    let c4 = ((pn & 0x3F00000) >> 20u32) as u8;
    let c5 = (((pn & 0x3C000000) >> 26u32) | ((len & 0x03) << 4u32)) as u8;
    let c6 = (((len & 0x3C) >> 2u32) | ((country & 0x03) << 4u32)) as u8;
    let c7 = ((country & 0xFC) >> 2u32) as u8;
    let c8 = (((country & 0x300) >> 8u32) | ((service & 0x0F) << 2u32)) as u8;
    let c9 = ((service & 0x3F0) >> 4u32) as u8;
    assert(c0 < 64 && c1 < 64 && c2 < 64 && c3 < 64 && c4 < 64 && c5 < 64 && c6 < 64 && c7 < 64
        && c8 < 64 && c9 < 64) by (bit_vector)
        requires
            c0 == (((pn & 0x03) << 4u32) | 2) as u8,
            c1 == ((pn & 0xFC) >> 2u32) as u8,
            c2 == ((pn & 0x3F00) >> 8u32) as u8,
            c3 == ((pn & 0xFC000) >> 14u32) as u8,
            c4 == ((pn & 0x3F00000) >> 20u32) as u8,
            c5 == (((pn & 0x3C000000) >> 26u32) | ((len & 0x03) << 4u32)) as u8,
            c6 == (((len & 0x3C) >> 2u32) | ((country & 0x03) << 4u32)) as u8,
            c7 == ((country & 0xFC) >> 2u32) as u8,
            c8 == (((country & 0x300) >> 8u32) | ((service & 0x0F) << 2u32)) as u8,
            c9 == ((service & 0x3F0) >> 4u32) as u8,
    ;
    r.push(c0);
    r.push(c1);
    r.push(c2);
    r.push(c3);
    r.push(c4);
    r.push(c5);
    r.push(c6);
    r.push(c7);
    r.push(c8);
    r.push(c9);
    assert(r@ =~= spec_primary_mode2(postcode@, country, service));
    r
}

/// Primary codewords of mode 3.
fn encode_primary_mode3(postcode6: &[u8], country: u32, service: u32) -> (r: Vec<u8>)
    requires
        postcode6@.len() == 6,
    ensures
        r@ == spec_primary_mode3(postcode6@, country, service),
        six_bit(r@),
{
    let mut pc: Vec<u8> = Vec::new();
    let mut i: usize = 0;
    while i < 6
        invariant
            i <= 6,
            postcode6@.len() == 6,
            pc@.len() == i,
            forall|k: int|
                0 <= k < i ==> #[trigger] pc@[k] == symbol_char(ascii_upper(postcode6@[k])) && pc@[k]
                    < 64,
        decreases 6 - i,
    {
        let ch = postcode6[i];
        let ch_up = if 97 <= ch && ch <= 122 {
            ch - 32
        } else {
            ch
        };
        pc.push(symbol_char_of(ch_up));
        i = i + 1;
    }
    let p0 = pc[0];
    let p1 = pc[1];
    let p2 = pc[2];
    let p3 = pc[3];
    let p4 = pc[4];
    let p5 = pc[5];
    let c0 = ((p5 & 0x03) << 4u8) | 3;
    let c1 = ((p4 & 0x03) << 4u8) | ((p5 & 0x3C) >> 2u8);
    let c2 = ((p3 & 0x03) << 4u8) | ((p4 & 0x3C) >> 2u8);
    let c3 = ((p2 & 0x03) << 4u8) | ((p3 & 0x3C) >> 2u8);
    let c4 = ((p1 & 0x03) << 4u8) | ((p2 & 0x3C) >> 2u8);
    let c5 = ((p0 & 0x03) << 4u8) | ((p1 & 0x3C) >> 2u8);
    let c6 = ((((p0 as u32) & 0x3C) >> 2u32) | ((country & 0x03) << 4u32)) as u8;
    let c7 = ((country & 0xFC) >> 2u32) as u8;
    let c8 = (((country & 0x300) >> 8u32) | ((service & 0x0F) << 2u32)) as u8;
    let c9 = ((service & 0x3F0) >> 4u32) as u8;
    assert(c0 < 64 && c1 < 64 && c2 < 64 && c3 < 64 && c4 < 64 && c5 < 64 && c6 < 64 && c7 < 64
        && c8 < 64 && c9 < 64) by (bit_vector)
        requires
            p0 < 64,
            c0 == ((p5 & 0x03) << 4u8) | 3,
            c1 == ((p4 & 0x03) << 4u8) | ((p5 & 0x3C) >> 2u8),
            c2 == ((p3 & 0x03) << 4u8) | ((p4 & 0x3C) >> 2u8),
            c3 == ((p2 & 0x03) << 4u8) | ((p3 & 0x3C) >> 2u8),
            c4 == ((p1 & 0x03) << 4u8) | ((p2 & 0x3C) >> 2u8),
            c5 == ((p0 & 0x03) << 4u8) | ((p1 & 0x3C) >> 2u8),
            c6 == ((((p0 as u32) & 0x3C) >> 2u32) | ((country & 0x03) << 4u32)) as u8,
            c7 == ((country & 0xFC) >> 2u32) as u8,
            c8 == (((country & 0x300) >> 8u32) | ((service & 0x0F) << 2u32)) as u8,
            c9 == ((service & 0x3F0) >> 4u32) as u8,
    ;
    let mut r: Vec<u8> = Vec::new();
    r.push(c0);
    r.push(c1);
    r.push(c2);
    r.push(c3);
    r.push(c4);
    r.push(c5);
    r.push(c6);
    r.push(c7);
    r.push(c8);
    r.push(c9);
    proof {
        let pcs = Seq::new(6, |k: int| symbol_char(ascii_upper(postcode6@[k])));
        assert(pc@ =~= pcs);
    }
    assert(r@ =~= spec_primary_mode3(postcode6@, country, service));
    r
}

/// The primary block with its ten check codewords at 10..20.
pub open spec fn spec_primary_ecc(c: Seq<u8>) -> Seq<u8> {
    c.subrange(0, 10) + spec_rs_check(c.subrange(0, 10), 10, spec_generator(10)) + c.subrange(
        20,
        c.len() as int,
    )
}

/// The even (`half == 0`) or odd (`half == 1`) secondary data codewords.
pub open spec fn secondary_half(c: Seq<u8>, half: int) -> Seq<u8> {
    Seq::new(42, |j: int| c[20 + 2 * j + half])
}

/// The secondary block with its forty check codewords at 104..144,
/// interleaved between the even and the odd halves.
pub open spec fn spec_secondary_ecc(c: Seq<u8>) -> Seq<u8> {
    let ee = spec_rs_check(secondary_half(c, 0), 20, spec_generator(20));
    let eo = spec_rs_check(secondary_half(c, 1), 20, spec_generator(20));
    Seq::new(
        144,
        |i: int|
            if i < 104 {
                c[i]
            } else if (i - 104) % 2 == 0 {
                ee[(i - 104) / 2]
            } else {
                eo[(i - 104) / 2]
            },
    )
}

/// The 144 codewords of a symbol whose 94 data codewords are `d`: ten
/// primary codewords, their check codewords, 84 secondary codewords and
/// their check codewords.
pub open spec fn spec_symbol(d: Seq<u8>) -> Seq<u8> {
    spec_secondary_ecc(
        spec_primary_ecc(
            d.subrange(0, 10) + Seq::new(10, |i: int| 0u8) + d.subrange(10, 94) + Seq::new(
                40,
                |i: int| 0u8,
            ),
        ),
    )
}

/// Fills codewords 10..20 with the check codewords of 0..10.
fn apply_primary_ecc(codewords: &mut Vec<u8>)
    requires
        old(codewords)@.len() == 144,
        six_bit(old(codewords)@),
    ensures
        final(codewords)@ == spec_primary_ecc(old(codewords)@),
        final(codewords)@.len() == 144,
        six_bit(final(codewords)@),
{
    let generator = rs_build_generator(10);
    let mut data: Vec<u8> = Vec::new();
    let mut j: usize = 0;
    while j < 10
        invariant
            j <= 10,
            codewords@.len() == 144,
            data@ =~= codewords@.subrange(0, j as int),
        decreases 10 - j,
    {
        data.push(codewords[j]);
        j = j + 1;
    }
    proof {
        assert forall|k: int| 0 <= k < data@.len() implies #[trigger] data@[k] < 64 by {
            assert(data@[k] == codewords@[k]);
        }
    }
    let ec = rs_encode(data.as_slice(), 10, generator.as_slice());
    let ghost before = codewords@;
    let mut j: usize = 0;
    while j < 10
        invariant
            j <= 10,
            ec@.len() == 10,
            codewords@.len() == 144,
            forall|k: int| 0 <= k < 144 && !(10 <= k < 10 + j) ==> codewords@[k] == before[k],
            forall|k: int| 0 <= k < j ==> codewords@[10 + k] == ec@[k],
        decreases 10 - j,
    {
        codewords.set(10 + j, ec[j]);
        j = j + 1;
    }
    proof {
        assert(codewords@ =~= spec_primary_ecc(before));
        assert forall|k: int| 0 <= k < codewords@.len() implies #[trigger] codewords@[k] < 64 by {
            if 10 <= k < 20 {
                assert(codewords@[k] == ec@[k - 10]);
            } else {
                assert(codewords@[k] == before[k]);
            }
        }
    }
}

/// The check codewords of one secondary half.
fn secondary_check(codewords: &Vec<u8>, half: usize, generator: &Vec<u8>) -> (ec: Vec<u8>)
    requires
        codewords@.len() == 144,
        six_bit(codewords@),
        half < 2,
        generator@ == spec_generator(20),
        generator@.len() == 21,
        six_bit(generator@),
    ensures
        ec@ == spec_rs_check(secondary_half(codewords@, half as int), 20, spec_generator(20)),
        ec@.len() == 20,
        six_bit(ec@),
{
    let mut data: Vec<u8> = Vec::new();
    let mut j: usize = 0;
    while j < 42
        invariant
            j <= 42,
            half < 2,
            codewords@.len() == 144,
            six_bit(codewords@),
            data@.len() == j,
            forall|k: int| 0 <= k < j ==> #[trigger] data@[k] == codewords@[20 + 2 * k + half],
            six_bit(data@),
        decreases 42 - j,
    {
        data.push(codewords[20 + j * 2 + half]);
        j = j + 1;
    }
    proof {
        assert(data@ =~= secondary_half(codewords@, half as int));
    }
    rs_encode(data.as_slice(), 20, generator.as_slice())
}

/// Fills codewords 104..144 with the interleaved check codewords of the
/// even and odd secondary halves.
fn apply_secondary_ecc(codewords: &mut Vec<u8>)
    requires
        old(codewords)@.len() == 144,
        six_bit(old(codewords)@),
    ensures
        final(codewords)@ == spec_secondary_ecc(old(codewords)@),
        six_bit(final(codewords)@),
{
    let generator = rs_build_generator(20);
    let ec_even = secondary_check(codewords, 0, &generator);
    let ec_odd = secondary_check(codewords, 1, &generator);
    let ghost before = codewords@;
    let mut j: usize = 0;
    while j < 20
        invariant
            j <= 20,
            ec_even@.len() == 20,
            ec_odd@.len() == 20,
            codewords@.len() == 144,
            forall|k: int| 0 <= k < 104 ==> codewords@[k] == before[k],
            forall|k: int| 0 <= k < 2 * j ==> #[trigger] codewords@[104 + k] == if k % 2 == 0 {
                ec_even@[k / 2]
            } else {
                ec_odd@[k / 2]
            },
        decreases 20 - j,
    {
        codewords.set(104 + j * 2, ec_even[j]);
        codewords.set(105 + j * 2, ec_odd[j]);
        j = j + 1;
    }
    proof {
        assert forall|i: int| 0 <= i < 144 implies #[trigger] codewords@[i] == spec_secondary_ecc(
            before,
        )[i] by {
            if i >= 104 {
                assert(codewords@[104 + (i - 104)] == codewords@[i]);
            }
        }
        assert(codewords@ =~= spec_secondary_ecc(before));
        assert forall|k: int| 0 <= k < codewords@.len() implies #[trigger] codewords@[k] < 64 by {
            if k >= 104 {
                assert(codewords@[104 + (k - 104)] == codewords@[k]);
                if (k - 104) % 2 == 0 {
                    assert(ec_even@[(k - 104) / 2] < 64);
                } else {
                    assert(ec_odd@[(k - 104) / 2] < 64);
                }
            }
        }
    }
}

// ---------------------------------------------------------------------------
// The public encoder
// ---------------------------------------------------------------------------

/// Position of the first `[)>` at or after `i`, or the length of `s`.
pub open spec fn find_from(s: Seq<char>, i: int) -> int
    decreases s.len() - i,
{
    if i < 0 || i + 3 > s.len() {
        s.len() as int
    } else if s[i] == '[' && s[i + 1] == ')' && s[i + 2] == '>' {
        i
    } else {
        find_from(s, i + 1)
    }
}

/// Every character of `s` is at most U+00FF.
pub open spec fn is_latin1(s: Seq<char>) -> bool {
    forall|i: int| 0 <= i < s.len() ==> (#[trigger] s[i] as u32) <= 0xFF
}

/// The bytes of the ISO 8859-1 characters `s`.
pub open spec fn latin1(s: Seq<char>) -> Seq<u8> {
    Seq::new(s.len(), |i: int| (s[i] as u32) as u8)
}

/// The code point of the first character of `s` above U+00FF, or 0.
pub open spec fn first_non_latin1(s: Seq<char>) -> u32
    decreases s.len(),
{
    if s.len() == 0 {
        0
    } else if (s[0] as u32) > 0xFF {
        s[0] as u32
    } else {
        first_non_latin1(s.drop_first())
    }
}

pub open spec fn latin1_error(code: u32) -> Seq<char> {
    "MaxiCode cannot encode character U+"@ + hex_padded(code as nat, 4)
}

pub open spec fn all_digit_chars(s: Seq<char>) -> bool {
    forall|i: int| 0 <= i < s.len() ==> is_digit(#[trigger] s[i])
}

/// Characters `lo..hi` of `p` exist and are ASCII digits.
pub open spec fn digits_at(p: Seq<char>, lo: int, hi: int) -> bool {
    p.len() >= hi && all_digit_chars(p.subrange(lo, hi))
}

pub open spec fn is_alnum_or_space(c: char) -> bool {
    ('0' <= c <= '9') || ('a' <= c <= 'z') || ('A' <= c <= 'Z') || c == ' '
}

pub open spec fn empty_error() -> Seq<char> {
    "MaxiCode: empty content"@
}

pub open spec fn short_primary_error(mode: i32, len: nat) -> Seq<char> {
    "MaxiCode mode "@ + signed_decimal(mode as int) + ": primary too short ("@ + decimal_digits(len)
        + " chars, need >=7)"@
}

pub open spec fn service_error() -> Seq<char> {
    "MaxiCode service class must contain 3 digits"@
}

pub open spec fn country_error() -> Seq<char> {
    "MaxiCode country code must contain 3 digits"@
}

pub open spec fn mode2_postal_error() -> Seq<char> {
    "MaxiCode mode 2 postal code must contain 1 to 9 digits"@
}

pub open spec fn mode3_postal_error() -> Seq<char> {
    "MaxiCode mode 3 postal code must contain exactly 6 alphanumeric characters"@
}

pub open spec fn mode_error(mode: i32) -> Seq<char> {
    "MaxiCode mode "@ + signed_decimal(mode as int) + " is not supported; expected 2, 3, or 4"@
}

/// What the content `data` of a mode-`mode` symbol asks for: the codewords
/// that precede the message (the ten primary codewords in modes 2 and 3,
/// the mode codeword in mode 4), the message characters and the number of
/// codewords the message gets; or the error the content is refused with.
pub open spec fn codeword_plan(data: Seq<char>, mode: i32) -> Result<
    (Seq<u8>, Seq<char>, int),
    Seq<char>,
> {
    if data.len() == 0 {
        Err(empty_error())
    } else if mode == 2 || mode == 3 {
        let split = find_from(data, 0);
        let p = data.subrange(0, split);
        let sec = data.subrange(split, data.len() as int);
        if utf8_len(p) < 7 {
            Err(short_primary_error(mode, utf8_len(p)))
        } else if !digits_at(p, 0, 3) {
            Err(service_error())
        } else if !digits_at(p, 3, 6) {
            Err(country_error())
        } else {
            let service = spec_decimal(latin1(p.subrange(0, 3))) as u32;
            let country = spec_decimal(latin1(p.subrange(3, 6))) as u32;
            let postal = p.subrange(6, p.len() as int);
            if mode == 2 {
                if postal.len() == 0 || postal.len() > 9 || !all_digit_chars(postal) {
                    Err(mode2_postal_error())
                } else {
                    Ok((spec_primary_mode2(latin1(postal), country, service), sec, 84))
                }
            } else {
                if postal.len() != 6 || !(forall|i: int|
                    0 <= i < 6 ==> is_alnum_or_space(#[trigger] postal[i])) {
                    Err(mode3_postal_error())
                } else {
                    Ok((spec_primary_mode3(latin1(postal), country, service), sec, 84))
                }
            }
        }
    } else if mode == 4 {
        Ok((seq![4u8], data, 93))
    } else {
        Err(mode_error(mode))
    }
}

/// The ISO 8859-1 bytes of `data`, or the error for its first character
/// above U+00FF.
pub fn latin1_bytes(data: &[char]) -> (r: Result<Vec<u8>, String>)
    ensures
        r is Ok <==> is_latin1(data@),
        r matches Ok(b) ==> b@ == latin1(data@),
        r matches Err(e) ==> e@ == latin1_error(first_non_latin1(data@)),
{
    let mut out: Vec<u8> = Vec::new();
    let mut i: usize = 0;
    proof {
        assert(data@.subrange(0, data@.len() as int) =~= data@);
    }
    while i < data.len()
        invariant
            i <= data@.len(),
            out@ == latin1(data@.subrange(0, i as int)),
            is_latin1(data@.subrange(0, i as int)),
            first_non_latin1(data@) == first_non_latin1(data@.subrange(i as int, data@.len() as int)),
        decreases data@.len() - i,
    {
        let c = data[i];
        let code = c as u32;
        if code > 0xFF {
            let mut v: Vec<char> = Vec::new();
            crate::text::push_str(&mut v, "MaxiCode cannot encode character U+");
            let d = hex_padded_chars(code, 4);
            append_all(&mut v, d.as_slice());
            proof {
                assert(data@.subrange(i as int, data@.len() as int)[0] == c);
            }
            return Err(string_of(v.as_slice()));
        }
        out.push(code as u8);
        proof {
            assert(data@.subrange(i as int, data@.len() as int).drop_first() =~= data@.subrange(
                i + 1,
                data@.len() as int,
            ));
            assert(out@ =~= latin1(data@.subrange(0, i + 1)));
            assert forall|k: int| 0 <= k < i + 1 implies (#[trigger] data@.subrange(0, i + 1)[k] as u32)
                <= 0xFF by {
                if k < i {
                    assert(data@.subrange(0, i + 1)[k] == data@.subrange(0, i as int)[k]);
                }
            }
        }
        i = i + 1;
    }
    proof {
        assert(data@.subrange(0, i as int) =~= data@);
    }
    Ok(out)
}

/// Position of the first `[)>` in `s`, or its length.
fn find_secondary(s: &Vec<char>) -> (r: usize)
    ensures
        r == find_from(s@, 0),
{
    let mut i: usize = 0;
    while i < s.len() && s.len() - i >= 3
        invariant
            i <= s@.len(),
            find_from(s@, 0) == find_from(s@, i as int),
        decreases s@.len() - i,
    {
        if s[i] == '[' && s[i + 1] == ')' && s[i + 2] == '>' {
            return i;
        }
        i = i + 1;
    }
    s.len()
}

/// The low bytes of characters `lo..hi` of `v`.
fn latin1_range(v: &Vec<char>, lo: usize, hi: usize) -> (r: Vec<u8>)
    requires
        lo <= hi <= v@.len(),
    ensures
        r@ == latin1(v@.subrange(lo as int, hi as int)),
{
    let mut r: Vec<u8> = Vec::new();
    let mut i: usize = lo;
    while i < hi
        invariant
            lo <= i <= hi,
            hi <= v@.len(),
            r@ =~= latin1(v@.subrange(lo as int, i as int)),
        decreases hi - i,
    {
        #[verifier::truncate]
        let b = (v[i] as u32) as u8;
        r.push(b);
        i = i + 1;
    }
    r
}

/// Characters `lo..hi` of `v`.
fn char_range(v: &Vec<char>, lo: usize, hi: usize) -> (r: Vec<char>)
    requires
        lo <= hi <= v@.len(),
    ensures
        r@ == v@.subrange(lo as int, hi as int),
{
    let mut r: Vec<char> = Vec::new();
    let mut i: usize = lo;
    while i < hi
        invariant
            lo <= i <= hi,
            hi <= v@.len(),
            r@ =~= v@.subrange(lo as int, i as int),
        decreases hi - i,
    {
        r.push(v[i]);
        i = i + 1;
    }
    r
}

/// Characters `lo..hi` of `v` exist and are ASCII digits.
fn digits_in(v: &Vec<char>, lo: usize, hi: usize) -> (r: bool)
    requires
        lo <= hi,
    ensures
        r == digits_at(v@, lo as int, hi as int),
{
    if v.len() < hi {
        return false;
    }
    let mut i: usize = lo;
    while i < hi
        invariant
            lo <= i <= hi,
            hi <= v@.len(),
            all_digit_chars(v@.subrange(lo as int, i as int)),
        decreases hi - i,
    {
        if !crate::text::is_digit_char(v[i]) {
            proof {
                assert(v@.subrange(lo as int, hi as int)[i - lo] == v@[i as int]);
            }
            return false;
        }
        proof {
            assert forall|k: int| 0 <= k < i + 1 - lo implies is_digit(
                #[trigger] v@.subrange(lo as int, i + 1)[k],
            ) by {
                if k < i - lo {
                    assert(v@.subrange(lo as int, i + 1)[k] == v@.subrange(lo as int, i as int)[k]);
                }
            }
        }
        i = i + 1;
    }
    true
}

pub proof fn lemma_digit_chars_bytes(s: Seq<char>)
    requires
        all_digit_chars(s),
    ensures
        all_ascii_digits(latin1(s)),
        latin1(s).len() == s.len(),
{
    assert forall|j: int| 0 <= j < latin1(s).len() implies 48 <= #[trigger] latin1(s)[j] <= 57 by {
        assert(is_digit(s[j]));
        let u: u32 = s[j] as u32;
        assert(48 <= u <= 57);
        assert((u as u8) == u) by (bit_vector)
            requires
                48 <= u <= 57,
        ;
    }
}

/// Splits the content of a mode-`mode` symbol as `codeword_plan` does.
fn plan_symbol(chars: &Vec<char>, mode: i32) -> (r: Result<(Vec<u8>, Vec<char>, usize), String>)
    requires
        chars@.len() > 0,
    ensures
        match codeword_plan(chars@, mode) {
            Ok(p) => r matches Ok(x) && x.0@ == p.0 && x.1@ == p.1 && x.2 == p.2,
            Err(e) => r matches Err(x) && x@ == e,
        },
        r matches Ok(x) ==> (x.2 == 84 || x.2 == 93) && x.0@.len() + x.2 == 94 && six_bit(x.0@),
{
    if mode == 2 || mode == 3 {
        let split = find_secondary(chars);
        let ghost pc = chars@.subrange(0, split as int);
        proof {
            assert(split <= chars@.len()) by {
                lemma_find_from_bounds(chars@, 0);
            }
        }
        let primary = char_range(chars, 0, split);
        let secondary = char_range(chars, split, chars.len());
        match crate::text::utf8_len_below(primary.as_slice(), 7) {
            Some(n) => {
                let mut v: Vec<char> = Vec::new();
                crate::text::push_str(&mut v, "MaxiCode mode ");
                let m = crate::text::signed_decimal_chars(mode);
                append_all(&mut v, m.as_slice());
                crate::text::push_str(&mut v, ": primary too short (");
                let d = decimal_chars(n as u64);
                append_all(&mut v, d.as_slice());
                crate::text::push_str(&mut v, " chars, need >=7)");
                return Err(string_of(v.as_slice()));
            },
            None => {},
        }
        if !digits_in(&primary, 0, 3) {
            return Err("MaxiCode service class must contain 3 digits".to_owned());
        }
        if !digits_in(&primary, 3, 6) {
            return Err("MaxiCode country code must contain 3 digits".to_owned());
        }
        let sb = latin1_range(&primary, 0, 3);
        let cb = latin1_range(&primary, 3, 6);
        proof {
            lemma_digit_chars_bytes(pc.subrange(0, 3));
            lemma_digit_chars_bytes(pc.subrange(3, 6));
            assert(primary@.subrange(0, 3) =~= pc.subrange(0, 3));
        }
        let service = decimal_value(sb.as_slice());
        let country = decimal_value(cb.as_slice());
        let plen = primary.len();
        let postal = latin1_range(&primary, 6, plen);
        let ghost postal_chars = pc.subrange(6, pc.len() as int);
        if mode == 2 {
            let ok = plen - 6 >= 1 && plen - 6 <= 9 && digits_in(&primary, 6, plen);
            if !ok {
                return Err("MaxiCode mode 2 postal code must contain 1 to 9 digits".to_owned());
            }
            proof {
                lemma_digit_chars_bytes(postal_chars);
            }
            let pre = encode_primary_mode2(postal.as_slice(), country, service);
            Ok((pre, secondary, 84))
        } else {
            let mut ok = plen == 12;
            let mut i: usize = 6;
            while ok && i < plen
                invariant
                    6 <= i <= plen,
                    plen == primary@.len(),
                    primary@ == pc,
                    ok ==> plen == 12,
                    ok ==> forall|k: int| 6 <= k < i ==> is_alnum_or_space(#[trigger] pc[k]),
                    !ok ==> !(pc.len() == 12 && forall|k: int|
                        6 <= k < 12 ==> is_alnum_or_space(#[trigger] pc[k])),
                decreases plen - i,
            {
                let c = primary[i];
                if !(('0' <= c && c <= '9') || ('a' <= c && c <= 'z') || ('A' <= c && c <= 'Z') || c
                    == ' ') {
                    ok = false;
                }
                i = i + 1;
            }
            proof {
                if ok {
                    assert forall|k: int| 0 <= k < 6 implies is_alnum_or_space(
                        #[trigger] postal_chars[k],
                    ) by {
                        assert(postal_chars[k] == pc[k + 6]);
                    }
                } else {
                    if postal_chars.len() == 6 && forall|k: int|
                        0 <= k < 6 ==> is_alnum_or_space(#[trigger] postal_chars[k]) {
                        assert forall|k: int| 6 <= k < 12 implies is_alnum_or_space(
                            #[trigger] pc[k],
                        ) by {
                            assert(postal_chars[k - 6] == pc[k]);
                        }
                    }
                }
            }
            if !ok {
                return Err(
                    "MaxiCode mode 3 postal code must contain exactly 6 alphanumeric characters".to_owned(),
                );
            }
            let pre = encode_primary_mode3(postal.as_slice(), country, service);
            Ok((pre, secondary, 84))
        }
    } else if mode == 4 {
        let mut pre: Vec<u8> = Vec::new();
        pre.push(4);
        let all = char_range(chars, 0, chars.len());
        proof {
            assert(pre@ =~= seq![4u8]);
        }
        Ok((pre, all, 93))
    } else {
        let mut v: Vec<char> = Vec::new();
        crate::text::push_str(&mut v, "MaxiCode mode ");
        let m = crate::text::signed_decimal_chars(mode);
        append_all(&mut v, m.as_slice());
        crate::text::push_str(&mut v, " is not supported; expected 2, 3, or 4");
        Err(string_of(v.as_slice()))
    }
}

pub proof fn lemma_find_from_bounds(s: Seq<char>, i: int)
    requires
        0 <= i,
    ensures
        i <= find_from(s, i) <= s.len() || find_from(s, i) == s.len(),
        0 <= find_from(s, i) <= s.len(),
    decreases s.len() - i,
{
    if i + 3 <= s.len() && !(s[i] == '[' && s[i + 1] == ')' && s[i + 2] == '>') {
        lemma_find_from_bounds(s, i + 1);
    }
}

/// Encodes a MaxiCode symbol into its 144 six-bit codewords.
///
/// `data` is the field content and `mode` the symbol mode (2, 3 or 4). In
/// modes 2 and 3 the content is `{service(3)}{country(3)}{postal}` followed
/// by the secondary message from `[)>` on; in mode 4 the whole content is
/// the message.
pub fn encode_codewords(data: &str, mode: i32) -> (r: Result<Vec<u8>, String>)
    ensures
        match codeword_plan(data@, mode) {
            Err(e) => r matches Err(x) && x@ == e,
            Ok(plan) => if !is_latin1(plan.1) {
                r matches Err(x) && x@ == latin1_error(first_non_latin1(plan.1))
            } else {
                &&& (r is Ok <==> message_fits(latin1(plan.1), plan.2))
                &&& (r matches Ok(cw) ==> exists|m: Seq<u8>, end: int|
                    #[trigger] is_chosen_text_encoding(latin1(plan.1), m, end) && search_result(
                        latin1(plan.1),
                        end,
                    ) == Some(m) && m.len() <= plan.2 && cw@ == spec_symbol(
                        plan.0 + spec_finish(m, end, plan.2),
                    ))
                &&& (r matches Err(x) ==> x@ == message_error(latin1(plan.1), plan.2))
            },
        },
        r matches Ok(cw) ==> cw@.len() == 144 && six_bit(cw@),
{
    let chars = chars_of(data);
    if chars.len() == 0 {
        return Err("MaxiCode: empty content".to_owned());
    }
    let (prefix, message, slots) = match plan_symbol(&chars, mode) {
        Ok(p) => p,
        Err(e) => {
            return Err(e);
        },
    };
    let bytes = match latin1_bytes(message.as_slice()) {
        Ok(b) => b,
        Err(e) => {
            return Err(e);
        },
    };
    let msg = match encode_message(bytes.as_slice(), slots) {
        Ok(m) => m,
        Err(e) => {
            return Err(e);
        },
    };
    let ghost d = prefix@ + msg@;
    let mut cw: Vec<u8> = Vec::new();
    let mut i: usize = 0;
    while i < 144
        invariant
            i <= 144,
            prefix@.len() + msg@.len() == 94,
            d == prefix@ + msg@,
            six_bit(prefix@),
            six_bit(msg@),
            cw@.len() == i,
            forall|k: int|
                0 <= k < i ==> #[trigger] cw@[k] == if k < 10 {
                    d[k]
                } else if k < 20 {
                    0u8
                } else if k < 104 {
                    d[k - 10]
                } else {
                    0u8
                },
            six_bit(cw@),
        decreases 144 - i,
    {
        let v: u8 = if i < 10 || (20 <= i && i < 104) {
            let j = if i < 10 {
                i
            } else {
                i - 10
            };
            if j < prefix.len() {
                prefix[j]
            } else {
                msg[j - prefix.len()]
            }
        } else {
            0
        };
        cw.push(v);
        i = i + 1;
    }
    proof {
        let zs = d.subrange(0, 10) + Seq::new(10, |i: int| 0u8) + d.subrange(10, 94) + Seq::new(
            40,
            |i: int| 0u8,
        );
        assert(cw@ =~= zs);
    }
    apply_primary_ecc(&mut cw);
    apply_secondary_ecc(&mut cw);
    Ok(cw)
}

} // verus!

verus! {

/// Whether the module at (`row`, `col`) of the 33 by 30 hexagon grid is
/// dark: always for the orientation marks, else the bit of the codewords
/// the cell carries (most significant bit of each codeword first).
pub open spec fn module_dark(cw: Seq<u8>, row: int, col: int) -> bool {
    let b = super::maxicode_tables::bit_number(row, col) as int;
    b == -2 || (0 <= b < 864 && (cw[b / 6] >> ((5 - b % 6) as u8)) & 1u8 != 0u8)
}

/// The dark modules among the first `c` columns of row `row`.
pub open spec fn row_dark_modules(cw: Seq<u8>, row: int, c: int) -> Seq<(u32, u32)>
    decreases c,
{
    if c <= 0 {
        Seq::empty()
    } else {
        let prev = row_dark_modules(cw, row, c - 1);
        if module_dark(cw, row, c - 1) {
            prev.push((row as u32, (c - 1) as u32))
        } else {
            prev
        }
    }
}

/// The dark modules of the first `r` rows, row by row.
pub open spec fn dark_modules_upto(cw: Seq<u8>, r: int) -> Seq<(u32, u32)>
    decreases r,
{
    if r <= 0 {
        Seq::empty()
    } else {
        dark_modules_upto(cw, r - 1) + row_dark_modules(cw, r - 1, 30)
    }
}

/// The dark modules of a symbol, as (row, column) of the hexagon grid, row
/// by row; a drawing places row `r`, column `c` at ((c + 0.5 + r mod 2 / 2)
/// * 200 / 30, (r + 0.5) * 193 / 33) in a 200 by 193 reference square.
pub fn dark_modules(codewords: &Vec<u8>) -> (out: Vec<(u32, u32)>)
    requires
        codewords@.len() == 144,
    ensures
        out@ == dark_modules_upto(codewords@, 33),
{
    let mut out: Vec<(u32, u32)> = Vec::new();
    let mut row: usize = 0;
    while row < 33
        invariant
            row <= 33,
            codewords@.len() == 144,
            out@ == dark_modules_upto(codewords@, row as int),
        decreases 33 - row,
    {
        let ghost before = out@;
        let mut col: usize = 0;
        while col < 30
            invariant
                row < 33,
                col <= 30,
                codewords@.len() == 144,
                out@ == before + row_dark_modules(codewords@, row as int, col as int),
            decreases 30 - col,
        {
            let b = super::maxicode_tables::bit_number_of(row, col);
            let dark = if b == -2 {
                true
            } else if 0 <= b && b < 864 {
                let bi = b as usize;
                let w: u8 = codewords[bi / 6];
                (w >> ((5 - bi % 6) as u8)) & 1u8 != 0u8
            } else {
                false
            };
            proof {
                assert(dark == module_dark(codewords@, row as int, col as int));
            }
            if dark {
                out.push((row as u32, col as u32));
            }
            proof {
                assert(out@ =~= before + row_dark_modules(codewords@, row as int, col + 1));
            }
            col = col + 1;
        }
        row = row + 1;
    }
    out
}


} // verus!

verus! {

/// Reverse printing (`^FR`) of a MaxiCode field is refused with
/// `MAXICODE_REVERSE_UNSUPPORTED`; a field without it may be drawn.
pub fn check_maxicode_reverse(reverse_print: bool) -> (r: Result<(), ZplError>)
    ensures
        !reverse_print ==> r is Ok,
        reverse_print ==> (r matches Err(ZplError::BackendError(m)) && m@
            == "MAXICODE_REVERSE_UNSUPPORTED"@),
{
    if reverse_print {
        Err(ZplError::BackendError("MAXICODE_REVERSE_UNSUPPORTED".to_owned()))
    } else {
        Ok(())
    }
}

} // verus!
