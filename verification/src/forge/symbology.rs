//! Native encoders for symbologies the barcode library does not write
//! (MSI, POSTNET), and the run-length form of encoded 1-D rows.

use vstd::prelude::*;
use crate::text::{is_digit, string_of};

verus! {

/// One element of a 1-D barcode: a bar or a space of a width in dots.
#[derive(Debug, Clone, Copy, PartialEq, Eq, Structural)]
pub struct Element {
    /// `true` for a bar, `false` for a space.
    pub bar: bool,
    /// Width in dots.
    pub width: u32,
}

/// Relative height of a POSTNET bar.
#[derive(Debug, Clone, Copy, PartialEq, Eq, Structural)]
pub enum BarHeight {
    /// Full-height bar (a binary 1).
    Full,
    /// Half-height, bottom-aligned bar (a binary 0).
    Half,
}

/// POSTNET bar patterns of the digits: two full bars out of five.
pub const POSTNET_DIGITS: [[u8; 5]; 10] = [
    [1, 1, 0, 0, 0],
    [0, 0, 0, 1, 1],
    [0, 0, 1, 0, 1],
    [0, 0, 1, 1, 0],
    [0, 1, 0, 0, 1],
    [0, 1, 0, 1, 0],
    [0, 1, 1, 0, 0],
    [1, 0, 0, 0, 1],
    [1, 0, 0, 1, 0],
    [1, 0, 1, 0, 0],
];

/// The values of the ASCII digits of `s`, in order; other characters are
/// skipped.
pub open spec fn digit_values(s: Seq<char>) -> Seq<u8>
    decreases s.len(),
{
    if s.len() == 0 {
        Seq::empty()
    } else if is_digit(s.last()) {
        digit_values(s.drop_last()).push(((s.last() as u32) - 48) as u8)
    } else {
        digit_values(s.drop_last())
    }
}

pub open spec fn digit_sum(d: Seq<u8>) -> nat
    decreases d.len(),
{
    if d.len() == 0 {
        0
    } else {
        digit_sum(d.drop_last()) + d.last() as nat
    }
}

/// The bar heights of digit `d` (`d < 10`).
pub open spec fn postnet_digit(d: u8) -> Seq<BarHeight> {
    Seq::new(
        5,
        |k: int|
            if POSTNET_DIGITS@[d as int]@[k] == 1 {
                BarHeight::Full
            } else {
                BarHeight::Half
            },
    )
}

pub open spec fn postnet_digits(d: Seq<u8>) -> Seq<BarHeight>
    decreases d.len(),
{
    if d.len() == 0 {
        Seq::empty()
    } else {
        postnet_digits(d.drop_last()) + postnet_digit(d.last())
    }
}

/// The POSTNET correction digit: brings the digit sum to a multiple of 10.
pub open spec fn postnet_check(d: Seq<u8>) -> u8 {
    ((10 - digit_sum(d) % 10) % 10) as u8
}

/// The POSTNET bars of `data`: a full frame bar, the digits of `data`
/// (other characters skipped) and their correction digit, a full frame bar.
pub open spec fn spec_postnet_bars(data: Seq<char>) -> Seq<BarHeight> {
    let d = digit_values(data);
    seq![BarHeight::Full] + postnet_digits(d.push(postnet_check(d))) + seq![BarHeight::Full]
}

/// POSTNET: the correction digit brings the digit sum to a multiple of 10.
pub proof fn law_postnet_check_completes_ten(d: Seq<u8>)
    ensures
        postnet_check(d) < 10,
        (digit_sum(d) + postnet_check(d)) % 10 == 0,
{
}

pub proof fn lemma_postnet_digits_len(d: Seq<u8>)
    ensures
        postnet_digits(d).len() == 5 * d.len(),
    decreases d.len(),
{
    if d.len() > 0 {
        lemma_postnet_digits_len(d.drop_last());
    }
}

/// POSTNET: a symbol is a frame bar, five bars per digit and for the
/// correction digit, and a frame bar; both frame bars are full.
pub proof fn law_postnet_shape(data: Seq<char>)
    ensures
        spec_postnet_bars(data).len() == 5 * (digit_values(data).len() + 1) + 2,
        spec_postnet_bars(data)[0] == BarHeight::Full,
        spec_postnet_bars(data)[spec_postnet_bars(data).len() - 1] == BarHeight::Full,
{
    let d = digit_values(data);
    lemma_postnet_digits_len(d.push(postnet_check(d)));
}

pub proof fn lemma_digit_values_small(s: Seq<char>)
    ensures
        forall|i: int| 0 <= i < digit_values(s).len() ==> #[trigger] digit_values(s)[i] < 10,
        digit_values(s).len() <= s.len(),
    decreases s.len(),
{
    if s.len() > 0 {
        lemma_digit_values_small(s.drop_last());
    }
}

/// The values of the ASCII digits of `data`.
pub fn digits_of(data: &str) -> (d: Vec<u8>)
    ensures
        d@ == digit_values(data@),
        forall|i: int| 0 <= i < d@.len() ==> #[trigger] d@[i] < 10,
        d@.len() <= data@.len(),
{
    let c = crate::text::chars_of(data);
    let mut d: Vec<u8> = Vec::new();
    let mut i: usize = 0;
    proof {
        assert(c@.subrange(0, 0) =~= Seq::<char>::empty());
    }
    while i < c.len()
        invariant
            i <= c@.len(),
            c@ == data@,
            d@ == digit_values(c@.subrange(0, i as int)),
        decreases c@.len() - i,
    {
        proof {
            assert(c@.subrange(0, i + 1).drop_last() =~= c@.subrange(0, i as int));
        }
        if crate::text::is_digit_char(c[i]) {
            d.push(((c[i] as u32) - 48) as u8);
        }
        i = i + 1;
    }
    proof {
        assert(c@.subrange(0, i as int) =~= c@);
        lemma_digit_values_small(data@);
    }
    d
}

/// Encodes `data` as POSTNET bar heights.
pub fn postnet_bars(data: &str) -> (bars: Vec<BarHeight>)
    ensures
        bars@ == spec_postnet_bars(data@),
{
    let mut digits = digits_of(data);
    let mut sum: u128 = 0;
    let mut i: usize = 0;
    proof {
        assert(digits@.subrange(0, 0) =~= Seq::<u8>::empty());
    }
    while i < digits.len()
        invariant
            i <= digits@.len(),
            forall|k: int| 0 <= k < digits@.len() ==> #[trigger] digits@[k] < 10,
            sum == digit_sum(digits@.subrange(0, i as int)),
            sum <= 9 * i,
        decreases digits@.len() - i,
    {
        proof {
            assert(digits@.subrange(0, i + 1).drop_last() =~= digits@.subrange(0, i as int));
        }
        sum = sum + digits[i] as u128;
        i = i + 1;
    }
    proof {
        assert(digits@.subrange(0, i as int) =~= digits@);
    }
    let check: u8 = ((10 - sum % 10) % 10) as u8;
    let ghost base = digits@;
    digits.push(check);
    let mut bars: Vec<BarHeight> = Vec::new();
    bars.push(BarHeight::Full);
    let mut j: usize = 0;
    proof {
        assert(digits@.subrange(0, 0) =~= Seq::<u8>::empty());
        assert(bars@ =~= seq![BarHeight::Full] + postnet_digits(digits@.subrange(0, 0)));
    }
    while j < digits.len()
        invariant
            j <= digits@.len(),
            forall|k: int| 0 <= k < digits@.len() ==> #[trigger] digits@[k] < 10,
            bars@ == seq![BarHeight::Full] + postnet_digits(digits@.subrange(0, j as int)),
        decreases digits@.len() - j,
    {
        let d = digits[j];
        let pattern: [u8; 5] = POSTNET_DIGITS[d as usize];
        let ghost b0 = bars@;
        let mut k: usize = 0;
        while k < 5
            invariant
                k <= 5,
                d < 10,
                pattern@ == POSTNET_DIGITS@[d as int]@,
                bars@ == b0 + postnet_digit(d).subrange(0, k as int),
            decreases 5 - k,
        {
            bars.push(if pattern[k] == 1 {
                BarHeight::Full
            } else {
                BarHeight::Half
            });
            proof {
                assert(postnet_digit(d).subrange(0, k + 1) =~= postnet_digit(d).subrange(0, k as int).push(
                    postnet_digit(d)[k as int],
                ));
            }
            k = k + 1;
        }
        proof {
            assert(digits@.subrange(0, j + 1).drop_last() =~= digits@.subrange(0, j as int));
            assert(postnet_digit(d).subrange(0, 5) =~= postnet_digit(d));
            assert(bars@ =~= seq![BarHeight::Full] + postnet_digits(digits@.subrange(0, j + 1)));
        }
        j = j + 1;
    }
    bars.push(BarHeight::Full);
    proof {
        assert(digits@.subrange(0, j as int) =~= digits@);
        assert(digits@ == base.push(postnet_check(base)));
    }
    bars
}

/// POSTNET pitch from the bar width: `round(2.4 * bar)` dots, at most the
/// largest `u32`.
pub open spec fn postnet_pitch_dots(bar: u32) -> nat {
    let p = (12 * bar + 2) / 5;
    if p > u32::MAX {
        u32::MAX as nat
    } else {
        p as nat
    }
}

/// Horizontal geometry of a POSTNET symbol: bar width (at least 1) and the
/// gap to the next bar (pitch minus bar, at least 1).
pub fn postnet_pitch(module_width: u32) -> (r: (u32, u32))
    ensures
        ({
            let bar: u32 = if module_width > 1 {
                module_width
            } else {
                1
            };
            let gap: int = postnet_pitch_dots(bar) - bar;
            r == (bar, if gap < 1 {
                1u32
            } else {
                gap as u32
            })
        }),
{
    let bar: u32 = if module_width > 1 {
        module_width
    } else {
        1
    };
    let p: u64 = (12 * (bar as u64) + 2) / 5;
    let pitch: u32 = if p > 0xFFFF_FFFF {
        0xFFFF_FFFF
    } else {
        p as u32
    };
    let gap = if pitch > bar {
        pitch - bar
    } else {
        0
    };
    (bar, if gap < 1 {
        1
    } else {
        gap
    })
}

/// `^BM` check-digit modes.
#[derive(Debug, Clone, Copy, PartialEq, Eq, Structural)]
pub enum MsiCheck {
    /// A - no check digit.
    NoCheck,
    /// B - one mod-10 check digit (the default).
    Mod10,
    /// C - two mod-10 check digits.
    Mod10Twice,
    /// D - one mod-11 followed by one mod-10 check digit.
    Mod11Mod10,
}

impl MsiCheck {
    /// The mode a `^BM` parameter letter selects (either case); `Mod10`
    /// for any other letter.
    pub fn from_zpl(c: char) -> (m: Self)
        ensures
            m == (if c == 'A' || c == 'a' {
                MsiCheck::NoCheck
            } else if c == 'C' || c == 'c' {
                MsiCheck::Mod10Twice
            } else if c == 'D' || c == 'd' {
                MsiCheck::Mod11Mod10
            } else {
                MsiCheck::Mod10
            }),
    {
        if c == 'A' || c == 'a' {
            MsiCheck::NoCheck
        } else if c == 'C' || c == 'c' {
            MsiCheck::Mod10Twice
        } else if c == 'D' || c == 'd' {
            MsiCheck::Mod11Mod10
        } else {
            MsiCheck::Mod10
        }
    }
}

} // verus!

verus! {

/// The digits at even positions counted from the right (the last digit is
/// position 0), in their order.
pub open spec fn msi_evens(d: Seq<u8>) -> Seq<u8>
    decreases d.len(), 1nat,
{
    if d.len() == 0 {
        Seq::empty()
    } else {
        msi_odds(d.drop_last()).push(d.last())
    }
}

/// The digits at odd positions counted from the right, in their order.
pub open spec fn msi_odds(d: Seq<u8>) -> Seq<u8>
    decreases d.len(), 0nat,
{
    if d.len() == 0 {
        Seq::empty()
    } else {
        msi_evens(d.drop_last())
    }
}

pub open spec fn all_below_ten(d: Seq<u8>) -> bool {
    forall|i: int| 0 <= i < d.len() ==> #[trigger] d[i] < 10
}

/// The value of a run of decimal digits.
pub open spec fn digits_value(d: Seq<u8>) -> nat
    decreases d.len(),
{
    if d.len() == 0 {
        0
    } else {
        digits_value(d.drop_last()) * 10 + d.last() as nat
    }
}

/// The even-position digits read as one decimal number; 0 when they do not
/// form a number that fits in `u32` (no digits, a value of ten or more, or
/// too large).
pub open spec fn msi_doubled_base(d: Seq<u8>) -> nat {
    let e = msi_evens(d);
    if e.len() > 0 && all_below_ten(e) && digits_value(e) <= u32::MAX {
        digits_value(e)
    } else {
        0
    }
}

/// Sum of the decimal digits of `n`.
pub open spec fn decimal_digit_sum(n: nat) -> nat
    decreases n,
{
    if n < 10 {
        n
    } else {
        decimal_digit_sum(n / 10) + n % 10
    }
}

/// The MSI mod-10 check digit: the even-position digits (from the right)
/// form a number that is doubled, and the digits of the product are added
/// to the odd-position digits.
pub open spec fn msi_mod10_spec(d: Seq<u8>) -> u8 {
    let total = decimal_digit_sum(msi_doubled_base(d) * 2) + digit_sum(msi_odds(d));
    ((10 - total % 10) % 10) as u8
}

/// The mod-10 computation does not overflow.
pub open spec fn msi_mod10_fits(d: Seq<u8>) -> bool {
    msi_doubled_base(d) * 2 <= u32::MAX
}

/// Sum of the digits weighted 2, 3, .., 7, 2, .. from the right, starting
/// with weight index `k`.
pub open spec fn msi_weighted(d: Seq<u8>, k: nat) -> nat
    decreases d.len(),
{
    if d.len() == 0 {
        0
    } else {
        d.last() as nat * (2 + k % 6) + msi_weighted(d.drop_last(), k + 1)
    }
}

/// The IBM mod-11 check digit (10 when the remainder is 1).
pub open spec fn msi_mod11_spec(d: Seq<u8>) -> u8 {
    let rem = msi_weighted(d, 0) % 11;
    if rem == 0 {
        0
    } else {
        (11 - rem) as u8
    }
}

/// The digits of an MSI symbol: the data digits and the check digits of
/// the mode.
pub open spec fn msi_digits(d: Seq<u8>, check: MsiCheck) -> Seq<u8> {
    match check {
        MsiCheck::NoCheck => d,
        MsiCheck::Mod10 => d.push(msi_mod10_spec(d)),
        MsiCheck::Mod10Twice => {
            let a = d.push(msi_mod10_spec(d));
            a.push(msi_mod10_spec(a))
        },
        MsiCheck::Mod11Mod10 => {
            let a = d.push(msi_mod11_spec(d));
            a.push(msi_mod10_spec(a))
        },
    }
}

/// The number of check digits a mode appends.
pub open spec fn msi_check_count(check: MsiCheck) -> nat {
    match check {
        MsiCheck::NoCheck => 0,
        MsiCheck::Mod10 => 1,
        MsiCheck::Mod10Twice => 2,
        MsiCheck::Mod11Mod10 => 2,
    }
}

/// MSI: the encoded digits are the data digits, unchanged, followed by the
/// mode's check digits; a mod-10 digit is below 10, and a mod-11 digit is
/// at most 10.
pub proof fn law_msi_keeps_data(d: Seq<u8>, check: MsiCheck)
    ensures
        msi_digits(d, check).len() == d.len() + msi_check_count(check),
        msi_digits(d, check).take(d.len() as int) == d,
        forall|i: int| d.len() <= i < msi_digits(d, check).len() ==> #[trigger] msi_digits(d, check)[i] <= 10,
        msi_check_count(check) > 0 ==> msi_digits(d, check).last() < 10,
{
    assert(msi_digits(d, check).take(d.len() as int) =~= d);
}

/// The check digits of the mode can be computed without overflow.
pub open spec fn msi_fits(d: Seq<u8>, check: MsiCheck) -> bool {
    match check {
        MsiCheck::NoCheck => true,
        MsiCheck::Mod10 => msi_mod10_fits(d),
        MsiCheck::Mod10Twice => msi_mod10_fits(d) && msi_mod10_fits(d.push(msi_mod10_spec(d))),
        MsiCheck::Mod11Mod10 => msi_mod10_fits(d.push(msi_mod11_spec(d))),
    }
}

pub proof fn lemma_digit_sum_bound(d: Seq<u8>)
    requires
        forall|i: int| 0 <= i < d.len() ==> #[trigger] d[i] <= 10,
    ensures
        digit_sum(d) <= 10 * d.len(),
    decreases d.len(),
{
    if d.len() > 0 {
        lemma_digit_sum_bound(d.drop_last());
    }
}

pub proof fn lemma_evens_odds(d: Seq<u8>)
    ensures
        msi_evens(d).len() <= d.len(),
        msi_odds(d).len() <= d.len(),
        forall|i: int| 0 <= i < msi_evens(d).len() ==> exists|j: int| 0 <= j < d.len() && #[trigger] msi_evens(d)[i] == d[j],
        forall|i: int| 0 <= i < msi_odds(d).len() ==> exists|j: int| 0 <= j < d.len() && #[trigger] msi_odds(d)[i] == d[j],
    decreases d.len(),
{
    if d.len() > 0 {
        let p = d.drop_last();
        lemma_evens_odds(p);
        assert forall|i: int| 0 <= i < msi_evens(d).len() implies exists|j: int| 0 <= j < d.len() && #[trigger] msi_evens(d)[i] == d[j] by {
            if i < msi_odds(p).len() {
                let j = choose|j: int| 0 <= j < p.len() && msi_odds(p)[i] == p[j];
                assert(d[j] == p[j]);
            } else {
                assert(msi_evens(d)[i] == d[d.len() - 1]);
            }
        }
        assert forall|i: int| 0 <= i < msi_odds(d).len() implies exists|j: int| 0 <= j < d.len() && #[trigger] msi_odds(d)[i] == d[j] by {
            let j = choose|j: int| 0 <= j < p.len() && msi_evens(p)[i] == p[j];
            assert(d[j] == p[j]);
        }
    }
}

pub proof fn lemma_decimal_digit_sum_step(n: nat)
    ensures
        n >= 10 ==> decimal_digit_sum(n) == decimal_digit_sum(n / 10) + n % 10,
{
}

/// The digit sum of the decimal form of `n`.
fn decimal_digit_sum_of(n: u32) -> (s: u32)
    ensures
        s == decimal_digit_sum(n as nat),
        s <= 90,
    decreases n,
{
    if n < 10 {
        n
    } else {
        let s = decimal_digit_sum_of(n / 10);
        proof {
            lemma_decimal_digit_sum_bound(n as nat);
        }
        s + n % 10
    }
}

pub proof fn lemma_decimal_digit_sum_bound(n: nat)
    requires
        n <= u32::MAX,
    ensures
        decimal_digit_sum(n) <= 9 * (if n < 10 { 1nat } else if n < 100 { 2nat } else if n < 1000 { 3nat } else if n < 10000 { 4nat } else if n < 100000 { 5nat } else if n < 1000000 { 6nat } else if n < 10000000 { 7nat } else if n < 100000000 { 8nat } else if n < 1000000000 { 9nat } else { 10nat }),
    decreases n,
{
    if n >= 10 {
        lemma_decimal_digit_sum_bound(n / 10);
    }
}

} // verus!

verus! {

fn sum_digits(d: &Vec<u8>) -> (s: u128)
    requires
        forall|i: int| 0 <= i < d@.len() ==> #[trigger] d@[i] <= 10,
    ensures
        s == digit_sum(d@),
{
    let mut s: u128 = 0;
    let mut i: usize = 0;
    proof {
        assert(d@.subrange(0, 0) =~= Seq::<u8>::empty());
    }
    while i < d.len()
        invariant
            i <= d@.len(),
            forall|k: int| 0 <= k < d@.len() ==> #[trigger] d@[k] <= 10,
            s == digit_sum(d@.subrange(0, i as int)),
            s <= 10 * i,
        decreases d@.len() - i,
    {
        proof {
            assert(d@.subrange(0, i + 1).drop_last() =~= d@.subrange(0, i as int));
        }
        s = s + d[i] as u128;
        i = i + 1;
    }
    proof {
        assert(d@.subrange(0, i as int) =~= d@);
    }
    s
}

/// The even-position digits as a `u32` number, or 0 (see `msi_doubled_base`).
fn doubled_base(e: &Vec<u8>) -> (v: u32)
    ensures
        v == (if e@.len() > 0 && all_below_ten(e@) && digits_value(e@) <= u32::MAX {
            digits_value(e@)
        } else {
            0
        }),
{
    if e.len() == 0 {
        return 0;
    }
    let mut acc: u64 = 0;
    let mut over = false;
    let mut i: usize = 0;
    proof {
        assert(e@.subrange(0, 0) =~= Seq::<u8>::empty());
    }
    while i < e.len()
        invariant
            i <= e@.len(),
            all_below_ten(e@.subrange(0, i as int)),
            !over ==> acc == digits_value(e@.subrange(0, i as int)) && acc <= u32::MAX,
            over ==> digits_value(e@.subrange(0, i as int)) > u32::MAX,
        decreases e@.len() - i,
    {
        let x = e[i];
        proof {
            assert(e@.subrange(0, i + 1).drop_last() =~= e@.subrange(0, i as int));
        }
        if x >= 10 {
            proof {
                assert(e@.subrange(0, e@.len() as int) =~= e@);
                assert(e@[i as int] == x);
            }
            return 0;
        }
        if !over {
            let next = acc * 10 + x as u64;
            if next > 0xFFFF_FFFF {
                over = true;
            } else {
                acc = next;
            }
        }
        proof {
            assert forall|k: int| 0 <= k < i + 1 implies #[trigger] e@.subrange(0, i + 1)[k] < 10 by {
                if k < i {
                    assert(e@.subrange(0, i + 1)[k] == e@.subrange(0, i as int)[k]);
                }
            }
        }
        i = i + 1;
    }
    proof {
        assert(e@.subrange(0, i as int) =~= e@);
    }
    if over {
        0
    } else {
        acc as u32
    }
}

fn mod10_fits(d: &Vec<u8>) -> (b: bool)
    requires
        forall|i: int| 0 <= i < d@.len() ==> #[trigger] d@[i] <= 10,
    ensures
        b == msi_mod10_fits(d@),
{
    let mut e: Vec<u8> = Vec::new();
    let mut o: Vec<u8> = Vec::new();
    let mut k: usize = 0;
    proof {
        assert(d@.subrange(0, 0) =~= Seq::<u8>::empty());
    }
    while k < d.len()
        invariant
            k <= d@.len(),
            e@ == msi_evens(d@.subrange(0, k as int)),
            o@ == msi_odds(d@.subrange(0, k as int)),
        decreases d@.len() - k,
    {
        proof {
            assert(d@.subrange(0, k + 1).drop_last() =~= d@.subrange(0, k as int));
        }
        let mut t = o;
        t.push(d[k]);
        o = e;
        e = t;
        k = k + 1;
    }
    proof {
        assert(d@.subrange(0, k as int) =~= d@);
    }
    let base = doubled_base(&e);
    (base as u64) * 2 <= 0xFFFF_FFFF
}

/// Whether the check digits of `data` in a mode can be computed (see
/// `msi_fits`), the condition of `msi_text`, `msi_check_digits` and
/// `msi_elements`.
pub fn msi_fits_check(data: &str, check: MsiCheck) -> (b: bool)
    ensures
        b == msi_fits(digit_values(data@), check),
{
    let d = digits_of(data);
    match check {
        MsiCheck::NoCheck => true,
        MsiCheck::Mod10 => mod10_fits(&d),
        MsiCheck::Mod10Twice => {
            if !mod10_fits(&d) {
                return false;
            }
            let c = msi_mod10(&d);
            let mut a = d;
            a.push(c);
            proof {
                assert forall|i: int| 0 <= i < a@.len() implies #[trigger] a@[i] <= 10 by {}
            }
            mod10_fits(&a)
        },
        MsiCheck::Mod11Mod10 => {
            let c = msi_mod11(&d);
            let mut a = d;
            a.push(c);
            proof {
                assert forall|i: int| 0 <= i < a@.len() implies #[trigger] a@[i] <= 10 by {}
            }
            mod10_fits(&a)
        },
    }
}

/// The MSI mod-10 check digit of `d`.
fn msi_mod10(d: &Vec<u8>) -> (c: u8)
    requires
        msi_mod10_fits(d@),
        forall|i: int| 0 <= i < d@.len() ==> #[trigger] d@[i] <= 10,
    ensures
        c == msi_mod10_spec(d@),
        c < 10,
{
    let mut e: Vec<u8> = Vec::new();
    let mut o: Vec<u8> = Vec::new();
    let mut k: usize = 0;
    proof {
        assert(d@.subrange(0, 0) =~= Seq::<u8>::empty());
    }
    while k < d.len()
        invariant
            k <= d@.len(),
            e@ == msi_evens(d@.subrange(0, k as int)),
            o@ == msi_odds(d@.subrange(0, k as int)),
        decreases d@.len() - k,
    {
        proof {
            assert(d@.subrange(0, k + 1).drop_last() =~= d@.subrange(0, k as int));
        }
        let mut t = o;
        t.push(d[k]);
        o = e;
        e = t;
        k = k + 1;
    }
    proof {
        assert(d@.subrange(0, k as int) =~= d@);
        lemma_evens_odds(d@);
        assert forall|i: int| 0 <= i < o@.len() implies #[trigger] o@[i] <= 10 by {
            let j = choose|j: int| 0 <= j < d@.len() && msi_odds(d@)[i] == d@[j];
        }
    }
    let rest = sum_digits(&o);
    let base = doubled_base(&e);
    let ds = decimal_digit_sum_of(base * 2);
    proof {
        lemma_digit_sum_bound(o@);
    }
    ((10 - (ds as u128 + rest) % 10) % 10) as u8
}

/// The IBM mod-11 check digit of `d`.
fn msi_mod11(d: &Vec<u8>) -> (c: u8)
    requires
        forall|i: int| 0 <= i < d@.len() ==> #[trigger] d@[i] <= 10,
    ensures
        c == msi_mod11_spec(d@),
        c <= 10,
{
    let mut sum: u128 = 0;
    let mut k: usize = 0;
    let n = d.len();
    proof {
        assert(d@.subrange(0, n as int) =~= d@);
    }
    while k < n
        invariant
            k <= n,
            n == d@.len(),
            forall|i: int| 0 <= i < d@.len() ==> #[trigger] d@[i] <= 10,
            sum + msi_weighted(d@.subrange(0, (n - k) as int), k as nat) == msi_weighted(d@, 0),
            sum <= 70 * k,
        decreases n - k,
    {
        let idx = n - 1 - k;
        let x = d[idx];
        proof {
            let p = d@.subrange(0, (n - k) as int);
            assert(p.drop_last() =~= d@.subrange(0, (n - k - 1) as int));
            assert(p.last() == x);
            assert(x as nat * (2 + k % 6) <= 70) by (nonlinear_arith)
                requires
                    x <= 10,
                    k % 6 < 6,
            ;
        }
        sum = sum + (x as u128) * (2 + (k % 6) as u128);
        k = k + 1;
    }
    proof {
        assert(d@.subrange(0, 0) =~= Seq::<u8>::empty());
        assert(d@.subrange(0, n as int) =~= d@);
    }
    let rem = sum % 11;
    if rem == 0 {
        0
    } else {
        (11 - rem) as u8
    }
}

} // verus!

verus! {

/// The data digits of `data` with the check digits of `check` appended.
pub fn msi_check_digits(data: &str, check: MsiCheck) -> (d: Vec<u8>)
    requires
        msi_fits(digit_values(data@), check),
    ensures
        d@ == msi_digits(digit_values(data@), check),
        forall|i: int| 0 <= i < d@.len() ==> #[trigger] d@[i] <= 10,
{
    let mut d = digits_of(data);
    let ghost d0 = d@;
    match check {
        MsiCheck::NoCheck => {},
        MsiCheck::Mod10 => {
            let c = msi_mod10(&d);
            d.push(c);
        },
        MsiCheck::Mod10Twice => {
            let c = msi_mod10(&d);
            d.push(c);
            let c2 = msi_mod10(&d);
            d.push(c2);
        },
        MsiCheck::Mod11Mod10 => {
            let c = msi_mod11(&d);
            d.push(c);
            let c2 = msi_mod10(&d);
            d.push(c2);
        },
    }
    d
}

/// The characters of the digits of an MSI symbol. Each digit is one 4-bit
/// group of the symbol; a mod-11 check of value 10 is the group `1010` and
/// shows as the character after `9`, `:`, so that the line holds one
/// character for each group that the bars encode.
pub open spec fn msi_text_spec(d: Seq<u8>) -> Seq<char> {
    Seq::new(d.len(), |i: int| ((48 + d[i]) as u8) as char)
}

/// The digits encoded into an MSI symbol, for the interpretation line.
pub fn msi_text(data: &str, check: MsiCheck) -> (s: String)
    requires
        msi_fits(digit_values(data@), check),
    ensures
        s@ == msi_text_spec(msi_digits(digit_values(data@), check)),
{
    let d = msi_check_digits(data, check);
    let mut v: Vec<char> = Vec::new();
    let mut i: usize = 0;
    while i < d.len()
        invariant
            i <= d@.len(),
            forall|k: int| 0 <= k < d@.len() ==> #[trigger] d@[k] <= 10,
            v@ =~= msi_text_spec(d@.subrange(0, i as int)),
        decreases d@.len() - i,
    {
        v.push(((48 + d[i]) as u8) as char);
        i = i + 1;
    }
    proof {
        assert(d@.subrange(0, i as int) =~= d@);
    }
    string_of(v.as_slice())
}

/// The eight elements of one digit: its four bits, most significant first,
/// a one as a wide bar and narrow space, a zero as a narrow bar and wide
/// space.
pub open spec fn msi_digit_elements(d: u8, narrow: u32, wide: u32) -> Seq<Element> {
    Seq::new(
        8,
        |k: int|
            {
                let bit = (d >> ((3 - k / 2) as u8)) & 1u8 == 1u8;
                if k % 2 == 0 {
                    Element {
                        bar: true,
                        width: if bit {
                            wide
                        } else {
                            narrow
                        },
                    }
                } else {
                    Element {
                        bar: false,
                        width: if bit {
                            narrow
                        } else {
                            wide
                        },
                    }
                }
            },
    )
}

pub open spec fn msi_body(d: Seq<u8>, narrow: u32, wide: u32) -> Seq<Element>
    decreases d.len(),
{
    if d.len() == 0 {
        Seq::empty()
    } else {
        msi_body(d.drop_last(), narrow, wide) + msi_digit_elements(d.last(), narrow, wide)
    }
}

/// The elements of an MSI symbol over digits `d`: a wide bar and narrow
/// space to start, the digits, a narrow bar, wide space and narrow bar to
/// stop.
pub open spec fn msi_symbol(d: Seq<u8>, narrow: u32, wide: u32) -> Seq<Element> {
    seq![Element { bar: true, width: wide }, Element { bar: false, width: narrow }] + msi_body(
        d,
        narrow,
        wide,
    ) + seq![
        Element { bar: true, width: narrow },
        Element { bar: false, width: wide },
        Element { bar: true, width: narrow },
    ]
}

/// Encodes `data` as MSI elements with narrow elements of the module width
/// (at least 1) and wide elements of `wide` dots.
pub fn msi_elements(data: &str, check: MsiCheck, module_width: u32, wide: u32) -> (out: Vec<Element>)
    requires
        msi_fits(digit_values(data@), check),
    ensures
        out@ == msi_symbol(
            msi_digits(digit_values(data@), check),
            if module_width > 1 {
                module_width
            } else {
                1
            },
            wide,
        ),
{
    let narrow: u32 = if module_width > 1 {
        module_width
    } else {
        1
    };
    let digits = msi_check_digits(data, check);
    let mut out: Vec<Element> = Vec::new();
    out.push(Element { bar: true, width: wide });
    out.push(Element { bar: false, width: narrow });
    let mut i: usize = 0;
    proof {
        assert(digits@.subrange(0, 0) =~= Seq::<u8>::empty());
    }
    while i < digits.len()
        invariant
            i <= digits@.len(),
            out@ =~= seq![Element { bar: true, width: wide }, Element { bar: false, width: narrow }]
                + msi_body(digits@.subrange(0, i as int), narrow, wide),
        decreases digits@.len() - i,
    {
        let d = digits[i];
        let ghost o0 = out@;
        let mut shift: u8 = 4;
        while shift > 0
            invariant
                shift <= 4,
                out@ =~= o0 + msi_digit_elements(d, narrow, wide).subrange(0, 2 * (4 - shift)),
            decreases shift,
        {
            shift = shift - 1;
            let bit = (d >> shift) & 1 == 1;
            let ghost k: int = 2 * (3 - shift);
            proof {
                assert(3 - k / 2 == shift);
                assert(k % 2 == 0);
                assert((k + 1) / 2 == k / 2);
            }
            if bit {
                out.push(Element { bar: true, width: wide });
                out.push(Element { bar: false, width: narrow });
            } else {
                out.push(Element { bar: true, width: narrow });
                out.push(Element { bar: false, width: wide });
            }
        }
        proof {
            assert(digits@.subrange(0, i + 1).drop_last() =~= digits@.subrange(0, i as int));
            assert(msi_digit_elements(d, narrow, wide).subrange(0, 8) =~= msi_digit_elements(d, narrow, wide));
        }
        i = i + 1;
    }
    out.push(Element { bar: true, width: narrow });
    out.push(Element { bar: false, width: wide });
    out.push(Element { bar: true, width: narrow });
    proof {
        assert(digits@.subrange(0, i as int) =~= digits@);
    }
    out
}

} // verus!

verus! {

/// The first position at or after `j` whose module differs from module
/// `i`, or the end of the row.
pub open spec fn run_end(row: Seq<bool>, i: int, j: int) -> int
    decreases row.len() - j,
{
    if j < 0 || j >= row.len() || row[j] != row[i] {
        j
    } else {
        run_end(row, i, j + 1)
    }
}

/// Width in dots of a run of `modules` modules: narrow modules each, or,
/// for a two-width symbology, `wide` dots for a wide run and `narrow` for
/// a narrow one; at least 1.
pub open spec fn run_dots(modules: nat, narrow: u32, wide: Option<u32>) -> u32 {
    let dots: nat = match wide {
        Some(w) => if modules > 1 {
            w as nat
        } else {
            narrow as nat
        },
        None => modules * (narrow as nat),
    };
    if dots < 1 {
        1
    } else {
        dots as u32
    }
}

/// The elements of the runs of `row` from position `i` on.
pub open spec fn run_elements(row: Seq<bool>, i: int, narrow: u32, wide: Option<u32>) -> Seq<Element>
    decreases row.len() - i,
{
    if i < 0 || i >= row.len() {
        Seq::empty()
    } else {
        let e = run_end(row, i, i + 1);
        if e <= i || e > row.len() {
            Seq::empty()
        } else {
            seq![Element { bar: row[i], width: run_dots((e - i) as nat, narrow, wide) }]
                + run_elements(row, e, narrow, wide)
        }
    }
}

pub proof fn lemma_run_end_bounds(row: Seq<bool>, i: int, j: int)
    requires
        0 <= i < j <= row.len(),
    ensures
        j <= run_end(row, i, j) <= row.len(),
    decreases row.len() - j,
{
    if j < row.len() && row[j] == row[i] {
        lemma_run_end_bounds(row, i, j + 1);
    }
}

/// The elements of an encoded 1-D row: each run of equal modules becomes
/// one bar or space (see `run_dots`), with narrow modules of the module
/// width (at least 1) and, for two-width symbologies, wide runs of `wide`
/// dots.
pub fn matrix_elements(row: &[bool], module_width: u32, wide: Option<u32>) -> (out: Vec<Element>)
    requires
        row@.len() * (if module_width > 1 {
            module_width
        } else {
            1
        }) <= u32::MAX,
    ensures
        out@ == run_elements(row@, 0, if module_width > 1 {
            module_width
        } else {
            1
        }, wide),
{
    let narrow: u32 = if module_width > 1 {
        module_width
    } else {
        1
    };
    let width = row.len();
    let mut out: Vec<Element> = Vec::new();
    if width == 0 {
        return out;
    }
    let mut run_start: usize = 0;
    let mut current = row[0];
    let mut x: usize = 1;
    while x < width
        invariant
            width == row@.len(),
            width * narrow <= u32::MAX,
            narrow >= 1,
            0 <= run_start < x <= width,
            current == row@[run_start as int],
            run_end(row@, run_start as int, run_start + 1) == run_end(row@, run_start as int, x as int),
            run_elements(row@, 0, narrow, wide) == out@ + run_elements(row@, run_start as int, narrow, wide),
        decreases width - x,
    {
        if row[x] != current {
            let modules = x - run_start;
            let ghost o0 = out@;
            proof {
                assert(run_end(row@, run_start as int, x as int) == x);
                assert(modules * narrow <= width * narrow) by (nonlinear_arith)
                    requires
                        modules <= width,
                ;
                assert(modules <= u32::MAX) by (nonlinear_arith)
                    requires
                        modules * narrow <= u32::MAX,
                        narrow >= 1,
                ;
            }
            let dots: u32 = match wide {
                Some(w) => if modules > 1 {
                    w
                } else {
                    narrow
                },
                None => (modules as u32) * narrow,
            };
            out.push(Element { bar: current, width: if dots < 1 {
                1
            } else {
                dots
            } });
            proof {
                assert(run_elements(row@, run_start as int, narrow, wide) == seq![
                    Element { bar: current, width: run_dots(modules as nat, narrow, wide) },
                ] + run_elements(row@, x as int, narrow, wide));
                assert(o0 + (seq![Element { bar: current, width: run_dots(modules as nat, narrow, wide) }]
                    + run_elements(row@, x as int, narrow, wide)) =~= out@ + run_elements(
                    row@,
                    x as int,
                    narrow,
                    wide,
                ));
            }
            current = row[x];
            run_start = x;
        }
        x = x + 1;
    }
    let modules = width - run_start;
    let ghost o0 = out@;
    proof {
        assert(run_end(row@, run_start as int, width as int) == width);
        assert(modules * narrow <= width * narrow) by (nonlinear_arith)
            requires
                modules <= width,
        ;
        assert(modules <= u32::MAX) by (nonlinear_arith)
            requires
                modules * narrow <= u32::MAX,
                narrow >= 1,
        ;
    }
    let dots: u32 = match wide {
        Some(w) => if modules > 1 {
            w
        } else {
            narrow
        },
        None => (modules as u32) * narrow,
    };
    out.push(Element { bar: current, width: if dots < 1 {
        1
    } else {
        dots
    } });
    proof {
        assert(run_elements(row@, width as int, narrow, wide) =~= Seq::<Element>::empty());
        assert(run_elements(row@, run_start as int, narrow, wide) == seq![
            Element { bar: current, width: run_dots(modules as nat, narrow, wide) },
        ] + run_elements(row@, width as int, narrow, wide));
        assert(o0 + (seq![Element { bar: current, width: run_dots(modules as nat, narrow, wide) }]
            + Seq::<Element>::empty()) =~= out@);
    }
    out
}

} // verus!
