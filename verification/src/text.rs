//! Character-level helpers shared by the parser, the instruction builder and
//! the encoders: conversions between strings and character vectors, and the
//! character classes that ZPL syntax relies on.

use vstd::prelude::*;

verus! {

/// The characters of a string slice, in order.
pub fn chars_of(s: &str) -> (v: Vec<char>)
    ensures
        v@ == s@,
{
    let mut v: Vec<char> = Vec::new();
    for c in it: s.chars()
        invariant
            v@ == it.seq().take(it.index() as int),
    {
        v.push(c);
    }
    v
}

/// Builds a `String` from a sequence of characters
/// (`FromIterator<char>` for `String`); the string holds exactly those characters.
#[verifier::external_body]
pub fn string_of(v: &[char]) -> (s: String)
    ensures
        s@ == v@,
{
    v.iter().collect::<String>()
}

/// ASCII decimal digit.
pub open spec fn is_digit(c: char) -> bool {
    '0' <= c <= '9'
}

/// ASCII hexadecimal digit.
pub open spec fn is_hex_digit(c: char) -> bool {
    ('0' <= c <= '9') || ('a' <= c <= 'f') || ('A' <= c <= 'F')
}

/// Value of an ASCII hexadecimal digit.
pub open spec fn hex_value(c: char) -> nat {
    if '0' <= c <= '9' {
        (c as nat - '0' as nat) as nat
    } else if 'a' <= c <= 'f' {
        (c as nat - 'a' as nat + 10) as nat
    } else {
        (c as nat - 'A' as nat + 10) as nat
    }
}

/// Unicode `White_Space` property, as used by `str::trim`.
pub open spec fn is_unicode_space(c: char) -> bool {
    let u = c as u32;
    (0x09 <= u <= 0x0D) || u == 0x20 || u == 0x85 || u == 0xA0 || u == 0x1680 || (0x2000 <= u
        <= 0x200A) || u == 0x2028 || u == 0x2029 || u == 0x202F || u == 0x205F || u == 0x3000
}

pub fn is_digit_char(c: char) -> (r: bool)
    ensures
        r == is_digit(c),
{
    '0' <= c && c <= '9'
}

pub fn is_hex_digit_char(c: char) -> (r: bool)
    ensures
        r == is_hex_digit(c),
{
    ('0' <= c && c <= '9') || ('a' <= c && c <= 'f') || ('A' <= c && c <= 'F')
}

pub fn is_unicode_space_char(c: char) -> (r: bool)
    ensures
        r == is_unicode_space(c),
{
    let u = c as u32;
    (0x09 <= u && u <= 0x0D) || u == 0x20 || u == 0x85 || u == 0xA0 || u == 0x1680 || (0x2000 <= u
        && u <= 0x200A) || u == 0x2028 || u == 0x2029 || u == 0x202F || u == 0x205F || u == 0x3000
}

/// Index of the first character of `s` that is not white space (or `s.len()`).
pub open spec fn trim_start_index(s: Seq<char>) -> int
    decreases s.len(),
{
    if s.len() == 0 {
        0
    } else if is_unicode_space(s[0]) {
        1 + trim_start_index(s.drop_first())
    } else {
        0
    }
}

/// Index one past the last character of `s` that is not white space (or 0).
pub open spec fn trim_end_index(s: Seq<char>) -> int
    decreases s.len(),
{
    if s.len() == 0 {
        0
    } else if is_unicode_space(s.last()) {
        trim_end_index(s.drop_last())
    } else {
        s.len() as int
    }
}

/// `str::trim`: `s` without leading and trailing white space.
pub open spec fn trim(s: Seq<char>) -> Seq<char> {
    let e = trim_end_index(s);
    let b = trim_start_index(s.subrange(0, e));
    s.subrange(b, e)
}

pub proof fn lemma_trim_end_bounds(s: Seq<char>)
    ensures
        0 <= trim_end_index(s) <= s.len(),
        forall|i: int| trim_end_index(s) <= i < s.len() ==> is_unicode_space(#[trigger] s[i]),
        trim_end_index(s) > 0 ==> !is_unicode_space(s[trim_end_index(s) - 1]),
    decreases s.len(),
{
    if s.len() > 0 && is_unicode_space(s.last()) {
        lemma_trim_end_bounds(s.drop_last());
        assert forall|i: int| trim_end_index(s) <= i < s.len() implies is_unicode_space(
            #[trigger] s[i],
        ) by {
            if i < s.len() - 1 {
                assert(s[i] == s.drop_last()[i]);
            }
        }
    }
}

pub proof fn lemma_trim_start_bounds(s: Seq<char>)
    ensures
        0 <= trim_start_index(s) <= s.len(),
        forall|i: int| 0 <= i < trim_start_index(s) ==> is_unicode_space(#[trigger] s[i]),
        trim_start_index(s) < s.len() ==> !is_unicode_space(s[trim_start_index(s)]),
    decreases s.len(),
{
    if s.len() > 0 && is_unicode_space(s[0]) {
        lemma_trim_start_bounds(s.drop_first());
        assert forall|i: int| 0 <= i < trim_start_index(s) implies is_unicode_space(
            #[trigger] s[i],
        ) by {
            if i > 0 {
                assert(s[i] == s.drop_first()[i - 1]);
            }
        }
    }
}

/// Index one past the last non-space character of `v[lo..hi]`.
pub(crate) fn trim_end_of(v: &Vec<char>, lo: usize, hi: usize) -> (e: usize)
    requires
        lo <= hi <= v.len(),
    ensures
        e as int == lo + trim_end_index(v@.subrange(lo as int, hi as int)),
{
    let mut e = hi;
    while e > lo
        invariant
            lo <= e <= hi <= v.len(),
            trim_end_index(v@.subrange(lo as int, hi as int)) == trim_end_index(
                v@.subrange(lo as int, e as int),
            ),
        ensures
            lo <= e <= hi,
            trim_end_index(v@.subrange(lo as int, hi as int)) == trim_end_index(
                v@.subrange(lo as int, e as int),
            ),
            e == lo || !is_unicode_space(v@[e - 1]),
        decreases e,
    {
        if !is_unicode_space_char(v[e - 1]) {
            break;
        }
        assert(v@.subrange(lo as int, e as int).drop_last() == v@.subrange(lo as int, e - 1));
        e = e - 1;
    }
    proof {
        let t = v@.subrange(lo as int, e as int);
        if e > lo {
            assert(t.last() == v@[e - 1]);
        }
    }
    e
}

/// Index of the first non-space character of `v[lo..hi]`.
pub(crate) fn trim_start_of(v: &Vec<char>, lo: usize, hi: usize) -> (b: usize)
    requires
        lo <= hi <= v.len(),
    ensures
        b as int == lo + trim_start_index(v@.subrange(lo as int, hi as int)),
{
    let mut b = lo;
    while b < hi
        invariant
            lo <= b <= hi <= v.len(),
            trim_start_index(v@.subrange(lo as int, hi as int)) == (b - lo) + trim_start_index(
                v@.subrange(b as int, hi as int),
            ),
        ensures
            lo <= b <= hi,
            trim_start_index(v@.subrange(lo as int, hi as int)) == (b - lo) + trim_start_index(
                v@.subrange(b as int, hi as int),
            ),
            b == hi || !is_unicode_space(v@[b as int]),
        decreases hi - b,
    {
        if !is_unicode_space_char(v[b]) {
            break;
        }
        assert(v@.subrange(b as int, hi as int).drop_first() == v@.subrange(b + 1, hi as int));
        b = b + 1;
    }
    proof {
        let t = v@.subrange(b as int, hi as int);
        if b < hi {
            assert(t[0] == v@[b as int]);
        }
    }
    b
}

/// `v[lo..hi]` with leading and trailing white space removed, as a `String`.
pub fn trimmed_string(v: &Vec<char>, lo: usize, hi: usize) -> (s: String)
    requires
        lo <= hi <= v.len(),
    ensures
        s@ == trim(v@.subrange(lo as int, hi as int)),
{
    let e = trim_end_of(v, lo, hi);
    proof {
        lemma_trim_end_bounds(v@.subrange(lo as int, hi as int));
    }
    let b = trim_start_of(v, lo, e);
    proof {
        let s = v@.subrange(lo as int, hi as int);
        assert(s.subrange(0, trim_end_index(s)) == v@.subrange(lo as int, e as int));
        lemma_trim_start_bounds(v@.subrange(lo as int, e as int));
        assert(s.subrange(b - lo, e - lo) == v@.subrange(b as int, e as int));
    }
    string_of(slice_range(v, b, e))
}

/// The slice `v[lo..hi]`.
pub fn slice_range<T>(v: &Vec<T>, lo: usize, hi: usize) -> (s: &[T])
    requires
        lo <= hi <= v.len(),
    ensures
        s@ == v@.subrange(lo as int, hi as int),
{
    vstd::slice::slice_subrange(v.as_slice(), lo, hi)
}

/// Appends every element of `s` to `v`.
pub fn append_all<T: Copy>(v: &mut Vec<T>, s: &[T])
    ensures
        final(v)@ == old(v)@ + s@,
{
    let mut i: usize = 0;
    while i < s.len()
        invariant
            i <= s@.len(),
            v@ == old(v)@ + s@.subrange(0, i as int),
        decreases s.len() - i,
    {
        v.push(s[i]);
        i = i + 1;
        assert(s@.subrange(0, i as int) == s@.subrange(0, i - 1).push(s@[i - 1]));
    }
    assert(s@.subrange(0, s@.len() as int) == s@);
}

/// The ASCII character of decimal digit `d`.
pub open spec fn digit_char(d: nat) -> char {
    ((48 + d) as u8) as char
}

/// Decimal representation of `n`, without leading zeros.
pub open spec fn decimal_digits(n: nat) -> Seq<char>
    decreases n,
{
    if n < 10 {
        seq![digit_char(n)]
    } else {
        decimal_digits(n / 10).push(digit_char(n % 10))
    }
}

/// A decimal representation is a run of ASCII digits, one more for each
/// factor of ten.
pub proof fn lemma_decimal_digits_short(n: nat)
    ensures
        decimal_digits(n).len() >= 1,
        forall|i: int| 0 <= i < decimal_digits(n).len() ==> is_digit(#[trigger] decimal_digits(n)[i]),
        n < 10 ==> decimal_digits(n).len() == 1,
        n < 100 ==> decimal_digits(n).len() <= 2,
        n < 1000 ==> decimal_digits(n).len() <= 3,
        n < 10000 ==> decimal_digits(n).len() <= 4,
    decreases n,
{
    if n >= 10 {
        lemma_decimal_digits_short(n / 10);
        let p = decimal_digits(n / 10);
        assert forall|i: int| 0 <= i < decimal_digits(n).len() implies is_digit(
            #[trigger] decimal_digits(n)[i],
        ) by {
            if i < p.len() {
                assert(decimal_digits(n)[i] == p[i]);
            }
        }
    }
}

/// A text has at least as many UTF-8 bytes as characters.
pub proof fn lemma_utf8_len_at_least(a: Seq<char>)
    ensures
        a.len() <= utf8_len(a),
    decreases a.len(),
{
    if a.len() > 0 {
        lemma_utf8_len_at_least(a.drop_last());
    }
}

/// The decimal representation of `n`.
pub fn decimal_chars(n: u64) -> (v: Vec<char>)
    ensures
        v@ == decimal_digits(n as nat),
    decreases n,
{
    if n < 10 {
        let mut v: Vec<char> = Vec::new();
        v.push(((48 + n) as u8) as char);
        v
    } else {
        let mut v = decimal_chars(n / 10);
        v.push(((48 + n % 10) as u8) as char);
        v
    }
}

/// Appends the characters of `s` to `v`.
pub fn push_str(v: &mut Vec<char>, s: &str)
    ensures
        final(v)@ == old(v)@ + s@,
{
    let c = chars_of(s);
    append_all(v, c.as_slice());
}

/// Upper-case hexadecimal digit of `d` (`d < 16`).
pub open spec fn hex_upper_digit(d: nat) -> char {
    if d < 10 {
        ((48 + d) as u8) as char
    } else {
        ((55 + d) as u8) as char
    }
}

/// Upper-case hexadecimal representation of `n`, left-padded with zeros to
/// at least `width` digits.
pub open spec fn hex_padded(n: nat, width: nat) -> Seq<char>
    decreases n, width,
{
    if n < 16 && width <= 1 {
        seq![hex_upper_digit(n)]
    } else {
        hex_padded(n / 16, if width > 0 { (width - 1) as nat } else { 0 }).push(
            hex_upper_digit(n % 16),
        )
    }
}

/// The upper-case hexadecimal digits of `n`, at least `width` of them.
pub fn hex_padded_chars(n: u32, width: u32) -> (v: Vec<char>)
    ensures
        v@ == hex_padded(n as nat, width as nat),
    decreases n, width,
{
    if n < 16 && width <= 1 {
        let mut v: Vec<char> = Vec::new();
        v.push(hex_digit_char(n));
        v
    } else {
        let w: u32 = if width > 0 { width - 1 } else { 0 };
        let mut v = hex_padded_chars(n / 16, w);
        v.push(hex_digit_char(n % 16));
        v
    }
}

fn hex_digit_char(d: u32) -> (c: char)
    requires
        d < 16,
    ensures
        c == hex_upper_digit(d as nat),
{
    if d < 10 {
        ((48 + d) as u8) as char
    } else {
        ((55 + d) as u8) as char
    }
}

/// Decimal representation of the signed integer `m`.
pub open spec fn signed_decimal(m: int) -> Seq<char> {
    if m < 0 {
        seq!['-'] + decimal_digits((-m) as nat)
    } else {
        decimal_digits(m as nat)
    }
}

/// The decimal representation of `m`.
pub fn signed_decimal_chars(m: i32) -> (v: Vec<char>)
    ensures
        v@ == signed_decimal(m as int),
{
    let w: i64 = m as i64;
    if w < 0 {
        let mut v: Vec<char> = Vec::new();
        v.push('-');
        let d = decimal_chars((-w) as u64);
        append_all(&mut v, d.as_slice());
        v
    } else {
        decimal_chars(w as u64)
    }
}

/// Number of bytes of `c` in UTF-8.
pub open spec fn utf8_char_len(c: char) -> nat {
    if (c as u32) < 0x80 {
        1
    } else if (c as u32) < 0x800 {
        2
    } else if (c as u32) < 0x10000 {
        3
    } else {
        4
    }
}

/// Number of bytes of `s` in UTF-8.
pub open spec fn utf8_len(s: Seq<char>) -> nat
    decreases s.len(),
{
    if s.len() == 0 {
        0
    } else {
        utf8_len(s.drop_last()) + utf8_char_len(s.last())
    }
}

pub proof fn lemma_utf8_len_prefix(s: Seq<char>, i: int)
    requires
        0 <= i <= s.len(),
    ensures
        utf8_len(s.subrange(0, i)) <= utf8_len(s),
    decreases s.len() - i,
{
    if i < s.len() {
        lemma_utf8_len_prefix(s, i + 1);
        assert(s.subrange(0, i + 1).drop_last() =~= s.subrange(0, i));
    } else {
        assert(s.subrange(0, i) =~= s);
    }
}

/// The UTF-8 length of `s` when it is below `limit`.
pub fn utf8_len_below(s: &[char], limit: usize) -> (r: Option<usize>)
    ensures
        match r {
            Some(n) => n == utf8_len(s@) && n < limit,
            None => utf8_len(s@) >= limit,
        },
{
    if limit == 0 {
        return None;
    }
    let mut acc: usize = 0;
    let mut i: usize = 0;
    proof {
        assert(s@.subrange(0, 0) =~= Seq::<char>::empty());
    }
    while i < s.len()
        invariant
            i <= s@.len(),
            acc == utf8_len(s@.subrange(0, i as int)),
            acc < limit,
        decreases s@.len() - i,
    {
        let c = s[i];
        let u = c as u32;
        let w: usize = if u < 0x80 {
            1
        } else if u < 0x800 {
            2
        } else if u < 0x10000 {
            3
        } else {
            4
        };
        proof {
            assert(s@.subrange(0, i + 1).drop_last() =~= s@.subrange(0, i as int));
        }
        if w >= limit - acc {
            proof {
                lemma_utf8_len_prefix(s@, i + 1);
            }
            return None;
        }
        acc = acc + w;
        i = i + 1;
    }
    proof {
        assert(s@.subrange(0, i as int) =~= s@);
    }
    Some(acc)
}

} // verus!

verus! {

/// Whether two strings hold the same characters.
pub fn str_eq(a: &str, b: &str) -> (r: bool)
    ensures
        r == (a@ == b@),
{
    let x = chars_of(a);
    let y = chars_of(b);
    if x.len() != y.len() {
        return false;
    }
    let mut i: usize = 0;
    while i < x.len()
        invariant
            i <= x@.len(),
            x@.len() == y@.len(),
            x@ == a@,
            y@ == b@,
            forall|j: int| 0 <= j < i ==> x@[j] == y@[j],
        decreases x@.len() - i,
    {
        if x[i] != y[i] {
            return false;
        }
        i = i + 1;
    }
    proof {
        assert(x@ =~= y@);
    }
    true
}

} // verus!
