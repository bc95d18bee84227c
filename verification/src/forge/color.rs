//! Custom colors (`^GLC`, `^GTC`): `#RRGGBB` or `#RGB` hexadecimal text.

use vstd::prelude::*;
use crate::text::{chars_of, hex_value, is_hex_digit, utf8_len};

verus! {

/// The number of `#` at the start of `s`.
pub open spec fn leading_hashes(s: Seq<char>) -> int
    decreases s.len(),
{
    if s.len() > 0 && s[0] == '#' {
        1 + leading_hashes(s.drop_first())
    } else {
        0
    }
}

/// `s` without its leading `#`s.
pub open spec fn strip_hashes(s: Seq<char>) -> Seq<char> {
    s.skip(leading_hashes(s))
}

pub open spec fn all_ascii(s: Seq<char>) -> bool {
    forall|i: int| 0 <= i < s.len() ==> (#[trigger] s[i] as u32) < 0x80
}

/// `u8::from_str_radix(.., 16)` accepts the two characters: two
/// hexadecimal digits, or `+` and one.
pub open spec fn pair_ok(a: char, b: char) -> bool {
    is_hex_digit(b) && (is_hex_digit(a) || a == '+')
}

pub open spec fn pair_value(a: char, b: char) -> u8 {
    if a == '+' {
        hex_value(b) as u8
    } else {
        (16 * hex_value(a) + hex_value(b)) as u8
    }
}

/// Byte `k` of the UTF-8 form of `s` starts a character.
pub open spec fn is_char_boundary(s: Seq<char>, k: int) -> bool {
    exists|i: int| 0 <= i <= s.len() && #[trigger] utf8_len(s.take(i)) == k
}

/// Slicing the color text by bytes stays on character boundaries.
pub open spec fn hex_color_sliceable(color: Option<Seq<char>>) -> bool {
    match color {
        None => true,
        Some(s) => {
            let h = strip_hashes(s);
            &&& utf8_len(h) == 6 ==> is_char_boundary(h, 2) && is_char_boundary(h, 4)
            &&& utf8_len(h) == 3 ==> all_ascii(h)
        },
    }
}

/// The color a custom color text gives: `#RRGGBB` (any number of leading
/// `#`), or `#RGB` with each digit doubled; black for anything else or no
/// text.
pub open spec fn spec_hex_color(color: Option<Seq<char>>) -> (u8, u8, u8) {
    match color {
        None => (0, 0, 0),
        Some(s) => {
            let h = strip_hashes(s);
            if all_ascii(h) && h.len() == 6 && pair_ok(h[0], h[1]) && pair_ok(h[2], h[3]) && pair_ok(h[4], h[5]) {
                (pair_value(h[0], h[1]), pair_value(h[2], h[3]), pair_value(h[4], h[5]))
            } else if all_ascii(h) && h.len() == 3 && is_hex_digit(h[0]) && is_hex_digit(h[1]) && is_hex_digit(h[2]) {
                ((hex_value(h[0]) * 17) as u8, (hex_value(h[1]) * 17) as u8, (hex_value(h[2]) * 17) as u8)
            } else {
                (0, 0, 0)
            }
        },
    }
}

fn is_hex(c: char) -> (r: bool)
    ensures
        r == is_hex_digit(c),
{
    ('0' <= c && c <= '9') || ('a' <= c && c <= 'f') || ('A' <= c && c <= 'F')
}

fn hex_val(c: char) -> (v: u8)
    requires
        is_hex_digit(c),
    ensures
        v == hex_value(c),
        v < 16,
{
    if '0' <= c && c <= '9' {
        ((c as u32) - 48) as u8
    } else if 'a' <= c && c <= 'f' {
        ((c as u32) - 87) as u8
    } else {
        ((c as u32) - 55) as u8
    }
}

fn pair(a: char, b: char) -> (r: Option<u8>)
    ensures
        r == (if pair_ok(a, b) {
            Some(pair_value(a, b))
        } else {
            None
        }),
{
    if !is_hex(b) {
        return None;
    }
    if a == '+' {
        return Some(hex_val(b));
    }
    if !is_hex(a) {
        return None;
    }
    Some(16 * hex_val(a) + hex_val(b))
}

/// Parses a custom color (see `spec_hex_color`).
pub fn parse_hex_color(color: &Option<String>) -> (rgb: (u8, u8, u8))
    requires
        hex_color_sliceable(
            match color {
                Some(s) => Some(s@),
                None => None,
            },
        ),
    ensures
        rgb == spec_hex_color(
            match color {
                Some(s) => Some(s@),
                None => None,
            },
        ),
{
    let s = match color {
        Some(s) => s,
        None => {
            return (0, 0, 0);
        },
    };
    let c = chars_of(s.as_str());
    let n = c.len();
    let mut k: usize = 0;
    proof {
        assert(c@.skip(0) =~= c@);
    }
    while k < n && c[k] == '#'
        invariant
            n == c@.len(),
            k <= n,
            leading_hashes(c@) == k + leading_hashes(c@.skip(k as int)),
        decreases n - k,
    {
        proof {
            assert(c@.skip(k as int).drop_first() =~= c@.skip(k + 1));
        }
        k = k + 1;
    }
    proof {
        if k < n {
            assert(c@.skip(k as int)[0] != '#');
        } else {
            assert(c@.skip(k as int).len() == 0);
        }
        assert(leading_hashes(c@) == k);
    }
    let ghost h = c@.skip(k as int);
    let mut ascii = true;
    let mut j: usize = k;
    while j < n
        invariant
            n == c@.len(),
            k <= j <= n,
            h == c@.skip(k as int),
            ascii == (forall|i: int| 0 <= i < j - k ==> (#[trigger] h[i] as u32) < 0x80),
        decreases n - j,
    {
        if (c[j] as u32) >= 0x80 {
            ascii = false;
            proof {
                assert(h[j - k] == c@[j as int]);
            }
        } else {
            proof {
                assert(h[j - k] == c@[j as int]);
            }
        }
        j = j + 1;
    }
    proof {
        assert(ascii == all_ascii(h));
    }
    let len = n - k;
    if ascii && len == 6 {
        let r = pair(c[k], c[k + 1]);
        let g = pair(c[k + 2], c[k + 3]);
        let b = pair(c[k + 4], c[k + 5]);
        proof {
            assert(h[0] == c@[k as int] && h[1] == c@[k + 1] && h[2] == c@[k + 2]);
            assert(h[3] == c@[k + 3] && h[4] == c@[k + 4] && h[5] == c@[k + 5]);
        }
        match (r, g, b) {
            (Some(r), Some(g), Some(b)) => {
                return (r, g, b);
            },
            _ => {
                return (0, 0, 0);
            },
        }
    }
    if ascii && len == 3 && is_hex(c[k]) && is_hex(c[k + 1]) && is_hex(c[k + 2]) {
        proof {
            assert(h[0] == c@[k as int] && h[1] == c@[k + 1] && h[2] == c@[k + 2]);
        }
        return (hex_val(c[k]) * 17, hex_val(c[k + 1]) * 17, hex_val(c[k + 2]) * 17);
    }
    proof {
        if ascii && len == 3 {
            assert(h[0] == c@[k as int] && h[1] == c@[k + 1] && h[2] == c@[k + 2]);
        }
    }
    (0, 0, 0)
}

/// A three-digit color is its six-digit form with each digit doubled.
pub proof fn law_short_color_doubles_digits(r: char, g: char, b: char)
    requires
        is_hex_digit(r),
        is_hex_digit(g),
        is_hex_digit(b),
    ensures
        spec_hex_color(Some(seq!['#', r, g, b])) == spec_hex_color(Some(seq!['#', r, r, g, g, b, b])),
{
    let s3 = seq!['#', r, g, b];
    let s6 = seq!['#', r, r, g, g, b, b];
    assert(leading_hashes(seq![r, g, b]) == 0);
    assert(leading_hashes(seq![r, r, g, g, b, b]) == 0);
    assert(leading_hashes(s3) == 1) by {
        assert(s3.drop_first() =~= seq![r, g, b]);
    }
    assert(leading_hashes(s6) == 1) by {
        assert(s6.drop_first() =~= seq![r, r, g, g, b, b]);
    }
    assert(strip_hashes(s3) =~= seq![r, g, b]);
    assert(strip_hashes(s6) =~= seq![r, r, g, g, b, b]);
}

} // verus!
