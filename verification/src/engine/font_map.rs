//! ZPL font identifiers and the ranges a registered font is assigned to.

use vstd::prelude::*;

verus! {

/// The ZPL font identifiers, in order: A to Z, then 0 to 9.
pub const FONT_MAP: [char; 36] = [
    'A', 'B', 'C', 'D', 'E', 'F', 'G', 'H', 'I', 'J', 'K', 'L', 'M', 'N', 'O', 'P', 'Q', 'R', 'S',
    'T', 'U', 'V', 'W', 'X', 'Y', 'Z', '0', '1', '2', '3', '4', '5', '6', '7', '8', '9',
];

/// The position of `c` among the identifiers, from `i` on.
pub open spec fn font_index_from(c: char, i: int) -> Option<int>
    decreases 36 - i,
{
    if i < 0 || i >= 36 {
        None
    } else if FONT_MAP@[i] == c {
        Some(i)
    } else {
        font_index_from(c, i + 1)
    }
}

/// The identifiers from `from` to `to` in the order above; none when either
/// is not an identifier or `to` comes before `from`.
pub open spec fn spec_font_range(from: char, to: char) -> Seq<char> {
    match (font_index_from(from, 0), font_index_from(to, 0)) {
        (Some(a), Some(b)) => if a <= b {
            FONT_MAP@.subrange(a, b + 1)
        } else {
            Seq::empty()
        },
        _ => Seq::empty(),
    }
}

pub proof fn lemma_font_index_bounds(c: char, i: int)
    requires
        0 <= i,
    ensures
        font_index_from(c, i) matches Some(k) ==> i <= k < 36 && FONT_MAP@[k] == c,
    decreases 36 - i,
{
    if i < 36 && FONT_MAP@[i] != c {
        lemma_font_index_bounds(c, i + 1);
    }
}

fn font_position(c: char) -> (r: Option<usize>)
    ensures
        r == match font_index_from(c, 0) {
            Some(k) => Some(k as usize),
            None => None::<usize>,
        },
        r matches Some(k) ==> k < 36,
{
    proof {
        lemma_font_index_bounds(c, 0);
    }
    let mut i: usize = 0;
    while i < 36
        invariant
            i <= 36,
            font_index_from(c, 0) == font_index_from(c, i as int),
        decreases 36 - i,
    {
        if FONT_MAP[i] == c {
            return Some(i);
        }
        i = i + 1;
    }
    None
}

/// The identifiers a font registered for `from` to `to` is assigned to.
pub fn font_range(from: char, to: char) -> (r: Vec<char>)
    ensures
        r@ == spec_font_range(from, to),
{
    let mut r: Vec<char> = Vec::new();
    proof {
        lemma_font_index_bounds(from, 0);
        lemma_font_index_bounds(to, 0);
    }
    let a = font_position(from);
    let b = font_position(to);
    match (a, b) {
        (Some(a), Some(b)) => {
            if a <= b {
                let mut k: usize = a;
                while k <= b
                    invariant
                        a <= k <= b + 1,
                        b < 36,
                        r@ == FONT_MAP@.subrange(a as int, k as int),
                    decreases b + 1 - k,
                {
                    r.push(FONT_MAP[k]);
                    proof {
                        assert(r@ =~= FONT_MAP@.subrange(a as int, k + 1));
                    }
                    k = k + 1;
                }
            }
        },
        _ => {},
    }
    r
}

} // verus!
