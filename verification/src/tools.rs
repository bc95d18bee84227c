//! Decoding of `^GF` graphic field data.

use vstd::prelude::*;
use crate::text::{hex_value, is_hex_digit};

verus! {

/// Largest number of nibbles a graphic field may expand to.
pub const MAX_GRAPHIC_NIBBLES: u64 = 0x0800_0000;

/// One character of ASCII-hex graphic data applied to the nibbles decoded
/// so far and the pending repeat count, for rows of `rowlen` nibbles; `None`
/// once the data would expand beyond the limit.
///
/// A hexadecimal digit adds one nibble, or as many as the pending repeat
/// count; `G`..`Y` add 1..19 to the count and `g`..`z` add 20..400; a comma
/// fills the current row with zeros, `!` with ones, and `:` at the start of
/// a row repeats the previous row. Other characters are skipped.
pub open spec fn decode_step(st: (Seq<u8>, nat), c: char, rowlen: nat) -> Option<(Seq<u8>, nat)> {
    let (nibs, count) = st;
    if is_hex_digit(c) {
        let reps: nat = if count == 0 {
            1
        } else {
            count
        };
        if nibs.len() + reps > MAX_GRAPHIC_NIBBLES {
            None
        } else {
            Some((nibs + Seq::new(reps, |i: int| hex_value(c) as u8), 0))
        }
    } else if 'G' <= c <= 'Y' {
        let k: nat = ((c as u32) - 70) as nat;
        if count + k > MAX_GRAPHIC_NIBBLES {
            None
        } else {
            Some((nibs, count + k))
        }
    } else if 'g' <= c <= 'z' {
        let k: nat = (((c as u32) - 102) * 20) as nat;
        if count + k > MAX_GRAPHIC_NIBBLES {
            None
        } else {
            Some((nibs, count + k))
        }
    } else if (c == ',' || c == '!') && rowlen > 0 {
        let fill: nat = (rowlen - nibs.len() % rowlen) as nat;
        let v: u8 = if c == ',' {
            0
        } else {
            15
        };
        if nibs.len() + fill > MAX_GRAPHIC_NIBBLES {
            None
        } else {
            Some((nibs + Seq::new(fill, |i: int| v), 0))
        }
    } else if c == ':' && rowlen > 0 && nibs.len() >= rowlen && nibs.len() % rowlen == 0 {
        if nibs.len() + rowlen > MAX_GRAPHIC_NIBBLES {
            None
        } else {
            Some((nibs + nibs.subrange(nibs.len() - rowlen, nibs.len() as int), 0))
        }
    } else {
        Some(st)
    }
}

/// The nibbles and pending count after all of `data`.
pub open spec fn decode_nibbles(data: Seq<char>, rowlen: nat) -> Option<(Seq<u8>, nat)>
    decreases data.len(),
{
    if data.len() == 0 {
        Some((Seq::empty(), 0))
    } else {
        match decode_nibbles(data.drop_last(), rowlen) {
            Some(st) => decode_step(st, data.last(), rowlen),
            None => None,
        }
    }
}

/// Nibbles packed into bytes, high nibble first; a lone last nibble is the
/// high half of the last byte.
pub open spec fn pack_nibbles(n: Seq<u8>) -> Seq<u8> {
    Seq::new(
        ((n.len() + 1) / 2) as nat,
        |i: int|
            (n[2 * i] * 16 + if 2 * i + 1 < n.len() {
                n[2 * i + 1]
            } else {
                0u8
            }) as u8,
    )
}

/// The bitmap bytes of ASCII-hex graphic data with rows of `bytes_per_row`
/// bytes, or `None` when it expands beyond the limit.
pub open spec fn spec_zpl_decode(data: Seq<char>, bytes_per_row: u32) -> Option<Seq<u8>> {
    match decode_nibbles(data, 2 * bytes_per_row as nat) {
        Some(st) => Some(pack_nibbles(st.0)),
        None => None,
    }
}

pub proof fn lemma_decode_none_extends(data: Seq<char>, i: int, rowlen: nat)
    requires
        0 <= i <= data.len(),
        decode_nibbles(data.subrange(0, i), rowlen) is None,
    ensures
        decode_nibbles(data, rowlen) is None,
    decreases data.len() - i,
{
    if i < data.len() {
        assert(data.subrange(0, i + 1).drop_last() =~= data.subrange(0, i));
        lemma_decode_none_extends(data, i + 1, rowlen);
    } else {
        assert(data.subrange(0, i) =~= data);
    }
}

fn hex_nibble(c: char) -> (v: u8)
    requires
        is_hex_digit(c),
    ensures
        v == hex_value(c),
        v < 16,
{
    if '0' <= c && c <= '9' {
        ((c as u32) - 48) as u8
    } else if 'a' <= c && c <= 'f' {
        ((c as u32) - 87) as u8
    } else {
        ((c as u32) - 55) as u8
    }
}

fn push_repeated(v: &mut Vec<u8>, x: u8, n: u64)
    requires
        old(v)@.len() + n <= MAX_GRAPHIC_NIBBLES,
    ensures
        final(v)@ == old(v)@ + Seq::new(n as nat, |i: int| x),
{
    let ghost start = v@;
    let mut k: u64 = 0;
    while k < n
        invariant
            k <= n,
            start.len() + n <= MAX_GRAPHIC_NIBBLES,
            v@ =~= start + Seq::new(k as nat, |i: int| x),
        decreases n - k,
    {
        v.push(x);
        k = k + 1;
    }
}

/// Decodes ASCII-hex graphic data with rows of `bytes_per_row` bytes.
pub fn zpl_decode(data: &str, bytes_per_row: u32) -> (r: Option<Vec<u8>>)
    ensures
        match spec_zpl_decode(data@, bytes_per_row) {
            Some(b) => r matches Some(v) && v@ == b,
            None => r is None,
        },
{
    let chars = crate::text::chars_of(data);
    let rowlen: u64 = 2 * (bytes_per_row as u64);
    let mut nibs: Vec<u8> = Vec::new();
    let mut count: u64 = 0;
    let mut i: usize = 0;
    proof {
        assert(chars@.subrange(0, 0) =~= Seq::<char>::empty());
    }
    while i < chars.len()
        invariant
            i <= chars@.len(),
            chars@ == data@,
            rowlen == 2 * bytes_per_row as nat,
            decode_nibbles(chars@.subrange(0, i as int), rowlen as nat) == Some((nibs@, count as nat)),
            nibs@.len() <= MAX_GRAPHIC_NIBBLES,
            count <= MAX_GRAPHIC_NIBBLES,
            forall|t: int| 0 <= t < nibs@.len() ==> #[trigger] nibs@[t] < 16,
        decreases chars@.len() - i,
    {
        let c = chars[i];
        proof {
            assert(chars@.subrange(0, i + 1).drop_last() =~= chars@.subrange(0, i as int));
        }
        let len = nibs.len() as u64;
        if crate::text::is_hex_digit_char(c) {
            let reps: u64 = if count == 0 {
                1
            } else {
                count
            };
            if len + reps > MAX_GRAPHIC_NIBBLES {
                proof {
                    lemma_decode_none_extends(chars@, i + 1, rowlen as nat);
                }
                return None;
            }
            let h = hex_nibble(c);
            push_repeated(&mut nibs, h, reps);
            count = 0;
        } else if 'G' <= c && c <= 'Y' {
            let k = ((c as u32) - 70) as u64;
            if count + k > MAX_GRAPHIC_NIBBLES {
                proof {
                    lemma_decode_none_extends(chars@, i + 1, rowlen as nat);
                }
                return None;
            }
            count = count + k;
        } else if 'g' <= c && c <= 'z' {
            let k = (((c as u32) - 102) * 20) as u64;
            if count + k > MAX_GRAPHIC_NIBBLES {
                proof {
                    lemma_decode_none_extends(chars@, i + 1, rowlen as nat);
                }
                return None;
            }
            count = count + k;
        } else if (c == ',' || c == '!') && rowlen > 0 {
            let fill: u64 = rowlen - len % rowlen;
            if len + fill > MAX_GRAPHIC_NIBBLES {
                proof {
                    lemma_decode_none_extends(chars@, i + 1, rowlen as nat);
                }
                return None;
            }
            let v: u8 = if c == ',' {
                0
            } else {
                15
            };
            push_repeated(&mut nibs, v, fill);
            count = 0;
        } else if c == ':' && rowlen > 0 && len >= rowlen && len % rowlen == 0 {
            if len + rowlen > MAX_GRAPHIC_NIBBLES {
                proof {
                    lemma_decode_none_extends(chars@, i + 1, rowlen as nat);
                }
                return None;
            }
            let ghost before = nibs@;
            let start = (len - rowlen) as usize;
            let end = nibs.len();
            let mut j: usize = start;
            while j < end
                invariant
                    start <= j <= end,
                    end == before.len(),
                    before.len() + rowlen <= MAX_GRAPHIC_NIBBLES,
                    start as int == before.len() - rowlen,
                    nibs@ =~= before + before.subrange(start as int, j as int),
                    forall|t: int| 0 <= t < before.len() ==> #[trigger] before[t] < 16,
                decreases end - j,
            {
                let x = nibs[j];
                nibs.push(x);
                j = j + 1;
            }
            count = 0;
        }
        i = i + 1;
    }
    proof {
        assert(chars@.subrange(0, i as int) =~= chars@);
    }
    let mut out: Vec<u8> = Vec::new();
    let mut k: usize = 0;
    let n = nibs.len();
    while k < n
        invariant
            k <= n + 1,
            n == nibs@.len(),
            n <= MAX_GRAPHIC_NIBBLES,
            k % 2 == 0,
            out@.len() == k / 2,
            forall|t: int| 0 <= t < out@.len() ==> #[trigger] out@[t] == pack_nibbles(nibs@)[t],
            forall|t: int| 0 <= t < n ==> #[trigger] nibs@[t] < 16,
        decreases n + 1 - k,
    {
        let hi = nibs[k];
        let lo: u8 = if k + 1 < n {
            nibs[k + 1]
        } else {
            0
        };
        out.push(hi * 16 + lo);
        k = k + 2;
    }
    proof {
        assert(out@ =~= pack_nibbles(nibs@));
    }
    Some(out)
}

} // verus!
