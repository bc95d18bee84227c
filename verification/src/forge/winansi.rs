//! The WinAnsi (CP1252) encoding of the text a PDF shows with its
//! embedded fonts, and the ToUnicode map that lets readers copy that text.

use vstd::prelude::*;
use crate::text::{append_all, chars_of, decimal_chars, decimal_digits, hex_padded, hex_padded_chars, push_str, string_of};

verus! {

/// Unicode characters of the CP1252 codes 0x80 to 0x9F (`\u{0}` where the
/// code is undefined).
pub const CP1252_80_9F: [char; 32] = [
    '\u{20AC}',
    '\u{0}',
    '\u{201A}',
    '\u{0192}',
    '\u{201E}',
    '\u{2026}',
    '\u{2020}',
    '\u{2021}',
    '\u{02C6}',
    '\u{2030}',
    '\u{0160}',
    '\u{2039}',
    '\u{0152}',
    '\u{0}',
    '\u{017D}',
    '\u{0}',
    '\u{0}',
    '\u{2018}',
    '\u{2019}',
    '\u{201C}',
    '\u{201D}',
    '\u{2022}',
    '\u{2013}',
    '\u{2014}',
    '\u{02DC}',
    '\u{2122}',
    '\u{0161}',
    '\u{203A}',
    '\u{0153}',
    '\u{0}',
    '\u{017E}',
    '\u{0178}',
];

/// The character a WinAnsi byte stands for: itself from 0x20 to 0x7E and
/// from 0xA0 up, the CP1252 table from 0x80 to 0x9F; nothing for control
/// codes and the five undefined codes.
pub open spec fn spec_winansi_to_char(code: u8) -> Option<char> {
    if (0x20 <= code <= 0x7E) || 0xA0 <= code {
        Some(code as char)
    } else if 0x80 <= code <= 0x9F {
        let c = CP1252_80_9F@[code - 0x80];
        if c == '\u{0}' {
            None
        } else {
            Some(c)
        }
    } else {
        None
    }
}

/// The first position at or after `i` of `c` in the CP1252 table.
pub open spec fn cp1252_index(c: char, i: int) -> Option<int>
    decreases 32 - i,
{
    if i < 0 || i >= 32 {
        None
    } else if CP1252_80_9F@[i] == c && c != '\u{0}' {
        Some(i)
    } else {
        cp1252_index(c, i + 1)
    }
}

/// The WinAnsi byte of a character, when it has one.
pub open spec fn spec_char_to_winansi(c: char) -> Option<u8> {
    let cp = c as u32;
    if (0x20 <= cp <= 0x7E) || (0xA0 <= cp <= 0xFF) {
        Some(cp as u8)
    } else {
        match cp1252_index(c, 0) {
            Some(i) => Some((0x80 + i) as u8),
            None => None,
        }
    }
}

/// Decodes a WinAnsi byte.
pub fn winansi_to_char(code: u8) -> (r: Option<char>)
    ensures
        r == spec_winansi_to_char(code),
{
    if (0x20 <= code && code <= 0x7E) || 0xA0 <= code {
        Some(code as char)
    } else if 0x80 <= code && code <= 0x9F {
        let c = CP1252_80_9F[(code - 0x80) as usize];
        if c == '\u{0}' {
            None
        } else {
            Some(c)
        }
    } else {
        None
    }
}

/// Encodes a character as its WinAnsi byte, when it has one.
pub fn char_to_winansi(c: char) -> (r: Option<u8>)
    ensures
        r == spec_char_to_winansi(c),
{
    let cp = c as u32;
    if (0x20 <= cp && cp <= 0x7E) || (0xA0 <= cp && cp <= 0xFF) {
        return Some(cp as u8);
    }
    let mut i: usize = 0;
    while i < 32
        invariant
            i <= 32,
            cp1252_index(c, 0) == cp1252_index(c, i as int),
        decreases 32 - i,
    {
        if CP1252_80_9F[i] == c && c != '\u{0}' {
            return Some((0x80 + i) as u8);
        }
        i = i + 1;
    }
    None
}

pub proof fn lemma_cp1252_index_found(c: char, k: int)
    requires
        0 <= k,
    ensures
        cp1252_index(c, k) matches Some(i) ==> k <= i < 32 && CP1252_80_9F@[i] == c && c != '\u{0}',
    decreases 32 - k,
{
    if k < 32 && !(CP1252_80_9F@[k] == c && c != '\u{0}') {
        lemma_cp1252_index_found(c, k + 1);
    }
}

/// Each defined entry of the CP1252 table is found at its own position,
/// and lies above Latin-1.
pub proof fn lemma_cp1252_entries()
    ensures
        forall|i: int|
            0 <= i < 32 && #[trigger] CP1252_80_9F@[i] != '\u{0}' ==> cp1252_index(CP1252_80_9F@[i], 0) == Some(i)
                && CP1252_80_9F@[i] as u32 > 0xFF,
{
    reveal_with_fuel(cp1252_index, 33);
}

/// Encoding then decoding a character gives it back.
pub proof fn law_winansi_char_round_trip(c: char)
    ensures
        spec_char_to_winansi(c) matches Some(b) ==> spec_winansi_to_char(b) == Some(c),
{
    lemma_cp1252_index_found(c, 0);
}

/// Decoding then encoding a byte gives it back.
pub proof fn law_winansi_byte_round_trip(b: u8)
    ensures
        spec_winansi_to_char(b) matches Some(c) ==> spec_char_to_winansi(c) == Some(b),
{
    lemma_cp1252_entries();
    if 0x80 <= b <= 0x9F {
        let i = b - 0x80;
        assert(CP1252_80_9F@[i] == CP1252_80_9F@[i]);
    }
}

/// The WinAnsi codes from `code` to 0xFF that stand for a character, with
/// that character, in order.
pub open spec fn cmap_entries_from(code: int) -> Seq<(u8, char)>
    decreases 0x100 - code,
{
    if code < 0 || code > 0xFF {
        Seq::empty()
    } else {
        let rest = cmap_entries_from(code + 1);
        match spec_winansi_to_char(code as u8) {
            Some(c) => seq![(code as u8, c)] + rest,
            None => rest,
        }
    }
}

/// One `bfchar` line: `<code> <unicode>` in upper-case hexadecimal.
pub open spec fn bfchar_line(e: (u8, char)) -> Seq<char> {
    "<"@ + hex_padded((e.0 as u32) as nat, 2) + "> <"@ + hex_padded((e.1 as u32) as nat, 4) + ">\n"@
}

pub open spec fn bfchar_lines(es: Seq<(u8, char)>) -> Seq<char>
    decreases es.len(),
{
    if es.len() == 0 {
        Seq::empty()
    } else {
        bfchar_line(es[0]) + bfchar_lines(es.drop_first())
    }
}

/// The entries as `beginbfchar` blocks of at most 100 lines.
pub open spec fn cmap_chunks(es: Seq<(u8, char)>) -> Seq<char>
    decreases es.len(),
{
    if es.len() == 0 {
        Seq::empty()
    } else {
        let k: int = if es.len() < 100 {
            es.len() as int
        } else {
            100
        };
        decimal_digits(k as nat) + " beginbfchar\n"@ + bfchar_lines(es.take(k)) + "endbfchar\n"@
            + cmap_chunks(es.skip(k))
    }
}

pub open spec fn cmap_header() -> Seq<char> {
    "/CIDInit /ProcSet findresource begin\n12 dict begin\nbegincmap\n/CIDSystemInfo << /Registry (Adobe) /Ordering (UCS) /Supplement 0 >> def\n/CMapName /Adobe-Identity-UCS def\n/CMapType 2 def\n1 begincodespacerange\n<20> <FF>\nendcodespacerange\n"@
}

pub open spec fn cmap_footer() -> Seq<char> {
    "endcmap\nCMapName currentdict /CMap defineresource pop\nend\nend\n"@
}

/// The ToUnicode CMap of the WinAnsi codes 0x20 to 0xFF.
pub open spec fn spec_tounicode_cmap() -> Seq<char> {
    cmap_header() + cmap_chunks(cmap_entries_from(0x20)) + cmap_footer()
}

fn push_hex(v: &mut Vec<char>, n: u32, width: u32)
    ensures
        final(v)@ == old(v)@ + hex_padded(n as nat, width as nat),
{
    let d = hex_padded_chars(n, width);
    append_all(v, d.as_slice());
}

/// Builds the text of the ToUnicode CMap for the WinAnsi code range, for
/// the PDF fonts that show WinAnsi bytes.
pub fn build_tounicode_cmap() -> (s: String)
    ensures
        s@ == spec_tounicode_cmap(),
{
    let mut entries: Vec<(u8, char)> = Vec::new();
    let mut code: u32 = 0x20;
    while code <= 0xFF
        invariant
            0x20 <= code <= 0x100,
            entries@ + cmap_entries_from(code as int) == cmap_entries_from(0x20),
        decreases 0x100 - code,
    {
        let ghost before = entries@;
        match winansi_to_char(code as u8) {
            Some(c) => {
                entries.push((code as u8, c));
                proof {
                    assert(before + (seq![(code as u8, c)] + cmap_entries_from(code + 1)) =~= entries@
                        + cmap_entries_from(code + 1));
                }
            },
            None => {},
        }
        code = code + 1;
    }
    proof {
        assert(cmap_entries_from(0x100) == Seq::<(u8, char)>::empty());
        assert(entries@ + Seq::<(u8, char)>::empty() =~= entries@);
    }
    let ghost es = entries@;
    let n = entries.len();
    let mut out: Vec<char> = Vec::new();
    push_str(&mut out, "/CIDInit /ProcSet findresource begin\n12 dict begin\nbegincmap\n/CIDSystemInfo << /Registry (Adobe) /Ordering (UCS) /Supplement 0 >> def\n/CMapName /Adobe-Identity-UCS def\n/CMapType 2 def\n1 begincodespacerange\n<20> <FF>\nendcodespacerange\n");
    let ghost head = out@;
    let mut pos: usize = 0;
    proof {
        assert(es.skip(0) =~= es);
    }
    while pos < n
        invariant
            n == es.len(),
            es == entries@,
            pos <= n,
            head + cmap_chunks(es) == out@ + cmap_chunks(es.skip(pos as int)),
        decreases n - pos,
    {
        let k: usize = if n - pos < 100 {
            n - pos
        } else {
            100
        };
        let ghost rest = es.skip(pos as int);
        let ghost before = out@;
        let d = decimal_chars(k as u64);
        append_all(&mut out, d.as_slice());
        push_str(&mut out, " beginbfchar\n");
        let ghost mid = out@;
        let mut j: usize = 0;
        proof {
            assert(rest.take(k as int).skip(0) =~= rest.take(k as int));
        }
        while j < k
            invariant
                n == es.len(),
                es == entries@,
                pos + k <= n,
                j <= k,
                rest == es.skip(pos as int),
                mid + bfchar_lines(rest.take(k as int)) == out@ + bfchar_lines(rest.take(k as int).skip(j as int)),
            decreases k - j,
        {
            let (b, c) = entries[pos + j];
            let ghost lb = out@;
            proof {
                let t = rest.take(k as int).skip(j as int);
                assert(t[0] == (b, c));
                assert(t.drop_first() =~= rest.take(k as int).skip(j + 1));
            }
            push_str(&mut out, "<");
            push_hex(&mut out, b as u32, 2);
            push_str(&mut out, "> <");
            push_hex(&mut out, c as u32, 4);
            push_str(&mut out, ">\n");
            proof {
                assert(out@ =~= lb + bfchar_line((b, c)));
                let t = rest.take(k as int).skip(j as int);
                assert(bfchar_lines(t) == bfchar_line((b, c)) + bfchar_lines(rest.take(k as int).skip(j + 1)));
                assert(lb + bfchar_lines(t) =~= out@ + bfchar_lines(rest.take(k as int).skip(j + 1)));
            }
            j = j + 1;
        }
        push_str(&mut out, "endbfchar\n");
        proof {
            assert(rest.take(k as int).skip(k as int) =~= Seq::<(u8, char)>::empty());
            assert(rest.skip(k as int) =~= es.skip(pos + k));
            assert(cmap_chunks(rest) == decimal_digits(k as nat) + " beginbfchar\n"@ + bfchar_lines(rest.take(k as int))
                + "endbfchar\n"@ + cmap_chunks(rest.skip(k as int)));
            assert(before + cmap_chunks(rest) =~= out@ + cmap_chunks(es.skip(pos + k)));
        }
        pos = pos + k;
    }
    push_str(&mut out, "endcmap\nCMapName currentdict /CMap defineresource pop\nend\nend\n");
    proof {
        assert(es.skip(n as int) =~= Seq::<(u8, char)>::empty());
        assert(out@ =~= spec_tounicode_cmap());
    }
    string_of(out.as_slice())
}

/// The UTF-16 code units of a character.
pub open spec fn utf16_of(c: char) -> Seq<u16> {
    let u = c as u32;
    if u < 0x10000 {
        seq![u as u16]
    } else {
        seq![(0xD800 + (u - 0x10000) / 0x400) as u16, (0xDC00 + (u - 0x10000) % 0x400) as u16]
    }
}

/// The UTF-16 code units of `s`, each as four upper-case hexadecimal
/// digits.
pub open spec fn utf16_hex(s: Seq<char>) -> Seq<char>
    decreases s.len(),
{
    if s.len() == 0 {
        Seq::empty()
    } else {
        let units = utf16_of(s.last());
        utf16_hex(s.drop_last()) + if units.len() == 1 {
            hex_padded(units[0] as nat, 4)
        } else {
            hex_padded(units[0] as nat, 4) + hex_padded(units[1] as nat, 4)
        }
    }
}

/// The `bfchar` lines of the entries with source text: `<cid> <utf16>`.
pub open spec fn cid_lines(es: Seq<(u16, Seq<char>)>) -> Seq<char>
    decreases es.len(),
{
    if es.len() == 0 {
        Seq::empty()
    } else {
        let e = es.last();
        cid_lines(es.drop_last()) + if e.1.len() == 0 {
            Seq::<char>::empty()
        } else {
            "<"@ + hex_padded(e.0 as nat, 4) + "> <"@ + utf16_hex(e.1) + ">\n"@
        }
    }
}

/// How many entries have source text.
pub open spec fn mapped_count(es: Seq<(u16, Seq<char>)>) -> nat
    decreases es.len(),
{
    if es.len() == 0 {
        0
    } else {
        mapped_count(es.drop_last()) + if es.last().1.len() == 0 {
            0nat
        } else {
            1nat
        }
    }
}

/// The entries as blocks of at most 100, each block with its mapped
/// entries (none when it has no mapped entry).
pub open spec fn cid_chunks(es: Seq<(u16, Seq<char>)>) -> Seq<char>
    decreases es.len(),
{
    if es.len() == 0 {
        Seq::empty()
    } else {
        let k: int = if es.len() < 100 {
            es.len() as int
        } else {
            100
        };
        let chunk = es.take(k);
        let m = mapped_count(chunk);
        (if m > 0 {
            decimal_digits(m) + " beginbfchar\n"@ + cid_lines(chunk) + "endbfchar\n"@
        } else {
            Seq::empty()
        }) + cid_chunks(es.skip(k))
    }
}

pub open spec fn cid_cmap_header() -> Seq<char> {
    "/CIDInit /ProcSet findresource begin\n12 dict begin\nbegincmap\n/CIDSystemInfo << /Registry (Adobe) /Ordering (UCS) /Supplement 0 >> def\n/CMapName /Adobe-Identity-UCS def\n/CMapType 2 def\n1 begincodespacerange\n<0000> <FFFF>\nendcodespacerange\n"@
}

/// The ToUnicode CMap of a CID font: for each glyph (by CID) the text it
/// was shaped from.
pub open spec fn spec_cid_cmap(es: Seq<(u16, Seq<char>)>) -> Seq<char> {
    cid_cmap_header() + cid_chunks(es) + cmap_footer()
}

fn push_utf16_hex(v: &mut Vec<char>, c: char)
    ensures
        final(v)@ == old(v)@ + (if utf16_of(c).len() == 1 {
            hex_padded(utf16_of(c)[0] as nat, 4)
        } else {
            hex_padded(utf16_of(c)[0] as nat, 4) + hex_padded(utf16_of(c)[1] as nat, 4)
        }),
{
    let u = c as u32;
    if u < 0x10000 {
        push_hex(v, u, 4);
    } else {
        let hi: u32 = 0xD800 + (u - 0x10000) / 0x400;
        let lo: u32 = 0xDC00 + (u - 0x10000) % 0x400;
        proof {
            assert((c as u32) <= 0x10FFFF);
            assert(hi == ((0xD800 + (u - 0x10000) / 0x400) as u16) as nat);
            assert(lo == ((0xDC00 + (u - 0x10000) % 0x400) as u16) as nat);
        }
        let ghost before = v@;
        push_hex(v, hi, 4);
        push_hex(v, lo, 4);
        proof {
            assert(v@ =~= before + (hex_padded(hi as nat, 4) + hex_padded(lo as nat, 4)));
        }
    }
}

fn push_cid_line(out: &mut Vec<char>, cid: u16, src: &Vec<char>)
    requires
        src@.len() > 0,
    ensures
        final(out)@ == old(out)@ + ("<"@ + hex_padded(cid as nat, 4) + "> <"@ + utf16_hex(src@) + ">\n"@),
{
    let ghost start = out@;
    push_str(out, "<");
    push_hex(out, cid as u32, 4);
    push_str(out, "> <");
    let ghost mid = out@;
    let mut i: usize = 0;
    proof {
        assert(src@.take(0) =~= Seq::<char>::empty());
    }
    while i < src.len()
        invariant
            i <= src@.len(),
            out@ == mid + utf16_hex(src@.take(i as int)),
        decreases src@.len() - i,
    {
        proof {
            assert(src@.take(i + 1).drop_last() =~= src@.take(i as int));
        }
        let ghost b = out@;
        push_utf16_hex(out, src[i]);
        proof {
            assert(out@ =~= mid + utf16_hex(src@.take(i + 1)));
        }
        i = i + 1;
    }
    proof {
        assert(src@.take(i as int) =~= src@);
    }
    push_str(out, ">\n");
    proof {
        assert(out@ =~= start + ("<"@ + hex_padded(cid as nat, 4) + "> <"@ + utf16_hex(src@) + ">\n"@));
    }
}

/// Builds the ToUnicode CMap of a CID font from its glyphs, in order, each
/// with its CID and the text it was shaped from (empty for the further
/// glyphs of a cluster, which map to nothing).
#[verifier::spinoff_prover]
#[verifier::rlimit(40)]
pub fn cid_tounicode_cmap(entries: &Vec<(u16, String)>) -> (s: String)
    ensures
        s@ == spec_cid_cmap(entries@.map_values(|e: (u16, String)| (e.0, e.1@))),
{
    let ghost es = entries@.map_values(|e: (u16, String)| (e.0, e.1@));
    let n = entries.len();
    let mut out: Vec<char> = Vec::new();
    push_str(&mut out, "/CIDInit /ProcSet findresource begin\n12 dict begin\nbegincmap\n/CIDSystemInfo << /Registry (Adobe) /Ordering (UCS) /Supplement 0 >> def\n/CMapName /Adobe-Identity-UCS def\n/CMapType 2 def\n1 begincodespacerange\n<0000> <FFFF>\nendcodespacerange\n");
    let ghost head = out@;
    let mut pos: usize = 0;
    proof {
        assert(es.skip(0) =~= es);
    }
    while pos < n
        invariant
            n == entries@.len(),
            es == entries@.map_values(|e: (u16, String)| (e.0, e.1@)),
            pos <= n,
            head + cid_chunks(es) == out@ + cid_chunks(es.skip(pos as int)),
        decreases n - pos,
    {
        let k: usize = if n - pos < 100 {
            n - pos
        } else {
            100
        };
        let ghost rest = es.skip(pos as int);
        let ghost chunk = rest.take(k as int);
        let ghost before = out@;
        let mut srcs: Vec<Vec<char>> = Vec::new();
        let mut m: u64 = 0;
        let mut j: usize = 0;
        proof {
            assert(chunk.take(0) =~= Seq::<(u16, Seq<char>)>::empty());
        }
        while j < k
            invariant
                n == entries@.len(),
                es == entries@.map_values(|e: (u16, String)| (e.0, e.1@)),
                pos + k <= n,
                k <= 100,
                j <= k,
                rest == es.skip(pos as int),
                chunk == rest.take(k as int),
                m == mapped_count(chunk.take(j as int)),
                m <= j,
                srcs@.len() == j,
                forall|i: int| 0 <= i < j ==> #[trigger] srcs@[i]@ == chunk[i].1,
            decreases k - j,
        {
            proof {
                assert(chunk.take(j + 1).drop_last() =~= chunk.take(j as int));
                assert(chunk[j as int] == (entries@[pos + j].0, entries@[pos + j].1@));
            }
            let src = chars_of(entries[pos + j].1.as_str());
            if src.len() > 0 {
                m = m + 1;
            }
            srcs.push(src);
            j = j + 1;
        }
        proof {
            assert(chunk.take(k as int) =~= chunk);
        }
        if m > 0 {
            let d = decimal_chars(m);
            append_all(&mut out, d.as_slice());
            push_str(&mut out, " beginbfchar\n");
            let ghost mid = out@;
            let mut i: usize = 0;
            proof {
                assert(chunk.take(0) =~= Seq::<(u16, Seq<char>)>::empty());
            }
            while i < k
                invariant
                    n == entries@.len(),
                    es == entries@.map_values(|e: (u16, String)| (e.0, e.1@)),
                    pos + k <= n,
                    i <= k,
                    rest == es.skip(pos as int),
                    chunk == rest.take(k as int),
                    srcs@.len() == k,
                    forall|t: int| 0 <= t < k ==> #[trigger] srcs@[t]@ == chunk[t].1,
                    out@ == mid + cid_lines(chunk.take(i as int)),
                decreases k - i,
            {
                proof {
                    assert(chunk.take(i + 1).drop_last() =~= chunk.take(i as int));
                    assert(chunk[i as int] == (entries@[pos + i].0, entries@[pos + i].1@));
                    assert(srcs@[i as int]@ == chunk[i as int].1);
                }
                let cid = entries[pos + i].0;
                if srcs[i].len() > 0 {
                    push_cid_line(&mut out, cid, &srcs[i]);
                    proof {
                        assert(out@ =~= mid + cid_lines(chunk.take(i + 1)));
                    }
                } else {
                    proof {
                        assert(mid + cid_lines(chunk.take(i as int)) =~= mid + cid_lines(chunk.take(i + 1)));
                    }
                }
                i = i + 1;
            }
            push_str(&mut out, "endbfchar\n");
            proof {
                assert(chunk.take(k as int) =~= chunk);
            }
        }
        proof {
            assert(rest.skip(k as int) =~= es.skip(pos + k));
            assert(cid_chunks(rest) == (if mapped_count(chunk) > 0 {
                decimal_digits(mapped_count(chunk)) + " beginbfchar\n"@ + cid_lines(chunk) + "endbfchar\n"@
            } else {
                Seq::<char>::empty()
            }) + cid_chunks(rest.skip(k as int)));
            assert(before + cid_chunks(rest) =~= out@ + cid_chunks(es.skip(pos + k)));
        }
        pos = pos + k;
    }
    push_str(&mut out, "endcmap\nCMapName currentdict /CMap defineresource pop\nend\nend\n");
    proof {
        assert(es.skip(n as int) =~= Seq::<(u16, Seq<char>)>::empty());
        assert(out@ =~= spec_cid_cmap(es));
    }
    string_of(out.as_slice())
}

/// The WinAnsi byte of a character, `?` when it has none.
pub open spec fn winansi_or_question(c: char) -> u8 {
    match spec_char_to_winansi(c) {
        Some(b) => b,
        None => 63,
    }
}

/// A byte inside a PDF string: `(`, `)` and `\` behind a backslash.
pub open spec fn pdf_string_byte(b: u8) -> Seq<u8> {
    if b == 40 || b == 41 || b == 92 {
        seq![92u8, b]
    } else {
        seq![b]
    }
}

pub open spec fn pdf_string_body(s: Seq<char>) -> Seq<u8>
    decreases s.len(),
{
    if s.len() == 0 {
        Seq::empty()
    } else {
        pdf_string_body(s.drop_last()) + pdf_string_byte(winansi_or_question(s.last()))
    }
}

/// The content-stream operation that shows `s` in a WinAnsi font:
/// `(` the escaped bytes `) Tj` and a newline.
pub open spec fn spec_tj_operation(s: Seq<char>) -> Seq<u8> {
    seq![40u8] + pdf_string_body(s) + seq![41u8, 32u8, 84u8, 106u8, 10u8]
}

/// Encodes a text-showing operation: the text as WinAnsi bytes (`?` for
/// characters WinAnsi lacks), escaped inside a PDF string, then `Tj`.
pub fn tj_operation(text: &str) -> (out: Vec<u8>)
    ensures
        out@ == spec_tj_operation(text@),
{
    let c = chars_of(text);
    let mut out: Vec<u8> = Vec::new();
    out.push(40u8);
    let mut i: usize = 0;
    proof {
        assert(c@.take(0) =~= Seq::<char>::empty());
    }
    while i < c.len()
        invariant
            i <= c@.len(),
            out@ == seq![40u8] + pdf_string_body(c@.take(i as int)),
        decreases c@.len() - i,
    {
        proof {
            assert(c@.take(i + 1).drop_last() =~= c@.take(i as int));
        }
        let b = match char_to_winansi(c[i]) {
            Some(b) => b,
            None => 63u8,
        };
        let ghost before = out@;
        if b == 40 || b == 41 || b == 92 {
            out.push(92u8);
        }
        out.push(b);
        proof {
            assert(out@ =~= seq![40u8] + pdf_string_body(c@.take(i + 1)));
        }
        i = i + 1;
    }
    proof {
        assert(c@.take(i as int) =~= c@);
    }
    out.push(41u8);
    out.push(32u8);
    out.push(84u8);
    out.push(106u8);
    out.push(10u8);
    proof {
        assert(out@ =~= spec_tj_operation(text@));
    }
    out
}

/// The six letters that name the `k`-th subset of a document: the base-26
/// digits of `ordinal`, least significant first, as `A` to `Z`.
pub open spec fn subset_letters(ordinal: nat, k: nat) -> Seq<char>
    decreases k,
{
    if k == 0 {
        Seq::empty()
    } else {
        seq![((65 + ordinal % 26) as u8) as char] + subset_letters(ordinal / 26, (k - 1) as nat)
    }
}

/// The PostScript name of an embedded font subset: six letters from
/// `ordinal` (see `subset_letters`), then `+ZplSubset`, so that subsets of
/// one document have distinct names without random parts.
pub open spec fn subset_font_name_spec(ordinal: nat) -> Seq<char> {
    subset_letters(ordinal, 6) + "+ZplSubset"@
}

/// The name of the embedded font subset numbered `ordinal`.
pub fn subset_font_name(ordinal: u32) -> (name: String)
    ensures
        name@ == subset_font_name_spec(ordinal as nat),
{
    let mut v: Vec<char> = Vec::new();
    let mut ord: u32 = ordinal;
    let mut i: usize = 0;
    while i < 6
        invariant
            i <= 6,
            v@ + subset_letters(ord as nat, (6 - i) as nat) == subset_letters(ordinal as nat, 6),
        decreases 6 - i,
    {
        let c = ((65 + ord % 26) as u8) as char;
        proof {
            let rest = subset_letters((ord / 26) as nat, (6 - i - 1) as nat);
            assert(subset_letters(ord as nat, (6 - i) as nat) == seq![c] + rest);
            assert(v@.push(c) + rest =~= v@ + (seq![c] + rest));
        }
        v.push(c);
        ord = ord / 26;
        i = i + 1;
    }
    proof {
        assert(subset_letters(ord as nat, 0) =~= Seq::<char>::empty());
        assert(v@ =~= subset_letters(ordinal as nat, 6));
    }
    push_str(&mut v, "+ZplSubset");
    string_of(v.as_slice())
}

} // verus!
