//! `^FB` text blocks: greedy word wrapping and the placement of each line.

use vstd::prelude::*;
use crate::text::{append_all, is_unicode_space, is_unicode_space_char, slice_range, string_of, trim, trimmed_string};
use super::common::TextBlock;
use super::engine::{find_pair, find_pair_exec, lemma_find_pair_bounds};

verus! {

/// A width measure that accepts every text and gives one width per text.
pub open spec fn measure_ok<F: Fn(&str) -> u32>(f: F) -> bool {
    &&& forall|s: &str| #[trigger] f.requires((s,))
    &&& forall|s: &str, t: &str, a: u32, b: u32|
        s@ == t@ && #[trigger] f.ensures((s,), a) && #[trigger] f.ensures((t,), b) ==> a == b
}

/// The width `f` gives the text `s`.
pub open spec fn measured<F: Fn(&str) -> u32>(f: F, s: Seq<char>) -> u32 {
    (choose|t: &str, a: u32| t@ == s && #[trigger] f.ensures((t,), a)).1
}

pub(crate) fn measure_chars<F: Fn(&str) -> u32>(measure: &F, v: &Vec<char>) -> (a: u32)
    requires
        measure_ok(*measure),
    ensures
        a == measured(*measure, v@),
{
    let s = string_of(v.as_slice());
    let t: &str = s.as_str();
    let a = measure(t);
    proof {
        assert(t@ == v@);
        assert(exists|u: &str, b: u32| u@ == v@ && #[trigger] measure.ensures((u,), b)) by {
            assert(measure.ensures((t,), a));
        }
        let (u, b) = choose|u: &str, b: u32| u@ == v@ && #[trigger] measure.ensures((u,), b);
        assert(u@ == t@);
    }
    a
}

// ---------------------------------------------------------------------------
// Splitting
// ---------------------------------------------------------------------------

/// The segments of `s` from `i` on, split at each `\&` (explicit line break).
pub open spec fn segments_from(s: Seq<char>, i: int) -> Seq<Seq<char>>
    decreases s.len() - i,
{
    if i < 0 || i > s.len() {
        Seq::empty()
    } else {
        match find_pair(s, '\\', '&', i) {
            None => seq![s.subrange(i, s.len() as int)],
            Some(p) => if p < i || p + 2 > s.len() {
                Seq::empty()
            } else {
                seq![s.subrange(i, p)] + segments_from(s, p + 2)
            },
        }
    }
}

/// One past the end of the word that starts at `i`.
pub open spec fn word_end(s: Seq<char>, i: int) -> int
    decreases s.len() - i,
{
    if i < 0 || i >= s.len() || is_unicode_space(s[i]) {
        i
    } else {
        word_end(s, i + 1)
    }
}

pub proof fn lemma_word_end_bounds(s: Seq<char>, i: int)
    requires
        0 <= i <= s.len(),
    ensures
        i <= word_end(s, i) <= s.len(),
        forall|k: int| i <= k < word_end(s, i) ==> !is_unicode_space(#[trigger] s[k]),
        word_end(s, i) < s.len() ==> is_unicode_space(s[word_end(s, i)]),
    decreases s.len() - i,
{
    if i < s.len() && !is_unicode_space(s[i]) {
        lemma_word_end_bounds(s, i + 1);
    }
}

/// `str::split_whitespace` from `i` on: the maximal runs of characters
/// that are not white space.
pub open spec fn words_from(s: Seq<char>, i: int) -> Seq<Seq<char>>
    decreases s.len() - i,
{
    if i < 0 || i >= s.len() {
        Seq::empty()
    } else if is_unicode_space(s[i]) {
        words_from(s, i + 1)
    } else {
        let e = word_end(s, i);
        if e <= i || e > s.len() {
            Seq::empty()
        } else {
            seq![s.subrange(i, e)] + words_from(s, e)
        }
    }
}

/// A copy of `v[lo..hi]`.
pub(crate) fn sub_vec(v: &Vec<char>, lo: usize, hi: usize) -> (r: Vec<char>)
    requires
        lo <= hi <= v@.len(),
    ensures
        r@ == v@.subrange(lo as int, hi as int),
{
    let mut r: Vec<char> = Vec::new();
    append_all(&mut r, slice_range(v, lo, hi));
    proof {
        assert(r@ =~= v@.subrange(lo as int, hi as int));
    }
    r
}

pub(crate) fn segments(s: &Vec<char>) -> (out: Vec<Vec<char>>)
    ensures
        out@.map_values(|v: Vec<char>| v@) == segments_from(s@, 0),
{
    let mut out: Vec<Vec<char>> = Vec::new();
    let mut i: usize = 0;
    let n = s.len();
    loop
        invariant
            n == s@.len(),
            i <= s@.len(),
            out@.map_values(|v: Vec<char>| v@) + segments_from(s@, i as int) == segments_from(s@, 0),
        decreases s@.len() - i,
    {
        proof {
            lemma_find_pair_bounds(s@, '\\', '&', i as int);
        }
        let found = find_pair_exec(s, '\\', '&', i);
        match found {
            None => {
                let ghost before = out@.map_values(|v: Vec<char>| v@);
                out.push(sub_vec(s, i, n));
                proof {
                    assert(out@.map_values(|v: Vec<char>| v@) =~= before.push(s@.subrange(i as int, s@.len() as int)));
                    assert(before + segments_from(s@, i as int) =~= out@.map_values(|v: Vec<char>| v@));
                }
                return out;
            },
            Some(p) => {
                let ghost before = out@.map_values(|v: Vec<char>| v@);
                out.push(sub_vec(s, i, p));
                proof {
                    let seg = s@.subrange(i as int, p as int);
                    assert(find_pair(s@, '\\', '&', i as int) == Some(p as int));
                    assert(out@.map_values(|v: Vec<char>| v@) =~= before.push(seg));
                    assert(segments_from(s@, i as int) == seq![seg] + segments_from(s@, p + 2));
                    assert(before + (seq![seg] + segments_from(s@, p + 2)) =~= before.push(seg)
                        + segments_from(s@, p + 2));
                }
                i = p + 2;
            },
        }
    }
}

fn words(s: &Vec<char>) -> (out: Vec<Vec<char>>)
    ensures
        out@.map_values(|v: Vec<char>| v@) == words_from(s@, 0),
        forall|k: int| 0 <= k < out@.len() ==> #[trigger] out@[k]@.len() > 0,
{
    let mut out: Vec<Vec<char>> = Vec::new();
    let mut i: usize = 0;
    while i < s.len()
        invariant
            i <= s@.len(),
            out@.map_values(|v: Vec<char>| v@) + words_from(s@, i as int) == words_from(s@, 0),
            forall|k: int| 0 <= k < out@.len() ==> #[trigger] out@[k]@.len() > 0,
        decreases s@.len() - i,
    {
        if is_unicode_space_char(s[i]) {
            i = i + 1;
        } else {
            let start = i;
            proof {
                lemma_word_end_bounds(s@, start as int);
            }
            while i < s.len() && !is_unicode_space_char(s[i])
                invariant
                    start <= i <= s@.len(),
                    word_end(s@, start as int) == word_end(s@, i as int),
                decreases s@.len() - i,
            {
                i = i + 1;
            }
            let ghost before = out@.map_values(|v: Vec<char>| v@);
            out.push(sub_vec(s, start, i));
            proof {
                let w = s@.subrange(start as int, i as int);
                assert(out@.map_values(|v: Vec<char>| v@) =~= before.push(w));
                assert(words_from(s@, start as int) == seq![w] + words_from(s@, i as int));
                assert(before + (seq![w] + words_from(s@, i as int)) =~= before.push(w) + words_from(
                    s@,
                    i as int,
                ));
            }
        }
    }
    proof {
        assert(out@.map_values(|v: Vec<char>| v@) + words_from(s@, i as int) =~= out@.map_values(
            |v: Vec<char>| v@,
        ));
    }
    out
}

// ---------------------------------------------------------------------------
// Greedy wrapping
// ---------------------------------------------------------------------------

/// The character sequences of a list of character vectors.
pub open spec fn views(v: Seq<Vec<char>>) -> Seq<Seq<char>> {
    v.map_values(|x: Vec<char>| x@)
}

/// The candidate line: the current line and the word, with a space
/// between them when the line is not empty.
pub open spec fn joined(cur: Seq<char>, word: Seq<char>) -> Seq<char> {
    if cur.len() == 0 {
        word
    } else {
        cur + seq![' '] + word
    }
}

/// Breaks a word that is too wide by characters: each character joins the
/// piece, and when a piece of two or more characters gets wider than
/// `max`, the piece without it becomes a line and it starts the next piece.
pub open spec fn hard_break<F: Fn(&str) -> u32>(
    f: F,
    lines: Seq<Seq<char>>,
    piece: Seq<char>,
    rest: Seq<char>,
    max: u32,
) -> (Seq<Seq<char>>, Seq<char>)
    decreases rest.len(),
{
    if rest.len() == 0 {
        (lines, piece)
    } else {
        let p = piece.push(rest[0]);
        if measured(f, p) > max && p.len() > 1 {
            hard_break(f, lines.push(piece), seq![rest[0]], rest.drop_first(), max)
        } else {
            hard_break(f, lines, p, rest.drop_first(), max)
        }
    }
}

/// One word of greedy wrapping: it joins the current line when the result
/// fits `max`; otherwise the current line (if any) is closed and the word
/// starts the next line, broken by characters when it is itself too wide.
pub open spec fn place_word<F: Fn(&str) -> u32>(
    f: F,
    lines: Seq<Seq<char>>,
    cur: Seq<char>,
    word: Seq<char>,
    max: u32,
) -> (Seq<Seq<char>>, Seq<char>) {
    let cand = joined(cur, word);
    if measured(f, cand) <= max {
        (lines, cand)
    } else {
        let closed = if cur.len() == 0 {
            lines
        } else {
            lines.push(cur)
        };
        if measured(f, word) > max {
            hard_break(f, closed, Seq::empty(), word, max)
        } else {
            (closed, word)
        }
    }
}

/// The closed lines and the current line after wrapping the words `ws`.
pub open spec fn wrap_words<F: Fn(&str) -> u32>(f: F, ws: Seq<Seq<char>>, max: u32) -> (Seq<Seq<char>>, Seq<char>)
    decreases ws.len(),
{
    if ws.len() == 0 {
        (Seq::empty(), Seq::empty())
    } else {
        let r = wrap_words(f, ws.drop_last(), max);
        place_word(f, r.0, r.1, ws.last(), max)
    }
}

/// The lines of one segment: the trimmed segment when the block has no
/// width, else its words wrapped greedily to `max`.
pub open spec fn wrap_segment<F: Fn(&str) -> u32>(f: F, seg: Seq<char>, max: u32) -> Seq<Seq<char>> {
    if max == 0 {
        seq![trim(seg)]
    } else {
        let r = wrap_words(f, words_from(seg, 0), max);
        r.0.push(r.1)
    }
}

pub open spec fn wrap_segments<F: Fn(&str) -> u32>(f: F, segs: Seq<Seq<char>>, max: u32) -> Seq<Seq<char>>
    decreases segs.len(),
{
    if segs.len() == 0 {
        Seq::empty()
    } else {
        wrap_segments(f, segs.drop_last(), max) + wrap_segment(f, segs.last(), max)
    }
}

/// The lines of a `^FB` text: each segment between `\&` breaks wrapped on
/// its own, in order.
pub open spec fn spec_wrap<F: Fn(&str) -> u32>(f: F, text: Seq<char>, max: u32) -> Seq<Seq<char>> {
    wrap_segments(f, segments_from(text, 0), max)
}

fn hard_break_exec<F: Fn(&str) -> u32>(measure: &F, lines: &mut Vec<Vec<char>>, word: &Vec<char>, max: u32) -> (piece: Vec<char>)
    requires
        measure_ok(*measure),
    ensures
        (views(final(lines)@), piece@) == hard_break(*measure, views(old(lines)@), Seq::empty(), word@, max),
{
    let ghost f = *measure;
    let ghost l0 = views(lines@);
    let mut piece: Vec<char> = Vec::new();
    let n = word.len();
    let mut j: usize = 0;
    proof {
        assert(word@.subrange(0, n as int) =~= word@);
    }
    while j < n
        invariant
            n == word@.len(),
            j <= n,
            f == *measure,
            measure_ok(f),
            hard_break(f, l0, Seq::empty(), word@, max) == hard_break(
                f,
                views(lines@),
                piece@,
                word@.subrange(j as int, n as int),
                max,
            ),
        decreases n - j,
    {
        let ch = word[j];
        let ghost rest = word@.subrange(j as int, n as int);
        let ghost before = piece@;
        let ghost lines_before = views(lines@);
        proof {
            assert(rest[0] == ch);
            assert(rest.drop_first() =~= word@.subrange(j + 1, n as int));
        }
        piece.push(ch);
        let wdt = measure_chars(measure, &piece);
        if wdt > max && piece.len() > 1 {
            let _ = piece.pop();
            proof {
                assert(piece@ =~= before);
            }
            lines.push(piece);
            piece = vec![ch];
            proof {
                assert(views(lines@) =~= lines_before.push(before));
                assert(piece@ =~= seq![ch]);
            }
        }
        j = j + 1;
    }
    proof {
        assert(word@.subrange(n as int, n as int) =~= Seq::<char>::empty());
    }
    piece
}

fn place_word_exec<F: Fn(&str) -> u32>(
    measure: &F,
    lines: &mut Vec<Vec<char>>,
    cur: Vec<char>,
    word: &Vec<char>,
    max: u32,
) -> (next: Vec<char>)
    requires
        measure_ok(*measure),
    ensures
        (views(final(lines)@), next@) == place_word(*measure, views(old(lines)@), cur@, word@, max),
{
    let mut cand: Vec<char> = Vec::new();
    if cur.len() > 0 {
        append_all(&mut cand, cur.as_slice());
        cand.push(' ');
    }
    append_all(&mut cand, word.as_slice());
    proof {
        assert(cand@ =~= joined(cur@, word@));
    }
    if measure_chars(measure, &cand) <= max {
        return cand;
    }
    if cur.len() > 0 {
        let ghost lb = views(lines@);
        lines.push(cur);
        proof {
            assert(views(lines@) =~= lb.push(cur@));
        }
    }
    if measure_chars(measure, word) > max {
        hard_break_exec(measure, lines, word, max)
    } else {
        sub_vec(word, 0, word.len())
    }
}

fn wrap_segment_exec<F: Fn(&str) -> u32>(measure: &F, seg: &Vec<char>, max: u32, lines: &mut Vec<Vec<char>>)
    requires
        measure_ok(*measure),
    ensures
        views(final(lines)@) == views(old(lines)@) + wrap_segment(*measure, seg@, max),
{
    let ghost l0 = views(lines@);
    if max == 0 {
        let t = trimmed_string(seg, 0, seg.len());
        proof {
            assert(seg@.subrange(0, seg@.len() as int) =~= seg@);
        }
        lines.push(crate::text::chars_of(t.as_str()));
        proof {
            assert(views(lines@) =~= l0 + seq![trim(seg@)]);
        }
        return;
    }
    let ws = words(seg);
    let ghost wv = views(ws@);
    let mut seg_lines: Vec<Vec<char>> = Vec::new();
    let mut cur: Vec<char> = Vec::new();
    let mut k: usize = 0;
    proof {
        assert(wv.take(0) =~= Seq::<Seq<char>>::empty());
        assert(views(seg_lines@) =~= Seq::<Seq<char>>::empty());
    }
    while k < ws.len()
        invariant
            k <= ws@.len(),
            wv == views(ws@),
            wv == words_from(seg@, 0),
            measure_ok(*measure),
            (views(seg_lines@), cur@) == wrap_words(*measure, wv.take(k as int), max),
        decreases ws@.len() - k,
    {
        proof {
            assert(wv.take(k + 1).drop_last() =~= wv.take(k as int));
            assert(wv.take(k + 1).last() == ws@[k as int]@);
        }
        cur = place_word_exec(measure, &mut seg_lines, cur, &ws[k], max);
        k = k + 1;
    }
    proof {
        assert(wv.take(k as int) =~= wv);
    }
    let ghost closed = views(seg_lines@);
    seg_lines.push(cur);
    proof {
        assert(views(seg_lines@) =~= closed.push(cur@));
    }
    lines.append(&mut seg_lines);
    proof {
        assert(views(lines@) =~= l0 + closed.push(cur@));
    }
}

/// Greedy word wrap for `^FB`: fits words into `max_width` dots as
/// `measure` counts them, breaking words longer than a line by characters;
/// `\&` forces a line break. With no width each segment is one trimmed
/// line.
pub fn wrap_text_block<F: Fn(&str) -> u32>(text: &str, max_width: u32, measure: &F) -> (lines: Vec<String>)
    requires
        measure_ok(*measure),
    ensures
        lines@.map_values(|l: String| l@) == spec_wrap(*measure, text@, max_width),
{
    let c = crate::text::chars_of(text);
    let segs = segments(&c);
    let ghost sv = views(segs@);
    let mut all: Vec<Vec<char>> = Vec::new();
    let mut k: usize = 0;
    proof {
        assert(sv.take(0) =~= Seq::<Seq<char>>::empty());
        assert(views(all@) =~= Seq::<Seq<char>>::empty());
    }
    while k < segs.len()
        invariant
            k <= segs@.len(),
            sv == views(segs@),
            sv == segments_from(c@, 0),
            measure_ok(*measure),
            views(all@) == wrap_segments(*measure, sv.take(k as int), max_width),
        decreases segs@.len() - k,
    {
        proof {
            assert(sv.take(k + 1).drop_last() =~= sv.take(k as int));
            assert(sv.take(k + 1).last() == segs@[k as int]@);
        }
        wrap_segment_exec(measure, &segs[k], max_width, &mut all);
        k = k + 1;
    }
    proof {
        assert(sv.take(k as int) =~= sv);
    }
    let mut out: Vec<String> = Vec::new();
    let mut i: usize = 0;
    while i < all.len()
        invariant
            i <= all@.len(),
            out@.len() == i,
            forall|j: int| 0 <= j < i ==> #[trigger] out@[j]@ == all@[j]@,
        decreases all@.len() - i,
    {
        out.push(string_of(all[i].as_slice()));
        i = i + 1;
    }
    proof {
        assert(out@.map_values(|l: String| l@) =~= views(all@));
    }
    out
}

// ---------------------------------------------------------------------------
// Placing the lines of a block
// ---------------------------------------------------------------------------

/// A line of a `^FB` block, with the origin it is drawn at.
pub struct PlacedLine {
    pub x: u32,
    pub y: u32,
    pub text: String,
}

pub open spec fn fits_i32(v: int) -> bool {
    i32::MIN <= v <= i32::MAX
}

/// The font height of a field (9 dots when unset).
pub open spec fn field_font_height(font_height: Option<u32>) -> int {
    match font_height {
        Some(h) => h as int,
        None => 9,
    }
}

/// The distance between the tops of two lines: the font height and the
/// line spacing, at least 1 dot.
pub open spec fn line_advance(font_height: Option<u32>, spacing: i32) -> int {
    let a = field_font_height(font_height) + spacing;
    if a < 1 {
        1
    } else {
        a
    }
}

/// How many lines are drawn: the lines there are, at most the block's
/// maximum (at least one).
pub open spec fn shown_lines(count: int, max_lines: u32) -> int {
    let m: int = if max_lines < 1 {
        1
    } else {
        max_lines as int
    };
    if count < m {
        count
    } else {
        m
    }
}

/// The horizontal start of line `i` of width `lw` inside the block: the
/// hanging indent (from the second line), then centred or right-aligned in
/// what is left of the block width.
pub open spec fn line_jx(b: TextBlock, i: int, lw: int) -> int {
    let indent: int = if i > 0 {
        b.indent as int
    } else {
        0
    };
    let avail: int = if b.width - indent < 0 {
        0
    } else {
        b.width - indent
    };
    let slack: int = if avail - lw < 0 {
        0
    } else {
        avail - lw
    };
    indent + if b.justification == 'C' {
        slack / 2
    } else if b.justification == 'R' {
        slack
    } else {
        0
    }
}

/// The offset of a line's cell from the field origin, rotated with the
/// field: `jx` across and `ly` down in normal orientation.
pub open spec fn line_offset(orientation: char, bw: int, jx: int, lw: int, ly: int, span: int) -> (int, int) {
    if orientation == 'R' {
        (span - ly, jx)
    } else if orientation == 'I' {
        (bw - jx - lw, span - ly)
    } else if orientation == 'B' {
        (ly, bw - jx - lw)
    } else {
        (jx, ly)
    }
}

pub open spec fn clamp0(v: int) -> int {
    if v < 0 {
        0
    } else {
        v
    }
}

/// Where line `i` of text `t` goes, as unclamped coordinates.
pub open spec fn line_origin<F: Fn(&str) -> u32>(
    f: F,
    t: Seq<char>,
    i: int,
    x: u32,
    y: u32,
    orientation: char,
    b: TextBlock,
    adv: int,
    span: int,
) -> (int, int) {
    let lw = measured(f, t) as int;
    let d = line_offset(orientation, b.width as int, line_jx(b, i, lw), lw, i * adv, span);
    (x + d.0, y + d.1)
}

/// The first `k` lines, placed; empty lines are skipped.
pub open spec fn placed_upto<F: Fn(&str) -> u32>(
    f: F,
    lines: Seq<Seq<char>>,
    k: int,
    x: u32,
    y: u32,
    orientation: char,
    b: TextBlock,
    adv: int,
    span: int,
) -> Seq<(u32, u32, Seq<char>)>
    decreases k,
{
    if k <= 0 {
        Seq::empty()
    } else {
        let prev = placed_upto(f, lines, k - 1, x, y, orientation, b, adv, span);
        let t = lines[k - 1];
        if t.len() == 0 {
            prev
        } else {
            let o = line_origin(f, t, k - 1, x, y, orientation, b, adv, span);
            prev.push((clamp0(o.0) as u32, clamp0(o.1) as u32, t))
        }
    }
}

/// The lines of a `^FB` field and their origins: the wrapped text, at most
/// the block's line count, each line below the previous one by the line
/// advance, justified in the block width and rotated with the field;
/// coordinates below 0 become 0.
pub open spec fn spec_layout<F: Fn(&str) -> u32>(
    f: F,
    x: u32,
    y: u32,
    font_height: Option<u32>,
    orientation: char,
    text: Seq<char>,
    b: TextBlock,
) -> Seq<(u32, u32, Seq<char>)> {
    let lines = spec_wrap(f, text, b.width);
    let n = shown_lines(lines.len() as int, b.max_lines);
    let adv = line_advance(font_height, b.line_spacing);
    placed_upto(f, lines, n, x, y, orientation, b, adv, (n - 1) * adv)
}

/// The arithmetic of line `i` stays within `i32`.
pub open spec fn line_fits<F: Fn(&str) -> u32>(
    f: F,
    t: Seq<char>,
    i: int,
    x: u32,
    y: u32,
    orientation: char,
    b: TextBlock,
    adv: int,
    span: int,
) -> bool {
    t.len() == 0 || {
        let lw = measured(f, t) as int;
        let jx = line_jx(b, i, lw);
        let o = line_origin(f, t, i, x, y, orientation, b, adv, span);
        &&& lw <= i32::MAX
        &&& (orientation == 'I' || orientation == 'B') ==> fits_i32(b.width - jx - lw)
        &&& fits_i32(o.0)
        &&& fits_i32(o.1)
    }
}

/// The layout's arithmetic stays within `i32`, as the field's coordinates,
/// sizes and measured widths do.
pub open spec fn block_fits<F: Fn(&str) -> u32>(
    f: F,
    x: u32,
    y: u32,
    font_height: Option<u32>,
    orientation: char,
    text: Seq<char>,
    b: TextBlock,
) -> bool {
    let lines = spec_wrap(f, text, b.width);
    let n = shown_lines(lines.len() as int, b.max_lines);
    let adv = line_advance(font_height, b.line_spacing);
    &&& field_font_height(font_height) <= i32::MAX
    &&& fits_i32(field_font_height(font_height) + b.line_spacing)
    &&& x <= i32::MAX && y <= i32::MAX
    &&& b.width <= i32::MAX && b.indent <= i32::MAX
    &&& n <= i32::MAX
    &&& fits_i32((n - 1) * adv)
    &&& forall|i: int| 0 <= i < n ==> #[trigger] line_fits(f, lines[i], i, x, y, orientation, b, adv, (n - 1) * adv)
}

/// Lays out a `^FB` text field: wraps `text` to the block width with
/// `measure`, keeps at most the block's line count, and gives each
/// non-empty line its origin (see `spec_layout`).
pub fn layout_text_block<F: Fn(&str) -> u32>(
    x: u32,
    y: u32,
    font_height: Option<u32>,
    orientation: char,
    text: &str,
    block: &TextBlock,
    measure: &F,
) -> (out: Vec<PlacedLine>)
    requires
        measure_ok(*measure),
        block_fits(*measure, x, y, font_height, orientation, text@, *block),
    ensures
        out@.map_values(|p: PlacedLine| (p.x, p.y, p.text@)) == spec_layout(
            *measure,
            x,
            y,
            font_height,
            orientation,
            text@,
            *block,
        ),
{
    let ghost f = *measure;
    let b = *block;
    let lines = wrap_text_block(text, b.width, measure);
    let ghost lv = lines@.map_values(|l: String| l@);
    let maxl: usize = if b.max_lines < 1 {
        1
    } else {
        b.max_lines as usize
    };
    let n: usize = if lines.len() < maxl {
        lines.len()
    } else {
        maxl
    };
    let h: i64 = match font_height {
        Some(v) => v as i64,
        None => 9,
    };
    let a0: i64 = h + b.line_spacing as i64;
    let adv: i64 = if a0 < 1 {
        1
    } else {
        a0
    };
    let ghost nn: int = n as int;
    proof {
        assert(n == shown_lines(lv.len() as int, b.max_lines));
        assert(adv == line_advance(font_height, b.line_spacing));
        assert(1 <= adv <= 0x1_0000_0000);
        assert(nn <= i32::MAX);
        assert(-0x1_0000_0000 <= (nn - 1) * adv <= 0x7fff_ffff * 0x1_0000_0000) by (nonlinear_arith)
            requires
                0 <= nn <= 0x7fff_ffff,
                1 <= adv <= 0x1_0000_0000,
        ;
    }
    let span: i64 = (n as i64 - 1) * adv;
    let ghost sp: int = span as int;
    let mut out: Vec<PlacedLine> = Vec::new();
    let mut i: usize = 0;
    proof {
        assert(out@.map_values(|p: PlacedLine| (p.x, p.y, p.text@)) =~= Seq::<(u32, u32, Seq<char>)>::empty());
    }
    while i < n
        invariant
            i <= n,
            n <= lines@.len(),
            f == *measure,
            b == *block,
            measure_ok(f),
            lv == lines@.map_values(|l: String| l@),
            lv == spec_wrap(f, text@, b.width),
            n == shown_lines(lv.len() as int, b.max_lines),
            adv == line_advance(font_height, b.line_spacing),
            1 <= adv,
            span == (n - 1) * adv,
            sp == span,
            block_fits(f, x, y, font_height, orientation, text@, b),
            out@.map_values(|p: PlacedLine| (p.x, p.y, p.text@)) == placed_upto(f, lv, i as int, x, y, orientation, b, adv as int, sp),
        decreases n - i,
    {
        let tc = crate::text::chars_of(lines[i].as_str());
        let ghost before = out@.map_values(|p: PlacedLine| (p.x, p.y, p.text@));
        proof {
            assert(tc@ == lv[i as int]);
        }
        if tc.len() > 0 {
            let lw32 = measure_chars(measure, &tc);
            proof {
                assert(line_fits(f, lv[i as int], i as int, x, y, orientation, b, adv as int, sp));
                assert(0 <= (i as int) * adv <= sp) by (nonlinear_arith)
                    requires
                        0 <= i < n,
                        1 <= adv,
                        sp == (n - 1) * adv,
                ;
            }
            let lw: i64 = lw32 as i64;
            let indent: i64 = if i > 0 {
                b.indent as i64
            } else {
                0
            };
            let avail: i64 = if (b.width as i64) - indent < 0 {
                0
            } else {
                (b.width as i64) - indent
            };
            let slack: i64 = if avail - lw < 0 {
                0
            } else {
                avail - lw
            };
            let jx: i64 = indent + if b.justification == 'C' {
                slack / 2
            } else if b.justification == 'R' {
                slack
            } else {
                0
            };
            let ly: i64 = (i as i64) * adv;
            let bw: i64 = b.width as i64;
            let (dx, dy): (i64, i64) = if orientation == 'R' {
                (span - ly, jx)
            } else if orientation == 'I' {
                (bw - jx - lw, span - ly)
            } else if orientation == 'B' {
                (ly, bw - jx - lw)
            } else {
                (jx, ly)
            };
            let fx: i64 = x as i64 + dx;
            let fy: i64 = y as i64 + dy;
            proof {
                assert(jx == line_jx(b, i as int, lw as int));
                assert((dx as int, dy as int) == line_offset(orientation, b.width as int, jx as int, lw as int, ly as int, sp));
                assert((fx as int, fy as int) == line_origin(f, lv[i as int], i as int, x, y, orientation, b, adv as int, sp));
            }
            let px: u32 = if fx < 0 {
                0
            } else {
                fx as u32
            };
            let py: u32 = if fy < 0 {
                0
            } else {
                fy as u32
            };
            out.push(PlacedLine { x: px, y: py, text: string_of(tc.as_slice()) });
            proof {
                assert(out@.map_values(|p: PlacedLine| (p.x, p.y, p.text@)) =~= before.push((px, py, lv[i as int])));
            }
        } else {
            proof {
                assert(lv[i as int].len() == 0);
            }
        }
        i = i + 1;
    }
    out
}

/// Whether a `^FB` field can be laid out (see `block_fits`).
pub fn block_fits_check<F: Fn(&str) -> u32>(
    x: u32,
    y: u32,
    font_height: Option<u32>,
    orientation: char,
    text: &str,
    block: &TextBlock,
    measure: &F,
) -> (ok: bool)
    requires
        measure_ok(*measure),
    ensures
        ok == block_fits(*measure, x, y, font_height, orientation, text@, *block),
{
    let ghost f = *measure;
    let b = *block;
    let lines = wrap_text_block(text, b.width, measure);
    let ghost lv = lines@.map_values(|l: String| l@);
    let maxl: usize = if b.max_lines < 1 {
        1
    } else {
        b.max_lines as usize
    };
    let n: usize = if lines.len() < maxl {
        lines.len()
    } else {
        maxl
    };
    let h: i64 = match font_height {
        Some(v) => v as i64,
        None => 9,
    };
    let hi: i64 = 0x7fff_ffff;
    let lo: i64 = -0x8000_0000;
    if h > hi || h + (b.line_spacing as i64) < lo || h + (b.line_spacing as i64) > hi || x as i64 > hi
        || y as i64 > hi || b.width as i64 > hi || b.indent as i64 > hi || n > 0x7fff_ffff {
        return false;
    }
    let a0: i64 = h + b.line_spacing as i64;
    let adv: i64 = if a0 < 1 {
        1
    } else {
        a0
    };
    let ghost nn: int = n as int;
    proof {
        assert(n == shown_lines(lv.len() as int, b.max_lines));
        assert(adv == line_advance(font_height, b.line_spacing));
        assert(-0x1_0000_0000 <= (nn - 1) * adv <= 0x7fff_ffff * 0x7fff_ffff) by (nonlinear_arith)
            requires
                0 <= nn <= 0x7fff_ffff,
                1 <= adv <= 0x7fff_ffff,
        ;
    }
    let span: i64 = (n as i64 - 1) * adv;
    if span < lo || span > hi {
        return false;
    }
    let ghost sp: int = span as int;
    let mut i: usize = 0;
    while i < n
        invariant
            i <= n,
            n <= lines@.len(),
            f == *measure,
            b == *block,
            measure_ok(f),
            lv == lines@.map_values(|l: String| l@),
            lv == spec_wrap(f, text@, b.width),
            n == shown_lines(lv.len() as int, b.max_lines),
            adv == line_advance(font_height, b.line_spacing),
            1 <= adv,
            span == (n - 1) * adv,
            sp == span,
            lo <= span <= hi,
            lo == -0x8000_0000,
            hi == 0x7fff_ffff,
            x <= i32::MAX && y <= i32::MAX && b.width <= i32::MAX && b.indent <= i32::MAX,
            forall|k: int| 0 <= k < i ==> #[trigger] line_fits(f, lv[k], k, x, y, orientation, b, adv as int, sp),
        decreases n - i,
    {
        let tc = crate::text::chars_of(lines[i].as_str());
        proof {
            assert(tc@ == lv[i as int]);
        }
        if tc.len() > 0 {
            let lw32 = measure_chars(measure, &tc);
            if lw32 as i64 > hi {
                proof {
                    assert(!line_fits(f, lv[i as int], i as int, x, y, orientation, b, adv as int, sp));
                }
                return false;
            }
            proof {
                assert(0 <= (i as int) * adv <= sp) by (nonlinear_arith)
                    requires
                        0 <= i < n,
                        1 <= adv,
                        sp == (n - 1) * adv,
                ;
            }
            let lw: i64 = lw32 as i64;
            let indent: i64 = if i > 0 {
                b.indent as i64
            } else {
                0
            };
            let avail: i64 = if (b.width as i64) - indent < 0 {
                0
            } else {
                (b.width as i64) - indent
            };
            let slack: i64 = if avail - lw < 0 {
                0
            } else {
                avail - lw
            };
            let jx: i64 = indent + if b.justification == 'C' {
                slack / 2
            } else if b.justification == 'R' {
                slack
            } else {
                0
            };
            let ly: i64 = (i as i64) * adv;
            let bw: i64 = b.width as i64;
            let tail: i64 = bw - jx - lw;
            let (dx, dy): (i64, i64) = if orientation == 'R' {
                (span - ly, jx)
            } else if orientation == 'I' {
                (tail, span - ly)
            } else if orientation == 'B' {
                (ly, tail)
            } else {
                (jx, ly)
            };
            let fx: i64 = x as i64 + dx;
            let fy: i64 = y as i64 + dy;
            proof {
                assert(jx == line_jx(b, i as int, lw as int));
                assert((fx as int, fy as int) == line_origin(f, lv[i as int], i as int, x, y, orientation, b, adv as int, sp));
            }
            let tail_ok = !(orientation == 'I' || orientation == 'B') || (lo <= tail && tail <= hi);
            if !(tail_ok && lo <= fx && fx <= hi && lo <= fy && fy <= hi) {
                proof {
                    assert(!line_fits(f, lv[i as int], i as int, x, y, orientation, b, adv as int, sp));
                }
                return false;
            }
            proof {
                assert(line_fits(f, lv[i as int], i as int, x, y, orientation, b, adv as int, sp));
            }
        } else {
            proof {
                assert(line_fits(f, lv[i as int], i as int, x, y, orientation, b, adv as int, sp));
            }
        }
        i = i + 1;
    }
    true
}

// ---------------------------------------------------------------------------
// Laws of wrapping and placement
// ---------------------------------------------------------------------------

/// A line fits the block width, or is a single character (or none) that
/// cannot be broken further.
pub open spec fn line_ok<F: Fn(&str) -> u32>(f: F, l: Seq<char>, max: u32) -> bool {
    measured(f, l) <= max || l.len() <= 1
}

pub open spec fn lines_ok<F: Fn(&str) -> u32>(f: F, ls: Seq<Seq<char>>, max: u32) -> bool {
    forall|i: int| 0 <= i < ls.len() ==> #[trigger] line_ok(f, ls[i], max)
}

proof fn lemma_hard_break_ok<F: Fn(&str) -> u32>(f: F, lines: Seq<Seq<char>>, piece: Seq<char>, rest: Seq<char>, max: u32)
    requires
        lines_ok(f, lines, max),
        line_ok(f, piece, max),
    ensures
        lines_ok(f, hard_break(f, lines, piece, rest, max).0, max),
        line_ok(f, hard_break(f, lines, piece, rest, max).1, max),
    decreases rest.len(),
{
    if rest.len() > 0 {
        let p = piece.push(rest[0]);
        if measured(f, p) > max && p.len() > 1 {
            assert(lines_ok(f, lines.push(piece), max)) by {
                assert forall|i: int| 0 <= i < lines.push(piece).len() implies #[trigger] line_ok(f, lines.push(piece)[i], max) by {
                    if i < lines.len() {
                        assert(lines.push(piece)[i] == lines[i]);
                    }
                }
            }
            lemma_hard_break_ok(f, lines.push(piece), seq![rest[0]], rest.drop_first(), max);
        } else {
            lemma_hard_break_ok(f, lines, p, rest.drop_first(), max);
        }
    }
}

proof fn lemma_wrap_words_ok<F: Fn(&str) -> u32>(f: F, ws: Seq<Seq<char>>, max: u32)
    ensures
        lines_ok(f, wrap_words(f, ws, max).0, max),
        line_ok(f, wrap_words(f, ws, max).1, max),
    decreases ws.len(),
{
    if ws.len() > 0 {
        lemma_wrap_words_ok(f, ws.drop_last(), max);
        let r = wrap_words(f, ws.drop_last(), max);
        let word = ws.last();
        let cand = joined(r.1, word);
        if measured(f, cand) > max {
            let closed = if r.1.len() == 0 {
                r.0
            } else {
                r.0.push(r.1)
            };
            assert(lines_ok(f, closed, max)) by {
                assert forall|i: int| 0 <= i < closed.len() implies #[trigger] line_ok(f, closed[i], max) by {
                    if i < r.0.len() {
                        assert(closed[i] == r.0[i]);
                    }
                }
            }
            if measured(f, word) > max {
                assert(line_ok(f, Seq::<char>::empty(), max));
                lemma_hard_break_ok(f, closed, Seq::empty(), word, max);
            }
        }
    }
}

/// Greedy wrapping: every line of a block with a width either fits the
/// width as the measure counts it, or is a single character that cannot
/// be broken further.
pub proof fn law_wrapped_lines_fit<F: Fn(&str) -> u32>(f: F, text: Seq<char>, max: u32)
    requires
        max > 0,
    ensures
        lines_ok(f, spec_wrap(f, text, max), max),
{
    lemma_wrap_segments_ok(f, segments_from(text, 0), max);
}

proof fn lemma_wrap_segments_ok<F: Fn(&str) -> u32>(f: F, segs: Seq<Seq<char>>, max: u32)
    requires
        max > 0,
    ensures
        lines_ok(f, wrap_segments(f, segs, max), max),
    decreases segs.len(),
{
    if segs.len() > 0 {
        lemma_wrap_segments_ok(f, segs.drop_last(), max);
        let a = wrap_segments(f, segs.drop_last(), max);
        let r = wrap_words(f, words_from(segs.last(), 0), max);
        lemma_wrap_words_ok(f, words_from(segs.last(), 0), max);
        let b = r.0.push(r.1);
        assert(wrap_segment(f, segs.last(), max) == b);
        assert forall|i: int| 0 <= i < (a + b).len() implies #[trigger] line_ok(f, (a + b)[i], max) by {
            if i < a.len() {
                assert((a + b)[i] == a[i]);
            } else if i - a.len() < r.0.len() {
                assert((a + b)[i] == r.0[i - a.len()]);
            } else {
                assert((a + b)[i] == r.1);
            }
        }
    }
}

pub proof fn lemma_placed_upto_len<F: Fn(&str) -> u32>(
    f: F,
    lines: Seq<Seq<char>>,
    k: int,
    x: u32,
    y: u32,
    orientation: char,
    b: TextBlock,
    adv: int,
    span: int,
)
    ensures
        placed_upto(f, lines, k, x, y, orientation, b, adv, span).len() <= if k < 0 {
            0
        } else {
            k
        },
    decreases k,
{
    if k > 0 {
        lemma_placed_upto_len(f, lines, k - 1, x, y, orientation, b, adv, span);
    }
}

/// `^FB`: a block draws at most its maximum number of lines (at least one).
pub proof fn law_block_line_limit<F: Fn(&str) -> u32>(
    f: F,
    x: u32,
    y: u32,
    font_height: Option<u32>,
    orientation: char,
    text: Seq<char>,
    b: TextBlock,
)
    ensures
        spec_layout(f, x, y, font_height, orientation, text, b).len() <= if b.max_lines < 1 {
            1
        } else {
            b.max_lines as int
        },
{
    let lines = spec_wrap(f, text, b.width);
    let n = shown_lines(lines.len() as int, b.max_lines);
    let adv = line_advance(font_height, b.line_spacing);
    lemma_placed_upto_len(f, lines, n, x, y, orientation, b, adv, (n - 1) * adv);
}

} // verus!
