//! Shaping a single line of CJK and Latin text with an embedded TrueType
//! font for PDF output: which text is accepted, and the glyphs with the
//! source text each cluster stands for and its position in font units.

use vstd::prelude::*;
use unicode_script::{Script, UnicodeScript};
use unicode_segmentation::UnicodeSegmentation;
use crate::error::ZplError;
use crate::text::{chars_of, is_unicode_space, string_of, trim_end_index, utf8_char_len, utf8_len};
use super::layout::{measure_chars, measure_ok, measured, segments, segments_from, sub_vec, views};

verus! {

/// The scripts shaping tells apart.
#[derive(Debug, Clone, Copy, PartialEq, Eq, Structural)]
pub enum ScriptClass {
    Latin,
    Han,
    Hiragana,
    Katakana,
    Hangul,
    Common,
    Inherited,
    Other,
}

/// The Unicode script of a character.
pub uninterp spec fn script_class(c: char) -> ScriptClass;

/// Reads the script of a character with `unicode_script::UnicodeScript::script`,
/// the scripts outside the list as `Other`. The contract claims that the
/// result depends on the character alone.
#[verifier::external_body]
fn char_script(c: char) -> (r: ScriptClass)
    ensures
        r == script_class(c),
{
    match c.script() {
        Script::Latin => ScriptClass::Latin,
        Script::Han => ScriptClass::Han,
        Script::Hiragana => ScriptClass::Hiragana,
        Script::Katakana => ScriptClass::Katakana,
        Script::Hangul => ScriptClass::Hangul,
        Script::Common => ScriptClass::Common,
        Script::Inherited => ScriptClass::Inherited,
        _ => ScriptClass::Other,
    }
}

/// Whether a font parses, and then whether it is variable and whether it
/// has TrueType outlines.
pub uninterp spec fn face_facts(raw: Seq<u8>) -> Option<(bool, bool)>;

/// Parses a font with `rustybuzz::Face::from_slice` (face 0) and reads
/// `is_variable` and whether its `glyf` table is present. The contract
/// claims that the result depends on the bytes alone.
#[verifier::external_body]
fn face_kind(raw: &[u8]) -> (r: Option<(bool, bool)>)
    ensures
        r == face_facts(raw@),
{
    rustybuzz::Face::from_slice(raw, 0).map(|f| (f.is_variable(), f.tables().glyf.is_some()))
}

/// Whether the font has a glyph for `base` followed by the variation
/// selector `vs`.
pub uninterp spec fn has_variation(raw: Seq<u8>, base: char, vs: char) -> bool;

/// Asks `glyph_variation_index` of the parsed font (face 0); `false` when
/// the font does not parse. The contract claims that the result depends on
/// the bytes and the two characters alone.
#[verifier::external_body]
fn variation_glyph(raw: &[u8], base: char, vs: char) -> (b: bool)
    ensures
        b == has_variation(raw@, base, vs),
{
    rustybuzz::Face::from_slice(raw, 0).and_then(|f| f.glyph_variation_index(base, vs)).is_some()
}

/// One shaped glyph: glyph id, cluster (a byte offset into the text),
/// horizontal advance, horizontal and vertical offset, in font units.
pub type GlyphRecord = (u32, u32, i32, i32, i32);

/// What shaping the text with the font gives: the glyphs and the font's
/// units per em; `None` when the font does not parse.
pub uninterp spec fn shaped(raw: Seq<u8>, text: Seq<char>) -> Option<(Seq<GlyphRecord>, i32)>;

/// Shapes left to right with `rustybuzz::shape` (no features, language
/// `zh-Hans`, other segment properties guessed) and reads the glyph infos
/// and positions. The contract claims that the result depends on the font
/// bytes and the text alone.
#[verifier::external_body]
fn shape_glyphs(raw: &[u8], text: &str) -> (r: Option<(Vec<GlyphRecord>, i32)>)
    ensures
        match r {
            Some(v) => shaped(raw@, text@) == Some((v.0@, v.1)),
            None => shaped(raw@, text@) is None,
        },
{
    let face = rustybuzz::Face::from_slice(raw, 0)?;
    let mut buffer = rustybuzz::UnicodeBuffer::new();
    buffer.push_str(text);
    buffer.set_direction(rustybuzz::Direction::LeftToRight);
    buffer.set_language("zh-Hans".parse().unwrap());
    buffer.guess_segment_properties();
    let out = rustybuzz::shape(&face, &[], buffer);
    let glyphs = out.glyph_infos().iter().zip(out.glyph_positions()).map(|(i, p)| (i.glyph_id, i.cluster, p.x_advance, p.x_offset, p.y_offset));
    Some((glyphs.collect(), face.units_per_em()))
}

/// Control characters (Unicode general category Cc).
pub open spec fn is_control(c: char) -> bool {
    (c as u32) <= 0x1F || (0x7F <= (c as u32) && (c as u32) <= 0x9F)
}

/// Variation selectors.
pub open spec fn is_variation_selector(c: char) -> bool {
    (0xFE00 <= (c as u32) && (c as u32) <= 0xFE0F) || (0xE0100 <= (c as u32) && (c as u32) <= 0xE01EF)
}

/// Zero-width and directional formatting characters.
pub open spec fn is_invisible_format(c: char) -> bool {
    let u = c as u32;
    (0x200B <= u && u <= 0x200F) || (0x202A <= u && u <= 0x202E) || (0x2060 <= u && u <= 0x206F) || u == 0xFEFF
}

/// A character shaping accepts after `prev`: a Latin, Han, kana, Hangul,
/// common or inherited character that is not a control; a variation
/// selector only where the font has the variant of the previous character;
/// no zero-width or directional formatting character.
pub open spec fn char_ok(raw: Seq<u8>, prev: Option<char>, c: char) -> bool {
    &&& script_class(c) != ScriptClass::Other
    &&& !is_control(c)
    &&& if is_variation_selector(c) {
        prev matches Some(p) && has_variation(raw, p, c)
    } else {
        !is_invisible_format(c)
    }
}

/// Character `i` of `text` is accepted after the one before it.
pub open spec fn char_ok_at(raw: Seq<u8>, text: Seq<char>, i: int) -> bool {
    char_ok(
        raw,
        if i == 0 {
            None
        } else {
            Some(text[i - 1])
        },
        text[i],
    )
}

/// Every character of `text` before `k` is accepted.
pub open spec fn chars_ok(raw: Seq<u8>, text: Seq<char>, k: int) -> bool {
    forall|i: int| 0 <= i < k ==> #[trigger] char_ok_at(raw, text, i)
}

/// `str::get(a..b)` by byte offsets: the characters between the two
/// offsets when both fall on character boundaries in order.
pub open spec fn byte_slice(text: Seq<char>, a: int, b: int) -> Option<Seq<char>> {
    if exists|i: int, j: int|
        0 <= i <= j <= text.len() && #[trigger] utf8_len(text.take(i)) == a && #[trigger] utf8_len(text.take(j))
            == b {
        let (i, j) = choose|i: int, j: int|
            0 <= i <= j <= text.len() && #[trigger] utf8_len(text.take(i)) == a && #[trigger] utf8_len(text.take(j))
                == b;
        Some(text.subrange(i, j))
    } else {
        None
    }
}

/// The cluster that follows glyph `k`'s cluster: that of the next glyph
/// with another cluster, or the end of the text (`len` bytes).
pub open spec fn next_cluster(gs: Seq<GlyphRecord>, k: int, len: int) -> int
    decreases gs.len() - k,
{
    if k + 1 >= gs.len() || k < 0 {
        len
    } else if gs[k + 1].1 != gs[k].1 {
        gs[k + 1].1 as int
    } else {
        next_cluster(gs, k + 1, len)
    }
}

/// The sum of the advances of the first `k` glyphs.
pub open spec fn advance_upto(gs: Seq<GlyphRecord>, k: int) -> int
    decreases k,
{
    if k <= 0 || k > gs.len() {
        0
    } else {
        advance_upto(gs, k - 1) + gs[k - 1].2
    }
}

/// The first `k` glyphs as placed glyphs: id, the source text of the
/// cluster on its first glyph (nothing on the others), and the position
/// (advance so far plus offset); `None` when one has no glyph (id 0) or a
/// cluster does not fall on character boundaries.
pub open spec fn placed_glyphs(text: Seq<char>, gs: Seq<GlyphRecord>, k: int) -> Option<Seq<(u16, Seq<char>, int, int)>>
    decreases k,
{
    if k <= 0 || k > gs.len() {
        Some(Seq::empty())
    } else {
        match placed_glyphs(text, gs, k - 1) {
            None => None,
            Some(prev) => {
                let g = gs[k - 1];
                if g.0 == 0 {
                    None
                } else {
                    let first = k - 1 == 0 || gs[k - 2].1 != g.1;
                    let src = if first {
                        byte_slice(text, g.1 as int, next_cluster(gs, k - 1, utf8_len(text) as int))
                    } else {
                        Some(Seq::empty())
                    };
                    match src {
                        None => None,
                        Some(t) => Some(prev.push((g.0 as u16, t, advance_upto(gs, k - 1) + g.3, g.4 as int))),
                    }
                }
            },
        }
    }
}

/// Why shaping fails.
pub enum ShapeFault {
    /// More than 4096 characters.
    TooLong,
    /// The font or the text is not supported.
    Unsupported,
}

/// The shaped line: the placed glyphs, the total advance and the units per
/// em; or why it fails.
pub open spec fn spec_shape(raw: Seq<u8>, text: Seq<char>) -> Result<(Seq<(u16, Seq<char>, int, int)>, int, int), ShapeFault> {
    if text.len() > 4096 {
        Err(ShapeFault::TooLong)
    } else {
        match face_facts(raw) {
            None => Err(ShapeFault::Unsupported),
            Some(f) => if f.0 || !f.1 || !chars_ok(raw, text, text.len() as int) {
                Err(ShapeFault::Unsupported)
            } else {
                match shaped(raw, text) {
                    None => Err(ShapeFault::Unsupported),
                    Some(r) => match placed_glyphs(text, r.0, r.0.len() as int) {
                        None => Err(ShapeFault::Unsupported),
                        Some(gs) => Ok((gs, advance_upto(r.0, r.0.len() as int), r.1 as int)),
                    },
                }
            },
        }
    }
}

fn check_chars(raw: &[u8], text: &Vec<char>) -> (b: bool)
    ensures
        b == chars_ok(raw@, text@, text@.len() as int),
{
    let n = text.len();
    let mut i: usize = 0;
    while i < n
        invariant
            n == text@.len(),
            i <= n,
            chars_ok(raw@, text@, i as int),
        decreases n - i,
    {
        let c = text[i];
        let u = c as u32;
        let script = char_script(c);
        let control = u <= 0x1F || (0x7F <= u && u <= 0x9F);
        let selector = (0xFE00 <= u && u <= 0xFE0F) || (0xE0100 <= u && u <= 0xE01EF);
        let invisible = (0x200B <= u && u <= 0x200F) || (0x202A <= u && u <= 0x202E) || (0x2060 <= u && u <= 0x206F)
            || u == 0xFEFF;
        let ok = if script == ScriptClass::Other || control {
            false
        } else if selector {
            i > 0 && variation_glyph(raw, text[i - 1], c)
        } else {
            !invisible
        };
        proof {
            assert(ok == char_ok_at(raw@, text@, i as int));
        }
        if !ok {
            return false;
        }
        i = i + 1;
    }
    true
}

pub proof fn lemma_utf8_take_step(text: Seq<char>, i: int)
    requires
        0 <= i < text.len(),
    ensures
        utf8_len(text.take(i + 1)) == utf8_len(text.take(i)) + utf8_char_len(text[i]),
        1 <= utf8_char_len(text[i]) <= 4,
{
    assert(text.take(i + 1).drop_last() =~= text.take(i));
}

pub proof fn lemma_utf8_take_strict(text: Seq<char>, i: int, j: int)
    requires
        0 <= i < j <= text.len(),
    ensures
        utf8_len(text.take(i)) < utf8_len(text.take(j)),
    decreases j - i,
{
    lemma_utf8_take_step(text, j - 1);
    if i < j - 1 {
        lemma_utf8_take_strict(text, i, j - 1);
    }
}

/// The byte offset of each character of `text`, and of its end.
fn byte_offsets(text: &Vec<char>) -> (o: Vec<u32>)
    requires
        text@.len() <= 4096,
    ensures
        o@.len() == text@.len() + 1,
        forall|i: int| 0 <= i <= text@.len() ==> #[trigger] o@[i] == utf8_len(text@.take(i)),
{
    let mut o: Vec<u32> = Vec::new();
    o.push(0);
    proof {
        assert(text@.take(0) =~= Seq::<char>::empty());
    }
    let mut acc: u32 = 0;
    let mut i: usize = 0;
    while i < text.len()
        invariant
            text@.len() <= 4096,
            i <= text@.len(),
            o@.len() == i + 1,
            acc == utf8_len(text@.take(i as int)),
            acc <= 4 * i,
            forall|k: int| 0 <= k <= i ==> #[trigger] o@[k] == utf8_len(text@.take(k)),
        decreases text@.len() - i,
    {
        proof {
            lemma_utf8_take_step(text@, i as int);
        }
        let c = text[i];
        let u = c as u32;
        let w: u32 = if u < 0x80 {
            1
        } else if u < 0x800 {
            2
        } else if u < 0x10000 {
            3
        } else {
            4
        };
        acc = acc + w;
        o.push(acc);
        i = i + 1;
    }
    o
}

/// The first position of `v` holding `a`.
fn position_of(v: &Vec<u32>, a: u32) -> (r: Option<usize>)
    ensures
        match r {
            Some(i) => i < v@.len() && v@[i as int] == a && forall|k: int| 0 <= k < i ==> v@[k] != a,
            None => forall|k: int| 0 <= k < v@.len() ==> v@[k] != a,
        },
{
    let mut i: usize = 0;
    while i < v.len()
        invariant
            i <= v@.len(),
            forall|k: int| 0 <= k < i ==> v@[k] != a,
        decreases v@.len() - i,
    {
        if v[i] == a {
            return Some(i);
        }
        i = i + 1;
    }
    None
}

/// `text[a..b]` by byte offsets (see `byte_slice`).
fn slice_bytes(text: &Vec<char>, offs: &Vec<u32>, a: u32, b: u32) -> (r: Option<Vec<char>>)
    requires
        text@.len() <= 4096,
        offs@.len() == text@.len() + 1,
        forall|i: int| 0 <= i <= text@.len() ==> #[trigger] offs@[i] == utf8_len(text@.take(i)),
    ensures
        match byte_slice(text@, a as int, b as int) {
            Some(t) => r matches Some(v) && v@ == t,
            None => r is None,
        },
{
    let pa = position_of(offs, a);
    let pb = position_of(offs, b);
    proof {
        assert forall|i: int, j: int|
            0 <= i <= j <= text@.len() && #[trigger] utf8_len(text@.take(i)) == a && #[trigger] utf8_len(text@.take(j))
                == b implies pa == Some(i as usize) && pb == Some(j as usize) by {
            assert(offs@[i] == a);
            assert(offs@[j] == b);
            match pa {
                Some(p) => {
                    if (p as int) < i {
                        lemma_utf8_take_strict(text@, p as int, i);
                    }
                },
                None => {},
            }
            match pb {
                Some(p) => {
                    if (p as int) < j {
                        lemma_utf8_take_strict(text@, p as int, j);
                    }
                },
                None => {},
            }
        }
    }
    match (pa, pb) {
        (Some(i), Some(j)) => {
            if i <= j {
                let mut v: Vec<char> = Vec::new();
                crate::text::append_all(&mut v, crate::text::slice_range(text, i, j));
                proof {
                    assert(offs@[i as int] == utf8_len(text@.take(i as int)));
                    assert(offs@[j as int] == utf8_len(text@.take(j as int)));
                    assert(v@ =~= text@.subrange(i as int, j as int));
                }
                Some(v)
            } else {
                None
            }
        },
        _ => None,
    }
}

/// A shaped glyph: its id, the source text of its cluster (on the first
/// glyph of the cluster only), and its position in font units.
pub struct ShapedGlyph {
    pub id: u16,
    pub source: String,
    pub x: i128,
    pub y: i32,
}

/// A shaped line: the glyphs, the total advance and the units per em.
pub struct ShapedRun {
    pub glyphs: Vec<ShapedGlyph>,
    pub advance: i128,
    pub units: i32,
}

pub open spec fn glyph_views(v: Seq<ShapedGlyph>) -> Seq<(u16, Seq<char>, int, int)> {
    v.map_values(|g: ShapedGlyph| (g.id, g.source@, g.x as int, g.y as int))
}

pub open spec fn unsupported_message() -> Seq<char> {
    "Unsupported shaped text or font"@
}

pub open spec fn too_long_message() -> Seq<char> {
    "Shaped field character limit"@
}

pub proof fn lemma_advance_bound(gs: Seq<GlyphRecord>, k: int)
    requires
        0 <= k <= gs.len(),
    ensures
        -k * 0x8000_0000 <= advance_upto(gs, k) <= k * 0x8000_0000,
    decreases k,
{
    if k > 0 {
        lemma_advance_bound(gs, k - 1);
    }
}

fn next_cluster_exec(gs: &Vec<GlyphRecord>, k: usize, len: u32) -> (r: u32)
    requires
        k < gs@.len(),
    ensures
        r == next_cluster(gs@, k as int, len as int),
{
    let n = gs.len();
    let mut j = k;
    while j + 1 < n
        invariant
            n == gs@.len(),
            k <= j < gs@.len(),
            gs@[j as int].1 == gs@[k as int].1,
            next_cluster(gs@, k as int, len as int) == next_cluster(gs@, j as int, len as int),
        decreases gs@.len() - j,
    {
        if gs[j + 1].1 != gs[j].1 {
            return gs[j + 1].1;
        }
        j = j + 1;
    }
    len
}

/// Shapes one line of text with a TrueType font (see `spec_shape`): fails
/// with `SecurityLimitExceeded` above 4096 characters, and with a
/// `FontError` for a font that does not parse, is variable or has no
/// TrueType outlines, for text it does not accept, and for glyphs it
/// cannot map back to the text.
pub fn shape(raw: &[u8], text: &str) -> (r: Result<ShapedRun, ZplError>)
    ensures
        match spec_shape(raw@, text@) {
            Err(ShapeFault::TooLong) => r matches Err(ZplError::SecurityLimitExceeded(m)) && m@ == too_long_message(),
            Err(ShapeFault::Unsupported) => r matches Err(ZplError::FontError(m)) && m@ == unsupported_message(),
            Ok(res) => r matches Ok(run) && glyph_views(run.glyphs@) == res.0 && run.advance == res.1
                && run.units == res.2,
        },
{
    let chars = chars_of(text);
    if chars.len() > 4096 {
        return Err(ZplError::SecurityLimitExceeded("Shaped field character limit".to_owned()));
    }
    let unsupported = ZplError::FontError("Unsupported shaped text or font".to_owned());
    match face_kind(raw) {
        None => {
            return Err(unsupported);
        },
        Some((variable, glyf)) => {
            if variable || !glyf {
                return Err(unsupported);
            }
        },
    }
    if !check_chars(raw, &chars) {
        return Err(unsupported);
    }
    let (gs, units) = match shape_glyphs(raw, text) {
        Some(v) => v,
        None => {
            return Err(unsupported);
        },
    };
    match place_glyphs(text, &gs) {
        None => Err(unsupported),
        Some((glyphs, advance)) => Ok(ShapedRun { glyphs, advance, units }),
    }
}

/// Places shaped glyph records on the line of `text` (see
/// `placed_glyphs`): each glyph at the advance of the glyphs before it plus
/// its offset, the first glyph of each cluster with the cluster's source
/// text; gives also the total advance. `None` when a record has no glyph or
/// a cluster does not fall on character boundaries. Shaping accepts at
/// most 4096 characters, and so does this.
pub fn place_glyphs(text: &str, gs: &Vec<GlyphRecord>) -> (r: Option<(Vec<ShapedGlyph>, i128)>)
    requires
        text@.len() <= 4096,
    ensures
        match placed_glyphs(text@, gs@, gs@.len() as int) {
            None => r is None,
            Some(v) => r matches Some(p) && glyph_views(p.0@) == v && p.1 == advance_upto(
                gs@,
                gs@.len() as int,
            ),
        },
{
    let chars = chars_of(text);
    let offs = byte_offsets(&chars);
    let total = offs[chars.len()];
    proof {
        assert(chars@.take(chars@.len() as int) =~= chars@);
        assert(total == utf8_len(text@));
    }
    let n = gs.len();
    let mut glyphs: Vec<ShapedGlyph> = Vec::new();
    let mut cursor: i128 = 0;
    let mut k: usize = 0;
    while k < n
        invariant
            n == gs@.len(),
            k <= n,
            chars@ == text@,
            chars@.len() <= 4096,
            offs@.len() == chars@.len() + 1,
            forall|i: int| 0 <= i <= chars@.len() ==> #[trigger] offs@[i] == utf8_len(chars@.take(i)),
            total == utf8_len(text@),
            cursor == advance_upto(gs@, k as int),
            placed_glyphs(text@, gs@, k as int) == Some(glyph_views(glyphs@)),
        decreases n - k,
    {
        let g = gs[k];
        proof {
            lemma_advance_bound(gs@, k as int);
            assert(k <= usize::MAX);
        }
        if g.0 == 0 {
            proof {
                lemma_placed_none_extends(text@, gs@, k as int + 1, n as int);
            }
            return None;
        }
        let first = k == 0 || gs[k - 1].1 != g.1;
        let src: Vec<char> = if first {
            let end = next_cluster_exec(&gs, k, total);
            match slice_bytes(&chars, &offs, g.1, end) {
                Some(v) => v,
                None => {
                    proof {
                        lemma_placed_none_extends(text@, gs@, k as int + 1, n as int);
                    }
                    return None;
                },
            }
        } else {
            Vec::new()
        };
        let ghost before = glyph_views(glyphs@);
        glyphs.push(ShapedGlyph { id: g.0 as u16, source: string_of(src.as_slice()), x: cursor + g.3 as i128, y: g.4 });
        proof {
            assert(glyph_views(glyphs@) =~= before.push((g.0 as u16, src@, advance_upto(gs@, k as int) + g.3, g.4 as int)));
        }
        cursor = cursor + g.2 as i128;
        k = k + 1;
    }
    Some((glyphs, cursor))
}

/// Once a glyph cannot be placed, no longer prefix can.
pub proof fn lemma_placed_none_extends(text: Seq<char>, gs: Seq<GlyphRecord>, k: int, n: int)
    requires
        0 < k <= n <= gs.len(),
        placed_glyphs(text, gs, k) is None,
    ensures
        placed_glyphs(text, gs, n) is None,
    decreases n - k,
{
    if k < n {
        lemma_placed_none_extends(text, gs, k + 1, n);
    }
}

// ---------------------------------------------------------------------------
// Line breaking of shaped text
// ---------------------------------------------------------------------------

/// All the sequences of `gs`, one after another.
pub open spec fn concat_all(gs: Seq<Seq<char>>) -> Seq<char>
    decreases gs.len(),
{
    if gs.len() == 0 {
        Seq::empty()
    } else {
        concat_all(gs.drop_last()) + gs.last()
    }
}

/// The extended grapheme clusters of a text, in order.
pub uninterp spec fn graphemes_of(s: Seq<char>) -> Seq<Seq<char>>;

/// Splits a text into extended grapheme clusters with
/// `unicode_segmentation::UnicodeSegmentation::graphemes(true)`. The
/// contract claims that the result depends on the text alone and, as the
/// crate documents, that the clusters are not empty and make up the text.
#[verifier::external_body]
fn graphemes(s: &str) -> (r: Vec<String>)
    ensures
        views_of(r@) == graphemes_of(s@),
        concat_all(views_of(r@)) == s@,
        forall|k: int| 0 <= k < r@.len() ==> #[trigger] r@[k]@.len() > 0,
{
    s.graphemes(true).map(String::from).collect()
}

/// The character sequences of a list of strings.
pub open spec fn views_of(v: Seq<String>) -> Seq<Seq<char>> {
    v.map_values(|x: String| x@)
}

/// The byte offsets of a text where the Unicode line breaking algorithm
/// allows or requires a break.
pub uninterp spec fn line_breaks_of(s: Seq<char>) -> Seq<usize>;

/// Lists the break opportunities of `unicode_linebreak::linebreaks` by
/// byte offset. The contract claims that the result depends on the text
/// alone.
#[verifier::external_body]
fn line_breaks(s: &str) -> (r: Vec<usize>)
    ensures
        r@ == line_breaks_of(s@),
{
    unicode_linebreak::linebreaks(s).map(|(i, _)| i).collect()
}

/// `s` without trailing white space.
pub open spec fn trim_end(s: Seq<char>) -> Seq<char> {
    s.subrange(0, trim_end_index(s))
}

/// Where the line being filled starts, and the last break opportunity in
/// it, while breaking a segment: the lines so far, the start of the
/// current line and the last opportunity (character positions).
pub type BreakState = (Seq<Seq<char>>, int, Option<int>);

/// One grapheme at character position `c`, ending at `e`: when the line
/// from its start through the grapheme is wider than `width`, the line is
/// closed at the last break opportunity after its start (or before the
/// grapheme) without trailing white space, and the rest, when still too
/// wide, is closed before the grapheme; then `e` is remembered when a
/// break may follow the grapheme.
pub open spec fn break_step<F: Fn(&str) -> u32>(
    f: F,
    seg: Seq<char>,
    breaks: Seq<usize>,
    width: u32,
    st: BreakState,
    c: int,
    e: int,
) -> BreakState {
    let (lines, start, last) = st;
    let st1: BreakState = if c > start && measured(f, seg.subrange(start, e)) > width {
        let split = match last {
            Some(i) => if i > start {
                i
            } else {
                c
            },
            None => c,
        };
        let lines1 = lines.push(trim_end(seg.subrange(start, split)));
        if c > split && measured(f, seg.subrange(split, e)) > width {
            (lines1.push(trim_end(seg.subrange(split, c))), c, None)
        } else {
            (lines1, split, None)
        }
    } else {
        st
    };
    if exists|j: int| 0 <= j < breaks.len() && #[trigger] breaks[j] == utf8_len(seg.take(e)) {
        (st1.0, st1.1, Some(e))
    } else {
        st1
    }
}

/// The state after the first `k` graphemes of `gs`.
pub open spec fn break_upto<F: Fn(&str) -> u32>(
    f: F,
    seg: Seq<char>,
    gs: Seq<Seq<char>>,
    breaks: Seq<usize>,
    width: u32,
    k: int,
) -> BreakState
    decreases k,
{
    if k <= 0 || k > gs.len() {
        (Seq::empty(), 0, None)
    } else {
        let prev = break_upto(f, seg, gs, breaks, width, k - 1);
        let c = concat_all(gs.take(k - 1)).len() as int;
        break_step(f, seg, breaks, width, prev, c, c + gs[k - 1].len())
    }
}

/// The lines of a segment made of the grapheme clusters `gs`, with line
/// break opportunities at the byte offsets `breaks`: the lines that the
/// clusters close (see `break_step`), then the rest of the segment without
/// trailing white space.
pub open spec fn break_lines<F: Fn(&str) -> u32>(
    f: F,
    seg: Seq<char>,
    gs: Seq<Seq<char>>,
    breaks: Seq<usize>,
    width: u32,
) -> Seq<Seq<char>> {
    let st = break_upto(f, seg, gs, breaks, width, gs.len() as int);
    st.0.push(trim_end(seg.subrange(st.1, seg.len() as int)))
}

/// The lines of one segment of shaped text: the segment itself when the
/// width is 0, else broken at Unicode line opportunities, or between
/// grapheme clusters where no opportunity fits.
pub open spec fn break_segment<F: Fn(&str) -> u32>(f: F, seg: Seq<char>, width: u32) -> Seq<Seq<char>> {
    if width == 0 {
        seq![seg]
    } else {
        break_lines(f, seg, graphemes_of(seg), line_breaks_of(seg), width)
    }
}

pub open spec fn break_segments<F: Fn(&str) -> u32>(f: F, segs: Seq<Seq<char>>, width: u32) -> Seq<Seq<char>>
    decreases segs.len(),
{
    if segs.len() == 0 {
        Seq::empty()
    } else {
        break_segments(f, segs.drop_last(), width) + break_segment(f, segs.last(), width)
    }
}

/// The lines of shaped text: each segment between `\\&` breaks broken on
/// its own (see `break_segment`).
pub open spec fn spec_wrap_shaped<F: Fn(&str) -> u32>(f: F, text: Seq<char>, width: u32) -> Seq<Seq<char>> {
    break_segments(f, segments_from(text, 0), width)
}

pub proof fn lemma_concat_split(gs: Seq<Seq<char>>, k: int)
    requires
        0 <= k <= gs.len(),
    ensures
        concat_all(gs) == concat_all(gs.take(k)) + concat_all(gs.skip(k)),
    decreases gs.len() - k,
{
    if k == gs.len() {
        assert(gs.take(k) =~= gs);
        assert(gs.skip(k) =~= Seq::<Seq<char>>::empty());
        assert(concat_all(gs) + Seq::<char>::empty() =~= concat_all(gs));
    } else {
        lemma_concat_split(gs, k + 1);
        assert(gs.take(k + 1).drop_last() =~= gs.take(k));
        lemma_concat_first(gs.skip(k));
        assert(gs.skip(k).drop_first() =~= gs.skip(k + 1));
        assert(gs.skip(k)[0] == gs[k]);
        assert(concat_all(gs.take(k)) + concat_all(gs.skip(k)) =~= concat_all(gs.take(k)) + gs[k] + concat_all(
            gs.skip(k + 1),
        ));
    }
}

pub proof fn lemma_concat_first(gs: Seq<Seq<char>>)
    requires
        gs.len() > 0,
    ensures
        concat_all(gs) == gs[0] + concat_all(gs.drop_first()),
    decreases gs.len(),
{
    if gs.len() == 1 {
        assert(gs.drop_first() =~= Seq::<Seq<char>>::empty());
        assert(gs.drop_last() =~= Seq::<Seq<char>>::empty());
        assert(Seq::<char>::empty() + gs[0] =~= gs[0] + Seq::<char>::empty());
    } else {
        lemma_concat_first(gs.drop_last());
        assert(gs.drop_last().drop_first() =~= gs.drop_first().drop_last());
        assert(gs.drop_first().last() == gs.last());
        assert(gs.drop_last()[0] == gs[0]);
        assert(concat_all(gs) =~= gs[0] + concat_all(gs.drop_first()));
    }
}

pub proof fn lemma_utf8_len_concat(a: Seq<char>, b: Seq<char>)
    ensures
        utf8_len(a + b) == utf8_len(a) + utf8_len(b),
    decreases b.len(),
{
    if b.len() == 0 {
        assert(a + b =~= a);
    } else {
        lemma_utf8_len_concat(a, b.drop_last());
        assert((a + b).drop_last() =~= a + b.drop_last());
    }
}

pub proof fn lemma_utf8_len_bound(a: Seq<char>)
    ensures
        utf8_len(a) <= 4 * a.len(),
    decreases a.len(),
{
    if a.len() > 0 {
        lemma_utf8_len_bound(a.drop_last());
    }
}

fn utf8_bytes(g: &Vec<char>) -> (n: u128)
    ensures
        n == utf8_len(g@),
{
    let mut n: u128 = 0;
    let mut i: usize = 0;
    proof {
        assert(g@.take(0) =~= Seq::<char>::empty());
    }
    while i < g.len()
        invariant
            i <= g@.len(),
            n == utf8_len(g@.take(i as int)),
            n <= 4 * i,
        decreases g@.len() - i,
    {
        proof {
            assert(g@.take(i + 1).drop_last() =~= g@.take(i as int));
        }
        let u = g[i] as u32;
        let w: u128 = if u < 0x80 {
            1
        } else if u < 0x800 {
            2
        } else if u < 0x10000 {
            3
        } else {
            4
        };
        n = n + w;
        i = i + 1;
    }
    proof {
        assert(g@.take(i as int) =~= g@);
    }
    n
}

fn in_breaks(brk: &Vec<usize>, b: u128) -> (r: bool)
    ensures
        r == exists|j: int| 0 <= j < brk@.len() && #[trigger] brk@[j] == b,
{
    let mut j: usize = 0;
    while j < brk.len()
        invariant
            j <= brk@.len(),
            forall|k: int| 0 <= k < j ==> brk@[k] != b,
        decreases brk@.len() - j,
    {
        if brk[j] as u128 == b {
            return true;
        }
        j = j + 1;
    }
    false
}

pub open spec fn opt_int(o: Option<usize>) -> Option<int> {
    match o {
        Some(i) => Some(i as int),
        None => None,
    }
}

fn trimmed_end(v: &Vec<char>, lo: usize, hi: usize) -> (r: Vec<char>)
    requires
        lo <= hi <= v@.len(),
    ensures
        r@ == trim_end(v@.subrange(lo as int, hi as int)),
{
    let sub = sub_vec(v, lo, hi);
    let mut e = sub.len();
    proof {
        assert(sub@.take(e as int) =~= sub@);
    }
    while e > 0 && is_space(sub[e - 1])
        invariant
            e <= sub@.len(),
            trim_end_index(sub@) == trim_end_index(sub@.take(e as int)),
        decreases e,
    {
        proof {
            assert(sub@.take(e as int).drop_last() =~= sub@.take(e - 1));
        }
        e = e - 1;
    }
    proof {
        if e > 0 {
            assert(sub@.take(e as int).last() == sub@[e - 1]);
        }
        assert(trim_end_index(sub@.take(e as int)) == e);
    }
    sub_vec(&sub, 0, e)
}

fn is_space(c: char) -> (b: bool)
    ensures
        b == is_unicode_space(c),
{
    crate::text::is_unicode_space_char(c)
}

fn break_segment_exec<F: Fn(&str) -> u32>(measure: &F, seg: &Vec<char>, width: u32, lines: &mut Vec<Vec<char>>)
    requires
        measure_ok(*measure),
    ensures
        views(final(lines)@) == views(old(lines)@) + break_segment(*measure, seg@, width),
{
    let ghost l0 = views(lines@);
    let ghost f = *measure;
    if width == 0 {
        lines.push(sub_vec(seg, 0, seg.len()));
        proof {
            assert(seg@.subrange(0, seg@.len() as int) =~= seg@);
            assert(views(lines@) =~= l0 + seq![seg@]);
        }
        return;
    }
    let text = string_of(seg.as_slice());
    let gs = graphemes(text.as_str());
    let brk = line_breaks(text.as_str());
    let mut out = break_graphemes(measure, seg, &gs, &brk, width);
    lines.append(&mut out);
    proof {
        assert(views(lines@) =~= l0 + break_segment(f, seg@, width));
    }
}

/// Breaks a segment made of the grapheme clusters `gs` into lines of at
/// most `width` dots as `measure` counts them, at the byte offsets `brk`
/// where a line may break, and between clusters where no such offset fits
/// (see `break_lines`).
pub fn break_graphemes<F: Fn(&str) -> u32>(
    measure: &F,
    seg: &Vec<char>,
    gs: &Vec<String>,
    brk: &Vec<usize>,
    width: u32,
) -> (lines: Vec<Vec<char>>)
    requires
        measure_ok(*measure),
        width > 0,
        concat_all(views_of(gs@)) == seg@,
    ensures
        views(lines@) == break_lines(*measure, seg@, views_of(gs@), brk@, width),
{
    let ghost f = *measure;
    let ghost gv = views_of(gs@);
    let mut out: Vec<Vec<char>> = Vec::new();
    let mut start: usize = 0;
    let mut last: Option<usize> = None;
    let mut c: usize = 0;
    let mut bc: u128 = 0;
    let mut k: usize = 0;
    let n = seg.len();
    proof {
        assert(gv.take(0) =~= Seq::<Seq<char>>::empty());
        assert(seg@.take(0) =~= Seq::<char>::empty());
        assert(views(out@) =~= Seq::<Seq<char>>::empty());
    }
    while k < gs.len()
        invariant
            k <= gs@.len(),
            f == *measure,
            measure_ok(f),
            width > 0,
            gv == views_of(gs@),
            concat_all(gv) == seg@,
            concat_all(gv.take(k as int)) == seg@.take(c as int),
            n == seg@.len(),
            c <= seg@.len(),
            start <= c,
            last matches Some(i) ==> i <= c,
            bc == utf8_len(seg@.take(c as int)),
            (views(out@), start as int, opt_int(last)) == break_upto(f, seg@, gv, brk@, width, k as int),
        decreases gs@.len() - k,
    {
        let g = chars_of(gs[k].as_str());
        proof {
            lemma_concat_split(gv, k + 1);
            assert(gv.take(k + 1).drop_last() =~= gv.take(k as int));
            assert(gv[k as int] == g@);
            assert(concat_all(gv.take(k + 1)) == seg@.take(c as int) + g@);
            assert(seg@ == seg@.take(c as int) + g@ + concat_all(gv.skip(k + 1)));
            assert(c + g@.len() <= seg@.len());
        }
        let e = c + g.len();
        proof {
            assert(seg@.subrange(c as int, e as int) =~= g@);
            assert(seg@.take(e as int) =~= seg@.take(c as int) + g@);
            lemma_utf8_len_concat(seg@.take(c as int), g@);
            lemma_utf8_len_bound(seg@.take(c as int));
            lemma_utf8_len_bound(g@);
            assert(concat_all(gv.take(k as int)).len() == c);
        }
        let gb = utf8_bytes(&g);
        let be = bc + gb;
        let ghost before = views(out@);
        if c > start {
            let wide = measure_chars(measure, &sub_vec(seg, start, e));
            if wide > width {
                let split = match last {
                    Some(i) => if i > start {
                        i
                    } else {
                        c
                    },
                    None => c,
                };
                out.push(trimmed_end(seg, start, split));
                let ghost lines1 = views(out@);
                proof {
                    assert(lines1 =~= before.push(trim_end(seg@.subrange(start as int, split as int))));
                }
                start = split;
                last = None;
                if c > start {
                    let wide2 = measure_chars(measure, &sub_vec(seg, start, e));
                    if wide2 > width {
                        out.push(trimmed_end(seg, start, c));
                        proof {
                            assert(views(out@) =~= lines1.push(trim_end(seg@.subrange(start as int, c as int))));
                        }
                        start = c;
                    }
                }
            }
        }
        if in_breaks(&brk, be) {
            last = Some(e);
        }
        proof {
            assert(be == utf8_len(seg@.take(e as int)));
            assert((views(out@), start as int, opt_int(last)) == break_upto(f, seg@, gv, brk@, width, k + 1));
        }
        c = e;
        bc = be;
        k = k + 1;
    }
    proof {
        assert(gv.take(k as int) =~= gv);
    }
    let tail = trimmed_end(seg, start, seg.len());
    let ghost closed = views(out@);
    out.push(tail);
    proof {
        assert(views(out@) =~= closed.push(trim_end(seg@.subrange(start as int, seg@.len() as int))));
    }
    out
}

/// Breaks shaped text into lines of at most `width` dots as `measure`
/// counts them (see `spec_wrap_shaped`): at Unicode line opportunities,
/// and between grapheme clusters where none fits; `\\&` forces a break.
pub fn wrap_shaped<F: Fn(&str) -> u32>(text: &str, width: u32, measure: &F) -> (lines: Vec<String>)
    requires
        measure_ok(*measure),
    ensures
        lines@.map_values(|l: String| l@) == spec_wrap_shaped(*measure, text@, width),
{
    let c = chars_of(text);
    let segs = segments(&c);
    let ghost sv = views(segs@);
    let mut all: Vec<Vec<char>> = Vec::new();
    let mut k: usize = 0;
    proof {
        assert(sv.take(0) =~= Seq::<Seq<char>>::empty());
        assert(views(all@) =~= Seq::<Seq<char>>::empty());
    }
    while k < segs.len()
        invariant
            k <= segs@.len(),
            sv == views(segs@),
            sv == segments_from(c@, 0),
            c@ == text@,
            measure_ok(*measure),
            views(all@) == break_segments(*measure, sv.take(k as int), width),
        decreases segs@.len() - k,
    {
        proof {
            assert(sv.take(k + 1).drop_last() =~= sv.take(k as int));
            assert(sv.take(k + 1).last() == segs@[k as int]@);
        }
        break_segment_exec(measure, &segs[k], width, &mut all);
        k = k + 1;
    }
    proof {
        assert(sv.take(k as int) =~= sv);
    }
    let mut out: Vec<String> = Vec::new();
    let mut i: usize = 0;
    while i < all.len()
        invariant
            i <= all@.len(),
            out@.len() == i,
            forall|j: int| 0 <= j < i ==> #[trigger] out@[j]@ == all@[j]@,
        decreases all@.len() - i,
    {
        out.push(string_of(all[i].as_slice()));
        i = i + 1;
    }
    proof {
        assert(out@.map_values(|l: String| l@) =~= views(all@));
    }
    out
}

} // verus!
