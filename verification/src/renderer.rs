//! Checks that the embedding renderer applies to a request before it parses
//! or draws anything, and to what it hands back: size limits on the ZPL text,
//! the canvas, the variables and the output, the single-format rule, the
//! supported resolutions, and the codes by which it reports each refusal.

use vstd::prelude::*;
use crate::error::ZplError;
use crate::text::{
    chars_of, lemma_trim_end_bounds, lemma_trim_start_bounds, trim, trim_end_of, trim_end_index,
    trim_start_of, utf8_len, utf8_len_below,
};

verus! {

/// Largest ZPL text, in UTF-8 bytes, that the renderer accepts.
pub const MAX_ZPL_BYTES: usize = 65536;

/// Largest width or height of the canvas, in dots.
pub const MAX_CANVAS_SIDE: u32 = 4096;

/// Largest canvas area, in dots.
pub const MAX_CANVAS_AREA: u64 = 4194304;

/// Largest document the renderer hands back, in bytes.
pub const MAX_OUTPUT_BYTES: usize = 16777216;

/// Largest font file the renderer accepts, in bytes.
pub const MAX_FONT_BYTES: usize = 16777216;

/// Largest JSON text of page variables, in UTF-8 bytes.
pub const MAX_VARIABLES_BYTES: usize = 65536;

/// Most pages one request may ask for.
pub const MAX_PAGES: usize = 32;

/// The marker `^X` followed by `c` starts at position `i` of `s`.
pub open spec fn marker_at(s: Seq<char>, i: int, c: char) -> bool {
    &&& 0 <= i
    &&& i + 3 <= s.len()
    &&& s[i] == '^'
    &&& s[i + 1] == 'X'
    &&& s[i + 2] == c
}

/// How many markers `^X` followed by `c` start below position `n` of `s`.
pub open spec fn marker_count_below(s: Seq<char>, c: char, n: int) -> nat
    decreases n,
{
    if n <= 0 {
        0
    } else {
        marker_count_below(s, c, n - 1) + if marker_at(s, n - 1, c) {
            1nat
        } else {
            0nat
        }
    }
}

/// How many times `^X` followed by `c` occurs in `s`. Two occurrences of such
/// a marker can never overlap, so this is also the number of
/// non-overlapping matches.
pub open spec fn marker_count(s: Seq<char>, c: char) -> nat {
    marker_count_below(s, c, s.len() as int)
}

/// The text, without surrounding white space, starts with `^XA` and ends with
/// `^XZ`, and each of the two markers occurs exactly once in it.
pub open spec fn is_single_format(s: Seq<char>) -> bool {
    let t = trim(s);
    &&& marker_at(t, 0, 'A')
    &&& marker_at(t, t.len() - 3, 'Z')
    &&& marker_count(s, 'A') == 1
    &&& marker_count(s, 'Z') == 1
}

/// Both sides are positive and at most the side limit, and the area is at
/// most the area limit.
pub open spec fn canvas_fits(width: u32, height: u32) -> bool {
    &&& 0 < width <= MAX_CANVAS_SIDE
    &&& 0 < height <= MAX_CANVAS_SIDE
    &&& width * height <= MAX_CANVAS_AREA
}

/// The printer resolutions the renderer supports, in dots per inch.
pub open spec fn supported_dpi(dpi: u32) -> bool {
    dpi == 203 || dpi == 300 || dpi == 600
}

/// The code under which a render request is refused, checked in this order,
/// or `None` when it is accepted.
pub open spec fn request_error(zpl: Seq<char>, width: u32, height: u32, dpi: u32) -> Option<
    Seq<char>,
> {
    if zpl.len() == 0 || utf8_len(zpl) > MAX_ZPL_BYTES {
        Some("ZPL_INPUT_LIMIT"@)
    } else if !is_single_format(zpl) {
        Some("ZPL_SINGLE_FORMAT_REQUIRED"@)
    } else if !canvas_fits(width, height) {
        Some("ZPL_CANVAS_LIMIT"@)
    } else if !supported_dpi(dpi) {
        Some("ZPL_RESOLUTION_INVALID"@)
    } else {
        None
    }
}

/// Counts the markers `^X` followed by `c` in `s`.
fn count_markers(s: &Vec<char>, c: char) -> (n: usize)
    ensures
        n == marker_count(s@, c),
{
    let mut n: usize = 0;
    let mut i: usize = 0;
    while i < s.len()
        invariant
            i <= s@.len(),
            n == marker_count_below(s@, c, i as int),
            n <= i,
        decreases s@.len() - i,
    {
        if s.len() - i >= 3 && s[i] == '^' && s[i + 1] == 'X' && s[i + 2] == c {
            n = n + 1;
        }
        i = i + 1;
    }
    n
}

/// Whether `s` is exactly one label format (see `is_single_format`).
fn single_format(s: &Vec<char>) -> (r: bool)
    ensures
        r == is_single_format(s@),
{
    let e = trim_end_of(s, 0, s.len());
    proof {
        lemma_trim_end_bounds(s@.subrange(0, s@.len() as int));
        assert(s@.subrange(0, s@.len() as int) == s@);
    }
    let b = trim_start_of(s, 0, e);
    let ghost t = trim(s@);
    proof {
        lemma_trim_start_bounds(s@.subrange(0, e as int));
        assert(s@.subrange(0, trim_end_index(s@)) == s@.subrange(0, e as int));
        assert(t == s@.subrange(b as int, e as int));
    }
    if e - b < 3 {
        return false;
    }
    let starts = s[b] == '^' && s[b + 1] == 'X' && s[b + 2] == 'A';
    let ends = s[e - 3] == '^' && s[e - 2] == 'X' && s[e - 1] == 'Z';
    proof {
        assert(t[0] == s@[b as int] && t[1] == s@[b + 1] && t[2] == s@[b + 2]);
        assert(t[t.len() - 3] == s@[e - 3] && t[t.len() - 2] == s@[e - 2] && t[t.len() - 1]
            == s@[e - 1]);
    }
    if !starts || !ends {
        return false;
    }
    count_markers(s, 'A') == 1 && count_markers(s, 'Z') == 1
}

/// Checks a render request before anything is parsed: the size of the ZPL
/// text, that it is a single label format, the canvas and the resolution.
pub fn validate(zpl: &str, width: u32, height: u32, dpi: u32) -> (r: Result<(), &'static str>)
    ensures
        match r {
            Ok(()) => request_error(zpl@, width, height, dpi) is None,
            Err(code) => request_error(zpl@, width, height, dpi) == Some(code@),
        },
{
    let s = chars_of(zpl);
    if s.len() == 0 {
        return Err("ZPL_INPUT_LIMIT");
    }
    match utf8_len_below(s.as_slice(), MAX_ZPL_BYTES + 1) {
        None => {
            return Err("ZPL_INPUT_LIMIT");
        },
        Some(_) => {},
    }
    if !single_format(&s) {
        return Err("ZPL_SINGLE_FORMAT_REQUIRED");
    }
    if width == 0 || height == 0 || width > MAX_CANVAS_SIDE || height > MAX_CANVAS_SIDE {
        return Err("ZPL_CANVAS_LIMIT");
    }
    let w = width as u64;
    let h = height as u64;
    assert(w * h <= 4096 * 4096) by (nonlinear_arith)
        requires
            w <= 4096,
            h <= 4096,
    ;
    if w * h > MAX_CANVAS_AREA {
        return Err("ZPL_CANVAS_LIMIT");
    }
    if !(dpi == 203 || dpi == 300 || dpi == 600) {
        return Err("ZPL_RESOLUTION_INVALID");
    }
    Ok(())
}

/// `bytes` begins with the four bytes `a b c d`.
pub open spec fn has_signature(bytes: Seq<u8>, a: u8, b: u8, c: u8, d: u8) -> bool {
    &&& bytes.len() >= 4
    &&& bytes[0] == a
    &&& bytes[1] == b
    &&& bytes[2] == c
    &&& bytes[3] == d
}

/// `bytes` begins with a TrueType signature: `00 01 00 00` or `true`.
pub open spec fn truetype_signature(bytes: Seq<u8>) -> bool {
    has_signature(bytes, 0x00, 0x01, 0x00, 0x00) || has_signature(bytes, 0x74, 0x72, 0x75, 0x65)
}

/// Whether a font file begins with a TrueType signature, as the font
/// embedding of Unicode PDF output and the renderer's default font require.
pub fn is_truetype(bytes: &[u8]) -> (b: bool)
    ensures
        b == truetype_signature(bytes@),
{
    let binary = bytes.len() >= 4 && bytes[0] == 0 && bytes[1] == 1 && bytes[2] == 0 && bytes[3]
        == 0;
    let apple = bytes.len() >= 4 && bytes[0] == 0x74 && bytes[1] == 0x72 && bytes[2] == 0x75
        && bytes[3] == 0x65;
    binary || apple
}

/// The code under which a font file is refused, or `None` when it is
/// accepted: its size must lie between one byte and the font limit, and it
/// must begin with a TrueType signature (`00 01 00 00` or `true`).
pub open spec fn font_error(bytes: Seq<u8>) -> Option<Seq<char>> {
    if bytes.len() == 0 || bytes.len() > MAX_FONT_BYTES {
        Some("FONT_SIZE_LIMIT"@)
    } else if !truetype_signature(bytes) {
        Some("FONT_INVALID"@)
    } else {
        None
    }
}

/// Checks a font file before it is registered as the default font.
pub fn check_font_bytes(bytes: &[u8]) -> (r: Result<(), &'static str>)
    ensures
        match r {
            Ok(()) => font_error(bytes@) is None,
            Err(code) => font_error(bytes@) == Some(code@),
        },
{
    if bytes.len() == 0 || bytes.len() > MAX_FONT_BYTES {
        return Err("FONT_SIZE_LIMIT");
    }
    if !is_truetype(bytes) {
        return Err("FONT_INVALID");
    }
    Ok(())
}

/// The code under which a JSON text of page variables is refused for its
/// size, or `None`.
pub open spec fn variables_error(json: Seq<char>) -> Option<Seq<char>> {
    if utf8_len(json) > MAX_VARIABLES_BYTES {
        Some("ZPL_VARIABLES_LIMIT"@)
    } else {
        None
    }
}

/// Checks the size of the JSON text of page variables before it is read.
pub fn check_variables_size(json: &str) -> (r: Result<(), &'static str>)
    ensures
        match r {
            Ok(()) => variables_error(json@) is None,
            Err(code) => variables_error(json@) == Some(code@),
        },
{
    let s = chars_of(json);
    match utf8_len_below(s.as_slice(), MAX_VARIABLES_BYTES + 1) {
        None => Err("ZPL_VARIABLES_LIMIT"),
        Some(_) => Ok(()),
    }
}

/// The code under which a number of pages is refused, or `None`: a request
/// renders at least one page and at most the page limit.
pub open spec fn page_count_error(pages: nat) -> Option<Seq<char>> {
    if pages == 0 || pages > MAX_PAGES {
        Some("ZPL_PAGE_LIMIT"@)
    } else {
        None
    }
}

/// Checks how many pages a request asks for.
pub fn check_page_count(pages: usize) -> (r: Result<(), &'static str>)
    ensures
        match r {
            Ok(()) => page_count_error(pages as nat) is None,
            Err(code) => page_count_error(pages as nat) == Some(code@),
        },
{
    if pages == 0 || pages > MAX_PAGES {
        Err("ZPL_PAGE_LIMIT")
    } else {
        Ok(())
    }
}

/// Hands a rendered document back unchanged when it is within the output
/// limit, and refuses it otherwise.
pub fn check_output(output: Vec<u8>) -> (r: Result<Vec<u8>, &'static str>)
    ensures
        output.len() <= MAX_OUTPUT_BYTES ==> r == Ok::<Vec<u8>, &'static str>(output),
        output.len() > MAX_OUTPUT_BYTES ==> (r matches Err(code) && code@ == "ZPL_OUTPUT_LIMIT"@),
{
    if output.len() > MAX_OUTPUT_BYTES {
        return Err("ZPL_OUTPUT_LIMIT");
    }
    Ok(output)
}

/// The code under which a failed render is reported: font and resource-limit
/// failures have codes of their own, every other failure shares one.
pub open spec fn render_error_code(error: ZplError) -> Seq<char> {
    match error {
        ZplError::FontError(_) => "ZPL_FONT_UNSUPPORTED"@,
        ZplError::SecurityLimitExceeded(_) => "ZPL_RESOURCE_LIMIT"@,
        _ => "ZPL_RENDER_FAILED"@,
    }
}

/// The code under which a failed render is reported.
pub fn map_render_error(error: &ZplError) -> (code: &'static str)
    ensures
        code@ == render_error_code(*error),
{
    match error {
        ZplError::FontError(_) => "ZPL_FONT_UNSUPPORTED",
        ZplError::SecurityLimitExceeded(_) => "ZPL_RESOURCE_LIMIT",
        _ => "ZPL_RENDER_FAILED",
    }
}

} // verus!
