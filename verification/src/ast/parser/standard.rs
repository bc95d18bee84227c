//! The parsers of the standard ZPL commands.

use vstd::prelude::*;
use crate::ast::cmd::{Command, CommandOf, CommandView};
use crate::ast::commons::{
    justification_of, yes_no_of, Barcode1DKind, Justification, YesNo,
};
use crate::text::{decimal_digits, is_digit, lemma_decimal_digits_short, string_of, trim, trimmed_string};
use super::{
    cut, opt_char, opt_char_upper, opt_u32, or_none, param_char_or_none,
    param_char_upper_or_none, param_u32_or_none, parse_char, parse_u32, parse_xy, has_tag,
    skip_till_caret, skip_till_comma_caret, skip_ws, spec_char, spec_opt_char,
    spec_opt_char_upper, spec_opt_u32, spec_param_char, spec_param_char_upper, spec_param_u32,
    spec_u32, spec_xy, tag_at, till_caret, till_comma_caret, ws_end, ErrorKind, Parsed,
    digits_end, lemma_digits_end_bounds, param_absent, char_decimal,
};
use crate::text::is_digit_char;

verus! {

/// The view of a command parser's outcome.
pub open spec fn cmd_view(r: Parsed<Command>) -> Parsed<CommandView> {
    match r {
        Parsed::Done(p, c) => Parsed::Done(p, c@),
        Parsed::Error(p, k) => Parsed::Error(p, k),
        Parsed::Failure(p, k) => Parsed::Failure(p, k),
    }
}

/// The arguments end at `pos`: the input ends or a caret follows.
pub open spec fn param_end_at(s: Seq<char>, pos: int) -> bool {
    pos >= s.len() || s[pos] == '^'
}

fn at_param_end(s: &Vec<char>, pos: usize) -> (r: bool)
    requires
        pos <= s@.len(),
    ensures
        r == param_end_at(s@, pos as int),
{
    pos >= s.len() || s[pos] == '^'
}

/// A decimal ratio at `pos`: digits, optionally followed by a point and
/// more digits; its text.
pub open spec fn spec_ratio(s: Seq<char>, pos: int) -> Parsed<Seq<char>> {
    let e = digits_end(s, pos);
    if e == pos {
        Parsed::Error(pos as usize, ErrorKind::Digit)
    } else if e < s.len() && s[e] == '.' && digits_end(s, e + 1) > e + 1 {
        Parsed::Done(digits_end(s, e + 1) as usize, s.subrange(pos, digits_end(s, e + 1)))
    } else {
        Parsed::Done(e as usize, s.subrange(pos, e))
    }
}

/// A comma-prefixed optional ratio.
pub open spec fn spec_param_ratio(s: Seq<char>, pos: int) -> Parsed<Option<Seq<char>>> {
    if 0 <= pos < s.len() && s[pos] == ',' {
        if param_absent(s, pos + 1) {
            Parsed::Done((pos + 1) as usize, None)
        } else {
            match spec_ratio(s, pos + 1) {
                Parsed::Done(p, v) => Parsed::Done(p, Some(v)),
                Parsed::Error(p, k) => Parsed::Error(p, k),
                Parsed::Failure(p, k) => Parsed::Failure(p, k),
            }
        }
    } else {
        Parsed::Error(pos as usize, ErrorKind::Tag)
    }
}

fn skip_digits(s: &Vec<char>, pos: usize) -> (r: usize)
    requires
        pos <= s@.len(),
    ensures
        r == digits_end(s@, pos as int),
        pos <= r <= s@.len(),
{
    let mut i = pos;
    while i < s.len() && is_digit_char(s[i])
        invariant
            pos <= i <= s@.len(),
            digits_end(s@, pos as int) == digits_end(s@, i as int),
        decreases s@.len() - i,
    {
        i = i + 1;
    }
    i
}

/// A comma-prefixed ratio, or nothing when it cannot be read.
fn param_ratio_or_none(s: &Vec<char>, pos: usize) -> (r: (usize, Option<String>))
    requires
        pos <= s@.len(),
    ensures
        (r.0, match r.1 { Some(t) => Some(t@), None => None }) == or_none(pos as int, spec_param_ratio(s@, pos as int)),
        pos <= r.0 <= s@.len(),
{
    if !(pos < s.len() && s[pos] == ',') {
        return (pos, None);
    }
    let p = pos + 1;
    if p >= s.len() || s[p] == ',' || s[p] == '^' {
        return (p, None);
    }
    let e = skip_digits(s, p);
    if e == p {
        return (pos, None);
    }
    if e < s.len() && s[e] == '.' {
        let f = skip_digits(s, e + 1);
        if f > e + 1 {
            return (f, Some(string_of(crate::text::slice_range(s, p, f))));
        }
    }
    (e, Some(string_of(crate::text::slice_range(s, p, e))))
}

/// A comma-prefixed optional field running to the next comma or caret.
pub open spec fn spec_param_id_field(s: Seq<char>, pos: int) -> Parsed<Option<Seq<char>>> {
    if 0 <= pos < s.len() && s[pos] == ',' {
        if param_absent(s, pos + 1) {
            Parsed::Done((pos + 1) as usize, None)
        } else {
            Parsed::Done(
                till_comma_caret(s, pos + 1) as usize,
                Some(s.subrange(pos + 1, till_comma_caret(s, pos + 1))),
            )
        }
    } else {
        Parsed::Error(pos as usize, ErrorKind::Tag)
    }
}

fn param_id_field_or_none(s: &Vec<char>, pos: usize) -> (r: (usize, Option<String>))
    requires
        pos <= s@.len(),
    ensures
        (r.0, match r.1 { Some(t) => Some(t@), None => None }) == or_none(pos as int, spec_param_id_field(s@, pos as int)),
        pos <= r.0 <= s@.len(),
{
    if !(pos < s.len() && s[pos] == ',') {
        return (pos, None);
    }
    let p = pos + 1;
    if p >= s.len() || s[p] == ',' || s[p] == '^' {
        return (p, None);
    }
    let e = skip_till_comma_caret(s, p);
    (e, Some(string_of(crate::text::slice_range(s, p, e))))
}

/// A command that is a bare tag.
pub open spec fn spec_bare(s: Seq<char>, pos: int, t: Seq<char>, c: CommandView) -> Parsed<CommandView> {
    if tag_at(s, pos, t) {
        Parsed::Done((pos + t.len()) as usize, c)
    } else {
        Parsed::Error(pos as usize, ErrorKind::Tag)
    }
}

/// `^XA` — start of a label format.
pub fn cmd_xa(s: &Vec<char>, pos: usize) -> (r: Parsed<Command>)
    requires
        pos <= s@.len(),
    ensures
        cmd_view(r) == spec_bare(s@, pos as int, "^XA"@, CommandOf::StartFormat),
        r matches Parsed::Done(p, _) ==> pos < p <= s@.len(),
        r matches Parsed::Failure(p, _) ==> p <= s@.len(),
{
    if has_tag(s, pos, "^XA") {
        proof {
            reveal_strlit("^XA");
        }
        Parsed::Done(pos + 3, CommandOf::StartFormat)
    } else {
        Parsed::Error(pos, ErrorKind::Tag)
    }
}

/// `^XZ` — end of a label format.
pub fn cmd_xz(s: &Vec<char>, pos: usize) -> (r: Parsed<Command>)
    requires
        pos <= s@.len(),
    ensures
        cmd_view(r) == spec_bare(s@, pos as int, "^XZ"@, CommandOf::EndFormat),
        r matches Parsed::Done(p, _) ==> pos < p <= s@.len(),
        r matches Parsed::Failure(p, _) ==> p <= s@.len(),
{
    if has_tag(s, pos, "^XZ") {
        proof {
            reveal_strlit("^XZ");
        }
        Parsed::Done(pos + 3, CommandOf::EndFormat)
    } else {
        Parsed::Error(pos, ErrorKind::Tag)
    }
}

/// `^FS` — field separator.
pub fn cmd_fs(s: &Vec<char>, pos: usize) -> (r: Parsed<Command>)
    requires
        pos <= s@.len(),
    ensures
        cmd_view(r) == spec_bare(s@, pos as int, "^FS"@, CommandOf::FieldSeparator),
        r matches Parsed::Done(p, _) ==> pos < p <= s@.len(),
        r matches Parsed::Failure(p, _) ==> p <= s@.len(),
{
    if has_tag(s, pos, "^FS") {
        proof {
            reveal_strlit("^FS");
        }
        Parsed::Done(pos + 3, CommandOf::FieldSeparator)
    } else {
        Parsed::Error(pos, ErrorKind::Tag)
    }
}

/// `^FR` — field reverse print.
pub fn cmd_fr(s: &Vec<char>, pos: usize) -> (r: Parsed<Command>)
    requires
        pos <= s@.len(),
    ensures
        cmd_view(r) == spec_bare(s@, pos as int, "^FR"@, CommandOf::FieldReverse),
        r matches Parsed::Done(p, _) ==> pos < p <= s@.len(),
        r matches Parsed::Failure(p, _) ==> p <= s@.len(),
{
    if has_tag(s, pos, "^FR") {
        proof {
            reveal_strlit("^FR");
        }
        Parsed::Done(pos + 3, CommandOf::FieldReverse)
    } else {
        Parsed::Error(pos, ErrorKind::Tag)
    }
}

/// `^LH` — label home.
pub open spec fn spec_cmd_lh(s: Seq<char>, pos: int) -> Parsed<CommandView> {
    if !tag_at(s, pos, "^LH"@) {
        Parsed::Error(pos as usize, ErrorKind::Tag)
    } else {
        let p0: int = pos + 3;
        match cut(spec_xy(s, p0)) {
            Parsed::Done(q1, xy) => {
                let p1: int = q1 as int;
                Parsed::Done(p1 as usize, CommandOf::LabelHome { x: xy.0, y: xy.1 })
            },
            Parsed::Error(e, k) => Parsed::Error(e, k),
            Parsed::Failure(e, k) => Parsed::Failure(e, k),
        }
    }
}

/// `^LH` — label home.
pub fn cmd_lh(s: &Vec<char>, pos: usize) -> (r: Parsed<Command>)
    requires
        pos <= s@.len(),
    ensures
        cmd_view(r) == spec_cmd_lh(s@, pos as int),
        r matches Parsed::Done(p, _) ==> pos < p <= s@.len(),
        r matches Parsed::Failure(p, _) ==> p <= s@.len(),
{
    if !has_tag(s, pos, "^LH") {
        return Parsed::Error(pos, ErrorKind::Tag);
    }
    proof {
        reveal_strlit("^LH");
    }
    let p0: usize = pos + 3;
    let (p1, xy) = match parse_xy(s, p0) {
        Parsed::Done(q, v) => (q, v),
        Parsed::Error(e, k) => {
            return Parsed::Failure(e, k);
        },
        Parsed::Failure(e, k) => {
            return Parsed::Failure(e, k);
        },
    };
    Parsed::Done(p1, CommandOf::LabelHome { x: xy.0, y: xy.1 })
}

/// `^LL` — label length.
pub open spec fn spec_cmd_ll(s: Seq<char>, pos: int) -> Parsed<CommandView> {
    if !tag_at(s, pos, "^LL"@) {
        Parsed::Error(pos as usize, ErrorKind::Tag)
    } else {
        let p0: int = pos + 3;
        match cut(spec_opt_u32(s, p0)) {
            Parsed::Done(q1, length) => {
                let p1: int = q1 as int;
                Parsed::Done(p1 as usize, CommandOf::LabelLength { length })
            },
            Parsed::Error(e, k) => Parsed::Error(e, k),
            Parsed::Failure(e, k) => Parsed::Failure(e, k),
        }
    }
}

/// `^LL` — label length.
pub fn cmd_ll(s: &Vec<char>, pos: usize) -> (r: Parsed<Command>)
    requires
        pos <= s@.len(),
    ensures
        cmd_view(r) == spec_cmd_ll(s@, pos as int),
        r matches Parsed::Done(p, _) ==> pos < p <= s@.len(),
        r matches Parsed::Failure(p, _) ==> p <= s@.len(),
{
    if !has_tag(s, pos, "^LL") {
        return Parsed::Error(pos, ErrorKind::Tag);
    }
    proof {
        reveal_strlit("^LL");
    }
    let p0: usize = pos + 3;
    let (p1, length) = match opt_u32(s, p0) {
        Parsed::Done(q, v) => (q, v),
        Parsed::Error(e, k) => {
            return Parsed::Failure(e, k);
        },
        Parsed::Failure(e, k) => {
            return Parsed::Failure(e, k);
        },
    };
    Parsed::Done(p1, CommandOf::LabelLength { length })
}

/// `^FO` — field origin.
pub open spec fn spec_cmd_fo(s: Seq<char>, pos: int) -> Parsed<CommandView> {
    if !tag_at(s, pos, "^FO"@) {
        Parsed::Error(pos as usize, ErrorKind::Tag)
    } else {
        let p0: int = pos + 3;
        match cut(spec_xy(s, p0)) {
            Parsed::Done(q1, xy) => {
                let p1: int = q1 as int;
                Parsed::Done(p1 as usize, CommandOf::FieldOrigin { x: xy.0, y: xy.1 })
            },
            Parsed::Error(e, k) => Parsed::Error(e, k),
            Parsed::Failure(e, k) => Parsed::Failure(e, k),
        }
    }
}

/// `^FO` — field origin.
pub fn cmd_fo(s: &Vec<char>, pos: usize) -> (r: Parsed<Command>)
    requires
        pos <= s@.len(),
    ensures
        cmd_view(r) == spec_cmd_fo(s@, pos as int),
        r matches Parsed::Done(p, _) ==> pos < p <= s@.len(),
        r matches Parsed::Failure(p, _) ==> p <= s@.len(),
{
    if !has_tag(s, pos, "^FO") {
        return Parsed::Error(pos, ErrorKind::Tag);
    }
    proof {
        reveal_strlit("^FO");
    }
    let p0: usize = pos + 3;
    let (p1, xy) = match parse_xy(s, p0) {
        Parsed::Done(q, v) => (q, v),
        Parsed::Error(e, k) => {
            return Parsed::Failure(e, k);
        },
        Parsed::Failure(e, k) => {
            return Parsed::Failure(e, k);
        },
    };
    Parsed::Done(p1, CommandOf::FieldOrigin { x: xy.0, y: xy.1 })
}

/// `^FT` — field typeset.
pub open spec fn spec_cmd_ft(s: Seq<char>, pos: int) -> Parsed<CommandView> {
    if !tag_at(s, pos, "^FT"@) {
        Parsed::Error(pos as usize, ErrorKind::Tag)
    } else {
        let p0: int = pos + 3;
        match cut(spec_xy(s, p0)) {
            Parsed::Done(q1, xy) => {
                let p1: int = q1 as int;
                Parsed::Done(p1 as usize, CommandOf::FieldTypeset { x: xy.0, y: xy.1 })
            },
            Parsed::Error(e, k) => Parsed::Error(e, k),
            Parsed::Failure(e, k) => Parsed::Failure(e, k),
        }
    }
}

/// `^FT` — field typeset.
pub fn cmd_ft(s: &Vec<char>, pos: usize) -> (r: Parsed<Command>)
    requires
        pos <= s@.len(),
    ensures
        cmd_view(r) == spec_cmd_ft(s@, pos as int),
        r matches Parsed::Done(p, _) ==> pos < p <= s@.len(),
        r matches Parsed::Failure(p, _) ==> p <= s@.len(),
{
    if !has_tag(s, pos, "^FT") {
        return Parsed::Error(pos, ErrorKind::Tag);
    }
    proof {
        reveal_strlit("^FT");
    }
    let p0: usize = pos + 3;
    let (p1, xy) = match parse_xy(s, p0) {
        Parsed::Done(q, v) => (q, v),
        Parsed::Error(e, k) => {
            return Parsed::Failure(e, k);
        },
        Parsed::Failure(e, k) => {
            return Parsed::Failure(e, k);
        },
    };
    Parsed::Done(p1, CommandOf::FieldTypeset { x: xy.0, y: xy.1 })
}

/// `^LR` — label reverse.
pub open spec fn spec_cmd_lr(s: Seq<char>, pos: int) -> Parsed<CommandView> {
    if !tag_at(s, pos, "^LR"@) {
        Parsed::Error(pos as usize, ErrorKind::Tag)
    } else {
        let p0: int = pos + 3;
        match cut(spec_opt_char(s, p0)) {
            Parsed::Done(q1, val) => {
                let p1: int = q1 as int;
                Parsed::Done(p1 as usize, CommandOf::LabelReverse { reverse: match val { Some(c) => Some(yes_no_of(c)), None => None } })
            },
            Parsed::Error(e, k) => Parsed::Error(e, k),
            Parsed::Failure(e, k) => Parsed::Failure(e, k),
        }
    }
}

/// `^LR` — label reverse.
pub fn cmd_lr(s: &Vec<char>, pos: usize) -> (r: Parsed<Command>)
    requires
        pos <= s@.len(),
    ensures
        cmd_view(r) == spec_cmd_lr(s@, pos as int),
        r matches Parsed::Done(p, _) ==> pos < p <= s@.len(),
        r matches Parsed::Failure(p, _) ==> p <= s@.len(),
{
    if !has_tag(s, pos, "^LR") {
        return Parsed::Error(pos, ErrorKind::Tag);
    }
    proof {
        reveal_strlit("^LR");
    }
    let p0: usize = pos + 3;
    let (p1, val) = match opt_char(s, p0) {
        Parsed::Done(q, v) => (q, v),
        Parsed::Error(e, k) => {
            return Parsed::Failure(e, k);
        },
        Parsed::Failure(e, k) => {
            return Parsed::Failure(e, k);
        },
    };
    Parsed::Done(p1, CommandOf::LabelReverse { reverse: match val { Some(c) => Some(YesNo::from(c)), None => None } })
}

/// `^FX` — comment.
pub open spec fn spec_cmd_fx(s: Seq<char>, pos: int) -> Parsed<CommandView> {
    if !tag_at(s, pos, "^FX"@) {
        Parsed::Error(pos as usize, ErrorKind::Tag)
    } else {
        let p0: int = pos + 3;
        let p1: int = till_caret(s, p0);
        let text = trim(s.subrange(p0, p1));
        Parsed::Done(p1 as usize, CommandOf::Comment { text })
    }
}

/// `^FX` — comment.
pub fn cmd_fx(s: &Vec<char>, pos: usize) -> (r: Parsed<Command>)
    requires
        pos <= s@.len(),
    ensures
        cmd_view(r) == spec_cmd_fx(s@, pos as int),
        r matches Parsed::Done(p, _) ==> pos < p <= s@.len(),
        r matches Parsed::Failure(p, _) ==> p <= s@.len(),
{
    if !has_tag(s, pos, "^FX") {
        return Parsed::Error(pos, ErrorKind::Tag);
    }
    proof {
        reveal_strlit("^FX");
    }
    let p0: usize = pos + 3;
    let p1: usize = skip_till_caret(s, p0);
    let text = trimmed_string(s, p0, p1);
    Parsed::Done(p1, CommandOf::Comment { text })
}

/// `^A` — font specification.
pub open spec fn spec_cmd_a(s: Seq<char>, pos: int) -> Parsed<CommandView> {
    if !tag_at(s, pos, "^A"@) {
        Parsed::Error(pos as usize, ErrorKind::Tag)
    } else {
        let p0: int = pos + 2;
        match cut(spec_char(s, p0)) {
            Parsed::Done(q1, font) => {
                let p1: int = q1 as int;
                match spec_opt_char(s, p1) {
                    Parsed::Done(q2, orientation) => {
                        let p2: int = q2 as int;
                        let (q3, height) = or_none(p2, spec_param_u32(s, p2));
                        let p3: int = q3 as int;
                        let (q4, width) = or_none(p3, spec_param_u32(s, p3));
                        let p4: int = q4 as int;
                        Parsed::Done(p4 as usize, CommandOf::FontSpecFull { font_name: font, orientation, height, width })
                    },
                    Parsed::Error(e, k) => Parsed::Error(e, k),
                    Parsed::Failure(e, k) => Parsed::Failure(e, k),
                }
            },
            Parsed::Error(e, k) => Parsed::Error(e, k),
            Parsed::Failure(e, k) => Parsed::Failure(e, k),
        }
    }
}

/// `^A` — font specification.
pub fn cmd_a(s: &Vec<char>, pos: usize) -> (r: Parsed<Command>)
    requires
        pos <= s@.len(),
    ensures
        cmd_view(r) == spec_cmd_a(s@, pos as int),
        r matches Parsed::Done(p, _) ==> pos < p <= s@.len(),
        r matches Parsed::Failure(p, _) ==> p <= s@.len(),
{
    if !has_tag(s, pos, "^A") {
        return Parsed::Error(pos, ErrorKind::Tag);
    }
    proof {
        reveal_strlit("^A");
    }
    let p0: usize = pos + 2;
    let (p1, font) = match parse_char(s, p0) {
        Parsed::Done(q, v) => (q, v),
        Parsed::Error(e, k) => {
            return Parsed::Failure(e, k);
        },
        Parsed::Failure(e, k) => {
            return Parsed::Failure(e, k);
        },
    };
    let (p2, orientation) = match opt_char(s, p1) {
        Parsed::Done(q, v) => (q, v),
        Parsed::Error(e, k) => {
            return Parsed::Error(e, k);
        },
        Parsed::Failure(e, k) => {
            return Parsed::Failure(e, k);
        },
    };
    let (p3, height) = param_u32_or_none(s, p2);
    let (p4, width) = param_u32_or_none(s, p3);
    Parsed::Done(p4, CommandOf::FontSpecFull { font_name: font, orientation, height, width })
}

/// `^CF` — change default font.
pub open spec fn spec_cmd_cf(s: Seq<char>, pos: int) -> Parsed<CommandView> {
    if !tag_at(s, pos, "^CF"@) {
        Parsed::Error(pos as usize, ErrorKind::Tag)
    } else {
        let p0: int = pos + 3;
        match cut(spec_char(s, p0)) {
            Parsed::Done(q1, font) => {
                let p1: int = q1 as int;
                let (q2, height) = or_none(p1, spec_param_u32(s, p1));
                let p2: int = q2 as int;
                let (q3, width) = or_none(p2, spec_param_u32(s, p2));
                let p3: int = q3 as int;
                Parsed::Done(p3 as usize, CommandOf::FontSpec { font_name: font, height, width })
            },
            Parsed::Error(e, k) => Parsed::Error(e, k),
            Parsed::Failure(e, k) => Parsed::Failure(e, k),
        }
    }
}

/// `^CF` — change default font.
pub fn cmd_cf(s: &Vec<char>, pos: usize) -> (r: Parsed<Command>)
    requires
        pos <= s@.len(),
    ensures
        cmd_view(r) == spec_cmd_cf(s@, pos as int),
        r matches Parsed::Done(p, _) ==> pos < p <= s@.len(),
        r matches Parsed::Failure(p, _) ==> p <= s@.len(),
{
    if !has_tag(s, pos, "^CF") {
        return Parsed::Error(pos, ErrorKind::Tag);
    }
    proof {
        reveal_strlit("^CF");
    }
    let p0: usize = pos + 3;
    let (p1, font) = match parse_char(s, p0) {
        Parsed::Done(q, v) => (q, v),
        Parsed::Error(e, k) => {
            return Parsed::Failure(e, k);
        },
        Parsed::Failure(e, k) => {
            return Parsed::Failure(e, k);
        },
    };
    let (p2, height) = param_u32_or_none(s, p1);
    let (p3, width) = param_u32_or_none(s, p2);
    Parsed::Done(p3, CommandOf::FontSpec { font_name: font, height, width })
}

/// `^FD` — field data.
pub open spec fn spec_cmd_fd(s: Seq<char>, pos: int) -> Parsed<CommandView> {
    if !tag_at(s, pos, "^FD"@) {
        Parsed::Error(pos as usize, ErrorKind::Tag)
    } else {
        let p0: int = pos + 3;
        let p1: int = till_caret(s, p0);
        let data = trim(s.subrange(p0, p1));
        Parsed::Done(p1 as usize, CommandOf::FieldData { data })
    }
}

/// `^FD` — field data.
pub fn cmd_fd(s: &Vec<char>, pos: usize) -> (r: Parsed<Command>)
    requires
        pos <= s@.len(),
    ensures
        cmd_view(r) == spec_cmd_fd(s@, pos as int),
        r matches Parsed::Done(p, _) ==> pos < p <= s@.len(),
        r matches Parsed::Failure(p, _) ==> p <= s@.len(),
{
    if !has_tag(s, pos, "^FD") {
        return Parsed::Error(pos, ErrorKind::Tag);
    }
    proof {
        reveal_strlit("^FD");
    }
    let p0: usize = pos + 3;
    let p1: usize = skip_till_caret(s, p0);
    let data = trimmed_string(s, p0, p1);
    Parsed::Done(p1, CommandOf::FieldData { data })
}

/// `^FB` — field block.
pub open spec fn spec_cmd_fb(s: Seq<char>, pos: int) -> Parsed<CommandView> {
    if !tag_at(s, pos, "^FB"@) {
        Parsed::Error(pos as usize, ErrorKind::Tag)
    } else {
        let p0: int = pos + 3;
        match cut(spec_opt_u32(s, p0)) {
            Parsed::Done(q1, w) => {
                let p1: int = q1 as int;
                let (q2, m) = or_none(p1, spec_param_u32(s, p1));
                let p2: int = q2 as int;
                let (q3, l) = or_none(p2, spec_param_u32(s, p2));
                let p3: int = q3 as int;
                let (q4, j) = or_none(p3, spec_param_char(s, p3));
                let p4: int = q4 as int;
                let (q5, i) = or_none(p4, spec_param_u32(s, p4));
                let p5: int = q5 as int;
                Parsed::Done(p5 as usize, CommandOf::FieldBlock { width: w, max_lines: m, line_spacing: l, justification: match j { Some(c) => Some(justification_of(c)), None => None }, indent: i })
            },
            Parsed::Error(e, k) => Parsed::Error(e, k),
            Parsed::Failure(e, k) => Parsed::Failure(e, k),
        }
    }
}

/// `^FB` — field block.
pub fn cmd_fb(s: &Vec<char>, pos: usize) -> (r: Parsed<Command>)
    requires
        pos <= s@.len(),
    ensures
        cmd_view(r) == spec_cmd_fb(s@, pos as int),
        r matches Parsed::Done(p, _) ==> pos < p <= s@.len(),
        r matches Parsed::Failure(p, _) ==> p <= s@.len(),
{
    if !has_tag(s, pos, "^FB") {
        return Parsed::Error(pos, ErrorKind::Tag);
    }
    proof {
        reveal_strlit("^FB");
    }
    let p0: usize = pos + 3;
    let (p1, w) = match opt_u32(s, p0) {
        Parsed::Done(q, v) => (q, v),
        Parsed::Error(e, k) => {
            return Parsed::Failure(e, k);
        },
        Parsed::Failure(e, k) => {
            return Parsed::Failure(e, k);
        },
    };
    let (p2, m) = param_u32_or_none(s, p1);
    let (p3, l) = param_u32_or_none(s, p2);
    let (p4, j) = param_char_or_none(s, p3);
    let (p5, i) = param_u32_or_none(s, p4);
    Parsed::Done(p5, CommandOf::FieldBlock { width: w, max_lines: m, line_spacing: l, justification: match j { Some(c) => Some(Justification::from(c)), None => None }, indent: i })
}

/// `^GB` — graphic box.
pub open spec fn spec_cmd_gb(s: Seq<char>, pos: int) -> Parsed<CommandView> {
    if !tag_at(s, pos, "^GB"@) {
        Parsed::Error(pos as usize, ErrorKind::Tag)
    } else {
        let p0: int = pos + 3;
        match cut(spec_u32(s, p0)) {
            Parsed::Done(q1, width) => {
                let p1: int = q1 as int;
                if !(p1 < s.len() && s[p1] == ',') {
                    Parsed::Failure(p1 as usize, ErrorKind::Tag)
                } else {
                    let p2: int = p1 + 1;
                    match cut(spec_u32(s, p2)) {
                        Parsed::Done(q3, height) => {
                            let p3: int = q3 as int;
                            let (q4, border_thickness) = or_none(p3, spec_param_u32(s, p3));
                            let p4: int = q4 as int;
                            let (q5, line_color) = or_none(p4, spec_param_char(s, p4));
                            let p5: int = q5 as int;
                            let (q6, corner_rounding) = or_none(p5, spec_param_u32(s, p5));
                            let p6: int = q6 as int;
                            Parsed::Done(p6 as usize, CommandOf::GraphicBox { width, height, border_thickness, line_color, corner_rounding })
                        },
                        Parsed::Error(e, k) => Parsed::Error(e, k),
                        Parsed::Failure(e, k) => Parsed::Failure(e, k),
                    }
                }
            },
            Parsed::Error(e, k) => Parsed::Error(e, k),
            Parsed::Failure(e, k) => Parsed::Failure(e, k),
        }
    }
}

/// `^GB` — graphic box.
pub fn cmd_gb(s: &Vec<char>, pos: usize) -> (r: Parsed<Command>)
    requires
        pos <= s@.len(),
    ensures
        cmd_view(r) == spec_cmd_gb(s@, pos as int),
        r matches Parsed::Done(p, _) ==> pos < p <= s@.len(),
        r matches Parsed::Failure(p, _) ==> p <= s@.len(),
{
    if !has_tag(s, pos, "^GB") {
        return Parsed::Error(pos, ErrorKind::Tag);
    }
    proof {
        reveal_strlit("^GB");
    }
    let p0: usize = pos + 3;
    let (p1, width) = match parse_u32(s, p0) {
        Parsed::Done(q, v) => (q, v),
        Parsed::Error(e, k) => {
            return Parsed::Failure(e, k);
        },
        Parsed::Failure(e, k) => {
            return Parsed::Failure(e, k);
        },
    };
    if !(p1 < s.len() && s[p1] == ',') {
        return Parsed::Failure(p1, ErrorKind::Tag);
    }
    let p2: usize = p1 + 1;
    let (p3, height) = match parse_u32(s, p2) {
        Parsed::Done(q, v) => (q, v),
        Parsed::Error(e, k) => {
            return Parsed::Failure(e, k);
        },
        Parsed::Failure(e, k) => {
            return Parsed::Failure(e, k);
        },
    };
    let (p4, border_thickness) = param_u32_or_none(s, p3);
    let (p5, line_color) = param_char_or_none(s, p4);
    let (p6, corner_rounding) = param_u32_or_none(s, p5);
    Parsed::Done(p6, CommandOf::GraphicBox { width, height, border_thickness, line_color, corner_rounding })
}

/// The digits of a decimal representation read back give the number.
pub proof fn lemma_char_decimal_of_digits(n: nat)
    ensures
        char_decimal(decimal_digits(n)) == n,
    decreases n,
{
    let d = decimal_digits(n);
    if n < 10 {
        assert(d == seq![crate::text::digit_char(n)]);
        assert(d.drop_last() =~= Seq::<char>::empty());
        assert(d.last() == crate::text::digit_char(n));
        assert((crate::text::digit_char(n) as u32) == 48 + n);
        assert(char_decimal(d) == char_decimal(d.drop_last()) * 10 + ((d.last() as u32) - 48) as nat);
    } else {
        lemma_char_decimal_of_digits(n / 10);
        let r = n % 10;
        assert(d == decimal_digits(n / 10).push(crate::text::digit_char(r)));
        assert(d.drop_last() =~= decimal_digits(n / 10));
        assert(d.last() == crate::text::digit_char(r));
        assert((crate::text::digit_char(r) as u32) == 48 + r);
        assert(char_decimal(d) == char_decimal(d.drop_last()) * 10 + ((d.last() as u32) - 48) as nat);
        assert((n / 10) * 10 + r == n);
    }
}

/// `10^k`.
pub open spec fn ten_pow(k: nat) -> nat
    decreases k,
{
    if k == 0 {
        1
    } else {
        10 * ten_pow((k - 1) as nat)
    }
}

/// A number below `10^k` has at most `k` decimal digits.
pub proof fn lemma_decimal_digits_len(n: nat, k: nat)
    requires
        1 <= k,
        n < ten_pow(k),
    ensures
        decimal_digits(n).len() <= k,
    decreases k,
{
    if n >= 10 {
        assert(ten_pow(k) == 10 * ten_pow((k - 1) as nat));
        if k == 1 {
            assert(ten_pow(0) == 1);
        }
        assert(k > 1);
        assert(n / 10 < ten_pow((k - 1) as nat));
        lemma_decimal_digits_len(n / 10, (k - 1) as nat);
    }
}

/// A run of `k` digits at `p`, not followed by a digit, ends at `p + k`.
pub proof fn lemma_digits_end_run(s: Seq<char>, p: int, k: int)
    requires
        0 <= p,
        0 <= k,
        p + k <= s.len(),
        forall|i: int| p <= i < p + k ==> is_digit(#[trigger] s[i]),
        p + k == s.len() || !is_digit(s[p + k]),
    ensures
        digits_end(s, p) == p + k,
    decreases k,
{
    if k > 0 {
        lemma_digits_end_run(s, p + 1, k - 1);
    }
}

/// `^GB`: the first number is the box's width and the second its height.
/// Parsing `^GB` followed by the decimal width, a comma and the decimal
/// height (and whatever follows that is not a digit) gives a graphic box of
/// that width and height.
pub proof fn law_gb_width_then_height(w: u32, h: u32, rest: Seq<char>)
    requires
        rest.len() == 0 || !is_digit(rest[0]),
    ensures
        ({
            let s = "^GB"@ + decimal_digits(w as nat) + ","@ + decimal_digits(h as nat) + rest;
            spec_cmd_gb(s, 0) matches Parsed::Done(_, CommandOf::GraphicBox { width, height, .. })
                && width == w && height == h
        }),
{
    reveal_strlit("^GB");
    reveal_strlit(",");
    let dw = decimal_digits(w as nat);
    let dh = decimal_digits(h as nat);
    assert(ten_pow(10) == 10_000_000_000) by {
        reveal_with_fuel(ten_pow, 11);
    }
    lemma_decimal_digits_len(w as nat, 10);
    lemma_decimal_digits_len(h as nat, 10);
    let s = "^GB"@ + dw + ","@ + dh + rest;
    lemma_decimal_digits_short(w as nat);
    lemma_decimal_digits_short(h as nat);
    lemma_char_decimal_of_digits(w as nat);
    lemma_char_decimal_of_digits(h as nat);
    let p1: int = 3 + dw.len() as int;
    let p3: int = p1 + 1 + dh.len() as int;
    assert(s.subrange(0, 3) =~= "^GB"@);
    assert(tag_at(s, 0, "^GB"@));
    assert forall|i: int| 3 <= i < p1 implies is_digit(#[trigger] s[i]) by {
        assert(s[i] == dw[i - 3]);
    }
    assert(s[p1] == ',');
    lemma_digits_end_run(s, 3, dw.len() as int);
    assert(s.subrange(3, p1) =~= dw);
    assert forall|i: int| p1 + 1 <= i < p3 implies is_digit(#[trigger] s[i]) by {
        assert(s[i] == dh[i - p1 - 1]);
    }
    if p3 < s.len() {
        assert(s[p3] == rest[0]);
    }
    lemma_digits_end_run(s, p1 + 1, dh.len() as int);
    assert(s.subrange(p1 + 1, p3) =~= dh);
    assert(digits_end(s, 3) == p1);
    assert(spec_u32(s, 3) == Parsed::Done(p1 as usize, w));
    assert(spec_u32(s, p1 + 1) == Parsed::Done(p3 as usize, h));
}

/// `^GC` — graphic circle.
pub open spec fn spec_cmd_gc(s: Seq<char>, pos: int) -> Parsed<CommandView> {
    if !tag_at(s, pos, "^GC"@) {
        Parsed::Error(pos as usize, ErrorKind::Tag)
    } else {
        let p0: int = pos + 3;
        match cut(spec_opt_u32(s, p0)) {
            Parsed::Done(q1, diameter) => {
                let p1: int = q1 as int;
                let (q2, border_thickness) = or_none(p1, spec_param_u32(s, p1));
                let p2: int = q2 as int;
                let (q3, line_color) = or_none(p2, spec_param_char(s, p2));
                let p3: int = q3 as int;
                Parsed::Done(p3 as usize, CommandOf::GraphicCircle { diameter, border_thickness, line_color })
            },
            Parsed::Error(e, k) => Parsed::Error(e, k),
            Parsed::Failure(e, k) => Parsed::Failure(e, k),
        }
    }
}

/// `^GC` — graphic circle.
pub fn cmd_gc(s: &Vec<char>, pos: usize) -> (r: Parsed<Command>)
    requires
        pos <= s@.len(),
    ensures
        cmd_view(r) == spec_cmd_gc(s@, pos as int),
        r matches Parsed::Done(p, _) ==> pos < p <= s@.len(),
        r matches Parsed::Failure(p, _) ==> p <= s@.len(),
{
    if !has_tag(s, pos, "^GC") {
        return Parsed::Error(pos, ErrorKind::Tag);
    }
    proof {
        reveal_strlit("^GC");
    }
    let p0: usize = pos + 3;
    let (p1, diameter) = match opt_u32(s, p0) {
        Parsed::Done(q, v) => (q, v),
        Parsed::Error(e, k) => {
            return Parsed::Failure(e, k);
        },
        Parsed::Failure(e, k) => {
            return Parsed::Failure(e, k);
        },
    };
    let (p2, border_thickness) = param_u32_or_none(s, p1);
    let (p3, line_color) = param_char_or_none(s, p2);
    Parsed::Done(p3, CommandOf::GraphicCircle { diameter, border_thickness, line_color })
}

/// `^GE` — graphic ellipse.
pub open spec fn spec_cmd_ge(s: Seq<char>, pos: int) -> Parsed<CommandView> {
    if !tag_at(s, pos, "^GE"@) {
        Parsed::Error(pos as usize, ErrorKind::Tag)
    } else {
        let p0: int = pos + 3;
        match cut(spec_opt_u32(s, p0)) {
            Parsed::Done(q1, width) => {
                let p1: int = q1 as int;
                let (q2, height) = or_none(p1, spec_param_u32(s, p1));
                let p2: int = q2 as int;
                let (q3, border_thickness) = or_none(p2, spec_param_u32(s, p2));
                let p3: int = q3 as int;
                let (q4, line_color) = or_none(p3, spec_param_char(s, p3));
                let p4: int = q4 as int;
                Parsed::Done(p4 as usize, CommandOf::GraphicEllipse { width, height, border_thickness, line_color })
            },
            Parsed::Error(e, k) => Parsed::Error(e, k),
            Parsed::Failure(e, k) => Parsed::Failure(e, k),
        }
    }
}

/// `^GE` — graphic ellipse.
pub fn cmd_ge(s: &Vec<char>, pos: usize) -> (r: Parsed<Command>)
    requires
        pos <= s@.len(),
    ensures
        cmd_view(r) == spec_cmd_ge(s@, pos as int),
        r matches Parsed::Done(p, _) ==> pos < p <= s@.len(),
        r matches Parsed::Failure(p, _) ==> p <= s@.len(),
{
    if !has_tag(s, pos, "^GE") {
        return Parsed::Error(pos, ErrorKind::Tag);
    }
    proof {
        reveal_strlit("^GE");
    }
    let p0: usize = pos + 3;
    let (p1, width) = match opt_u32(s, p0) {
        Parsed::Done(q, v) => (q, v),
        Parsed::Error(e, k) => {
            return Parsed::Failure(e, k);
        },
        Parsed::Failure(e, k) => {
            return Parsed::Failure(e, k);
        },
    };
    let (p2, height) = param_u32_or_none(s, p1);
    let (p3, border_thickness) = param_u32_or_none(s, p2);
    let (p4, line_color) = param_char_or_none(s, p3);
    Parsed::Done(p4, CommandOf::GraphicEllipse { width, height, border_thickness, line_color })
}

/// `^GF` — graphic field.
pub open spec fn spec_cmd_gf(s: Seq<char>, pos: int) -> Parsed<CommandView> {
    if !tag_at(s, pos, "^GF"@) {
        Parsed::Error(pos as usize, ErrorKind::Tag)
    } else {
        let p0: int = pos + 3;
        match cut(spec_opt_char(s, p0)) {
            Parsed::Done(q1, compression_type) => {
                let p1: int = q1 as int;
                let (q2, binary_byte_count) = or_none(p1, spec_param_u32(s, p1));
                let p2: int = q2 as int;
                let (q3, graphic_field_count) = or_none(p2, spec_param_u32(s, p2));
                let p3: int = q3 as int;
                let (q4, bytes_per_row) = or_none(p3, spec_param_u32(s, p3));
                let p4: int = q4 as int;
                let p5: int = if p4 < s.len() && s[p4] == ',' { p4 + 1 } else { p4 };
                let p6: int = till_caret(s, p5);
                let data = trim(s.subrange(p5, p6));
                Parsed::Done(p6 as usize, CommandOf::GraphicField { compression_type, binary_byte_count, graphic_field_count, bytes_per_row, data })
            },
            Parsed::Error(e, k) => Parsed::Error(e, k),
            Parsed::Failure(e, k) => Parsed::Failure(e, k),
        }
    }
}

/// `^GF` — graphic field.
pub fn cmd_gf(s: &Vec<char>, pos: usize) -> (r: Parsed<Command>)
    requires
        pos <= s@.len(),
    ensures
        cmd_view(r) == spec_cmd_gf(s@, pos as int),
        r matches Parsed::Done(p, _) ==> pos < p <= s@.len(),
        r matches Parsed::Failure(p, _) ==> p <= s@.len(),
{
    if !has_tag(s, pos, "^GF") {
        return Parsed::Error(pos, ErrorKind::Tag);
    }
    proof {
        reveal_strlit("^GF");
    }
    let p0: usize = pos + 3;
    let (p1, compression_type) = match opt_char(s, p0) {
        Parsed::Done(q, v) => (q, v),
        Parsed::Error(e, k) => {
            return Parsed::Failure(e, k);
        },
        Parsed::Failure(e, k) => {
            return Parsed::Failure(e, k);
        },
    };
    let (p2, binary_byte_count) = param_u32_or_none(s, p1);
    let (p3, graphic_field_count) = param_u32_or_none(s, p2);
    let (p4, bytes_per_row) = param_u32_or_none(s, p3);
    let p5: usize = if p4 < s.len() && s[p4] == ',' { p4 + 1 } else { p4 };
    let p6: usize = skip_till_caret(s, p5);
    let data = trimmed_string(s, p5, p6);
    Parsed::Done(p6, CommandOf::GraphicField { compression_type, binary_byte_count, graphic_field_count, bytes_per_row, data })
}

/// `^BC` — Code 128.
pub open spec fn spec_cmd_bc(s: Seq<char>, pos: int) -> Parsed<CommandView> {
    if !tag_at(s, pos, "^BC"@) {
        Parsed::Error(pos as usize, ErrorKind::Tag)
    } else {
        let p0: int = pos + 3;
        let rest: int = till_caret(s, p0);
        let p1: int = p0;
        match spec_opt_char(s, p1) {
            Parsed::Done(q2, orientation) => {
                let p2: int = q2 as int;
                let (q3, height) = or_none(p2, spec_param_u32(s, p2));
                let p3: int = q3 as int;
                let (q4, interpretation_line) = or_none(p3, spec_param_char(s, p3));
                let p4: int = q4 as int;
                let (q5, interpretation_line_above) = or_none(p4, spec_param_char(s, p4));
                let p5: int = q5 as int;
                let (q6, check_digit) = or_none(p5, spec_param_char(s, p5));
                let p6: int = q6 as int;
                let (q7, mode) = or_none(p6, spec_param_char(s, p6));
                let p7: int = q7 as int;
                Parsed::Done(rest as usize, CommandOf::Code128 { orientation, height, interpretation_line, interpretation_line_above, check_digit, mode })
            },
            Parsed::Error(e, k) => Parsed::Error(e, k),
            Parsed::Failure(e, k) => Parsed::Failure(e, k),
        }
    }
}

/// `^BC` — Code 128.
pub fn cmd_bc(s: &Vec<char>, pos: usize) -> (r: Parsed<Command>)
    requires
        pos <= s@.len(),
    ensures
        cmd_view(r) == spec_cmd_bc(s@, pos as int),
        r matches Parsed::Done(p, _) ==> pos < p <= s@.len(),
        r matches Parsed::Failure(p, _) ==> p <= s@.len(),
{
    if !has_tag(s, pos, "^BC") {
        return Parsed::Error(pos, ErrorKind::Tag);
    }
    proof {
        reveal_strlit("^BC");
    }
    let p0: usize = pos + 3;
    let rest: usize = skip_till_caret(s, p0);
    let p1: usize = p0;
    let (p2, orientation) = match opt_char(s, p1) {
        Parsed::Done(q, v) => (q, v),
        Parsed::Error(e, k) => {
            return Parsed::Error(e, k);
        },
        Parsed::Failure(e, k) => {
            return Parsed::Failure(e, k);
        },
    };
    let (p3, height) = param_u32_or_none(s, p2);
    let (p4, interpretation_line) = param_char_or_none(s, p3);
    let (p5, interpretation_line_above) = param_char_or_none(s, p4);
    let (p6, check_digit) = param_char_or_none(s, p5);
    let (p7, mode) = param_char_or_none(s, p6);
    Parsed::Done(rest, CommandOf::Code128 { orientation, height, interpretation_line, interpretation_line_above, check_digit, mode })
}

/// `^BQ` — QR code.
pub open spec fn spec_cmd_bq(s: Seq<char>, pos: int) -> Parsed<CommandView> {
    if !tag_at(s, pos, "^BQ"@) {
        Parsed::Error(pos as usize, ErrorKind::Tag)
    } else {
        let p0: int = pos + 3;
        let rest: int = till_caret(s, p0);
        let p1: int = p0;
        match spec_opt_char(s, p1) {
            Parsed::Done(q2, orientation) => {
                let p2: int = q2 as int;
                let (q3, model) = or_none(p2, spec_param_u32(s, p2));
                let p3: int = q3 as int;
                let (q4, magnification) = or_none(p3, spec_param_u32(s, p3));
                let p4: int = q4 as int;
                let (q5, error_correction) = or_none(p4, spec_param_char(s, p4));
                let p5: int = q5 as int;
                let (q6, mask) = or_none(p5, spec_param_u32(s, p5));
                let p6: int = q6 as int;
                Parsed::Done(rest as usize, CommandOf::QRCode { orientation, model, magnification, error_correction, mask })
            },
            Parsed::Error(e, k) => Parsed::Error(e, k),
            Parsed::Failure(e, k) => Parsed::Failure(e, k),
        }
    }
}

/// `^BQ` — QR code.
pub fn cmd_bq(s: &Vec<char>, pos: usize) -> (r: Parsed<Command>)
    requires
        pos <= s@.len(),
    ensures
        cmd_view(r) == spec_cmd_bq(s@, pos as int),
        r matches Parsed::Done(p, _) ==> pos < p <= s@.len(),
        r matches Parsed::Failure(p, _) ==> p <= s@.len(),
{
    if !has_tag(s, pos, "^BQ") {
        return Parsed::Error(pos, ErrorKind::Tag);
    }
    proof {
        reveal_strlit("^BQ");
    }
    let p0: usize = pos + 3;
    let rest: usize = skip_till_caret(s, p0);
    let p1: usize = p0;
    let (p2, orientation) = match opt_char(s, p1) {
        Parsed::Done(q, v) => (q, v),
        Parsed::Error(e, k) => {
            return Parsed::Error(e, k);
        },
        Parsed::Failure(e, k) => {
            return Parsed::Failure(e, k);
        },
    };
    let (p3, model) = param_u32_or_none(s, p2);
    let (p4, magnification) = param_u32_or_none(s, p3);
    let (p5, error_correction) = param_char_or_none(s, p4);
    let (p6, mask) = param_u32_or_none(s, p5);
    Parsed::Done(rest, CommandOf::QRCode { orientation, model, magnification, error_correction, mask })
}

/// `^B3` — Code 39.
pub open spec fn spec_cmd_b3(s: Seq<char>, pos: int) -> Parsed<CommandView> {
    if !tag_at(s, pos, "^B3"@) {
        Parsed::Error(pos as usize, ErrorKind::Tag)
    } else {
        let p0: int = pos + 3;
        let rest: int = till_caret(s, p0);
        let p1: int = p0;
        match spec_opt_char(s, p1) {
            Parsed::Done(q2, orientation) => {
                let p2: int = q2 as int;
                let (q3, check_digit) = or_none(p2, spec_param_char(s, p2));
                let p3: int = q3 as int;
                let (q4, height) = or_none(p3, spec_param_u32(s, p3));
                let p4: int = q4 as int;
                let (q5, interpretation_line) = or_none(p4, spec_param_char(s, p4));
                let p5: int = q5 as int;
                let (q6, interpretation_line_above) = or_none(p5, spec_param_char(s, p5));
                let p6: int = q6 as int;
                Parsed::Done(rest as usize, CommandOf::Code39 { orientation, check_digit, height, interpretation_line, interpretation_line_above })
            },
            Parsed::Error(e, k) => Parsed::Error(e, k),
            Parsed::Failure(e, k) => Parsed::Failure(e, k),
        }
    }
}

/// `^B3` — Code 39.
pub fn cmd_b3(s: &Vec<char>, pos: usize) -> (r: Parsed<Command>)
    requires
        pos <= s@.len(),
    ensures
        cmd_view(r) == spec_cmd_b3(s@, pos as int),
        r matches Parsed::Done(p, _) ==> pos < p <= s@.len(),
        r matches Parsed::Failure(p, _) ==> p <= s@.len(),
{
    if !has_tag(s, pos, "^B3") {
        return Parsed::Error(pos, ErrorKind::Tag);
    }
    proof {
        reveal_strlit("^B3");
    }
    let p0: usize = pos + 3;
    let rest: usize = skip_till_caret(s, p0);
    let p1: usize = p0;
    let (p2, orientation) = match opt_char(s, p1) {
        Parsed::Done(q, v) => (q, v),
        Parsed::Error(e, k) => {
            return Parsed::Error(e, k);
        },
        Parsed::Failure(e, k) => {
            return Parsed::Failure(e, k);
        },
    };
    let (p3, check_digit) = param_char_or_none(s, p2);
    let (p4, height) = param_u32_or_none(s, p3);
    let (p5, interpretation_line) = param_char_or_none(s, p4);
    let (p6, interpretation_line_above) = param_char_or_none(s, p5);
    Parsed::Done(rest, CommandOf::Code39 { orientation, check_digit, height, interpretation_line, interpretation_line_above })
}

/// `^BY` — barcode field defaults.
pub open spec fn spec_cmd_by(s: Seq<char>, pos: int) -> Parsed<CommandView> {
    if !tag_at(s, pos, "^BY"@) {
        Parsed::Error(pos as usize, ErrorKind::Tag)
    } else {
        let p0: int = pos + 3;
        let rest: int = till_caret(s, p0);
        let p1: int = p0;
        match spec_opt_u32(s, p1) {
            Parsed::Done(q2, module_width) => {
                let p2: int = q2 as int;
                let (q3, ratio) = or_none(p2, spec_param_ratio(s, p2));
                let p3: int = q3 as int;
                let (q4, height) = or_none(p3, spec_param_u32(s, p3));
                let p4: int = q4 as int;
                Parsed::Done(rest as usize, CommandOf::BarcodeDefault { module_width, ratio, height })
            },
            Parsed::Error(e, k) => Parsed::Error(e, k),
            Parsed::Failure(e, k) => Parsed::Failure(e, k),
        }
    }
}

/// `^BY` — barcode field defaults.
pub fn cmd_by(s: &Vec<char>, pos: usize) -> (r: Parsed<Command>)
    requires
        pos <= s@.len(),
    ensures
        cmd_view(r) == spec_cmd_by(s@, pos as int),
        r matches Parsed::Done(p, _) ==> pos < p <= s@.len(),
        r matches Parsed::Failure(p, _) ==> p <= s@.len(),
{
    if !has_tag(s, pos, "^BY") {
        return Parsed::Error(pos, ErrorKind::Tag);
    }
    proof {
        reveal_strlit("^BY");
    }
    let p0: usize = pos + 3;
    let rest: usize = skip_till_caret(s, p0);
    let p1: usize = p0;
    let (p2, module_width) = match opt_u32(s, p1) {
        Parsed::Done(q, v) => (q, v),
        Parsed::Error(e, k) => {
            return Parsed::Error(e, k);
        },
        Parsed::Failure(e, k) => {
            return Parsed::Failure(e, k);
        },
    };
    let (p3, ratio) = param_ratio_or_none(s, p2);
    let (p4, height) = param_u32_or_none(s, p3);
    Parsed::Done(rest, CommandOf::BarcodeDefault { module_width, ratio, height })
}

/// `^BX` — Data Matrix.
pub open spec fn spec_cmd_bx(s: Seq<char>, pos: int) -> Parsed<CommandView> {
    if !tag_at(s, pos, "^BX"@) {
        Parsed::Error(pos as usize, ErrorKind::Tag)
    } else {
        let p0: int = pos + 3;
        let rest: int = till_caret(s, p0);
        let p1: int = p0;
        match spec_opt_char(s, p1) {
            Parsed::Done(q2, orientation) => {
                let p2: int = q2 as int;
                let (q3, height) = or_none(p2, spec_param_u32(s, p2));
                let p3: int = q3 as int;
                let (q4, quality) = or_none(p3, spec_param_u32(s, p3));
                let p4: int = q4 as int;
                let (q5, columns) = or_none(p4, spec_param_u32(s, p4));
                let p5: int = q5 as int;
                let (q6, rows) = or_none(p5, spec_param_u32(s, p5));
                let p6: int = q6 as int;
                Parsed::Done(rest as usize, CommandOf::DataMatrix { orientation, height, quality, columns, rows })
            },
            Parsed::Error(e, k) => Parsed::Error(e, k),
            Parsed::Failure(e, k) => Parsed::Failure(e, k),
        }
    }
}

/// `^BX` — Data Matrix.
pub fn cmd_bx(s: &Vec<char>, pos: usize) -> (r: Parsed<Command>)
    requires
        pos <= s@.len(),
    ensures
        cmd_view(r) == spec_cmd_bx(s@, pos as int),
        r matches Parsed::Done(p, _) ==> pos < p <= s@.len(),
        r matches Parsed::Failure(p, _) ==> p <= s@.len(),
{
    if !has_tag(s, pos, "^BX") {
        return Parsed::Error(pos, ErrorKind::Tag);
    }
    proof {
        reveal_strlit("^BX");
    }
    let p0: usize = pos + 3;
    let rest: usize = skip_till_caret(s, p0);
    let p1: usize = p0;
    let (p2, orientation) = match opt_char(s, p1) {
        Parsed::Done(q, v) => (q, v),
        Parsed::Error(e, k) => {
            return Parsed::Error(e, k);
        },
        Parsed::Failure(e, k) => {
            return Parsed::Failure(e, k);
        },
    };
    let (p3, height) = param_u32_or_none(s, p2);
    let (p4, quality) = param_u32_or_none(s, p3);
    let (p5, columns) = param_u32_or_none(s, p4);
    let (p6, rows) = param_u32_or_none(s, p5);
    Parsed::Done(rest, CommandOf::DataMatrix { orientation, height, quality, columns, rows })
}

/// `^BE` — EAN-13.
pub open spec fn spec_cmd_be(s: Seq<char>, pos: int) -> Parsed<CommandView> {
    if !tag_at(s, pos, "^BE"@) {
        Parsed::Error(pos as usize, ErrorKind::Tag)
    } else {
        let p0: int = pos + 3;
        let rest: int = till_caret(s, p0);
        let p1: int = p0;
        match spec_opt_char(s, p1) {
            Parsed::Done(q2, orientation) => {
                let p2: int = q2 as int;
                let (q3, height) = or_none(p2, spec_param_u32(s, p2));
                let p3: int = q3 as int;
                let (q4, interpretation_line) = or_none(p3, spec_param_char(s, p3));
                let p4: int = q4 as int;
                let (q5, interpretation_line_above) = or_none(p4, spec_param_char(s, p4));
                let p5: int = q5 as int;
                let (q6, check_digit) = or_none(p5, spec_param_char(s, p5));
                let p6: int = q6 as int;
                Parsed::Done(rest as usize, CommandOf::Barcode1D { kind: Barcode1DKind::Ean13, orientation, height, interpretation_line, interpretation_line_above, check_digit: check_digit })
            },
            Parsed::Error(e, k) => Parsed::Error(e, k),
            Parsed::Failure(e, k) => Parsed::Failure(e, k),
        }
    }
}

/// `^BE` — EAN-13.
pub fn cmd_be(s: &Vec<char>, pos: usize) -> (r: Parsed<Command>)
    requires
        pos <= s@.len(),
    ensures
        cmd_view(r) == spec_cmd_be(s@, pos as int),
        r matches Parsed::Done(p, _) ==> pos < p <= s@.len(),
        r matches Parsed::Failure(p, _) ==> p <= s@.len(),
{
    if !has_tag(s, pos, "^BE") {
        return Parsed::Error(pos, ErrorKind::Tag);
    }
    proof {
        reveal_strlit("^BE");
    }
    let p0: usize = pos + 3;
    let rest: usize = skip_till_caret(s, p0);
    let p1: usize = p0;
    let (p2, orientation) = match opt_char(s, p1) {
        Parsed::Done(q, v) => (q, v),
        Parsed::Error(e, k) => {
            return Parsed::Error(e, k);
        },
        Parsed::Failure(e, k) => {
            return Parsed::Failure(e, k);
        },
    };
    let (p3, height) = param_u32_or_none(s, p2);
    let (p4, interpretation_line) = param_char_or_none(s, p3);
    let (p5, interpretation_line_above) = param_char_or_none(s, p4);
    let (p6, check_digit) = param_char_or_none(s, p5);
    Parsed::Done(rest, CommandOf::Barcode1D { kind: Barcode1DKind::Ean13, orientation, height, interpretation_line, interpretation_line_above, check_digit: check_digit })
}

/// `^BU` — UPC-A.
pub open spec fn spec_cmd_bu(s: Seq<char>, pos: int) -> Parsed<CommandView> {
    if !tag_at(s, pos, "^BU"@) {
        Parsed::Error(pos as usize, ErrorKind::Tag)
    } else {
        let p0: int = pos + 3;
        let rest: int = till_caret(s, p0);
        let p1: int = p0;
        match spec_opt_char(s, p1) {
            Parsed::Done(q2, orientation) => {
                let p2: int = q2 as int;
                let (q3, height) = or_none(p2, spec_param_u32(s, p2));
                let p3: int = q3 as int;
                let (q4, interpretation_line) = or_none(p3, spec_param_char(s, p3));
                let p4: int = q4 as int;
                let (q5, interpretation_line_above) = or_none(p4, spec_param_char(s, p4));
                let p5: int = q5 as int;
                let (q6, check_digit) = or_none(p5, spec_param_char(s, p5));
                let p6: int = q6 as int;
                Parsed::Done(rest as usize, CommandOf::Barcode1D { kind: Barcode1DKind::UpcA, orientation, height, interpretation_line, interpretation_line_above, check_digit: check_digit })
            },
            Parsed::Error(e, k) => Parsed::Error(e, k),
            Parsed::Failure(e, k) => Parsed::Failure(e, k),
        }
    }
}

/// `^BU` — UPC-A.
pub fn cmd_bu(s: &Vec<char>, pos: usize) -> (r: Parsed<Command>)
    requires
        pos <= s@.len(),
    ensures
        cmd_view(r) == spec_cmd_bu(s@, pos as int),
        r matches Parsed::Done(p, _) ==> pos < p <= s@.len(),
        r matches Parsed::Failure(p, _) ==> p <= s@.len(),
{
    if !has_tag(s, pos, "^BU") {
        return Parsed::Error(pos, ErrorKind::Tag);
    }
    proof {
        reveal_strlit("^BU");
    }
    let p0: usize = pos + 3;
    let rest: usize = skip_till_caret(s, p0);
    let p1: usize = p0;
    let (p2, orientation) = match opt_char(s, p1) {
        Parsed::Done(q, v) => (q, v),
        Parsed::Error(e, k) => {
            return Parsed::Error(e, k);
        },
        Parsed::Failure(e, k) => {
            return Parsed::Failure(e, k);
        },
    };
    let (p3, height) = param_u32_or_none(s, p2);
    let (p4, interpretation_line) = param_char_or_none(s, p3);
    let (p5, interpretation_line_above) = param_char_or_none(s, p4);
    let (p6, check_digit) = param_char_or_none(s, p5);
    Parsed::Done(rest, CommandOf::Barcode1D { kind: Barcode1DKind::UpcA, orientation, height, interpretation_line, interpretation_line_above, check_digit: check_digit })
}

/// `^B2` — Interleaved 2 of 5.
pub open spec fn spec_cmd_b2(s: Seq<char>, pos: int) -> Parsed<CommandView> {
    if !tag_at(s, pos, "^B2"@) {
        Parsed::Error(pos as usize, ErrorKind::Tag)
    } else {
        let p0: int = pos + 3;
        let rest: int = till_caret(s, p0);
        let p1: int = p0;
        match spec_opt_char(s, p1) {
            Parsed::Done(q2, orientation) => {
                let p2: int = q2 as int;
                let (q3, height) = or_none(p2, spec_param_u32(s, p2));
                let p3: int = q3 as int;
                let (q4, interpretation_line) = or_none(p3, spec_param_char(s, p3));
                let p4: int = q4 as int;
                let (q5, interpretation_line_above) = or_none(p4, spec_param_char(s, p4));
                let p5: int = q5 as int;
                let (q6, check_digit) = or_none(p5, spec_param_char(s, p5));
                let p6: int = q6 as int;
                Parsed::Done(rest as usize, CommandOf::Barcode1D { kind: Barcode1DKind::Interleaved2of5, orientation, height, interpretation_line, interpretation_line_above, check_digit: check_digit })
            },
            Parsed::Error(e, k) => Parsed::Error(e, k),
            Parsed::Failure(e, k) => Parsed::Failure(e, k),
        }
    }
}

/// `^B2` — Interleaved 2 of 5.
pub fn cmd_b2(s: &Vec<char>, pos: usize) -> (r: Parsed<Command>)
    requires
        pos <= s@.len(),
    ensures
        cmd_view(r) == spec_cmd_b2(s@, pos as int),
        r matches Parsed::Done(p, _) ==> pos < p <= s@.len(),
        r matches Parsed::Failure(p, _) ==> p <= s@.len(),
{
    if !has_tag(s, pos, "^B2") {
        return Parsed::Error(pos, ErrorKind::Tag);
    }
    proof {
        reveal_strlit("^B2");
    }
    let p0: usize = pos + 3;
    let rest: usize = skip_till_caret(s, p0);
    let p1: usize = p0;
    let (p2, orientation) = match opt_char(s, p1) {
        Parsed::Done(q, v) => (q, v),
        Parsed::Error(e, k) => {
            return Parsed::Error(e, k);
        },
        Parsed::Failure(e, k) => {
            return Parsed::Failure(e, k);
        },
    };
    let (p3, height) = param_u32_or_none(s, p2);
    let (p4, interpretation_line) = param_char_or_none(s, p3);
    let (p5, interpretation_line_above) = param_char_or_none(s, p4);
    let (p6, check_digit) = param_char_or_none(s, p5);
    Parsed::Done(rest, CommandOf::Barcode1D { kind: Barcode1DKind::Interleaved2of5, orientation, height, interpretation_line, interpretation_line_above, check_digit: check_digit })
}

/// `^BA` — Code 93.
pub open spec fn spec_cmd_ba(s: Seq<char>, pos: int) -> Parsed<CommandView> {
    if !tag_at(s, pos, "^BA"@) {
        Parsed::Error(pos as usize, ErrorKind::Tag)
    } else {
        let p0: int = pos + 3;
        let rest: int = till_caret(s, p0);
        let p1: int = p0;
        match spec_opt_char(s, p1) {
            Parsed::Done(q2, orientation) => {
                let p2: int = q2 as int;
                let (q3, height) = or_none(p2, spec_param_u32(s, p2));
                let p3: int = q3 as int;
                let (q4, interpretation_line) = or_none(p3, spec_param_char(s, p3));
                let p4: int = q4 as int;
                let (q5, interpretation_line_above) = or_none(p4, spec_param_char(s, p4));
                let p5: int = q5 as int;
                let (q6, check_digit) = or_none(p5, spec_param_char(s, p5));
                let p6: int = q6 as int;
                Parsed::Done(rest as usize, CommandOf::Barcode1D { kind: Barcode1DKind::Code93, orientation, height, interpretation_line, interpretation_line_above, check_digit: check_digit })
            },
            Parsed::Error(e, k) => Parsed::Error(e, k),
            Parsed::Failure(e, k) => Parsed::Failure(e, k),
        }
    }
}

/// `^BA` — Code 93.
pub fn cmd_ba(s: &Vec<char>, pos: usize) -> (r: Parsed<Command>)
    requires
        pos <= s@.len(),
    ensures
        cmd_view(r) == spec_cmd_ba(s@, pos as int),
        r matches Parsed::Done(p, _) ==> pos < p <= s@.len(),
        r matches Parsed::Failure(p, _) ==> p <= s@.len(),
{
    if !has_tag(s, pos, "^BA") {
        return Parsed::Error(pos, ErrorKind::Tag);
    }
    proof {
        reveal_strlit("^BA");
    }
    let p0: usize = pos + 3;
    let rest: usize = skip_till_caret(s, p0);
    let p1: usize = p0;
    let (p2, orientation) = match opt_char(s, p1) {
        Parsed::Done(q, v) => (q, v),
        Parsed::Error(e, k) => {
            return Parsed::Error(e, k);
        },
        Parsed::Failure(e, k) => {
            return Parsed::Failure(e, k);
        },
    };
    let (p3, height) = param_u32_or_none(s, p2);
    let (p4, interpretation_line) = param_char_or_none(s, p3);
    let (p5, interpretation_line_above) = param_char_or_none(s, p4);
    let (p6, check_digit) = param_char_or_none(s, p5);
    Parsed::Done(rest, CommandOf::Barcode1D { kind: Barcode1DKind::Code93, orientation, height, interpretation_line, interpretation_line_above, check_digit: check_digit })
}

/// `^GD` — graphic diagonal line.
pub open spec fn spec_cmd_gd(s: Seq<char>, pos: int) -> Parsed<CommandView> {
    if !tag_at(s, pos, "^GD"@) {
        Parsed::Error(pos as usize, ErrorKind::Tag)
    } else {
        let p0: int = pos + 3;
        let rest: int = till_caret(s, p0);
        let p1: int = p0;
        match spec_opt_u32(s, p1) {
            Parsed::Done(q2, width) => {
                let p2: int = q2 as int;
                let (q3, height) = or_none(p2, spec_param_u32(s, p2));
                let p3: int = q3 as int;
                let (q4, thickness) = or_none(p3, spec_param_u32(s, p3));
                let p4: int = q4 as int;
                let (q5, line_color) = or_none(p4, spec_param_char(s, p4));
                let p5: int = q5 as int;
                let (q6, diagonal_orientation) = or_none(p5, spec_param_char(s, p5));
                let p6: int = q6 as int;
                Parsed::Done(rest as usize, CommandOf::GraphicDiagonal { width, height, thickness, line_color, diagonal_orientation })
            },
            Parsed::Error(e, k) => Parsed::Error(e, k),
            Parsed::Failure(e, k) => Parsed::Failure(e, k),
        }
    }
}

/// `^GD` — graphic diagonal line.
pub fn cmd_gd(s: &Vec<char>, pos: usize) -> (r: Parsed<Command>)
    requires
        pos <= s@.len(),
    ensures
        cmd_view(r) == spec_cmd_gd(s@, pos as int),
        r matches Parsed::Done(p, _) ==> pos < p <= s@.len(),
        r matches Parsed::Failure(p, _) ==> p <= s@.len(),
{
    if !has_tag(s, pos, "^GD") {
        return Parsed::Error(pos, ErrorKind::Tag);
    }
    proof {
        reveal_strlit("^GD");
    }
    let p0: usize = pos + 3;
    let rest: usize = skip_till_caret(s, p0);
    let p1: usize = p0;
    let (p2, width) = match opt_u32(s, p1) {
        Parsed::Done(q, v) => (q, v),
        Parsed::Error(e, k) => {
            return Parsed::Error(e, k);
        },
        Parsed::Failure(e, k) => {
            return Parsed::Failure(e, k);
        },
    };
    let (p3, height) = param_u32_or_none(s, p2);
    let (p4, thickness) = param_u32_or_none(s, p3);
    let (p5, line_color) = param_char_or_none(s, p4);
    let (p6, diagonal_orientation) = param_char_or_none(s, p5);
    Parsed::Done(rest, CommandOf::GraphicDiagonal { width, height, thickness, line_color, diagonal_orientation })
}

/// `^B7` — PDF417.
pub open spec fn spec_cmd_b7(s: Seq<char>, pos: int) -> Parsed<CommandView> {
    if !tag_at(s, pos, "^B7"@) {
        Parsed::Error(pos as usize, ErrorKind::Tag)
    } else {
        let p0: int = pos + 3;
        let rest: int = till_caret(s, p0);
        let p1: int = p0;
        match spec_opt_char(s, p1) {
            Parsed::Done(q2, orientation) => {
                let p2: int = q2 as int;
                let (q3, height) = or_none(p2, spec_param_u32(s, p2));
                let p3: int = q3 as int;
                let (q4, security_level) = or_none(p3, spec_param_u32(s, p3));
                let p4: int = q4 as int;
                let (q5, columns) = or_none(p4, spec_param_u32(s, p4));
                let p5: int = q5 as int;
                let (q6, rows) = or_none(p5, spec_param_u32(s, p5));
                let p6: int = q6 as int;
                let (q7, truncate) = or_none(p6, spec_param_char(s, p6));
                let p7: int = q7 as int;
                Parsed::Done(rest as usize, CommandOf::Pdf417 { orientation, height, security_level, columns, rows, truncate: match truncate { Some(c) => Some(yes_no_of(c)), None => None } })
            },
            Parsed::Error(e, k) => Parsed::Error(e, k),
            Parsed::Failure(e, k) => Parsed::Failure(e, k),
        }
    }
}

/// `^B7` — PDF417.
pub fn cmd_b7(s: &Vec<char>, pos: usize) -> (r: Parsed<Command>)
    requires
        pos <= s@.len(),
    ensures
        cmd_view(r) == spec_cmd_b7(s@, pos as int),
        r matches Parsed::Done(p, _) ==> pos < p <= s@.len(),
        r matches Parsed::Failure(p, _) ==> p <= s@.len(),
{
    if !has_tag(s, pos, "^B7") {
        return Parsed::Error(pos, ErrorKind::Tag);
    }
    proof {
        reveal_strlit("^B7");
    }
    let p0: usize = pos + 3;
    let rest: usize = skip_till_caret(s, p0);
    let p1: usize = p0;
    let (p2, orientation) = match opt_char(s, p1) {
        Parsed::Done(q, v) => (q, v),
        Parsed::Error(e, k) => {
            return Parsed::Error(e, k);
        },
        Parsed::Failure(e, k) => {
            return Parsed::Failure(e, k);
        },
    };
    let (p3, height) = param_u32_or_none(s, p2);
    let (p4, security_level) = param_u32_or_none(s, p3);
    let (p5, columns) = param_u32_or_none(s, p4);
    let (p6, rows) = param_u32_or_none(s, p5);
    let (p7, truncate) = param_char_or_none(s, p6);
    Parsed::Done(rest, CommandOf::Pdf417 { orientation, height, security_level, columns, rows, truncate: match truncate { Some(c) => Some(YesNo::from(c)), None => None } })
}

/// `^B8` — EAN-8.
pub open spec fn spec_cmd_b8(s: Seq<char>, pos: int) -> Parsed<CommandView> {
    if !tag_at(s, pos, "^B8"@) {
        Parsed::Error(pos as usize, ErrorKind::Tag)
    } else {
        let p0: int = pos + 3;
        let rest: int = till_caret(s, p0);
        let p1: int = p0;
        match spec_opt_char_upper(s, p1) {
            Parsed::Done(q2, orientation) => {
                let p2: int = q2 as int;
                let (q3, height) = or_none(p2, spec_param_u32(s, p2));
                let p3: int = q3 as int;
                let (q4, interpretation_line) = or_none(p3, spec_param_char_upper(s, p3));
                let p4: int = q4 as int;
                let (q5, interpretation_line_above) = or_none(p4, spec_param_char_upper(s, p4));
                let p5: int = q5 as int;
                Parsed::Done(rest as usize, CommandOf::Barcode1D { kind: Barcode1DKind::Ean8, orientation, height, interpretation_line, interpretation_line_above, check_digit: Some('Y') })
            },
            Parsed::Error(e, k) => Parsed::Error(e, k),
            Parsed::Failure(e, k) => Parsed::Failure(e, k),
        }
    }
}

/// `^B8` — EAN-8.
pub fn cmd_b8(s: &Vec<char>, pos: usize) -> (r: Parsed<Command>)
    requires
        pos <= s@.len(),
    ensures
        cmd_view(r) == spec_cmd_b8(s@, pos as int),
        r matches Parsed::Done(p, _) ==> pos < p <= s@.len(),
        r matches Parsed::Failure(p, _) ==> p <= s@.len(),
{
    if !has_tag(s, pos, "^B8") {
        return Parsed::Error(pos, ErrorKind::Tag);
    }
    proof {
        reveal_strlit("^B8");
    }
    let p0: usize = pos + 3;
    let rest: usize = skip_till_caret(s, p0);
    let p1: usize = p0;
    let (p2, orientation) = match opt_char_upper(s, p1) {
        Parsed::Done(q, v) => (q, v),
        Parsed::Error(e, k) => {
            return Parsed::Error(e, k);
        },
        Parsed::Failure(e, k) => {
            return Parsed::Failure(e, k);
        },
    };
    let (p3, height) = param_u32_or_none(s, p2);
    let (p4, interpretation_line) = param_char_upper_or_none(s, p3);
    let (p5, interpretation_line_above) = param_char_upper_or_none(s, p4);
    Parsed::Done(rest, CommandOf::Barcode1D { kind: Barcode1DKind::Ean8, orientation, height, interpretation_line, interpretation_line_above, check_digit: Some('Y') })
}

/// `^B9` — UPC-E.
pub open spec fn spec_cmd_b9(s: Seq<char>, pos: int) -> Parsed<CommandView> {
    if !tag_at(s, pos, "^B9"@) {
        Parsed::Error(pos as usize, ErrorKind::Tag)
    } else {
        let p0: int = pos + 3;
        let rest: int = till_caret(s, p0);
        let p1: int = p0;
        match spec_opt_char_upper(s, p1) {
            Parsed::Done(q2, orientation) => {
                let p2: int = q2 as int;
                let (q3, height) = or_none(p2, spec_param_u32(s, p2));
                let p3: int = q3 as int;
                let (q4, interpretation_line) = or_none(p3, spec_param_char_upper(s, p3));
                let p4: int = q4 as int;
                let (q5, interpretation_line_above) = or_none(p4, spec_param_char_upper(s, p4));
                let p5: int = q5 as int;
                let (q6, check_digit) = or_none(p5, spec_param_char_upper(s, p5));
                let p6: int = q6 as int;
                Parsed::Done(rest as usize, CommandOf::Barcode1D { kind: Barcode1DKind::UpcE, orientation, height, interpretation_line, interpretation_line_above, check_digit: check_digit })
            },
            Parsed::Error(e, k) => Parsed::Error(e, k),
            Parsed::Failure(e, k) => Parsed::Failure(e, k),
        }
    }
}

/// `^B9` — UPC-E.
pub fn cmd_b9(s: &Vec<char>, pos: usize) -> (r: Parsed<Command>)
    requires
        pos <= s@.len(),
    ensures
        cmd_view(r) == spec_cmd_b9(s@, pos as int),
        r matches Parsed::Done(p, _) ==> pos < p <= s@.len(),
        r matches Parsed::Failure(p, _) ==> p <= s@.len(),
{
    if !has_tag(s, pos, "^B9") {
        return Parsed::Error(pos, ErrorKind::Tag);
    }
    proof {
        reveal_strlit("^B9");
    }
    let p0: usize = pos + 3;
    let rest: usize = skip_till_caret(s, p0);
    let p1: usize = p0;
    let (p2, orientation) = match opt_char_upper(s, p1) {
        Parsed::Done(q, v) => (q, v),
        Parsed::Error(e, k) => {
            return Parsed::Error(e, k);
        },
        Parsed::Failure(e, k) => {
            return Parsed::Failure(e, k);
        },
    };
    let (p3, height) = param_u32_or_none(s, p2);
    let (p4, interpretation_line) = param_char_upper_or_none(s, p3);
    let (p5, interpretation_line_above) = param_char_upper_or_none(s, p4);
    let (p6, check_digit) = param_char_upper_or_none(s, p5);
    Parsed::Done(rest, CommandOf::Barcode1D { kind: Barcode1DKind::UpcE, orientation, height, interpretation_line, interpretation_line_above, check_digit: check_digit })
}

/// `^BB` — Codabar.
pub open spec fn spec_cmd_bb(s: Seq<char>, pos: int) -> Parsed<CommandView> {
    if !tag_at(s, pos, "^BB"@) {
        Parsed::Error(pos as usize, ErrorKind::Tag)
    } else {
        let p0: int = pos + 3;
        let rest: int = till_caret(s, p0);
        let p1: int = p0;
        match spec_opt_char_upper(s, p1) {
            Parsed::Done(q2, orientation) => {
                let p2: int = q2 as int;
                let (q3, height) = or_none(p2, spec_param_u32(s, p2));
                let p3: int = q3 as int;
                let (q4, interpretation_line) = or_none(p3, spec_param_char_upper(s, p3));
                let p4: int = q4 as int;
                let (q5, interpretation_line_above) = or_none(p4, spec_param_char_upper(s, p4));
                let p5: int = q5 as int;
                let (q6, check_digit) = or_none(p5, spec_param_char_upper(s, p5));
                let p6: int = q6 as int;
                Parsed::Done(rest as usize, CommandOf::Barcode1D { kind: Barcode1DKind::Codabar, orientation, height, interpretation_line, interpretation_line_above, check_digit: check_digit })
            },
            Parsed::Error(e, k) => Parsed::Error(e, k),
            Parsed::Failure(e, k) => Parsed::Failure(e, k),
        }
    }
}

/// `^BB` — Codabar.
pub fn cmd_bb(s: &Vec<char>, pos: usize) -> (r: Parsed<Command>)
    requires
        pos <= s@.len(),
    ensures
        cmd_view(r) == spec_cmd_bb(s@, pos as int),
        r matches Parsed::Done(p, _) ==> pos < p <= s@.len(),
        r matches Parsed::Failure(p, _) ==> p <= s@.len(),
{
    if !has_tag(s, pos, "^BB") {
        return Parsed::Error(pos, ErrorKind::Tag);
    }
    proof {
        reveal_strlit("^BB");
    }
    let p0: usize = pos + 3;
    let rest: usize = skip_till_caret(s, p0);
    let p1: usize = p0;
    let (p2, orientation) = match opt_char_upper(s, p1) {
        Parsed::Done(q, v) => (q, v),
        Parsed::Error(e, k) => {
            return Parsed::Error(e, k);
        },
        Parsed::Failure(e, k) => {
            return Parsed::Failure(e, k);
        },
    };
    let (p3, height) = param_u32_or_none(s, p2);
    let (p4, interpretation_line) = param_char_upper_or_none(s, p3);
    let (p5, interpretation_line_above) = param_char_upper_or_none(s, p4);
    let (p6, check_digit) = param_char_upper_or_none(s, p5);
    Parsed::Done(rest, CommandOf::Barcode1D { kind: Barcode1DKind::Codabar, orientation, height, interpretation_line, interpretation_line_above, check_digit: check_digit })
}

/// `^BM` — MSI.
pub open spec fn spec_cmd_bm(s: Seq<char>, pos: int) -> Parsed<CommandView> {
    if !tag_at(s, pos, "^BM"@) {
        Parsed::Error(pos as usize, ErrorKind::Tag)
    } else {
        let p0: int = pos + 3;
        let rest: int = till_caret(s, p0);
        let p1: int = p0;
        match spec_opt_char_upper(s, p1) {
            Parsed::Done(q2, orientation) => {
                let p2: int = q2 as int;
                let (q3, check_digit) = or_none(p2, spec_param_char_upper(s, p2));
                let p3: int = q3 as int;
                let (q4, height) = or_none(p3, spec_param_u32(s, p3));
                let p4: int = q4 as int;
                let (q5, interpretation_line) = or_none(p4, spec_param_char_upper(s, p4));
                let p5: int = q5 as int;
                let (q6, interpretation_line_above) = or_none(p5, spec_param_char_upper(s, p5));
                let p6: int = q6 as int;
                Parsed::Done(rest as usize, CommandOf::Barcode1D { kind: Barcode1DKind::Msi, orientation, height, interpretation_line, interpretation_line_above, check_digit: check_digit })
            },
            Parsed::Error(e, k) => Parsed::Error(e, k),
            Parsed::Failure(e, k) => Parsed::Failure(e, k),
        }
    }
}

/// `^BM` — MSI.
pub fn cmd_bm(s: &Vec<char>, pos: usize) -> (r: Parsed<Command>)
    requires
        pos <= s@.len(),
    ensures
        cmd_view(r) == spec_cmd_bm(s@, pos as int),
        r matches Parsed::Done(p, _) ==> pos < p <= s@.len(),
        r matches Parsed::Failure(p, _) ==> p <= s@.len(),
{
    if !has_tag(s, pos, "^BM") {
        return Parsed::Error(pos, ErrorKind::Tag);
    }
    proof {
        reveal_strlit("^BM");
    }
    let p0: usize = pos + 3;
    let rest: usize = skip_till_caret(s, p0);
    let p1: usize = p0;
    let (p2, orientation) = match opt_char_upper(s, p1) {
        Parsed::Done(q, v) => (q, v),
        Parsed::Error(e, k) => {
            return Parsed::Error(e, k);
        },
        Parsed::Failure(e, k) => {
            return Parsed::Failure(e, k);
        },
    };
    let (p3, check_digit) = param_char_upper_or_none(s, p2);
    let (p4, height) = param_u32_or_none(s, p3);
    let (p5, interpretation_line) = param_char_upper_or_none(s, p4);
    let (p6, interpretation_line_above) = param_char_upper_or_none(s, p5);
    Parsed::Done(rest, CommandOf::Barcode1D { kind: Barcode1DKind::Msi, orientation, height, interpretation_line, interpretation_line_above, check_digit: check_digit })
}

/// `^BZ` — POSTNET.
pub open spec fn spec_cmd_bz(s: Seq<char>, pos: int) -> Parsed<CommandView> {
    if !tag_at(s, pos, "^BZ"@) {
        Parsed::Error(pos as usize, ErrorKind::Tag)
    } else {
        let p0: int = pos + 3;
        let rest: int = till_caret(s, p0);
        let p1: int = p0;
        match spec_opt_char_upper(s, p1) {
            Parsed::Done(q2, orientation) => {
                let p2: int = q2 as int;
                let (q3, height) = or_none(p2, spec_param_u32(s, p2));
                let p3: int = q3 as int;
                let (q4, interpretation_line) = or_none(p3, spec_param_char_upper(s, p3));
                let p4: int = q4 as int;
                let (q5, interpretation_line_above) = or_none(p4, spec_param_char_upper(s, p4));
                let p5: int = q5 as int;
                Parsed::Done(rest as usize, CommandOf::Barcode1D { kind: Barcode1DKind::Postnet, orientation, height, interpretation_line, interpretation_line_above, check_digit: Some('Y') })
            },
            Parsed::Error(e, k) => Parsed::Error(e, k),
            Parsed::Failure(e, k) => Parsed::Failure(e, k),
        }
    }
}

/// `^BZ` — POSTNET.
pub fn cmd_bz(s: &Vec<char>, pos: usize) -> (r: Parsed<Command>)
    requires
        pos <= s@.len(),
    ensures
        cmd_view(r) == spec_cmd_bz(s@, pos as int),
        r matches Parsed::Done(p, _) ==> pos < p <= s@.len(),
        r matches Parsed::Failure(p, _) ==> p <= s@.len(),
{
    if !has_tag(s, pos, "^BZ") {
        return Parsed::Error(pos, ErrorKind::Tag);
    }
    proof {
        reveal_strlit("^BZ");
    }
    let p0: usize = pos + 3;
    let rest: usize = skip_till_caret(s, p0);
    let p1: usize = p0;
    let (p2, orientation) = match opt_char_upper(s, p1) {
        Parsed::Done(q, v) => (q, v),
        Parsed::Error(e, k) => {
            return Parsed::Error(e, k);
        },
        Parsed::Failure(e, k) => {
            return Parsed::Failure(e, k);
        },
    };
    let (p3, height) = param_u32_or_none(s, p2);
    let (p4, interpretation_line) = param_char_upper_or_none(s, p3);
    let (p5, interpretation_line_above) = param_char_upper_or_none(s, p4);
    Parsed::Done(rest, CommandOf::Barcode1D { kind: Barcode1DKind::Postnet, orientation, height, interpretation_line, interpretation_line_above, check_digit: Some('Y') })
}

/// `^BS` — UPC/EAN extensions.
pub open spec fn spec_cmd_bs(s: Seq<char>, pos: int) -> Parsed<CommandView> {
    if !tag_at(s, pos, "^BS"@) {
        Parsed::Error(pos as usize, ErrorKind::Tag)
    } else {
        let p0: int = pos + 3;
        let rest: int = till_caret(s, p0);
        let p1: int = p0;
        match spec_opt_char_upper(s, p1) {
            Parsed::Done(q2, orientation) => {
                let p2: int = q2 as int;
                let (q3, height) = or_none(p2, spec_param_u32(s, p2));
                let p3: int = q3 as int;
                let (q4, interpretation_line) = or_none(p3, spec_param_char_upper(s, p3));
                let p4: int = q4 as int;
                let (q5, interpretation_line_above) = or_none(p4, spec_param_char_upper(s, p4));
                let p5: int = q5 as int;
                Parsed::Done(rest as usize, CommandOf::Barcode1D { kind: Barcode1DKind::Extension25, orientation, height, interpretation_line, interpretation_line_above, check_digit: Some('N') })
            },
            Parsed::Error(e, k) => Parsed::Error(e, k),
            Parsed::Failure(e, k) => Parsed::Failure(e, k),
        }
    }
}

/// `^BS` — UPC/EAN extensions.
pub fn cmd_bs(s: &Vec<char>, pos: usize) -> (r: Parsed<Command>)
    requires
        pos <= s@.len(),
    ensures
        cmd_view(r) == spec_cmd_bs(s@, pos as int),
        r matches Parsed::Done(p, _) ==> pos < p <= s@.len(),
        r matches Parsed::Failure(p, _) ==> p <= s@.len(),
{
    if !has_tag(s, pos, "^BS") {
        return Parsed::Error(pos, ErrorKind::Tag);
    }
    proof {
        reveal_strlit("^BS");
    }
    let p0: usize = pos + 3;
    let rest: usize = skip_till_caret(s, p0);
    let p1: usize = p0;
    let (p2, orientation) = match opt_char_upper(s, p1) {
        Parsed::Done(q, v) => (q, v),
        Parsed::Error(e, k) => {
            return Parsed::Error(e, k);
        },
        Parsed::Failure(e, k) => {
            return Parsed::Failure(e, k);
        },
    };
    let (p3, height) = param_u32_or_none(s, p2);
    let (p4, interpretation_line) = param_char_upper_or_none(s, p3);
    let (p5, interpretation_line_above) = param_char_upper_or_none(s, p4);
    Parsed::Done(rest, CommandOf::Barcode1D { kind: Barcode1DKind::Extension25, orientation, height, interpretation_line, interpretation_line_above, check_digit: Some('N') })
}

/// `^BF` — MicroPDF417.
pub open spec fn spec_cmd_bf(s: Seq<char>, pos: int) -> Parsed<CommandView> {
    if !tag_at(s, pos, "^BF"@) {
        Parsed::Error(pos as usize, ErrorKind::Tag)
    } else {
        let p0: int = pos + 3;
        let rest: int = till_caret(s, p0);
        let p1: int = p0;
        match spec_opt_char_upper(s, p1) {
            Parsed::Done(q2, orientation) => {
                let p2: int = q2 as int;
                let (q3, height) = or_none(p2, spec_param_u32(s, p2));
                let p3: int = q3 as int;
                let (q4, mode) = or_none(p3, spec_param_u32(s, p3));
                let p4: int = q4 as int;
                Parsed::Done(rest as usize, CommandOf::MicroPdf417 { orientation, height, mode })
            },
            Parsed::Error(e, k) => Parsed::Error(e, k),
            Parsed::Failure(e, k) => Parsed::Failure(e, k),
        }
    }
}

/// `^BF` — MicroPDF417.
pub fn cmd_bf(s: &Vec<char>, pos: usize) -> (r: Parsed<Command>)
    requires
        pos <= s@.len(),
    ensures
        cmd_view(r) == spec_cmd_bf(s@, pos as int),
        r matches Parsed::Done(p, _) ==> pos < p <= s@.len(),
        r matches Parsed::Failure(p, _) ==> p <= s@.len(),
{
    if !has_tag(s, pos, "^BF") {
        return Parsed::Error(pos, ErrorKind::Tag);
    }
    proof {
        reveal_strlit("^BF");
    }
    let p0: usize = pos + 3;
    let rest: usize = skip_till_caret(s, p0);
    let p1: usize = p0;
    let (p2, orientation) = match opt_char_upper(s, p1) {
        Parsed::Done(q, v) => (q, v),
        Parsed::Error(e, k) => {
            return Parsed::Error(e, k);
        },
        Parsed::Failure(e, k) => {
            return Parsed::Failure(e, k);
        },
    };
    let (p3, height) = param_u32_or_none(s, p2);
    let (p4, mode) = param_u32_or_none(s, p3);
    Parsed::Done(rest, CommandOf::MicroPdf417 { orientation, height, mode })
}

/// `^BR` — GS1 DataBar.
pub open spec fn spec_cmd_br(s: Seq<char>, pos: int) -> Parsed<CommandView> {
    if !tag_at(s, pos, "^BR"@) {
        Parsed::Error(pos as usize, ErrorKind::Tag)
    } else {
        let p0: int = pos + 3;
        let rest: int = till_caret(s, p0);
        let p1: int = p0;
        match spec_opt_char_upper(s, p1) {
            Parsed::Done(q2, orientation) => {
                let p2: int = q2 as int;
                let (q3, symbology_type) = or_none(p2, spec_param_u32(s, p2));
                let p3: int = q3 as int;
                let (q4, magnification) = or_none(p3, spec_param_u32(s, p3));
                let p4: int = q4 as int;
                let (q5, separator_height) = or_none(p4, spec_param_u32(s, p4));
                let p5: int = q5 as int;
                let (q6, height) = or_none(p5, spec_param_u32(s, p5));
                let p6: int = q6 as int;
                let (q7, segment_width) = or_none(p6, spec_param_u32(s, p6));
                let p7: int = q7 as int;
                Parsed::Done(rest as usize, CommandOf::GS1DataBar { orientation, symbology_type, magnification, separator_height, height, segment_width })
            },
            Parsed::Error(e, k) => Parsed::Error(e, k),
            Parsed::Failure(e, k) => Parsed::Failure(e, k),
        }
    }
}

/// `^BR` — GS1 DataBar.
pub fn cmd_br(s: &Vec<char>, pos: usize) -> (r: Parsed<Command>)
    requires
        pos <= s@.len(),
    ensures
        cmd_view(r) == spec_cmd_br(s@, pos as int),
        r matches Parsed::Done(p, _) ==> pos < p <= s@.len(),
        r matches Parsed::Failure(p, _) ==> p <= s@.len(),
{
    if !has_tag(s, pos, "^BR") {
        return Parsed::Error(pos, ErrorKind::Tag);
    }
    proof {
        reveal_strlit("^BR");
    }
    let p0: usize = pos + 3;
    let rest: usize = skip_till_caret(s, p0);
    let p1: usize = p0;
    let (p2, orientation) = match opt_char_upper(s, p1) {
        Parsed::Done(q, v) => (q, v),
        Parsed::Error(e, k) => {
            return Parsed::Error(e, k);
        },
        Parsed::Failure(e, k) => {
            return Parsed::Failure(e, k);
        },
    };
    let (p3, symbology_type) = param_u32_or_none(s, p2);
    let (p4, magnification) = param_u32_or_none(s, p3);
    let (p5, separator_height) = param_u32_or_none(s, p4);
    let (p6, height) = param_u32_or_none(s, p5);
    let (p7, segment_width) = param_u32_or_none(s, p6);
    Parsed::Done(rest, CommandOf::GS1DataBar { orientation, symbology_type, magnification, separator_height, height, segment_width })
}

/// `^FH` — field hexadecimal escape.
pub open spec fn spec_cmd_fh(s: Seq<char>, pos: int) -> Parsed<CommandView> {
    if !tag_at(s, pos, "^FH"@) {
        Parsed::Error(pos as usize, ErrorKind::Tag)
    } else {
        let p0: int = pos + 3;
        match spec_opt_char(s, p0) {
            Parsed::Done(q1, indicator) => {
                let p1: int = q1 as int;
                Parsed::Done(p1 as usize, CommandOf::FieldHexEscape { indicator: match indicator { Some(c) => Some(c), None => Some('_') } })
            },
            Parsed::Error(e, k) => Parsed::Error(e, k),
            Parsed::Failure(e, k) => Parsed::Failure(e, k),
        }
    }
}

/// `^FH` — field hexadecimal escape.
pub fn cmd_fh(s: &Vec<char>, pos: usize) -> (r: Parsed<Command>)
    requires
        pos <= s@.len(),
    ensures
        cmd_view(r) == spec_cmd_fh(s@, pos as int),
        r matches Parsed::Done(p, _) ==> pos < p <= s@.len(),
        r matches Parsed::Failure(p, _) ==> p <= s@.len(),
{
    if !has_tag(s, pos, "^FH") {
        return Parsed::Error(pos, ErrorKind::Tag);
    }
    proof {
        reveal_strlit("^FH");
    }
    let p0: usize = pos + 3;
    let (p1, indicator) = match opt_char(s, p0) {
        Parsed::Done(q, v) => (q, v),
        Parsed::Error(e, k) => {
            return Parsed::Error(e, k);
        },
        Parsed::Failure(e, k) => {
            return Parsed::Failure(e, k);
        },
    };
    Parsed::Done(p1, CommandOf::FieldHexEscape { indicator: match indicator { Some(c) => Some(c), None => Some('_') } })
}

/// `^CI` — change international encoding.
pub open spec fn spec_cmd_ci(s: Seq<char>, pos: int) -> Parsed<CommandView> {
    if !tag_at(s, pos, "^CI"@) {
        Parsed::Error(pos as usize, ErrorKind::Tag)
    } else {
        let p0: int = pos + 3;
        match cut(spec_opt_u32(s, p0)) {
            Parsed::Done(q1, charset) => {
                let p1: int = q1 as int;
                Parsed::Done(p1 as usize, CommandOf::ChangeIntFont { charset })
            },
            Parsed::Error(e, k) => Parsed::Error(e, k),
            Parsed::Failure(e, k) => Parsed::Failure(e, k),
        }
    }
}

/// `^CI` — change international encoding.
pub fn cmd_ci(s: &Vec<char>, pos: usize) -> (r: Parsed<Command>)
    requires
        pos <= s@.len(),
    ensures
        cmd_view(r) == spec_cmd_ci(s@, pos as int),
        r matches Parsed::Done(p, _) ==> pos < p <= s@.len(),
        r matches Parsed::Failure(p, _) ==> p <= s@.len(),
{
    if !has_tag(s, pos, "^CI") {
        return Parsed::Error(pos, ErrorKind::Tag);
    }
    proof {
        reveal_strlit("^CI");
    }
    let p0: usize = pos + 3;
    let (p1, charset) = match opt_u32(s, p0) {
        Parsed::Done(q, v) => (q, v),
        Parsed::Error(e, k) => {
            return Parsed::Failure(e, k);
        },
        Parsed::Failure(e, k) => {
            return Parsed::Failure(e, k);
        },
    };
    Parsed::Done(p1, CommandOf::ChangeIntFont { charset })
}

/// `^BD` — MaxiCode.
pub open spec fn spec_cmd_bd(s: Seq<char>, pos: int) -> Parsed<CommandView> {
    if !tag_at(s, pos, "^BD"@) {
        Parsed::Error(pos as usize, ErrorKind::Tag)
    } else {
        let p0: int = pos + 3;
        let p1: int = ws_end(s, p0);
        match cut(spec_opt_u32(s, p1)) {
            Parsed::Done(q2, mode) => {
                let p2: int = q2 as int;
                let (q3, symbol) = or_none(p2, spec_param_u32(s, p2));
                let p3: int = q3 as int;
                let (q4, total) = or_none(p3, spec_param_u32(s, p3));
                let p4: int = q4 as int;
                let p5: int = ws_end(s, p4);
                if !param_end_at(s, p5) {
                    Parsed::Failure(p5 as usize, ErrorKind::Eof)
                } else {
                    let p6: int = p5;
                    Parsed::Done(p6 as usize, CommandOf::MaxiCode { mode, symbol, total })
                }
            },
            Parsed::Error(e, k) => Parsed::Error(e, k),
            Parsed::Failure(e, k) => Parsed::Failure(e, k),
        }
    }
}

/// `^BD` — MaxiCode.
pub fn cmd_bd(s: &Vec<char>, pos: usize) -> (r: Parsed<Command>)
    requires
        pos <= s@.len(),
    ensures
        cmd_view(r) == spec_cmd_bd(s@, pos as int),
        r matches Parsed::Done(p, _) ==> pos < p <= s@.len(),
        r matches Parsed::Failure(p, _) ==> p <= s@.len(),
{
    if !has_tag(s, pos, "^BD") {
        return Parsed::Error(pos, ErrorKind::Tag);
    }
    proof {
        reveal_strlit("^BD");
    }
    let p0: usize = pos + 3;
    let p1: usize = skip_ws(s, p0);
    let (p2, mode) = match opt_u32(s, p1) {
        Parsed::Done(q, v) => (q, v),
        Parsed::Error(e, k) => {
            return Parsed::Failure(e, k);
        },
        Parsed::Failure(e, k) => {
            return Parsed::Failure(e, k);
        },
    };
    let (p3, symbol) = param_u32_or_none(s, p2);
    let (p4, total) = param_u32_or_none(s, p3);
    let p5: usize = skip_ws(s, p4);
    if !at_param_end(s, p5) {
        return Parsed::Failure(p5, ErrorKind::Eof);
    }
    let p6: usize = p5;
    Parsed::Done(p6, CommandOf::MaxiCode { mode, symbol, total })
}

/// `^B0` / `^BO` — Aztec code.
pub open spec fn spec_cmd_b0(s: Seq<char>, pos: int) -> Parsed<CommandView> {
    if !(tag_at(s, pos, "^B0"@) || tag_at(s, pos, "^BO"@)) {
        Parsed::Error(pos as usize, ErrorKind::Tag)
    } else {
        let p0: int = pos + 3;
        let rest: int = till_caret(s, p0);
        let p1: int = p0;
        match spec_opt_char_upper(s, p1) {
            Parsed::Done(q2, orientation) => {
                let p2: int = q2 as int;
                let (q3, magnification) = or_none(p2, spec_param_u32(s, p2));
                let p3: int = q3 as int;
                let (q4, ext) = or_none(p3, spec_param_char_upper(s, p3));
                let p4: int = q4 as int;
                let (q5, ecc_percent) = or_none(p4, spec_param_u32(s, p4));
                let p5: int = q5 as int;
                let (q6, menu) = or_none(p5, spec_param_char_upper(s, p5));
                let p6: int = q6 as int;
                let (q7, symbols_count) = or_none(p6, spec_param_u32(s, p6));
                let p7: int = q7 as int;
                let (q8, id_field) = or_none(p7, spec_param_id_field(s, p7));
                let p8: int = q8 as int;
                Parsed::Done(rest as usize, CommandOf::AztecCode { orientation, magnification, extended_channel: match ext { Some(c) => Some(c == 'Y'), None => None }, ecc_percent, menu_symbol: match menu { Some(c) => Some(c == 'Y'), None => None }, symbols_count, id_field: match id_field { Some(t) => Some(t), None => None } })
            },
            Parsed::Error(e, k) => Parsed::Error(e, k),
            Parsed::Failure(e, k) => Parsed::Failure(e, k),
        }
    }
}

/// `^B0` / `^BO` — Aztec code.
pub fn cmd_b0(s: &Vec<char>, pos: usize) -> (r: Parsed<Command>)
    requires
        pos <= s@.len(),
    ensures
        cmd_view(r) == spec_cmd_b0(s@, pos as int),
        r matches Parsed::Done(p, _) ==> pos < p <= s@.len(),
        r matches Parsed::Failure(p, _) ==> p <= s@.len(),
{
    if !(has_tag(s, pos, "^B0") || has_tag(s, pos, "^BO")) {
        return Parsed::Error(pos, ErrorKind::Tag);
    }
    proof {
        reveal_strlit("^B0");
        reveal_strlit("^BO");
    }
    let p0: usize = pos + 3;
    let rest: usize = skip_till_caret(s, p0);
    let p1: usize = p0;
    let (p2, orientation) = match opt_char_upper(s, p1) {
        Parsed::Done(q, v) => (q, v),
        Parsed::Error(e, k) => {
            return Parsed::Error(e, k);
        },
        Parsed::Failure(e, k) => {
            return Parsed::Failure(e, k);
        },
    };
    let (p3, magnification) = param_u32_or_none(s, p2);
    let (p4, ext) = param_char_upper_or_none(s, p3);
    let (p5, ecc_percent) = param_u32_or_none(s, p4);
    let (p6, menu) = param_char_upper_or_none(s, p5);
    let (p7, symbols_count) = param_u32_or_none(s, p6);
    let (p8, id_field) = param_id_field_or_none(s, p7);
    Parsed::Done(rest, CommandOf::AztecCode { orientation, magnification, extended_channel: match ext { Some(c) => Some(c == 'Y'), None => None }, ecc_percent, menu_symbol: match menu { Some(c) => Some(c == 'Y'), None => None }, symbols_count, id_field })
}

} // verus!
