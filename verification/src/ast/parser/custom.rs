//! The parsers of this engine's own extension commands.

use vstd::prelude::*;
use crate::ast::cmd::{Command, CommandOf, CommandView};
use crate::text::{trim, trimmed_string};
use super::standard::cmd_view;
use super::{
    cut, has_tag, parse_u32, skip_till_caret, skip_till_comma_caret, spec_u32, tag_at,
    till_caret, till_comma_caret, ErrorKind, Parsed,
};

verus! {

/// `^GIC` — custom color image: width, height, Base64 data.
pub open spec fn spec_cmd_gic(s: Seq<char>, pos: int) -> Parsed<CommandView> {
    if !tag_at(s, pos, "^GIC"@) {
        Parsed::Error(pos as usize, ErrorKind::Tag)
    } else {
        let p0: int = pos + 4;
        match cut(spec_u32(s, p0)) {
            Parsed::Done(q1, width) => {
                let p1: int = q1 as int;
                if !(p1 < s.len() && s[p1] == ',') {
                    Parsed::Failure(p1 as usize, ErrorKind::Tag)
                } else {
                    let p2: int = p1 + 1;
                    match cut(spec_u32(s, p2)) {
                        Parsed::Done(q3, height) => {
                            let p3: int = q3 as int;
                            if !(p3 < s.len() && s[p3] == ',') {
                                Parsed::Failure(p3 as usize, ErrorKind::Tag)
                            } else {
                                let p4: int = p3 + 1;
                                let p5: int = till_caret(s, p4);
                                let data = trim(s.subrange(p4, p5));
                                Parsed::Done(p5 as usize, CommandOf::CustomImage { width, height, data })
                            }
                        },
                        Parsed::Error(e, k) => Parsed::Error(e, k),
                        Parsed::Failure(e, k) => Parsed::Failure(e, k),
                    }
                }
            },
            Parsed::Error(e, k) => Parsed::Error(e, k),
            Parsed::Failure(e, k) => Parsed::Failure(e, k),
        }
    }
}

/// `^GIC` — custom color image: width, height, Base64 data.
pub fn cmd_gic(s: &Vec<char>, pos: usize) -> (r: Parsed<Command>)
    requires
        pos <= s@.len(),
    ensures
        cmd_view(r) == spec_cmd_gic(s@, pos as int),
        r matches Parsed::Done(p, _) ==> pos < p <= s@.len(),
        r matches Parsed::Failure(p, _) ==> p <= s@.len(),
{
    if !has_tag(s, pos, "^GIC") {
        return Parsed::Error(pos, ErrorKind::Tag);
    }
    proof {
        reveal_strlit("^GIC");
    }
    let p0: usize = pos + 4;
    let (p1, width) = match parse_u32(s, p0) {
        Parsed::Done(q, v) => (q, v),
        Parsed::Error(e, k) => {
            return Parsed::Failure(e, k);
        },
        Parsed::Failure(e, k) => {
            return Parsed::Failure(e, k);
        },
    };
    if !(p1 < s.len() && s[p1] == ',') {
        return Parsed::Failure(p1, ErrorKind::Tag);
    }
    let p2: usize = p1 + 1;
    let (p3, height) = match parse_u32(s, p2) {
        Parsed::Done(q, v) => (q, v),
        Parsed::Error(e, k) => {
            return Parsed::Failure(e, k);
        },
        Parsed::Failure(e, k) => {
            return Parsed::Failure(e, k);
        },
    };
    if !(p3 < s.len() && s[p3] == ',') {
        return Parsed::Failure(p3, ErrorKind::Tag);
    }
    let p4: usize = p3 + 1;
    let p5: usize = skip_till_caret(s, p4);
    let data = trimmed_string(s, p4, p5);
    Parsed::Done(p5, CommandOf::CustomImage { width, height, data })
}

/// `^GTC` — color of the following text fields.
pub open spec fn spec_cmd_gtc(s: Seq<char>, pos: int) -> Parsed<CommandView> {
    if !tag_at(s, pos, "^GTC"@) {
        Parsed::Error(pos as usize, ErrorKind::Tag)
    } else {
        let p0: int = pos + 4;
        let p1: int = till_caret(s, p0);
        let color = trim(s.subrange(p0, p1));
        Parsed::Done(p1 as usize, CommandOf::GraphicTextColor { color })
    }
}

/// `^GTC` — color of the following text fields.
pub fn cmd_gtc(s: &Vec<char>, pos: usize) -> (r: Parsed<Command>)
    requires
        pos <= s@.len(),
    ensures
        cmd_view(r) == spec_cmd_gtc(s@, pos as int),
        r matches Parsed::Done(p, _) ==> pos < p <= s@.len(),
        r matches Parsed::Failure(p, _) ==> p <= s@.len(),
{
    if !has_tag(s, pos, "^GTC") {
        return Parsed::Error(pos, ErrorKind::Tag);
    }
    proof {
        reveal_strlit("^GTC");
    }
    let p0: usize = pos + 4;
    let p1: usize = skip_till_caret(s, p0);
    let color = trimmed_string(s, p0, p1);
    Parsed::Done(p1, CommandOf::GraphicTextColor { color })
}

/// `^GLC` — color of the following graphic elements.
pub open spec fn spec_cmd_glc(s: Seq<char>, pos: int) -> Parsed<CommandView> {
    if !tag_at(s, pos, "^GLC"@) {
        Parsed::Error(pos as usize, ErrorKind::Tag)
    } else {
        let p0: int = pos + 4;
        let p1: int = till_caret(s, p0);
        let color = trim(s.subrange(p0, p1));
        Parsed::Done(p1 as usize, CommandOf::GraphicLineColor { color })
    }
}

/// `^GLC` — color of the following graphic elements.
pub fn cmd_glc(s: &Vec<char>, pos: usize) -> (r: Parsed<Command>)
    requires
        pos <= s@.len(),
    ensures
        cmd_view(r) == spec_cmd_glc(s@, pos as int),
        r matches Parsed::Done(p, _) ==> pos < p <= s@.len(),
        r matches Parsed::Failure(p, _) ==> p <= s@.len(),
{
    if !has_tag(s, pos, "^GLC") {
        return Parsed::Error(pos, ErrorKind::Tag);
    }
    proof {
        reveal_strlit("^GLC");
    }
    let p0: usize = pos + 4;
    let p1: usize = skip_till_caret(s, p0);
    let color = trimmed_string(s, p0, p1);
    Parsed::Done(p1, CommandOf::GraphicLineColor { color })
}

/// `^IFC` — render the current field only when a variable has a value:
/// the variable name up to a comma, then the value.
pub open spec fn spec_cmd_ifc(s: Seq<char>, pos: int) -> Parsed<CommandView> {
    if !tag_at(s, pos, "^IFC"@) {
        Parsed::Error(pos as usize, ErrorKind::Tag)
    } else {
        let p0: int = pos + 4;
        let p1: int = till_comma_caret(s, p0);
        if !(p1 < s.len() && s[p1] == ',') {
            Parsed::Failure(p1 as usize, ErrorKind::Tag)
        } else {
            let p2: int = till_caret(s, p1 + 1);
            Parsed::Done(
                p2 as usize,
                CommandOf::IfCondition {
                    variable: trim(s.subrange(p0, p1)),
                    value: trim(s.subrange(p1 + 1, p2)),
                },
            )
        }
    }
}

/// `^IFC` — render the current field only when a variable has a value.
pub fn cmd_ifc(s: &Vec<char>, pos: usize) -> (r: Parsed<Command>)
    requires
        pos <= s@.len(),
    ensures
        cmd_view(r) == spec_cmd_ifc(s@, pos as int),
        r matches Parsed::Done(p, _) ==> pos < p <= s@.len(),
        r matches Parsed::Failure(p, _) ==> p <= s@.len(),
{
    if !has_tag(s, pos, "^IFC") {
        return Parsed::Error(pos, ErrorKind::Tag);
    }
    proof {
        reveal_strlit("^IFC");
    }
    let p0: usize = pos + 4;
    let p1 = skip_till_comma_caret(s, p0);
    if !(p1 < s.len() && s[p1] == ',') {
        return Parsed::Failure(p1, ErrorKind::Tag);
    }
    let p2 = skip_till_caret(s, p1 + 1);
    let variable = trimmed_string(s, p0, p1);
    let value = trimmed_string(s, p1 + 1, p2);
    Parsed::Done(p2, CommandOf::IfCondition { variable, value })
}

} // verus!
