//! The engine: a parsed and built label, and the instructions it draws for
//! a set of template variables.

use vstd::prelude::*;
use crate::ast::parser::{parse_zpl, spec_parse_zpl};
use crate::error::ZplError;
use crate::text::{chars_of, string_of};
use super::common::{InstructionView, ZplInstruction, ZplInstructionOf};
use super::intr::{build_result_matches, spec_run, BuildFault, ZplInstructionBuilder};
use super::state::initial_state;
use super::vars::Variables;

verus! {

// ---------------------------------------------------------------------------
// Template variables
// ---------------------------------------------------------------------------

/// The first position at or after `from` where `a` is followed by `b`.
pub open spec fn find_pair(s: Seq<char>, a: char, b: char, from: int) -> Option<int>
    decreases s.len() - from,
{
    if from < 0 || from + 1 >= s.len() {
        None
    } else if s[from] == a && s[from + 1] == b {
        Some(from)
    } else {
        find_pair(s, a, b, from + 1)
    }
}

/// `s` from `cursor` on, with every `{{name}}` whose name is a variable
/// replaced by its value; the text before is kept from `last` on.
pub open spec fn replace_from(s: Seq<char>, vars: Map<Seq<char>, Seq<char>>, cursor: int, last: int) -> Seq<char>
    decreases s.len() - cursor,
{
    if cursor < 0 || cursor > s.len() || last < 0 || last > cursor {
        Seq::empty()
    } else {
        match find_pair(s, '{', '{', cursor) {
            None => s.subrange(last, s.len() as int),
            Some(start) => if start < cursor || start + 2 > s.len() {
                Seq::empty()
            } else {
                match find_pair(s, '}', '}', start + 2) {
                    Some(end) => if end < start + 2 || end + 2 > s.len() {
                        Seq::empty()
                    } else if vars.contains_key(s.subrange(start + 2, end)) {
                        s.subrange(last, start) + vars[s.subrange(start + 2, end)] + replace_from(
                            s,
                            vars,
                            end + 2,
                            end + 2,
                        )
                    } else {
                        replace_from(s, vars, start + 2, last)
                    },
                    None => replace_from(s, vars, start + 2, last),
                }
            },
        }
    }
}

/// `s` with each `{{name}}` placeholder whose name is a variable replaced
/// by the variable's value, left to right.
pub open spec fn spec_replace_vars(s: Seq<char>, vars: Map<Seq<char>, Seq<char>>) -> Seq<char> {
    replace_from(s, vars, 0, 0)
}

pub proof fn lemma_find_pair_bounds(s: Seq<char>, a: char, b: char, from: int)
    requires
        0 <= from,
    ensures
        find_pair(s, a, b, from) matches Some(i) ==> from <= i && i + 1 < s.len() && s[i] == a && s[i
            + 1] == b,
    decreases s.len() - from,
{
    if from + 1 < s.len() && !(s[from] == a && s[from + 1] == b) {
        lemma_find_pair_bounds(s, a, b, from + 1);
    }
}

pub(crate) fn find_pair_exec(s: &Vec<char>, a: char, b: char, from: usize) -> (r: Option<usize>)
    requires
        from <= s@.len(),
    ensures
        r == match find_pair(s@, a, b, from as int) {
            Some(i) => Some(i as usize),
            None => None::<usize>,
        },
        r matches Some(i) ==> from <= i && i + 1 < s@.len(),
{
    let mut i = from;
    proof {
        lemma_find_pair_bounds(s@, a, b, from as int);
    }
    while i < s.len() && s.len() - i >= 2
        invariant
            from <= i <= s@.len(),
            find_pair(s@, a, b, from as int) == find_pair(s@, a, b, i as int),
        decreases s@.len() - i,
    {
        if s[i] == a && s[i + 1] == b {
            return Some(i);
        }
        i = i + 1;
    }
    None
}

/// Replaces the `{{name}}` placeholders of `s` that name variables.
pub fn replace_vars(s: &str, variables: &Variables) -> (r: String)
    requires
        variables.wf(),
    ensures
        r@ == spec_replace_vars(s@, variables.map()),
{
    let c = chars_of(s);
    let mut out: Vec<char> = Vec::new();
    let mut cursor: usize = 0;
    let mut last: usize = 0;
    let ghost m = variables.map();
    let n = c.len();
    loop
        invariant
            n == c@.len(),
            last <= cursor <= c@.len(),
            c@ == s@,
            m == variables.map(),
            variables.wf(),
            spec_replace_vars(c@, m) == out@ + replace_from(c@, m, cursor as int, last as int),
        decreases c@.len() - cursor,
    {
        match find_pair_exec(&c, '{', '{', cursor) {
            None => {
                let tail = crate::text::slice_range(&c, last, c.len());
                crate::text::append_all(&mut out, tail);
                return string_of(out.as_slice());
            },
            Some(start) => {
                proof {
                    lemma_find_pair_bounds(c@, '{', '{', cursor as int);
                    lemma_find_pair_bounds(c@, '}', '}', start + 2);
                }
                match find_pair_exec(&c, '}', '}', start + 2) {
                    Some(end) => {
                        let key = string_of(crate::text::slice_range(&c, start + 2, end));
                        match variables.get(key.as_str()) {
                            Some(value) => {
                                let ghost o0 = out@;
                                crate::text::append_all(&mut out, crate::text::slice_range(&c, last, start));
                                let vc = chars_of(value.as_str());
                                crate::text::append_all(&mut out, vc.as_slice());
                                proof {
                                    assert(replace_from(c@, m, cursor as int, last as int) == c@.subrange(
                                        last as int,
                                        start as int,
                                    ) + m[c@.subrange(start + 2, end as int)] + replace_from(
                                        c@,
                                        m,
                                        end + 2,
                                        end + 2,
                                    ));
                                    assert(out@ == o0 + c@.subrange(last as int, start as int) + m[c@.subrange(
                                        start + 2,
                                        end as int,
                                    )]);
                                    assert(o0 + (c@.subrange(last as int, start as int) + m[c@.subrange(
                                        start + 2,
                                        end as int,
                                    )] + replace_from(c@, m, end + 2, end + 2)) =~= out@ + replace_from(
                                        c@,
                                        m,
                                        end + 2,
                                        end + 2,
                                    ));
                                }
                                cursor = end + 2;
                                last = end + 2;
                            },
                            None => {
                                proof {
                                    assert(replace_from(c@, m, cursor as int, last as int)
                                        == replace_from(c@, m, start + 2, last as int));
                                }
                                cursor = start + 2;
                            },
                        }
                    },
                    None => {
                        proof {
                            assert(replace_from(c@, m, cursor as int, last as int) == replace_from(
                                c@,
                                m,
                                start + 2,
                                last as int,
                            ));
                        }
                        cursor = start + 2;
                    },
                }
            },
        }
    }
}

// ---------------------------------------------------------------------------
// The engine
// ---------------------------------------------------------------------------

/// A parsed and built label.
#[derive(Debug)]
pub struct ZplEngine {
    instructions: Vec<ZplInstruction>,
}

/// Whether `r` is what reading and building the ZPL document `zpl` gives:
/// its instructions, or the error.
pub open spec fn engine_result_matches(r: Result<ZplEngine, ZplError>, zpl: Seq<char>) -> bool {
    match spec_parse_zpl(zpl) {
        Err((line, msg)) => r matches Err(ZplError::ParseError { line: l, message: m }) && l == line
            && m@ == msg,
        Ok(cmds) => if cmds.len() == 0 {
            r matches Err(ZplError::EmptyInput)
        } else {
            let run = spec_run(initial_state(), cmds);
            match run.error {
                Some(BuildFault::Unsupported(m)) => r matches Err(ZplError::InstructionError(e))
                    && e@ == m,
                Some(BuildFault::TooLarge(m)) => r matches Err(ZplError::SecurityLimitExceeded(e))
                    && e@ == m,
                None => r matches Ok(eng) && eng.instructions_view() == run.out,
            }
        },
    }
}

impl ZplEngine {
    /// The instructions of the label.
    pub closed spec fn instructions_view(&self) -> Seq<InstructionView> {
        self.instructions@.map_values(|i: ZplInstruction| i@)
    }

    /// Parses and builds a ZPL document.
    ///
    /// Fails with the parse error, with `EmptyInput` when the document has
    /// no command, or with the builder's error.
    pub fn new(zpl: &str) -> (r: Result<ZplEngine, ZplError>)
        requires
            zpl@.len() < usize::MAX,
        ensures
            engine_result_matches(r, zpl@),
    {
        let commands = match parse_zpl(zpl) {
            Ok(c) => c,
            Err(e) => {
                return Err(e);
            },
        };
        if commands.len() == 0 {
            return Err(ZplError::EmptyInput);
        }
        let ghost cv = commands@.map_values(|c: crate::ast::cmd::Command| c@);
        proof {
            let cmds = spec_parse_zpl(zpl@)->Ok_0;
            assert(cv =~= cmds);
        }
        let builder = ZplInstructionBuilder::new(commands);
        match builder.build() {
            Ok(instructions) => Ok(ZplEngine { instructions }),
            Err(e) => Err(e),
        }
    }
}

} // verus!

verus! {

/// The views of a sequence of instructions.
pub open spec fn instr_views(v: Seq<ZplInstruction>) -> Seq<InstructionView> {
    v.map_values(|i: ZplInstruction| i@)
}

/// The variable of a condition has the expected value.
pub open spec fn condition_holds(cond: Option<(Seq<char>, Seq<char>)>, m: Map<Seq<char>, Seq<char>>) -> bool {
    match cond {
        None => true,
        Some(c) => m.contains_key(c.0) && m[c.0] == c.1,
    }
}

/// What an instruction draws under the variables `m`: nothing when its
/// condition fails; otherwise the instruction with the placeholders of its
/// text or barcode data replaced; every other field, the `^FR` flag among
/// them, is kept.
pub open spec fn resolve(i: InstructionView, m: Map<Seq<char>, Seq<char>>) -> Option<InstructionView> {
    match i {
            ZplInstructionOf::PageBreak => Some(ZplInstructionOf::PageBreak),
            ZplInstructionOf::Text { x, y, font, height, width, orientation, text, reverse_print, color, block, condition } => if condition_holds(condition, m) {
                Some(ZplInstructionOf::Text { x, y, font, height, width, orientation, text: spec_replace_vars(text, m), reverse_print, color, block, condition })
            } else {
                None
            },
            ZplInstructionOf::GraphicBox { x, y, width, height, thickness, color, custom_color, rounding, reverse_print, condition } => if condition_holds(condition, m) {
                Some(ZplInstructionOf::GraphicBox { x, y, width, height, thickness, color, custom_color, rounding, reverse_print, condition })
            } else {
                None
            },
            ZplInstructionOf::GraphicCircle { x, y, radius, thickness, color, custom_color, reverse_print, condition } => if condition_holds(condition, m) {
                Some(ZplInstructionOf::GraphicCircle { x, y, radius, thickness, color, custom_color, reverse_print, condition })
            } else {
                None
            },
            ZplInstructionOf::GraphicEllipse { x, y, width, height, thickness, color, custom_color, reverse_print, condition } => if condition_holds(condition, m) {
                Some(ZplInstructionOf::GraphicEllipse { x, y, width, height, thickness, color, custom_color, reverse_print, condition })
            } else {
                None
            },
            ZplInstructionOf::GraphicField { x, y, width, height, data, reverse_print, condition } => if condition_holds(condition, m) {
                Some(ZplInstructionOf::GraphicField { x, y, width, height, data, reverse_print, condition })
            } else {
                None
            },
            ZplInstructionOf::CustomImage { x, y, width, height, data, condition } => if condition_holds(condition, m) {
                Some(ZplInstructionOf::CustomImage { x, y, width, height, data, condition })
            } else {
                None
            },
            ZplInstructionOf::Code128 { x, y, orientation, height, module_width, interpretation_line, interpretation_line_above, check_digit, mode, data, reverse_print, condition } => if condition_holds(condition, m) {
                Some(ZplInstructionOf::Code128 { x, y, orientation, height, module_width, interpretation_line, interpretation_line_above, check_digit, mode, data: spec_replace_vars(data, m), reverse_print, condition })
            } else {
                None
            },
            ZplInstructionOf::QRCode { x, y, orientation, model, magnification, error_correction, mask, data, reverse_print, condition } => if condition_holds(condition, m) {
                Some(ZplInstructionOf::QRCode { x, y, orientation, model, magnification, error_correction, mask, data: spec_replace_vars(data, m), reverse_print, condition })
            } else {
                None
            },
            ZplInstructionOf::Barcode1D { kind, x, y, orientation, height, module_width, ratio, check_digit, interpretation_line, interpretation_line_above, data, reverse_print, condition } => if condition_holds(condition, m) {
                Some(ZplInstructionOf::Barcode1D { kind, x, y, orientation, height, module_width, ratio, check_digit, interpretation_line, interpretation_line_above, data: spec_replace_vars(data, m), reverse_print, condition })
            } else {
                None
            },
            ZplInstructionOf::MicroPdf417 { x, y, orientation, height, mode, data, reverse_print, condition } => if condition_holds(condition, m) {
                Some(ZplInstructionOf::MicroPdf417 { x, y, orientation, height, mode, data: spec_replace_vars(data, m), reverse_print, condition })
            } else {
                None
            },
            ZplInstructionOf::AztecCode { x, y, orientation, magnification, data, reverse_print, condition } => if condition_holds(condition, m) {
                Some(ZplInstructionOf::AztecCode { x, y, orientation, magnification, data: spec_replace_vars(data, m), reverse_print, condition })
            } else {
                None
            },
            ZplInstructionOf::MaxiCode { x, y, mode, data, reverse_print, condition } => if condition_holds(condition, m) {
                Some(ZplInstructionOf::MaxiCode { x, y, mode, data: spec_replace_vars(data, m), reverse_print, condition })
            } else {
                None
            },
            ZplInstructionOf::GraphicDiagonal { x, y, width, height, thickness, color, custom_color, diagonal_orientation, reverse_print, condition } => if condition_holds(condition, m) {
                Some(ZplInstructionOf::GraphicDiagonal { x, y, width, height, thickness, color, custom_color, diagonal_orientation, reverse_print, condition })
            } else {
                None
            },
            ZplInstructionOf::DataMatrix { x, y, orientation, module_size, data, reverse_print, condition } => if condition_holds(condition, m) {
                Some(ZplInstructionOf::DataMatrix { x, y, orientation, module_size, data: spec_replace_vars(data, m), reverse_print, condition })
            } else {
                None
            },
            ZplInstructionOf::Pdf417 { x, y, orientation, row_height, module_width, security_level, data, reverse_print, condition } => if condition_holds(condition, m) {
                Some(ZplInstructionOf::Pdf417 { x, y, orientation, row_height, module_width, security_level, data: spec_replace_vars(data, m), reverse_print, condition })
            } else {
                None
            },
            ZplInstructionOf::Code39 { x, y, orientation, check_digit, height, module_width, ratio, interpretation_line, interpretation_line_above, data, reverse_print, condition } => if condition_holds(condition, m) {
                Some(ZplInstructionOf::Code39 { x, y, orientation, check_digit, height, module_width, ratio, interpretation_line, interpretation_line_above, data: spec_replace_vars(data, m), reverse_print, condition })
            } else {
                None
            },
    }
}

/// The instructions drawn under the variables `m`, in order.
pub open spec fn spec_plan(instrs: Seq<InstructionView>, m: Map<Seq<char>, Seq<char>>) -> Seq<InstructionView>
    decreases instrs.len(),
{
    if instrs.len() == 0 {
        Seq::empty()
    } else {
        let rest = spec_plan(instrs.drop_last(), m);
        match resolve(instrs.last(), m) {
            Some(i) => rest.push(i),
            None => rest,
        }
    }
}

/// The `^IFC` condition of an instruction (none for a page break).
pub open spec fn condition_of(i: InstructionView) -> Option<(Seq<char>, Seq<char>)> {
    match i {
        ZplInstructionOf::PageBreak => None,
        ZplInstructionOf::Text { condition, .. } => condition,
        ZplInstructionOf::GraphicBox { condition, .. } => condition,
        ZplInstructionOf::GraphicCircle { condition, .. } => condition,
        ZplInstructionOf::GraphicEllipse { condition, .. } => condition,
        ZplInstructionOf::GraphicField { condition, .. } => condition,
        ZplInstructionOf::CustomImage { condition, .. } => condition,
        ZplInstructionOf::Code128 { condition, .. } => condition,
        ZplInstructionOf::QRCode { condition, .. } => condition,
        ZplInstructionOf::Barcode1D { condition, .. } => condition,
        ZplInstructionOf::MicroPdf417 { condition, .. } => condition,
        ZplInstructionOf::AztecCode { condition, .. } => condition,
        ZplInstructionOf::MaxiCode { condition, .. } => condition,
        ZplInstructionOf::GraphicDiagonal { condition, .. } => condition,
        ZplInstructionOf::DataMatrix { condition, .. } => condition,
        ZplInstructionOf::Pdf417 { condition, .. } => condition,
        ZplInstructionOf::Code39 { condition, .. } => condition,
    }
}

/// An instruction is drawn exactly when its condition holds, and what is
/// drawn keeps that condition.
pub proof fn lemma_resolve_condition(i: InstructionView, m: Map<Seq<char>, Seq<char>>)
    ensures
        resolve(i, m) is Some <==> condition_holds(condition_of(i), m),
        resolve(i, m) matches Some(j) ==> condition_of(j) == condition_of(i),
{
}

/// Conditional rendering: every instruction drawn for a set of variables
/// has a condition that those variables meet.
pub proof fn law_drawn_conditions_hold(instrs: Seq<InstructionView>, m: Map<Seq<char>, Seq<char>>)
    ensures
        forall|j: int|
            0 <= j < spec_plan(instrs, m).len() ==> condition_holds(
                condition_of(#[trigger] spec_plan(instrs, m)[j]),
                m,
            ),
    decreases instrs.len(),
{
    if instrs.len() > 0 {
        law_drawn_conditions_hold(instrs.drop_last(), m);
        lemma_resolve_condition(instrs.last(), m);
    }
}

/// Conditional rendering: when the variables meet the condition of every
/// instruction, every instruction is drawn, in order.
pub proof fn law_all_drawn_when_conditions_hold(instrs: Seq<InstructionView>, m: Map<Seq<char>, Seq<char>>)
    requires
        forall|i: int| 0 <= i < instrs.len() ==> condition_holds(condition_of(#[trigger] instrs[i]), m),
    ensures
        spec_plan(instrs, m).len() == instrs.len(),
        forall|i: int| 0 <= i < instrs.len() ==> Some(#[trigger] spec_plan(instrs, m)[i]) == resolve(instrs[i], m),
    decreases instrs.len(),
{
    if instrs.len() > 0 {
        let init = instrs.drop_last();
        assert forall|i: int| 0 <= i < init.len() implies condition_holds(condition_of(#[trigger] init[i]), m) by {
            assert(init[i] == instrs[i]);
        }
        law_all_drawn_when_conditions_hold(init, m);
        assert(condition_holds(condition_of(instrs[instrs.len() - 1]), m));
        lemma_resolve_condition(instrs.last(), m);
        assert forall|i: int| 0 <= i < instrs.len() implies Some(#[trigger] spec_plan(instrs, m)[i]) == resolve(instrs[i], m) by {
            if i < init.len() {
                assert(init[i] == instrs[i]);
            }
        }
    }
}

pub proof fn lemma_replace_from_no_variables(s: Seq<char>, cursor: int, last: int)
    requires
        0 <= last <= cursor <= s.len(),
    ensures
        replace_from(s, Map::empty(), cursor, last) == s.subrange(last, s.len() as int),
    decreases s.len() - cursor,
{
    lemma_find_pair_bounds(s, '{', '{', cursor);
    match find_pair(s, '{', '{', cursor) {
        None => {},
        Some(start) => {
            lemma_find_pair_bounds(s, '}', '}', start + 2);
            lemma_replace_from_no_variables(s, start + 2, last);
        },
    }
}

/// Templating: with no variables, text is drawn as written.
pub proof fn law_no_variables_keep_text(s: Seq<char>)
    ensures
        spec_replace_vars(s, Map::empty()) == s,
{
    lemma_replace_from_no_variables(s, 0, 0);
    assert(s.subrange(0, s.len() as int) =~= s);
}

/// Templating: text without a `{{` is drawn as written, whatever the
/// variables.
pub proof fn law_text_without_placeholder_kept(s: Seq<char>, m: Map<Seq<char>, Seq<char>>)
    requires
        find_pair(s, '{', '{', 0) is None,
    ensures
        spec_replace_vars(s, m) == s,
{
    assert(s.subrange(0, s.len() as int) =~= s);
}

/// The text an instruction shows or encodes: the text of a text field and
/// the data of every barcode; `None` for graphics, images and page breaks.
pub open spec fn shown_text(i: InstructionView) -> Option<Seq<char>> {
    match i {
        ZplInstructionOf::Text { text, .. } => Some(text),
        ZplInstructionOf::Code128 { data, .. } => Some(data),
        ZplInstructionOf::QRCode { data, .. } => Some(data),
        ZplInstructionOf::Barcode1D { data, .. } => Some(data),
        ZplInstructionOf::MicroPdf417 { data, .. } => Some(data),
        ZplInstructionOf::AztecCode { data, .. } => Some(data),
        ZplInstructionOf::MaxiCode { data, .. } => Some(data),
        ZplInstructionOf::DataMatrix { data, .. } => Some(data),
        ZplInstructionOf::Pdf417 { data, .. } => Some(data),
        ZplInstructionOf::Code39 { data, .. } => Some(data),
        _ => None,
    }
}

/// Templating: an instruction drawn under the variables `m` shows the text
/// or data of the built instruction with its placeholders replaced by the
/// variables (`spec_replace_vars`), for text fields and every symbology
/// alike; an instruction that shows nothing still shows nothing.
pub proof fn law_drawn_text_is_templated(i: InstructionView, m: Map<Seq<char>, Seq<char>>)
    requires
        resolve(i, m) is Some,
    ensures
        match shown_text(i) {
            Some(t) => shown_text(resolve(i, m)->0) == Some(spec_replace_vars(t, m)),
            None => shown_text(resolve(i, m)->0) is None,
        },
{
}

/// Templating over a page: every instruction drawn on the page is a built
/// instruction, in order, whose text or data is drawn with its
/// placeholders replaced.
pub proof fn law_plan_text_is_templated(instrs: Seq<InstructionView>, m: Map<Seq<char>, Seq<char>>, k: int)
    requires
        0 <= k < spec_plan(instrs, m).len(),
    ensures
        exists|j: int|
            0 <= j < instrs.len() && #[trigger] resolve(instrs[j], m) == Some(spec_plan(instrs, m)[k])
                && match shown_text(instrs[j]) {
                Some(t) => shown_text(spec_plan(instrs, m)[k]) == Some(spec_replace_vars(t, m)),
                None => shown_text(spec_plan(instrs, m)[k]) is None,
            },
    decreases instrs.len(),
{
    let rest = spec_plan(instrs.drop_last(), m);
    let last = instrs.last();
    if k < rest.len() {
        law_plan_text_is_templated(instrs.drop_last(), m, k);
        let j = choose|j: int|
            0 <= j < instrs.drop_last().len() && #[trigger] resolve(instrs.drop_last()[j], m) == Some(
                rest[k],
            ) && match shown_text(instrs.drop_last()[j]) {
                Some(t) => shown_text(rest[k]) == Some(spec_replace_vars(t, m)),
                None => shown_text(rest[k]) is None,
            };
        assert(instrs[j] == instrs.drop_last()[j]);
        assert(spec_plan(instrs, m)[k] == rest[k]);
    } else {
        let j = instrs.len() - 1;
        assert(resolve(last, m) is Some);
        law_drawn_text_is_templated(last, m);
        assert(instrs[j] == last);
    }
}

/// Templating: a placeholder `{{name}}` of a variable is replaced by the
/// variable's value.
pub proof fn law_placeholder_replaced(name: Seq<char>, m: Map<Seq<char>, Seq<char>>)
    requires
        m.contains_key(name),
        forall|i: int| 0 <= i < name.len() ==> #[trigger] name[i] != '}',
    ensures
        spec_replace_vars("{{"@ + name + "}}"@, m) == m[name],
{
    reveal_strlit("{{");
    reveal_strlit("}}");
    let s = "{{"@ + name + "}}"@;
    let n = name.len() as int;
    assert(s[0] == '{' && s[1] == '{');
    assert(find_pair(s, '{', '{', 0) == Some(0int));
    assert forall|k: int| 2 <= k < n + 2 implies #[trigger] s[k] != '}' by {
        assert(s[k] == name[k - 2]);
    }
    assert forall|k: int| 2 <= k <= n + 2 implies find_pair(s, '}', '}', k) == Some(n + 2) by {
        lemma_find_pair_from(s, k, n);
    }
    assert(s.subrange(2, n + 2) =~= name);
    assert(s.subrange(0, 0) =~= Seq::<char>::empty());
    assert(find_pair(s, '{', '{', n + 4) is None);
    assert(s.subrange(n + 4, n + 4) =~= Seq::<char>::empty());
    assert(replace_from(s, m, n + 4, n + 4) == Seq::<char>::empty());
    assert(find_pair(s, '}', '}', 2) == Some(n + 2));
    assert(replace_from(s, m, 0, 0) == s.subrange(0, 0) + m[s.subrange(2, n + 2)] + replace_from(
        s,
        m,
        n + 4,
        n + 4,
    ));
    assert(Seq::<char>::empty() + m[name] + Seq::<char>::empty() =~= m[name]);
}

proof fn lemma_find_pair_from(s: Seq<char>, k: int, n: int)
    requires
        s.len() == n + 4,
        s[n + 2] == '}',
        s[n + 3] == '}',
        2 <= k <= n + 2,
        forall|j: int| 2 <= j < n + 2 ==> #[trigger] s[j] != '}',
    ensures
        find_pair(s, '}', '}', k) == Some(n + 2),
    decreases n + 2 - k,
{
    if k < n + 2 {
        lemma_find_pair_from(s, k + 1, n);
    }
}

fn clone_text(o: &Option<String>) -> (r: Option<String>)
    ensures
        match *o {
            Some(s) => r matches Some(t) && t@ == s@,
            None => r is None,
        },
{
    match o {
        Some(s) => Some(s.clone()),
        None => None,
    }
}

fn clone_pair(o: &Option<(String, String)>) -> (r: Option<(String, String)>)
    ensures
        match *o {
            Some(c) => r matches Some(d) && d.0@ == c.0@ && d.1@ == c.1@,
            None => r is None,
        },
{
    match o {
        Some(c) => Some((c.0.clone(), c.1.clone())),
        None => None,
    }
}

fn condition_ok(cond: &Option<(String, String)>, variables: &Variables) -> (b: bool)
    requires
        variables.wf(),
    ensures
        b == condition_holds(
            match *cond {
                Some(c) => Some((c.0@, c.1@)),
                None => None,
            },
            variables.map(),
        ),
{
    match cond {
        None => true,
        Some(c) => match variables.get(c.0.as_str()) {
            Some(v) => crate::text::str_eq(v.as_str(), c.1.as_str()),
            None => false,
        },
    }
}

fn clone_bytes(v: &Vec<u8>) -> (r: Vec<u8>)
    ensures
        r@ == v@,
{
    let mut r: Vec<u8> = Vec::new();
    crate::text::append_all(&mut r, v.as_slice());
    r
}

/// What `i` draws under `variables` (see `resolve`).
pub fn resolve_instruction(i: &ZplInstruction, variables: &Variables) -> (r: Option<ZplInstruction>)
    requires
        variables.wf(),
    ensures
        match resolve(i@, variables.map()) {
            Some(v) => r matches Some(j) && j@ == v,
            None => r is None,
        },
{
    match i {
            ZplInstructionOf::PageBreak => Some(ZplInstructionOf::PageBreak),
            ZplInstructionOf::Text { x, y, font, height, width, orientation, text, reverse_print, color, block, condition } => if condition_ok(condition, variables) {
                Some(ZplInstructionOf::Text { x: *x, y: *y, font: *font, height: *height, width: *width, orientation: *orientation, text: replace_vars(text.as_str(), variables), reverse_print: *reverse_print, color: clone_text(&color), block: *block, condition: clone_pair(&condition) })
            } else {
                None
            },
            ZplInstructionOf::GraphicBox { x, y, width, height, thickness, color, custom_color, rounding, reverse_print, condition } => if condition_ok(condition, variables) {
                Some(ZplInstructionOf::GraphicBox { x: *x, y: *y, width: *width, height: *height, thickness: *thickness, color: *color, custom_color: clone_text(&custom_color), rounding: *rounding, reverse_print: *reverse_print, condition: clone_pair(&condition) })
            } else {
                None
            },
            ZplInstructionOf::GraphicCircle { x, y, radius, thickness, color, custom_color, reverse_print, condition } => if condition_ok(condition, variables) {
                Some(ZplInstructionOf::GraphicCircle { x: *x, y: *y, radius: *radius, thickness: *thickness, color: *color, custom_color: clone_text(&custom_color), reverse_print: *reverse_print, condition: clone_pair(&condition) })
            } else {
                None
            },
            ZplInstructionOf::GraphicEllipse { x, y, width, height, thickness, color, custom_color, reverse_print, condition } => if condition_ok(condition, variables) {
                Some(ZplInstructionOf::GraphicEllipse { x: *x, y: *y, width: *width, height: *height, thickness: *thickness, color: *color, custom_color: clone_text(&custom_color), reverse_print: *reverse_print, condition: clone_pair(&condition) })
            } else {
                None
            },
            ZplInstructionOf::GraphicField { x, y, width, height, data, reverse_print, condition } => if condition_ok(condition, variables) {
                Some(ZplInstructionOf::GraphicField { x: *x, y: *y, width: *width, height: *height, data: data.clone(), reverse_print: *reverse_print, condition: clone_pair(&condition) })
            } else {
                None
            },
            ZplInstructionOf::CustomImage { x, y, width, height, data, condition } => if condition_ok(condition, variables) {
                Some(ZplInstructionOf::CustomImage { x: *x, y: *y, width: *width, height: *height, data: data.clone(), condition: clone_pair(&condition) })
            } else {
                None
            },
            ZplInstructionOf::Code128 { x, y, orientation, height, module_width, interpretation_line, interpretation_line_above, check_digit, mode, data, reverse_print, condition } => if condition_ok(condition, variables) {
                Some(ZplInstructionOf::Code128 { x: *x, y: *y, orientation: *orientation, height: *height, module_width: *module_width, interpretation_line: *interpretation_line, interpretation_line_above: *interpretation_line_above, check_digit: *check_digit, mode: *mode, data: replace_vars(data.as_str(), variables), reverse_print: *reverse_print, condition: clone_pair(&condition) })
            } else {
                None
            },
            ZplInstructionOf::QRCode { x, y, orientation, model, magnification, error_correction, mask, data, reverse_print, condition } => if condition_ok(condition, variables) {
                Some(ZplInstructionOf::QRCode { x: *x, y: *y, orientation: *orientation, model: *model, magnification: *magnification, error_correction: *error_correction, mask: *mask, data: replace_vars(data.as_str(), variables), reverse_print: *reverse_print, condition: clone_pair(&condition) })
            } else {
                None
            },
            ZplInstructionOf::Barcode1D { kind, x, y, orientation, height, module_width, ratio, check_digit, interpretation_line, interpretation_line_above, data, reverse_print, condition } => if condition_ok(condition, variables) {
                Some(ZplInstructionOf::Barcode1D { kind: *kind, x: *x, y: *y, orientation: *orientation, height: *height, module_width: *module_width, ratio: ratio.clone(), check_digit: *check_digit, interpretation_line: *interpretation_line, interpretation_line_above: *interpretation_line_above, data: replace_vars(data.as_str(), variables), reverse_print: *reverse_print, condition: clone_pair(&condition) })
            } else {
                None
            },
            ZplInstructionOf::MicroPdf417 { x, y, orientation, height, mode, data, reverse_print, condition } => if condition_ok(condition, variables) {
                Some(ZplInstructionOf::MicroPdf417 { x: *x, y: *y, orientation: *orientation, height: *height, mode: *mode, data: replace_vars(data.as_str(), variables), reverse_print: *reverse_print, condition: clone_pair(&condition) })
            } else {
                None
            },
            ZplInstructionOf::AztecCode { x, y, orientation, magnification, data, reverse_print, condition } => if condition_ok(condition, variables) {
                Some(ZplInstructionOf::AztecCode { x: *x, y: *y, orientation: *orientation, magnification: *magnification, data: replace_vars(data.as_str(), variables), reverse_print: *reverse_print, condition: clone_pair(&condition) })
            } else {
                None
            },
            ZplInstructionOf::MaxiCode { x, y, mode, data, reverse_print, condition } => if condition_ok(condition, variables) {
                Some(ZplInstructionOf::MaxiCode { x: *x, y: *y, mode: *mode, data: replace_vars(data.as_str(), variables), reverse_print: *reverse_print, condition: clone_pair(&condition) })
            } else {
                None
            },
            ZplInstructionOf::GraphicDiagonal { x, y, width, height, thickness, color, custom_color, diagonal_orientation, reverse_print, condition } => if condition_ok(condition, variables) {
                Some(ZplInstructionOf::GraphicDiagonal { x: *x, y: *y, width: *width, height: *height, thickness: *thickness, color: *color, custom_color: clone_text(&custom_color), diagonal_orientation: *diagonal_orientation, reverse_print: *reverse_print, condition: clone_pair(&condition) })
            } else {
                None
            },
            ZplInstructionOf::DataMatrix { x, y, orientation, module_size, data, reverse_print, condition } => if condition_ok(condition, variables) {
                Some(ZplInstructionOf::DataMatrix { x: *x, y: *y, orientation: *orientation, module_size: *module_size, data: replace_vars(data.as_str(), variables), reverse_print: *reverse_print, condition: clone_pair(&condition) })
            } else {
                None
            },
            ZplInstructionOf::Pdf417 { x, y, orientation, row_height, module_width, security_level, data, reverse_print, condition } => if condition_ok(condition, variables) {
                Some(ZplInstructionOf::Pdf417 { x: *x, y: *y, orientation: *orientation, row_height: *row_height, module_width: *module_width, security_level: *security_level, data: replace_vars(data.as_str(), variables), reverse_print: *reverse_print, condition: clone_pair(&condition) })
            } else {
                None
            },
            ZplInstructionOf::Code39 { x, y, orientation, check_digit, height, module_width, ratio, interpretation_line, interpretation_line_above, data, reverse_print, condition } => if condition_ok(condition, variables) {
                Some(ZplInstructionOf::Code39 { x: *x, y: *y, orientation: *orientation, check_digit: *check_digit, height: *height, module_width: *module_width, ratio: ratio.clone(), interpretation_line: *interpretation_line, interpretation_line_above: *interpretation_line_above, data: replace_vars(data.as_str(), variables), reverse_print: *reverse_print, condition: clone_pair(&condition) })
            } else {
                None
            },
    }
}

impl ZplEngine {
    /// The instructions drawn on one page under `variables`: those whose
    /// condition holds, with their placeholders replaced (see `spec_plan`).
    pub fn render(&self, variables: &Variables) -> (r: Vec<ZplInstruction>)
        requires
            variables.wf(),
        ensures
            r@.map_values(|i: ZplInstruction| i@) == spec_plan(self.instructions_view(), variables.map()),
    {
        let mut out: Vec<ZplInstruction> = Vec::new();
        let mut k: usize = 0;
        let ghost iv = self.instructions_view();
        proof {
            assert(iv.take(0) =~= Seq::<InstructionView>::empty());
            assert(out@.map_values(|i: ZplInstruction| i@) =~= Seq::<InstructionView>::empty());
        }
        while k < self.instructions.len()
            invariant
                k <= self.instructions@.len(),
                iv == self.instructions_view(),
                variables.wf(),
                out@.map_values(|i: ZplInstruction| i@) == spec_plan(iv.take(k as int), variables.map()),
            decreases self.instructions@.len() - k,
        {
            proof {
                assert(iv.take(k + 1).drop_last() =~= iv.take(k as int));
                assert(iv.take(k + 1).last() == self.instructions@[k as int]@);
            }
            match resolve_instruction(&self.instructions[k], variables) {
                Some(j) => {
                    out.push(j);
                },
                None => {},
            }
            proof {
                assert(out@.map_values(|i: ZplInstruction| i@) =~= spec_plan(iv.take(k + 1), variables.map()));
            }
            k = k + 1;
        }
        proof {
            assert(iv.take(k as int) =~= iv);
        }
        out
    }

    /// One page per set of variables (see `render`); no page for no sets.
    pub fn render_pages(&self, pages_variables: &[Variables]) -> (r: Vec<Vec<ZplInstruction>>)
        requires
            forall|p: int| 0 <= p < pages_variables@.len() ==> #[trigger] pages_variables@[p].wf(),
        ensures
            r@.len() == pages_variables@.len(),
            forall|p: int|
                0 <= p < r@.len() ==> instr_views(#[trigger] r@[p]@) == spec_plan(
                    self.instructions_view(),
                    pages_variables@[p].map(),
                ),
    {
        let mut pages: Vec<Vec<ZplInstruction>> = Vec::new();
        let mut p: usize = 0;
        while p < pages_variables.len()
            invariant
                p <= pages_variables@.len(),
                pages@.len() == p,
                forall|q: int| 0 <= q < pages_variables@.len() ==> #[trigger] pages_variables@[q].wf(),
                forall|q: int|
                    0 <= q < p ==> instr_views(#[trigger] pages@[q]@) == spec_plan(
                        self.instructions_view(),
                        pages_variables@[q].map(),
                    ),
            decreases pages_variables@.len() - p,
        {
            let page = self.render(&pages_variables[p]);
            pages.push(page);
            p = p + 1;
        }
        pages
    }
}

} // verus!
