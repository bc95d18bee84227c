//! The ZPL parser: a hand-written recursive-descent reader over the
//! characters of the input, with the parameter conventions of ZPL
//! (optional positional parameters, comma separators, `^`-terminated
//! arguments).
//!
//! Every parser reads the input `s` from position `pos` and reports one of
//! three outcomes (see [`Parsed`]): success with the position after what it
//! read, a recoverable error (another command may still match), or a hard
//! failure that stops the whole parse.

use vstd::prelude::*;
use crate::ast::cmd::{Command, CommandOf, CommandView};
use crate::error::ZplError;
use crate::text::{is_digit, is_digit_char, string_of, trim, trimmed_string};
use self::standard::{cmd_view, spec_bare};

pub mod custom;
pub mod standard;

verus! {

/// What went wrong where a parser stopped.
#[derive(Debug, Clone, Copy, PartialEq, Eq, Structural)]
pub enum ErrorKind {
    /// An expected literal was not there.
    Tag,
    /// Digits were expected.
    Digit,
    /// The digits do not fit the number type.
    MapRes,
    /// A parameter character was expected.
    NoneOf,
    /// Input was left over at the end.
    Eof,
}

/// The outcome of a parser run.
#[derive(Debug, Clone, PartialEq, Eq)]
pub enum Parsed<T> {
    /// Success: the position after the parsed text, and the value.
    Done(usize, T),
    /// A recoverable error at a position.
    Error(usize, ErrorKind),
    /// A failure that ends the parse, at a position.
    Failure(usize, ErrorKind),
}

/// The name of an error kind, as error messages show it.
pub open spec fn kind_name(k: ErrorKind) -> Seq<char> {
    match k {
        ErrorKind::Tag => "Tag"@,
        ErrorKind::Digit => "Digit"@,
        ErrorKind::MapRes => "MapRes"@,
        ErrorKind::NoneOf => "NoneOf"@,
        ErrorKind::Eof => "Eof"@,
    }
}

/// A recoverable error becomes a failure.
pub open spec fn cut<T>(r: Parsed<T>) -> Parsed<T> {
    match r {
        Parsed::Error(p, k) => Parsed::Failure(p, k),
        _ => r,
    }
}

pub open spec fn is_multispace(c: char) -> bool {
    c == ' ' || c == '\t' || c == '\r' || c == '\n'
}

/// The position after the run of spaces, tabs and line breaks at `pos`.
pub open spec fn ws_end(s: Seq<char>, pos: int) -> int
    decreases s.len() - pos,
{
    if 0 <= pos < s.len() && is_multispace(s[pos]) {
        ws_end(s, pos + 1)
    } else {
        pos
    }
}

/// The position of the first `^` at or after `pos`, or the end of `s`.
pub open spec fn till_caret(s: Seq<char>, pos: int) -> int
    decreases s.len() - pos,
{
    if 0 <= pos < s.len() && s[pos] != '^' {
        till_caret(s, pos + 1)
    } else {
        pos
    }
}

/// The position of the first `,` or `^` at or after `pos`, or the end of `s`.
pub open spec fn till_comma_caret(s: Seq<char>, pos: int) -> int
    decreases s.len() - pos,
{
    if 0 <= pos < s.len() && s[pos] != '^' && s[pos] != ',' {
        till_comma_caret(s, pos + 1)
    } else {
        pos
    }
}

/// The position after the run of ASCII digits at `pos`.
pub open spec fn digits_end(s: Seq<char>, pos: int) -> int
    decreases s.len() - pos,
{
    if 0 <= pos < s.len() && is_digit(s[pos]) {
        digits_end(s, pos + 1)
    } else {
        pos
    }
}

/// `t` stands in `s` at `pos`.
pub open spec fn tag_at(s: Seq<char>, pos: int, t: Seq<char>) -> bool {
    0 <= pos && pos + t.len() <= s.len() && s.subrange(pos, pos + t.len()) == t
}

/// The value of a run of ASCII digits.
pub open spec fn char_decimal(d: Seq<char>) -> nat
    decreases d.len(),
{
    if d.len() == 0 {
        0
    } else {
        char_decimal(d.drop_last()) * 10 + ((d.last() as u32) - 48) as nat
    }
}

/// An unsigned 32-bit decimal number at `pos`.
pub open spec fn spec_u32(s: Seq<char>, pos: int) -> Parsed<u32> {
    let e = digits_end(s, pos);
    if e == pos {
        Parsed::Error(pos as usize, ErrorKind::Digit)
    } else if char_decimal(s.subrange(pos, e)) > u32::MAX {
        Parsed::Error(pos as usize, ErrorKind::MapRes)
    } else {
        Parsed::Done(e as usize, char_decimal(s.subrange(pos, e)) as u32)
    }
}

/// A parameter character: anything but a comma, a caret or white space.
pub open spec fn is_param_char(c: char) -> bool {
    c != ',' && c != '^' && c != '\r' && c != '\n' && c != ' ' && c != '\t'
}

/// A single parameter character at `pos`.
pub open spec fn spec_char(s: Seq<char>, pos: int) -> Parsed<char> {
    if 0 <= pos < s.len() && is_param_char(s[pos]) {
        Parsed::Done((pos + 1) as usize, s[pos])
    } else {
        Parsed::Error(pos as usize, ErrorKind::NoneOf)
    }
}

pub open spec fn ascii_upper_char(c: char) -> char {
    if 'a' <= c <= 'z' {
        ((c as u32) - 32) as char
    } else {
        c
    }
}

/// A single parameter character at `pos`, upper-cased.
pub open spec fn spec_char_upper(s: Seq<char>, pos: int) -> Parsed<char> {
    match spec_char(s, pos) {
        Parsed::Done(p, c) => Parsed::Done(p, ascii_upper_char(c)),
        r => r,
    }
}

/// An omitted parameter: the input ends, or a comma or caret follows.
pub open spec fn param_absent(s: Seq<char>, pos: int) -> bool {
    pos >= s.len() || s[pos] == ',' || s[pos] == '^'
}

/// An optional parameter whose value, when present, `inner` parsed at `pos`.
pub open spec fn opt_param<T>(s: Seq<char>, pos: int, inner: Parsed<T>) -> Parsed<Option<T>> {
    if param_absent(s, pos) {
        Parsed::Done(pos as usize, None)
    } else {
        match inner {
            Parsed::Done(p, v) => Parsed::Done(p, Some(v)),
            Parsed::Error(p, k) => Parsed::Error(p, k),
            Parsed::Failure(p, k) => Parsed::Failure(p, k),
        }
    }
}

/// A comma-prefixed optional parameter whose value, when present, `inner`
/// parsed at `pos + 1`.
pub open spec fn param<T>(s: Seq<char>, pos: int, inner: Parsed<T>) -> Parsed<Option<T>> {
    if 0 <= pos < s.len() && s[pos] == ',' {
        opt_param(s, pos + 1, inner)
    } else {
        Parsed::Error(pos as usize, ErrorKind::Tag)
    }
}

/// A parameter that is left out when it cannot be read: its value and the
/// position after it, or nothing and `pos`.
pub open spec fn or_none<T>(pos: int, r: Parsed<Option<T>>) -> (usize, Option<T>) {
    match r {
        Parsed::Done(p, v) => (p, v),
        _ => (pos as usize, None),
    }
}

pub open spec fn spec_opt_u32(s: Seq<char>, pos: int) -> Parsed<Option<u32>> {
    opt_param(s, pos, spec_u32(s, pos))
}

pub open spec fn spec_param_u32(s: Seq<char>, pos: int) -> Parsed<Option<u32>> {
    param(s, pos, spec_u32(s, pos + 1))
}

pub open spec fn spec_opt_char(s: Seq<char>, pos: int) -> Parsed<Option<char>> {
    opt_param(s, pos, spec_char(s, pos))
}

pub open spec fn spec_param_char(s: Seq<char>, pos: int) -> Parsed<Option<char>> {
    param(s, pos, spec_char(s, pos + 1))
}

pub open spec fn spec_opt_char_upper(s: Seq<char>, pos: int) -> Parsed<Option<char>> {
    opt_param(s, pos, spec_char_upper(s, pos))
}

pub open spec fn spec_param_char_upper(s: Seq<char>, pos: int) -> Parsed<Option<char>> {
    param(s, pos, spec_char_upper(s, pos + 1))
}

/// An `x,y` pair of optional numbers.
pub open spec fn spec_xy(s: Seq<char>, pos: int) -> Parsed<(Option<u32>, Option<u32>)> {
    match spec_opt_u32(s, pos) {
        Parsed::Done(p, x) => {
            let (q, y) = or_none(p as int, spec_param_u32(s, p as int));
            Parsed::Done(q, (x, y))
        },
        Parsed::Error(p, k) => Parsed::Error(p, k),
        Parsed::Failure(p, k) => Parsed::Failure(p, k),
    }
}

// ---------------------------------------------------------------------------
// Executable primitives
// ---------------------------------------------------------------------------

pub proof fn lemma_ws_end_bounds(s: Seq<char>, pos: int)
    requires
        0 <= pos <= s.len(),
    ensures
        pos <= ws_end(s, pos) <= s.len(),
    decreases s.len() - pos,
{
    if pos < s.len() && is_multispace(s[pos]) {
        lemma_ws_end_bounds(s, pos + 1);
    }
}

pub proof fn lemma_till_caret_bounds(s: Seq<char>, pos: int)
    requires
        0 <= pos <= s.len(),
    ensures
        pos <= till_caret(s, pos) <= s.len(),
        till_caret(s, pos) == s.len() || s[till_caret(s, pos)] == '^',
    decreases s.len() - pos,
{
    if pos < s.len() && s[pos] != '^' {
        lemma_till_caret_bounds(s, pos + 1);
    }
}

pub proof fn lemma_till_comma_caret_bounds(s: Seq<char>, pos: int)
    requires
        0 <= pos <= s.len(),
    ensures
        pos <= till_comma_caret(s, pos) <= s.len(),
    decreases s.len() - pos,
{
    if pos < s.len() && s[pos] != '^' && s[pos] != ',' {
        lemma_till_comma_caret_bounds(s, pos + 1);
    }
}

pub proof fn lemma_digits_end_bounds(s: Seq<char>, pos: int)
    requires
        0 <= pos <= s.len(),
    ensures
        pos <= digits_end(s, pos) <= s.len(),
    decreases s.len() - pos,
{
    if pos < s.len() && is_digit(s[pos]) {
        lemma_digits_end_bounds(s, pos + 1);
    }
}

/// The position after the white space at `pos`.
pub fn skip_ws(s: &Vec<char>, pos: usize) -> (r: usize)
    requires
        pos <= s@.len(),
    ensures
        r == ws_end(s@, pos as int),
        pos <= r <= s@.len(),
{
    let mut i = pos;
    while i < s.len() && (s[i] == ' ' || s[i] == '\t' || s[i] == '\r' || s[i] == '\n')
        invariant
            pos <= i <= s@.len(),
            ws_end(s@, pos as int) == ws_end(s@, i as int),
        decreases s@.len() - i,
    {
        i = i + 1;
    }
    i
}

/// The position of the first `^` at or after `pos`.
pub fn skip_till_caret(s: &Vec<char>, pos: usize) -> (r: usize)
    requires
        pos <= s@.len(),
    ensures
        r == till_caret(s@, pos as int),
        pos <= r <= s@.len(),
{
    let mut i = pos;
    while i < s.len() && s[i] != '^'
        invariant
            pos <= i <= s@.len(),
            till_caret(s@, pos as int) == till_caret(s@, i as int),
        decreases s@.len() - i,
    {
        i = i + 1;
    }
    i
}

/// The position of the first `,` or `^` at or after `pos`.
pub fn skip_till_comma_caret(s: &Vec<char>, pos: usize) -> (r: usize)
    requires
        pos <= s@.len(),
    ensures
        r == till_comma_caret(s@, pos as int),
        pos <= r <= s@.len(),
{
    let mut i = pos;
    while i < s.len() && s[i] != '^' && s[i] != ','
        invariant
            pos <= i <= s@.len(),
            till_comma_caret(s@, pos as int) == till_comma_caret(s@, i as int),
        decreases s@.len() - i,
    {
        i = i + 1;
    }
    i
}

/// Whether `t` stands in `s` at `pos`.
pub fn has_tag(s: &Vec<char>, pos: usize, t: &str) -> (r: bool)
    requires
        pos <= s@.len(),
    ensures
        r == tag_at(s@, pos as int, t@),
        s@.len() <= usize::MAX,
{
    let tc = crate::text::chars_of(t);
    let slen = s.len();
    if tc.len() > slen - pos {
        return false;
    }
    let mut i: usize = 0;
    while i < tc.len()
        invariant
            i <= tc@.len(),
            slen == s@.len(),
            pos + tc@.len() <= s@.len(),
            tc@ == t@,
            s@.subrange(pos as int, pos + i) == tc@.subrange(0, i as int),
        decreases tc@.len() - i,
    {
        if s[pos + i] != tc[i] {
            proof {
                assert(s@.subrange(pos as int, pos + tc@.len())[i as int] == s@[pos + i]);
            }
            return false;
        }
        proof {
            assert(s@.subrange(pos as int, pos + i + 1) =~= s@.subrange(pos as int, pos + i).push(
                s@[pos + i],
            ));
            assert(tc@.subrange(0, i + 1) =~= tc@.subrange(0, i as int).push(tc@[i as int]));
        }
        i = i + 1;
    }
    proof {
        assert(tc@.subrange(0, i as int) =~= tc@);
    }
    true
}

pub proof fn lemma_char_decimal_grows(d: Seq<char>, c: char)
    requires
        is_digit(c),
    ensures
        char_decimal(d.push(c)) == char_decimal(d) * 10 + ((c as u32) - 48),
        char_decimal(d.push(c)) >= char_decimal(d),
{
    assert(d.push(c).drop_last() =~= d);
}

/// An unsigned 32-bit decimal number at `pos`.
pub fn parse_u32(s: &Vec<char>, pos: usize) -> (r: Parsed<u32>)
    requires
        pos <= s@.len(),
    ensures
        r == spec_u32(s@, pos as int),
        r matches Parsed::Done(p, _) ==> pos <= p <= s@.len(),
        r matches Parsed::Error(p, _) ==> p <= s@.len(),
        r matches Parsed::Failure(p, _) ==> p <= s@.len(),
{
    let mut i = pos;
    let mut acc: u64 = 0;
    let mut overflow = false;
    proof {
        assert(s@.subrange(pos as int, pos as int) =~= Seq::<char>::empty());
    }
    while i < s.len() && is_digit_char(s[i])
        invariant
            pos <= i <= s@.len(),
            digits_end(s@, pos as int) == digits_end(s@, i as int),
            !overflow ==> acc == char_decimal(s@.subrange(pos as int, i as int)),
            !overflow ==> acc <= u32::MAX,
            overflow ==> char_decimal(s@.subrange(pos as int, i as int)) > u32::MAX,
        decreases s@.len() - i,
    {
        let ghost prev = s@.subrange(pos as int, i as int);
        proof {
            assert(s@.subrange(pos as int, i + 1) =~= prev.push(s@[i as int]));
            lemma_char_decimal_grows(prev, s@[i as int]);
        }
        let d = (s[i] as u32 - 48) as u64;
        if !overflow {
            let next = acc * 10 + d;
            if next > 0xFFFF_FFFF {
                overflow = true;
            } else {
                acc = next;
            }
        }
        i = i + 1;
    }
    if i == pos {
        return Parsed::Error(pos, ErrorKind::Digit);
    }
    if overflow {
        return Parsed::Error(pos, ErrorKind::MapRes);
    }
    Parsed::Done(i, acc as u32)
}

/// A single parameter character at `pos`.
pub fn parse_char(s: &Vec<char>, pos: usize) -> (r: Parsed<char>)
    requires
        pos <= s@.len(),
    ensures
        r == spec_char(s@, pos as int),
        r matches Parsed::Done(p, _) ==> pos <= p <= s@.len(),
        r matches Parsed::Error(p, _) ==> p <= s@.len(),
        r matches Parsed::Failure(p, _) ==> p <= s@.len(),
{
    if pos < s.len() {
        let c = s[pos];
        if c != ',' && c != '^' && c != '\r' && c != '\n' && c != ' ' && c != '\t' {
            return Parsed::Done(pos + 1, c);
        }
    }
    Parsed::Error(pos, ErrorKind::NoneOf)
}

/// The ASCII upper-case form of `c`.
pub fn to_ascii_upper(c: char) -> (r: char)
    ensures
        r == ascii_upper_char(c),
{
    if 'a' <= c && c <= 'z' {
        ((c as u32) - 32) as u8 as char
    } else {
        c
    }
}

/// A single parameter character at `pos`, upper-cased.
pub fn parse_char_upper(s: &Vec<char>, pos: usize) -> (r: Parsed<char>)
    requires
        pos <= s@.len(),
    ensures
        r == spec_char_upper(s@, pos as int),
        r matches Parsed::Done(p, _) ==> pos <= p <= s@.len(),
        r matches Parsed::Error(p, _) ==> p <= s@.len(),
        r matches Parsed::Failure(p, _) ==> p <= s@.len(),
{
    match parse_char(s, pos) {
        Parsed::Done(p, c) => Parsed::Done(p, to_ascii_upper(c)),
        Parsed::Error(p, k) => Parsed::Error(p, k),
        Parsed::Failure(p, k) => Parsed::Failure(p, k),
    }
}

fn absent_at(s: &Vec<char>, pos: usize) -> (r: bool)
    requires
        pos <= s@.len(),
    ensures
        r == param_absent(s@, pos as int),
{
    pos >= s.len() || s[pos] == ',' || s[pos] == '^'
}

fn comma_at(s: &Vec<char>, pos: usize) -> (r: bool)
    requires
        pos <= s@.len(),
    ensures
        r == (0 <= pos < s@.len() && s@[pos as int] == ','),
        s@.len() <= usize::MAX,
{
    pos < s.len() && s[pos] == ','
}

pub fn opt_u32(s: &Vec<char>, pos: usize) -> (r: Parsed<Option<u32>>)
    requires
        pos <= s@.len(),
    ensures
        r == spec_opt_u32(s@, pos as int),
        r matches Parsed::Done(p, _) ==> pos <= p <= s@.len(),
        r matches Parsed::Error(p, _) ==> p <= s@.len(),
        r matches Parsed::Failure(p, _) ==> p <= s@.len(),
{
    if absent_at(s, pos) {
        return Parsed::Done(pos, None);
    }
    match parse_u32(s, pos) {
        Parsed::Done(p, v) => Parsed::Done(p, Some(v)),
        Parsed::Error(p, k) => Parsed::Error(p, k),
        Parsed::Failure(p, k) => Parsed::Failure(p, k),
    }
}

pub fn param_u32(s: &Vec<char>, pos: usize) -> (r: Parsed<Option<u32>>)
    requires
        pos <= s@.len(),
    ensures
        r == spec_param_u32(s@, pos as int),
        r matches Parsed::Done(p, _) ==> pos <= p <= s@.len(),
        r matches Parsed::Error(p, _) ==> p <= s@.len(),
        r matches Parsed::Failure(p, _) ==> p <= s@.len(),
{
    if comma_at(s, pos) {
        opt_u32(s, pos + 1)
    } else {
        Parsed::Error(pos, ErrorKind::Tag)
    }
}

/// A comma-prefixed number, or nothing when it cannot be read.
pub fn param_u32_or_none(s: &Vec<char>, pos: usize) -> (r: (usize, Option<u32>))
    requires
        pos <= s@.len(),
    ensures
        r == or_none(pos as int, spec_param_u32(s@, pos as int)),
        pos <= r.0 <= s@.len(),
{
    if pos < s.len() {
        proof {
            lemma_digits_end_bounds(s@, pos + 1);
        }
    }
    match param_u32(s, pos) {
        Parsed::Done(p, v) => (p, v),
        _ => (pos, None),
    }
}

pub fn opt_char(s: &Vec<char>, pos: usize) -> (r: Parsed<Option<char>>)
    requires
        pos <= s@.len(),
    ensures
        r == spec_opt_char(s@, pos as int),
        r matches Parsed::Done(p, _) ==> pos <= p <= s@.len(),
        r matches Parsed::Error(p, _) ==> p <= s@.len(),
        r matches Parsed::Failure(p, _) ==> p <= s@.len(),
{
    if absent_at(s, pos) {
        return Parsed::Done(pos, None);
    }
    match parse_char(s, pos) {
        Parsed::Done(p, v) => Parsed::Done(p, Some(v)),
        Parsed::Error(p, k) => Parsed::Error(p, k),
        Parsed::Failure(p, k) => Parsed::Failure(p, k),
    }
}

pub fn opt_char_upper(s: &Vec<char>, pos: usize) -> (r: Parsed<Option<char>>)
    requires
        pos <= s@.len(),
    ensures
        r == spec_opt_char_upper(s@, pos as int),
        r matches Parsed::Done(p, _) ==> pos <= p <= s@.len(),
        r matches Parsed::Error(p, _) ==> p <= s@.len(),
        r matches Parsed::Failure(p, _) ==> p <= s@.len(),
{
    if absent_at(s, pos) {
        return Parsed::Done(pos, None);
    }
    match parse_char_upper(s, pos) {
        Parsed::Done(p, v) => Parsed::Done(p, Some(v)),
        Parsed::Error(p, k) => Parsed::Error(p, k),
        Parsed::Failure(p, k) => Parsed::Failure(p, k),
    }
}

/// A comma-prefixed parameter character, or nothing when it cannot be read.
pub fn param_char_or_none(s: &Vec<char>, pos: usize) -> (r: (usize, Option<char>))
    requires
        pos <= s@.len(),
    ensures
        r == or_none(pos as int, spec_param_char(s@, pos as int)),
        pos <= r.0 <= s@.len(),
{
    if comma_at(s, pos) {
        match opt_char(s, pos + 1) {
            Parsed::Done(p, v) => (p, v),
            _ => (pos, None),
        }
    } else {
        (pos, None)
    }
}

/// A comma-prefixed, upper-cased parameter character, or nothing when it
/// cannot be read.
pub fn param_char_upper_or_none(s: &Vec<char>, pos: usize) -> (r: (usize, Option<char>))
    requires
        pos <= s@.len(),
    ensures
        r == or_none(pos as int, spec_param_char_upper(s@, pos as int)),
        pos <= r.0 <= s@.len(),
{
    if comma_at(s, pos) {
        match opt_char_upper(s, pos + 1) {
            Parsed::Done(p, v) => (p, v),
            _ => (pos, None),
        }
    } else {
        (pos, None)
    }
}

/// An `x,y` pair of optional numbers.
pub fn parse_xy(s: &Vec<char>, pos: usize) -> (r: Parsed<(Option<u32>, Option<u32>)>)
    requires
        pos <= s@.len(),
    ensures
        r == spec_xy(s@, pos as int),
        r matches Parsed::Done(p, _) ==> pos <= p <= s@.len(),
        r matches Parsed::Error(p, _) ==> p <= s@.len(),
        r matches Parsed::Failure(p, _) ==> p <= s@.len(),
{
    proof {
        lemma_digits_end_bounds(s@, pos as int);
    }
    match opt_u32(s, pos) {
        Parsed::Done(p, x) => {
            let (q, y) = param_u32_or_none(s, p);
            Parsed::Done(q, (x, y))
        },
        Parsed::Error(p, k) => Parsed::Error(p, k),
        Parsed::Failure(p, k) => Parsed::Failure(p, k),
    }
}


// ---------------------------------------------------------------------------
// Commands and documents
// ---------------------------------------------------------------------------

/// The first of two alternatives that does not fail recoverably.
pub open spec fn alt2<T>(a: Parsed<T>, b: Parsed<T>) -> Parsed<T> {
    match a {
        Parsed::Error(_, _) => b,
        _ => a,
    }
}

fn is_error(r: &Parsed<Command>) -> (b: bool)
    ensures
        b == (*r is Error),
{
    match r {
        Parsed::Error(_, _) => true,
        _ => false,
    }
}

/// Any other command: a caret, a two-character code and its arguments up to
/// the next caret.
pub open spec fn spec_cmd_unsupported(s: Seq<char>, pos: int) -> Parsed<CommandView> {
    if !tag_at(s, pos, "^"@) {
        Parsed::Error(pos as usize, ErrorKind::Tag)
    } else if pos + 3 > s.len() {
        Parsed::Error((pos + 1) as usize, ErrorKind::Eof)
    } else {
        let e = till_caret(s, pos + 3);
        Parsed::Done(
            e as usize,
            CommandOf::UnsupportedCommand {
                command: seq!['^', s[pos + 1], s[pos + 2]],
                args: trim(s.subrange(pos + 3, e)),
            },
        )
    }
}

/// Any other command, kept as its code and arguments.
pub fn cmd_unsupported(s: &Vec<char>, pos: usize) -> (r: Parsed<Command>)
    requires
        pos <= s@.len(),
    ensures
        cmd_view(r) == spec_cmd_unsupported(s@, pos as int),
        r matches Parsed::Done(p, _) ==> pos < p <= s@.len(),
        r matches Parsed::Failure(p, _) ==> p <= s@.len(),
{
    if !has_tag(s, pos, "^") {
        return Parsed::Error(pos, ErrorKind::Tag);
    }
    proof {
        reveal_strlit("^");
    }
    if s.len() - pos < 3 {
        return Parsed::Error(pos + 1, ErrorKind::Eof);
    }
    let e = skip_till_caret(s, pos + 3);
    let mut code: Vec<char> = Vec::new();
    code.push('^');
    code.push(s[pos + 1]);
    code.push(s[pos + 2]);
    let command = string_of(code.as_slice());
    let args = trimmed_string(s, pos + 3, e);
    proof {
        assert(code@ =~= seq!['^', s@[pos + 1], s@[pos + 2]]);
    }
    Parsed::Done(e, CommandOf::UnsupportedCommand { command, args })
}

/// The first of the commands of group_layout that does not fail recoverably.
pub open spec fn spec_group_layout(s: Seq<char>, pos: int) -> Parsed<CommandView> {
    alt2(
        spec_bare(s, pos, "^XA"@, CommandOf::StartFormat),
        alt2(
        spec_bare(s, pos, "^XZ"@, CommandOf::EndFormat),
        alt2(
        standard::spec_cmd_lh(s, pos),
        alt2(
        standard::spec_cmd_ll(s, pos),
        alt2(
        standard::spec_cmd_fo(s, pos),
        alt2(
        standard::spec_cmd_ft(s, pos),
        alt2(
        spec_bare(s, pos, "^FS"@, CommandOf::FieldSeparator),
        alt2(
        standard::spec_cmd_lr(s, pos),
        alt2(
        standard::spec_cmd_fx(s, pos),
        alt2(
        standard::spec_cmd_a(s, pos),
        alt2(
        standard::spec_cmd_cf(s, pos),
        alt2(
        standard::spec_cmd_fd(s, pos),
        alt2(
        standard::spec_cmd_fb(s, pos),
        spec_bare(s, pos, "^FR"@, CommandOf::FieldReverse),
    ),
    ),
    ),
    ),
    ),
    ),
    ),
    ),
    ),
    ),
    ),
    ),
    )
}

fn group_layout(s: &Vec<char>, pos: usize) -> (r: Parsed<Command>)
    requires
        pos <= s@.len(),
    ensures
        cmd_view(r) == spec_group_layout(s@, pos as int),
        r matches Parsed::Done(p, _) ==> pos < p <= s@.len(),
        r matches Parsed::Failure(p, _) ==> p <= s@.len(),
{
    let r = standard::cmd_xa(s, pos);
    if !is_error(&r) {
        return r;
    }
    let r = standard::cmd_xz(s, pos);
    if !is_error(&r) {
        return r;
    }
    let r = standard::cmd_lh(s, pos);
    if !is_error(&r) {
        return r;
    }
    let r = standard::cmd_ll(s, pos);
    if !is_error(&r) {
        return r;
    }
    let r = standard::cmd_fo(s, pos);
    if !is_error(&r) {
        return r;
    }
    let r = standard::cmd_ft(s, pos);
    if !is_error(&r) {
        return r;
    }
    let r = standard::cmd_fs(s, pos);
    if !is_error(&r) {
        return r;
    }
    let r = standard::cmd_lr(s, pos);
    if !is_error(&r) {
        return r;
    }
    let r = standard::cmd_fx(s, pos);
    if !is_error(&r) {
        return r;
    }
    let r = standard::cmd_a(s, pos);
    if !is_error(&r) {
        return r;
    }
    let r = standard::cmd_cf(s, pos);
    if !is_error(&r) {
        return r;
    }
    let r = standard::cmd_fd(s, pos);
    if !is_error(&r) {
        return r;
    }
    let r = standard::cmd_fb(s, pos);
    if !is_error(&r) {
        return r;
    }
    standard::cmd_fr(s, pos)
}

/// The first of the commands of group_graphics that does not fail recoverably.
pub open spec fn spec_group_graphics(s: Seq<char>, pos: int) -> Parsed<CommandView> {
    alt2(
        standard::spec_cmd_gb(s, pos),
        alt2(
        standard::spec_cmd_gc(s, pos),
        alt2(
        standard::spec_cmd_gd(s, pos),
        alt2(
        standard::spec_cmd_ge(s, pos),
        alt2(
        standard::spec_cmd_gf(s, pos),
        alt2(
        standard::spec_cmd_bq(s, pos),
        alt2(
        standard::spec_cmd_b2(s, pos),
        alt2(
        standard::spec_cmd_b3(s, pos),
        alt2(
        standard::spec_cmd_b7(s, pos),
        alt2(
        standard::spec_cmd_ba(s, pos),
        alt2(
        standard::spec_cmd_be(s, pos),
        alt2(
        standard::spec_cmd_bu(s, pos),
        alt2(
        standard::spec_cmd_by(s, pos),
        alt2(
        standard::spec_cmd_bx(s, pos),
        alt2(
        standard::spec_cmd_bc(s, pos),
        alt2(
        custom::spec_cmd_gic(s, pos),
        alt2(
        custom::spec_cmd_gtc(s, pos),
        alt2(
        custom::spec_cmd_glc(s, pos),
        custom::spec_cmd_ifc(s, pos),
    ),
    ),
    ),
    ),
    ),
    ),
    ),
    ),
    ),
    ),
    ),
    ),
    ),
    ),
    ),
    ),
    ),
    )
}

fn group_graphics(s: &Vec<char>, pos: usize) -> (r: Parsed<Command>)
    requires
        pos <= s@.len(),
    ensures
        cmd_view(r) == spec_group_graphics(s@, pos as int),
        r matches Parsed::Done(p, _) ==> pos < p <= s@.len(),
        r matches Parsed::Failure(p, _) ==> p <= s@.len(),
{
    let r = standard::cmd_gb(s, pos);
    if !is_error(&r) {
        return r;
    }
    let r = standard::cmd_gc(s, pos);
    if !is_error(&r) {
        return r;
    }
    let r = standard::cmd_gd(s, pos);
    if !is_error(&r) {
        return r;
    }
    let r = standard::cmd_ge(s, pos);
    if !is_error(&r) {
        return r;
    }
    let r = standard::cmd_gf(s, pos);
    if !is_error(&r) {
        return r;
    }
    let r = standard::cmd_bq(s, pos);
    if !is_error(&r) {
        return r;
    }
    let r = standard::cmd_b2(s, pos);
    if !is_error(&r) {
        return r;
    }
    let r = standard::cmd_b3(s, pos);
    if !is_error(&r) {
        return r;
    }
    let r = standard::cmd_b7(s, pos);
    if !is_error(&r) {
        return r;
    }
    let r = standard::cmd_ba(s, pos);
    if !is_error(&r) {
        return r;
    }
    let r = standard::cmd_be(s, pos);
    if !is_error(&r) {
        return r;
    }
    let r = standard::cmd_bu(s, pos);
    if !is_error(&r) {
        return r;
    }
    let r = standard::cmd_by(s, pos);
    if !is_error(&r) {
        return r;
    }
    let r = standard::cmd_bx(s, pos);
    if !is_error(&r) {
        return r;
    }
    let r = standard::cmd_bc(s, pos);
    if !is_error(&r) {
        return r;
    }
    let r = custom::cmd_gic(s, pos);
    if !is_error(&r) {
        return r;
    }
    let r = custom::cmd_gtc(s, pos);
    if !is_error(&r) {
        return r;
    }
    let r = custom::cmd_glc(s, pos);
    if !is_error(&r) {
        return r;
    }
    custom::cmd_ifc(s, pos)
}

/// The first of the commands of group_symbols that does not fail recoverably.
pub open spec fn spec_group_symbols(s: Seq<char>, pos: int) -> Parsed<CommandView> {
    alt2(
        standard::spec_cmd_bd(s, pos),
        alt2(
        standard::spec_cmd_b8(s, pos),
        alt2(
        standard::spec_cmd_b9(s, pos),
        alt2(
        standard::spec_cmd_bb(s, pos),
        alt2(
        standard::spec_cmd_bm(s, pos),
        alt2(
        standard::spec_cmd_bz(s, pos),
        alt2(
        standard::spec_cmd_bs(s, pos),
        alt2(
        standard::spec_cmd_b0(s, pos),
        alt2(
        standard::spec_cmd_bf(s, pos),
        alt2(
        standard::spec_cmd_br(s, pos),
        alt2(
        standard::spec_cmd_fh(s, pos),
        alt2(
        standard::spec_cmd_ci(s, pos),
        spec_cmd_unsupported(s, pos),
    ),
    ),
    ),
    ),
    ),
    ),
    ),
    ),
    ),
    ),
    ),
    )
}

fn group_symbols(s: &Vec<char>, pos: usize) -> (r: Parsed<Command>)
    requires
        pos <= s@.len(),
    ensures
        cmd_view(r) == spec_group_symbols(s@, pos as int),
        r matches Parsed::Done(p, _) ==> pos < p <= s@.len(),
        r matches Parsed::Failure(p, _) ==> p <= s@.len(),
{
    let r = standard::cmd_bd(s, pos);
    if !is_error(&r) {
        return r;
    }
    let r = standard::cmd_b8(s, pos);
    if !is_error(&r) {
        return r;
    }
    let r = standard::cmd_b9(s, pos);
    if !is_error(&r) {
        return r;
    }
    let r = standard::cmd_bb(s, pos);
    if !is_error(&r) {
        return r;
    }
    let r = standard::cmd_bm(s, pos);
    if !is_error(&r) {
        return r;
    }
    let r = standard::cmd_bz(s, pos);
    if !is_error(&r) {
        return r;
    }
    let r = standard::cmd_bs(s, pos);
    if !is_error(&r) {
        return r;
    }
    let r = standard::cmd_b0(s, pos);
    if !is_error(&r) {
        return r;
    }
    let r = standard::cmd_bf(s, pos);
    if !is_error(&r) {
        return r;
    }
    let r = standard::cmd_br(s, pos);
    if !is_error(&r) {
        return r;
    }
    let r = standard::cmd_fh(s, pos);
    if !is_error(&r) {
        return r;
    }
    let r = standard::cmd_ci(s, pos);
    if !is_error(&r) {
        return r;
    }
    cmd_unsupported(s, pos)
}

/// One command at `pos`: the first alternative, in the order of the
/// grammar, that does not fail recoverably.
#[verifier::opaque]
pub open spec fn spec_command(s: Seq<char>, pos: int) -> Parsed<CommandView> {
    alt2(spec_group_layout(s, pos), alt2(spec_group_graphics(s, pos), spec_group_symbols(s, pos)))
}

/// One command at `pos`.
pub fn parse_command(s: &Vec<char>, pos: usize) -> (r: Parsed<Command>)
    requires
        pos <= s@.len(),
    ensures
        cmd_view(r) == spec_command(s@, pos as int),
        r matches Parsed::Done(p, _) ==> pos < p <= s@.len(),
        r matches Parsed::Failure(p, _) ==> p <= s@.len(),
{
    reveal(spec_command);
    let r = group_layout(s, pos);
    if !is_error(&r) {
        return r;
    }
    let r = group_graphics(s, pos);
    if !is_error(&r) {
        return r;
    }
    group_symbols(s, pos)
}

/// The commands of `s` from `pos` on, each surrounded by optional white
/// space; or the position and kind of the error. When no command can be
/// read the rest must be empty (the error is at `pos` otherwise); a failure
/// inside a command ends the parse.
pub open spec fn spec_parse_from(s: Seq<char>, pos: int) -> Result<Seq<CommandView>, (int, ErrorKind)>
    decreases s.len() - pos,
{
    if !(0 <= pos <= s.len()) {
        Err((pos, ErrorKind::Eof))
    } else {
        let p1 = ws_end(s, pos);
        match spec_command(s, p1) {
            Parsed::Done(p2, c) => {
                let p3 = ws_end(s, p2 as int);
                if pos < p3 <= s.len() {
                    match spec_parse_from(s, p3) {
                        Ok(rest) => Ok(seq![c] + rest),
                        Err(e) => Err(e),
                    }
                } else {
                    Ok(seq![c])
                }
            },
            Parsed::Error(_, _) => if pos == s.len() {
                Ok(Seq::empty())
            } else {
                Err((pos, ErrorKind::Eof))
            },
            Parsed::Failure(e, k) => Err((e as int, k)),
        }
    }
}

/// Number of line breaks in `s`.
pub open spec fn count_newlines(s: Seq<char>) -> nat
    decreases s.len(),
{
    if s.len() == 0 {
        0
    } else {
        count_newlines(s.drop_last()) + if s.last() == '\n' {
            1nat
        } else {
            0nat
        }
    }
}

/// The message of a parse error of kind `k`.
pub open spec fn parse_error_message(k: ErrorKind) -> Seq<char> {
    "Invalid or malformed ZPL command (Error code: "@ + kind_name(k) + ")"@
}

/// The commands of a ZPL document, or the error that stops it.
pub open spec fn spec_parse_zpl(s: Seq<char>) -> Result<Seq<CommandView>, (nat, Seq<char>)> {
    match spec_parse_from(s, 0) {
        Ok(cmds) => Ok(cmds),
        Err((offset, k)) => Err((count_newlines(s.subrange(0, offset)) + 1, parse_error_message(k))),
    }
}

fn kind_string(k: ErrorKind) -> (r: String)
    ensures
        r@ == kind_name(k),
{
    match k {
        ErrorKind::Tag => "Tag".to_owned(),
        ErrorKind::Digit => "Digit".to_owned(),
        ErrorKind::MapRes => "MapRes".to_owned(),
        ErrorKind::NoneOf => "NoneOf".to_owned(),
        ErrorKind::Eof => "Eof".to_owned(),
    }
}

fn newlines_before(s: &Vec<char>, offset: usize) -> (n: usize)
    requires
        offset <= s@.len(),
    ensures
        n == count_newlines(s@.subrange(0, offset as int)),
        n <= offset,
{
    let mut n: usize = 0;
    let mut i: usize = 0;
    proof {
        assert(s@.subrange(0, 0) =~= Seq::<char>::empty());
    }
    while i < offset
        invariant
            i <= offset <= s@.len(),
            n == count_newlines(s@.subrange(0, i as int)),
            n <= i,
        decreases offset - i,
    {
        proof {
            assert(s@.subrange(0, i + 1).drop_last() =~= s@.subrange(0, i as int));
        }
        if s[i] == '\n' {
            n = n + 1;
        }
        i = i + 1;
    }
    n
}

/// Parses a complete ZPL document into its commands.
///
/// Fails with `ZplError::ParseError` (the 1-based line of the problem and
/// its kind) when a command is malformed or text is left over that no
/// command reads.
pub fn parse_zpl(input: &str) -> (r: Result<Vec<Command>, ZplError>)
    requires
        input@.len() < usize::MAX,
    ensures
        match spec_parse_zpl(input@) {
            Ok(cmds) => r matches Ok(v) && v@.len() == cmds.len() && forall|i: int|
                0 <= i < cmds.len() ==> #[trigger] v@[i]@ == cmds[i],
            Err((line, msg)) => r matches Err(ZplError::ParseError { line: l, message: m }) && l
                == line && m@ == msg,
        },
{
    let s = crate::text::chars_of(input);
    let mut out: Vec<Command> = Vec::new();
    let mut pos: usize = 0;
    let ghost mut acc: Seq<CommandView> = Seq::empty();
    loop
        invariant
            pos <= s@.len(),
            s@ == input@,
            input@.len() < usize::MAX,
            out@.len() == acc.len(),
            forall|i: int| 0 <= i < acc.len() ==> #[trigger] out@[i]@ == acc[i],
            spec_parse_from(s@, 0) == match spec_parse_from(s@, pos as int) {
                Ok(rest) => Ok(acc + rest),
                Err(e) => Err(e),
            },
        decreases s@.len() - pos,
    {
        let p1 = skip_ws(&s, pos);
        match parse_command(&s, p1) {
            Parsed::Done(p2, c) => {
                let p3 = skip_ws(&s, p2);
                let ghost cv = c@;
                out.push(c);
                proof {
                    assert(spec_parse_from(s@, pos as int) == match spec_parse_from(s@, p3 as int) {
                        Ok(rest) => Ok(seq![cv] + rest),
                        Err(e) => Err(e),
                    });
                    match spec_parse_from(s@, p3 as int) {
                        Ok(rest) => {
                            assert(acc + (seq![cv] + rest) =~= acc.push(cv) + rest);
                        },
                        Err(e) => {},
                    }
                    acc = acc.push(cv);
                }
                pos = p3;
            },
            Parsed::Error(_, _) => {
                if pos == s.len() {
                    proof {
                        assert(acc + Seq::<CommandView>::empty() =~= acc);
                    }
                    return Ok(out);
                }
                let line = newlines_before(&s, pos);
                let mut m: Vec<char> = Vec::new();
                crate::text::push_str(&mut m, "Invalid or malformed ZPL command (Error code: ");
                let kname = kind_string(ErrorKind::Eof);
                crate::text::push_str(&mut m, kname.as_str());
                crate::text::push_str(&mut m, ")");
                return Err(ZplError::ParseError { line: line + 1, message: string_of(m.as_slice()) });
            },
            Parsed::Failure(e, k) => {
                let line = newlines_before(&s, e);
                let mut m: Vec<char> = Vec::new();
                crate::text::push_str(&mut m, "Invalid or malformed ZPL command (Error code: ");
                let kname = kind_string(k);
                crate::text::push_str(&mut m, kname.as_str());
                crate::text::push_str(&mut m, ")");
                return Err(ZplError::ParseError { line: line + 1, message: string_of(m.as_slice()) });
            },
        }
    }
}

} // verus!
