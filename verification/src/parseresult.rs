//! Parse results and parse errors.
//!
//! A failed parse reports a list of error entries, innermost first, each
//! with the position in the input where it arose.  Entries that carry a
//! context message or an expected character are the ones shown to users.
use crate::bytes::{is_text, range_text, span, span_end, ByteClass, LF};
use vstd::prelude::*;
use vstd::string::StrSliceExecFns;

verus! {

/// The context messages that the template grammar attaches to failures.
#[derive(Clone, Copy, PartialEq, Eq, Debug)]
pub enum ContextMsg {
    ExpectedRustExpression,
    ExpectedTemplateDeclaration,
    ExpectedArgumentsDeclaration,
    ExpectedCommaOrParen,
    ErrorInExpression,
    ExpectedTypeExpression,
    ExpectedIn,
    ExpectedIterable,
    ErrorInLoopBlock,
    ErrorInMatch,
    ErrorInMatchArm,
    ErrorInConditional,
    ExpectedLoopVariable,
    ExpectedLetLhs,
    ExpectedLetRhs,
    ExpectedExpression,
}

/// The primitive failures that carry no message of their own.
#[derive(Clone, Copy, PartialEq, Eq, Debug)]
pub enum PrimitiveKind {
    Tag,
    Alt,
    MapRes,
    IsNot,
    Alpha,
    Digit,
    OneOf,
    ManyTill,
    Escaped,
    Many0,
    SeparatedList,
}

/// What an error entry reports.
#[derive(Clone, Copy, PartialEq, Eq, Debug)]
pub enum ErrorKind {
    /// A context message added by an enclosing rule.
    Context(ContextMsg),
    /// A specific character was expected.
    Char(char),
    /// A primitive failure.
    Primitive(PrimitiveKind),
}

/// One entry of a parse failure.
#[derive(Clone, Copy, PartialEq, Eq, Debug)]
pub struct ErrorEntry {
    /// Offset in the parsed input where this failure arose.
    pub pos: usize,
    pub kind: ErrorKind,
}

/// A parse failure: its entries, innermost first.
#[derive(Clone, PartialEq, Eq, Debug)]
pub struct ParseError {
    pub errors: Vec<ErrorEntry>,
}

/// The specification-level outcome of a parse: the end position of what was
/// consumed, or the error entries.
pub type SpecPos = Result<int, Seq<ErrorEntry>>;

/// The specification-level outcome of a parse that also yields a value.
pub type SpecVal<T> = Result<(int, T), Seq<ErrorEntry>>;

/// The outcome of parsing a prefix of an input: the unparsed rest and the
/// value, or the error.
pub type PResult<'a, O> = Result<(&'a [u8], O), ParseError>;

/// A public parse result agrees with a specification result on input `s`:
/// the rest is what follows the consumed prefix.
pub open spec fn presult_rel<O>(r: PResult<O>, s: Seq<u8>, sr: SpecPos) -> bool {
    match r {
        Ok((rest, _)) => sr is Ok && rest@ == s.subrange(sr->Ok_0, s.len() as int),
        Err(e) => sr == SpecPos::Err(e.errors@),
    }
}

/// The entry of kind `k` at `p`.
pub open spec fn entry(p: int, k: ErrorKind) -> ErrorEntry {
    ErrorEntry { pos: p as usize, kind: k }
}

/// The entries of a failure of one entry.
pub open spec fn err1(p: int, k: ErrorKind) -> Seq<ErrorEntry> {
    seq![entry(p, k)]
}

/// The entries of a failure, with one of an enclosing rule added.
pub open spec fn err_push(es: Seq<ErrorEntry>, p: int, k: ErrorKind) -> Seq<ErrorEntry> {
    es.push(entry(p, k))
}

/// An executable position result agrees with a specification result.
pub open spec fn pos_rel(r: Result<usize, ParseError>, sr: SpecPos) -> bool {
    match r {
        Ok(q) => sr == SpecPos::Ok(q as int),
        Err(e) => sr == SpecPos::Err(e.errors@),
    }
}

/// A failure of one entry, of kind `k` at `p`.
pub fn mk_err(p: usize, k: ErrorKind) -> (e: ParseError)
    ensures
        e.errors@ == err1(p as int, k),
{
    let mut v = Vec::new();
    v.push(ErrorEntry { pos: p, kind: k });
    ParseError { errors: v }
}

/// Adds an entry of kind `k` at `p` to a failure, as an enclosing rule
/// does.
pub fn add_err(e: ParseError, p: usize, k: ErrorKind) -> (r: ParseError)
    ensures
        r.errors@ == err_push(e.errors@, p as int, k),
{
    let mut e = e;
    e.errors.push(ErrorEntry { pos: p, kind: k });
    e
}

/// The text of a context message.
pub open spec fn context_text(m: ContextMsg) -> Seq<char> {
    match m {
        ContextMsg::ExpectedRustExpression => "Expected rust expression"@,
        ContextMsg::ExpectedTemplateDeclaration => "expected '@('...')' template declaration."@,
        ContextMsg::ExpectedArgumentsDeclaration => "expected '('...')' template arguments declaration."@,
        ContextMsg::ExpectedCommaOrParen => "expected ',' or ')'."@,
        ContextMsg::ErrorInExpression => "Error in expression starting here:"@,
        ContextMsg::ExpectedTypeExpression => "Expected rust type expression"@,
        ContextMsg::ExpectedIn => "Expected \"in\""@,
        ContextMsg::ExpectedIterable => "Expected iterable expression"@,
        ContextMsg::ErrorInLoopBlock => "Error in loop block:"@,
        ContextMsg::ErrorInMatch => "Error in match expression:"@,
        ContextMsg::ErrorInMatchArm => "Error in match arm starting here:"@,
        ContextMsg::ErrorInConditional => "Error in conditional expression:"@,
        ContextMsg::ExpectedLoopVariable => "Expected loop variable name or destructuring tuple"@,
        ContextMsg::ExpectedLetLhs => "Expected LHS expression in let binding"@,
        ContextMsg::ExpectedLetRhs => "Expected RHS expression in let binding"@,
        ContextMsg::ExpectedExpression => "Expected expression"@,
    }
}

/// The text of a context message.
pub fn context_message(m: ContextMsg) -> (r: &'static str)
    ensures
        r@ == context_text(m),
{
    match m {
        ContextMsg::ExpectedRustExpression => "Expected rust expression",
        ContextMsg::ExpectedTemplateDeclaration => "expected '@('...')' template declaration.",
        ContextMsg::ExpectedArgumentsDeclaration => "expected '('...')' template arguments declaration.",
        ContextMsg::ExpectedCommaOrParen => "expected ',' or ')'.",
        ContextMsg::ErrorInExpression => "Error in expression starting here:",
        ContextMsg::ExpectedTypeExpression => "Expected rust type expression",
        ContextMsg::ExpectedIn => "Expected \"in\"",
        ContextMsg::ExpectedIterable => "Expected iterable expression",
        ContextMsg::ErrorInLoopBlock => "Error in loop block:",
        ContextMsg::ErrorInMatch => "Error in match expression:",
        ContextMsg::ErrorInMatchArm => "Error in match arm starting here:",
        ContextMsg::ErrorInConditional => "Error in conditional expression:",
        ContextMsg::ExpectedLoopVariable => "Expected loop variable name or destructuring tuple",
        ContextMsg::ExpectedLetLhs => "Expected LHS expression in let binding",
        ContextMsg::ExpectedLetRhs => "Expected RHS expression in let binding",
        ContextMsg::ExpectedExpression => "Expected expression",
    }
}

/// What `format!("{:?}", c)` gives for a character `c`: a quoted Rust
/// character literal that denotes `c`.
pub uninterp spec fn rust_debug_char(c: char) -> Seq<char>;

/// `<char as Debug>::fmt`, through `format!("{:?}", ..)`: the result is
/// named `rust_debug_char` of `c`; nothing more is stated of it.
#[verifier::external_body]
fn debug_char(c: char) -> (r: String)
    ensures
        r@ == rust_debug_char(c),
{
    format!("{:?}", c)
}

/// The message shown for an expected character, given the character quoted
/// as a Rust character literal.
pub fn expected_message(quoted: &str) -> (r: String)
    ensures
        r@ == "Expected "@ + quoted@,
{
    let mut r = String::from_str("Expected ");
    r.append(quoted);
    r
}

/// The message shown for an error entry of kind `k`, if any.
pub open spec fn message_text(k: ErrorKind) -> Option<Seq<char>> {
    match k {
        ErrorKind::Context(m) => Some(context_text(m)),
        ErrorKind::Char(c) => Some("Expected "@ + rust_debug_char(c)),
        ErrorKind::Primitive(_) => None,
    }
}

/// The message shown for an error entry of kind `k`: context messages and
/// expected characters have one, primitive failures have none.
pub fn get_message(k: &ErrorKind) -> (r: Option<String>)
    ensures
        r is Some <==> message_text(*k) is Some,
        r matches Some(m) ==> message_text(*k) == Some(m@),
{
    match k {
        ErrorKind::Context(m) => Some(String::from_str(context_message(*m))),
        ErrorKind::Char(c) => {
            let q = debug_char(*c);
            Some(expected_message(q.as_str()))
        },
        ErrorKind::Primitive(_) => None,
    }
}

/// How many times byte `b` occurs in `s`.
pub open spec fn count_of(s: Seq<u8>, b: u8) -> nat
    decreases s.len(),
{
    if s.len() == 0 {
        0
    } else {
        let one: nat = if s.last() == b {
            1
        } else {
            0
        };
        count_of(s.drop_last(), b) + one
    }
}

/// `bytecount::count`: the number of occurrences of `needle` in
/// `haystack`.
#[verifier::external_body]
fn count_byte(haystack: &[u8], needle: u8) -> (r: usize)
    ensures
        r == count_of(haystack@, needle),
{
    bytecount::count(haystack, needle)
}

/// Where the line that holds position `pos` starts: after the last line
/// feed before `pos`, or at 0.
pub open spec fn line_start(s: Seq<u8>, pos: int) -> int
    decreases pos,
{
    if pos <= 0 {
        0
    } else if s[pos - 1] == LF {
        pos
    } else {
        line_start(s, pos - 1)
    }
}

/// The decimal digits of `n`.
pub open spec fn decimal(n: nat) -> Seq<char>
    decreases n,
{
    if n < 10 {
        seq![digit_char(n)]
    } else {
        decimal(n / 10).push(digit_char(n % 10))
    }
}

/// The character of a decimal digit.
pub open spec fn digit_char(d: nat) -> char {
    if d == 0 {
        '0'
    } else if d == 1 {
        '1'
    } else if d == 2 {
        '2'
    } else if d == 3 {
        '3'
    } else if d == 4 {
        '4'
    } else if d == 5 {
        '5'
    } else if d == 6 {
        '6'
    } else if d == 7 {
        '7'
    } else if d == 8 {
        '8'
    } else {
        '9'
    }
}

/// `n` spaces.
pub open spec fn spaces(n: nat) -> Seq<char> {
    Seq::new(n, |i: int| ' ')
}

/// `t` right-aligned in a field of width `w`, as `{:>w}` formats it.
pub open spec fn right_align(t: Seq<char>, w: nat) -> Seq<char> {
    if t.len() < w {
        spaces((w - t.len()) as nat) + t
    } else {
        t
    }
}

/// Whether an error at `pos` can be shown: the part of its line before it
/// is valid UTF-8.
pub open spec fn showable(buf: Seq<u8>, pos: int) -> bool {
    0 <= pos <= buf.len() && is_text(buf, line_start(buf, pos), pos)
}

/// How an error at `pos` is shown: the line number and the line, then a
/// caret under the position and the message, each line after `prefix`.
pub open spec fn error_text(buf: Seq<u8>, pos: int, msg: Seq<char>, prefix: Seq<char>) -> Seq<
    char,
> {
    let ls = line_start(buf, pos);
    let le = span_end(buf, ls, ByteClass::NotNewline);
    let line = if is_text(buf, ls, le) {
        range_text(buf, ls, le)
    } else {
        "(Failed to display line)"@
    };
    let line_no = count_of(buf.subrange(0, ls), LF) + 1;
    let col = range_text(buf, ls, pos).len() + 1;
    prefix + right_align(decimal(line_no), 4) + ":"@ + line + "\n"@ + prefix + "     "@
        + right_align("^"@, col) + " "@ + msg + "\n"@
}

/// How the error entries `es` are shown, the last one first; entries
/// without a message are skipped.
pub open spec fn errors_text(buf: Seq<u8>, es: Seq<ErrorEntry>, prefix: Seq<char>) -> Seq<char>
    decreases es.len(),
{
    if es.len() == 0 {
        Seq::empty()
    } else {
        let e = es.last();
        let shown = match message_text(e.kind) {
            Some(m) => error_text(buf, e.pos as int, m, prefix),
            None => Seq::empty(),
        };
        shown + errors_text(buf, es.drop_last(), prefix)
    }
}

/// Whether every entry of `es` that has a message can be shown.
pub open spec fn all_showable(buf: Seq<u8>, es: Seq<ErrorEntry>) -> bool {
    forall|i: int|
        0 <= i < es.len() && (#[trigger] message_text(es[i].kind)) is Some ==> showable(
            buf,
            es[i].pos as int,
        )
}

fn push_spaces(out: &mut String, n: usize)
    ensures
        final(out)@ == old(out)@ + spaces(n as nat),
{
    let ghost start = out@;
    let mut i: usize = 0;
    while i < n
        invariant
            i <= n,
            out@ == start + spaces(i as nat),
        decreases n - i,
    {
        crate::bytes::push_char(out, ' ');
        assert(spaces((i + 1) as nat) =~= spaces(i as nat).push(' '));
        i += 1;
    }
}

pub(crate) fn digit(d: usize) -> (c: char)
    requires
        d < 10,
    ensures
        c == digit_char(d as nat),
{
    if d == 0 {
        '0'
    } else if d == 1 {
        '1'
    } else if d == 2 {
        '2'
    } else if d == 3 {
        '3'
    } else if d == 4 {
        '4'
    } else if d == 5 {
        '5'
    } else if d == 6 {
        '6'
    } else if d == 7 {
        '7'
    } else if d == 8 {
        '8'
    } else {
        '9'
    }
}

/// The decimal digits of `n`.
pub fn decimal_string(n: usize) -> (r: String)
    ensures
        r@ == decimal(n as nat),
    decreases n,
{
    if n < 10 {
        let mut r = String::new();
        crate::bytes::push_char(&mut r, digit(n));
        assert(r@ =~= seq![digit_char(n as nat)]);
        r
    } else {
        let mut r = decimal_string(n / 10);
        crate::bytes::push_char(&mut r, digit(n % 10));
        r
    }
}

/// Appends `t` right-aligned in a field of width `w`.
fn push_right_aligned(out: &mut String, t: &str, w: usize)
    ensures
        final(out)@ == old(out)@ + right_align(t@, w as nat),
{
    let n = t.unicode_len();
    if n < w {
        push_spaces(out, w - n);
    } else {
        assert(old(out)@ + Seq::<char>::empty() =~= old(out)@);
    }
    out.append(t);
}

/// Where the line that holds position `pos` starts.
fn line_start_of(buf: &[u8], pos: usize) -> (r: usize)
    requires
        pos <= buf@.len(),
    ensures
        r == line_start(buf@, pos as int),
        r <= pos,
{
    let mut i = pos;
    while i > 0 && buf[i - 1] != LF
        invariant
            i <= pos <= buf@.len(),
            line_start(buf@, pos as int) == line_start(buf@, i as int),
        decreases i,
    {
        i -= 1;
    }
    i
}

/// Appends how an error at `pos` with message `msg` is shown.
pub fn show_error(out: &mut String, buf: &[u8], pos: usize, msg: &str, prefix: &str)
    requires
        showable(buf@, pos as int),
        buf@.len() < usize::MAX,
    ensures
        final(out)@ == old(out)@ + error_text(buf@, pos as int, msg@, prefix@),
{
    let ls = line_start_of(buf, pos);
    let le = span(buf, ls, ByteClass::NotNewline);
    let line_no = count_byte(vstd::slice::slice_subrange(buf, 0, ls), LF);
    let col = match crate::bytes::range_str(buf, ls, pos) {
        Some(t) => t.unicode_len(),
        None => 0,
    };
    proof {
        assert(count_of(buf@.subrange(0, ls as int), LF) <= ls) by {
            lemma_count_le(buf@.subrange(0, ls as int), LF);
        }
    }
    out.append(prefix);
    let digits = decimal_string(line_no + 1);
    push_right_aligned(out, digits.as_str(), 4);
    out.append(":");
    match crate::bytes::range_str(buf, ls, le) {
        Some(t) => out.append(t),
        None => out.append("(Failed to display line)"),
    }
    out.append("\n");
    out.append(prefix);
    out.append("     ");
    push_spaces(out, col);
    out.append("^");
    proof {
        reveal_strlit("^");
        if col == 0 {
            assert(spaces(0) =~= Seq::<char>::empty());
        }
    }
    out.append(" ");
    out.append(msg);
    out.append("\n");
}

proof fn lemma_count_le(s: Seq<u8>, b: u8)
    ensures
        count_of(s, b) <= s.len(),
    decreases s.len(),
{
    if s.len() > 0 {
        lemma_count_le(s.drop_last(), b);
    }
}

/// Appends how the entries of `error` are shown, outermost first, as
/// positions in `buf`.
pub fn show_errors(out: &mut String, buf: &[u8], error: &ParseError, prefix: &str)
    requires
        all_showable(buf@, error.errors@),
        buf@.len() < usize::MAX,
    ensures
        final(out)@ == old(out)@ + errors_text(buf@, error.errors@, prefix@),
{
    let ghost es = error.errors@;
    let ghost start = out@;
    let mut i = error.errors.len();
    assert(es.take(i as int) =~= es);
    while i > 0
        invariant
            i <= es.len(),
            es == error.errors@,
            all_showable(buf@, es),
            buf@.len() < usize::MAX,
            start + errors_text(buf@, es, prefix@) == out@ + errors_text(
                buf@,
                es.take(i as int),
                prefix@,
            ),
        decreases i,
    {
        let ghost before = out@;
        let e = error.errors[i - 1];
        assert(es.take(i as int).drop_last() =~= es.take(i - 1));
        assert(es.take(i as int).last() == es[i - 1]);
        match get_message(&e.kind) {
            Some(m) => {
                assert(message_text(es[i - 1].kind) is Some);
                show_error(out, buf, e.pos, m.as_str(), prefix);
            },
            None => {
                assert(out@ + Seq::<char>::empty() =~= out@);
            },
        }
        assert(before + errors_text(buf@, es.take(i as int), prefix@) =~= out@ + errors_text(
            buf@,
            es.take(i - 1),
            prefix@,
        ));
        i -= 1;
    }
    assert(es.take(0) =~= Seq::<ErrorEntry>::empty());
    assert(out@ + Seq::<char>::empty() =~= out@);
}

/// Whether every entry of `error` that has a message can be shown, as
/// positions in `buf`.
pub fn errors_showable(buf: &[u8], error: &ParseError) -> (r: bool)
    ensures
        r == all_showable(buf@, error.errors@),
{
    let mut i: usize = 0;
    while i < error.errors.len()
        invariant
            i <= error.errors@.len(),
            forall|j: int|
                0 <= j < i && (#[trigger] message_text(error.errors@[j].kind)) is Some
                    ==> showable(buf@, error.errors@[j].pos as int),
        decreases error.errors@.len() - i,
    {
        let e = error.errors[i];
        let has_message = match e.kind {
            ErrorKind::Primitive(_) => false,
            _ => true,
        };
        if has_message {
            assert(message_text(error.errors@[i as int].kind) is Some);
            if e.pos > buf.len() {
                return false;
            }
            let ls = line_start_of(buf, e.pos);
            if !crate::bytes::range_is_utf8(buf, ls, e.pos) {
                return false;
            }
        }
        i += 1;
    }
    true
}

} // verus!
