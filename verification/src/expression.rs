//! Rust expressions as they appear in templates.
//!
//! An expression is an optional `&` or `*`, then a name, a number, a string
//! literal, or a parenthesised or bracketed group, then any number of
//! `.member`, `::path`, call, brace, index and `!`-macro suffixes.  Inside
//! groups, nesting of `()`, `[]` and `{}` is balanced and string literals
//! and `/* */` comments are skipped as units.
use crate::bytes::{
    byte_at, has_byte, has_tag, is_text, range_is_utf8, range_text, span, span_end, str_from_utf8,
    tag_at,
    ByteClass, AMP, BACKSLASH, BANG, COLON, COMMA, DOT, DQUOTE, LBRACE, LBRACKET, LPAREN, RBRACE,
    RBRACKET, RPAREN, SLASH, SQUOTE, STAR, UNDERSCORE,
};
use crate::parseresult::{
    add_err, err1, err_push, mk_err, pos_rel, presult_rel, ContextMsg, ErrorKind, PrimitiveKind, PResult, ParseError,
    SpecPos, SpecVal,
};
use vstd::prelude::*;
use vstd::utf8::decode_utf8;

verus! {

/// A name: `_` or an ASCII letter, then any ASCII letters, digits and `_`.
pub open spec fn spec_rust_name(s: Seq<u8>, p: int) -> SpecPos {
    if 0 <= p < s.len() && (s[p] == UNDERSCORE || crate::bytes::is_alpha(s[p])) {
        SpecPos::Ok(span_end(s, p + 1, ByteClass::NameTail))
    } else {
        SpecPos::Err(
            err_push(err1(p, ErrorKind::Primitive(PrimitiveKind::Alpha)), p, ErrorKind::Primitive(PrimitiveKind::Alt)),
        )
    }
}

/// A non-empty run of ASCII digits.
pub open spec fn spec_digits(s: Seq<u8>, p: int) -> SpecPos {
    if span_end(s, p, ByteClass::Digit) > p {
        SpecPos::Ok(span_end(s, p, ByteClass::Digit))
    } else {
        SpecPos::Err(err1(p, ErrorKind::Primitive(PrimitiveKind::Digit)))
    }
}

/// The characters that may follow a `\` in a string literal.
pub open spec fn is_escapable(b: u8) -> bool {
    b == SQUOTE || b == DQUOTE || b == BACKSLASH || b == 110 || b == 114 || b == 116 || b == 48
        || b == 120 || b == 117
}

/// The body of a string literal, from `i` on, where the body started at
/// `start`: runs without `"` and `\`, and `\` escapes.
pub open spec fn escaped_body(s: Seq<u8>, start: int, i: int) -> SpecPos
    decreases s.len() - i,
{
    if !(0 <= i < s.len()) {
        SpecPos::Ok(i)
    } else if span_end(s, i, ByteClass::NotQuoteOrBackslash) > i {
        let e = span_end(s, i, ByteClass::NotQuoteOrBackslash);
        if e >= s.len() {
            SpecPos::Ok(e)
        } else {
            escaped_body(s, start, e)
        }
    } else if s[i] == BACKSLASH {
        if i + 1 >= s.len() {
            SpecPos::Err(err1(start, ErrorKind::Primitive(PrimitiveKind::Escaped)))
        } else if is_escapable(s[i + 1]) {
            if i + 2 >= s.len() {
                SpecPos::Ok(i + 2)
            } else {
                escaped_body(s, start, i + 2)
            }
        } else {
            SpecPos::Err(err1(i + 1, ErrorKind::Primitive(PrimitiveKind::OneOf)))
        }
    } else if i == start {
        SpecPos::Err(err1(start, ErrorKind::Primitive(PrimitiveKind::Escaped)))
    } else {
        SpecPos::Ok(i)
    }
}

/// A string literal: `"`, an optional escaped body, `"`.
pub open spec fn spec_quoted_string(s: Seq<u8>, p: int) -> SpecPos {
    if !byte_at(s, p, DQUOTE) {
        SpecPos::Err(err1(p, ErrorKind::Char('"')))
    } else {
        let q = match escaped_body(s, p + 1, p + 1) {
            SpecPos::Ok(e) => e,
            SpecPos::Err(_) => p + 1,
        };
        if !byte_at(s, q, DQUOTE) {
            SpecPos::Err(err1(q, ErrorKind::Char('"')))
        } else if !is_text(s, p, q + 1) {
            SpecPos::Err(err1(p, ErrorKind::Primitive(PrimitiveKind::MapRes)))
        } else {
            SpecPos::Ok(q + 1)
        }
    }
}

/// One piece of a `/* */` comment body.
pub open spec fn rust_comment_piece(s: Seq<u8>, i: int) -> Option<int> {
    if span_end(s, i, ByteClass::NotStar) > i {
        Some(span_end(s, i, ByteClass::NotStar))
    } else if byte_at(s, i, STAR) && !byte_at(s, i + 1, SLASH) {
        Some(i + 1)
    } else {
        None
    }
}

/// The body of a `/* */` comment from `i`: as many pieces as there are.
pub open spec fn rust_comment_body(s: Seq<u8>, i: int) -> SpecPos
    decreases s.len() - i,
{
    match rust_comment_piece(s, i) {
        None => SpecPos::Ok(i),
        Some(j) => if i < j <= s.len() {
            rust_comment_body(s, j)
        } else {
            SpecPos::Err(err1(i, ErrorKind::Primitive(PrimitiveKind::Many0)))
        },
    }
}

/// A `/* ... */` comment.
pub open spec fn spec_rust_comment(s: Seq<u8>, p: int) -> SpecPos {
    if !tag_at(s, p, seq![SLASH, STAR]) {
        SpecPos::Err(err1(p, ErrorKind::Primitive(PrimitiveKind::Tag)))
    } else {
        match rust_comment_body(s, p + 2) {
            SpecPos::Err(e) => SpecPos::Err(e),
            SpecPos::Ok(q) => if tag_at(s, q, seq![STAR, SLASH]) {
                SpecPos::Ok(q + 2)
            } else {
                SpecPos::Err(err1(q, ErrorKind::Primitive(PrimitiveKind::Tag)))
            },
        }
    }
}

/// A `/` that does not start a comment, with the byte after it.
pub open spec fn slash_piece(s: Seq<u8>, i: int) -> Option<int> {
    if byte_at(s, i, SLASH) && i + 1 < s.len() && s[i + 1] != STAR {
        Some(i + 2)
    } else {
        None
    }
}

/// The pieces inside a group that cannot nest: string literals, comments
/// and lone slashes.
pub open spec fn atom_piece(s: Seq<u8>, i: int) -> Option<int> {
    match spec_quoted_string(s, i) {
        SpecPos::Ok(q) => Some(q),
        SpecPos::Err(_) => match spec_rust_comment(s, i) {
            SpecPos::Ok(q) => Some(q),
            SpecPos::Err(_) => slash_piece(s, i),
        },
    }
}

/// A delimited group `open ... close` around a body, checked to be UTF-8.
pub open spec fn delimited_group(
    s: Seq<u8>,
    p: int,
    open: u8,
    body: SpecPos,
    close: u8,
) -> SpecPos {
    if !byte_at(s, p, open) {
        SpecPos::Err(err1(p, ErrorKind::Primitive(PrimitiveKind::Tag)))
    } else {
        match body {
            SpecPos::Err(e) => SpecPos::Err(e),
            SpecPos::Ok(q) => if !byte_at(s, q, close) {
                SpecPos::Err(err1(q, ErrorKind::Primitive(PrimitiveKind::Tag)))
            } else if !is_text(s, p, q + 1) {
                SpecPos::Err(err1(p, ErrorKind::Primitive(PrimitiveKind::MapRes)))
            } else {
                SpecPos::Ok(q + 1)
            },
        }
    }
}

/// `( ... )`.
pub open spec fn spec_parens(s: Seq<u8>, p: int) -> SpecPos
    decreases s.len() - p, 0int,
{
    if byte_at(s, p, LPAREN) {
        delimited_group(s, p, LPAREN, spec_inside_parens(s, p + 1), RPAREN)
    } else {
        SpecPos::Err(err1(p, ErrorKind::Primitive(PrimitiveKind::Tag)))
    }
}

/// `[ ... ]`.
pub open spec fn spec_brackets(s: Seq<u8>, p: int) -> SpecPos
    decreases s.len() - p, 0int,
{
    if byte_at(s, p, LBRACKET) {
        delimited_group(s, p, LBRACKET, brackets_body(s, p + 1), RBRACKET)
    } else {
        SpecPos::Err(err1(p, ErrorKind::Primitive(PrimitiveKind::Tag)))
    }
}

/// `{ ... }`.
pub open spec fn spec_braces(s: Seq<u8>, p: int) -> SpecPos
    decreases s.len() - p, 0int,
{
    if byte_at(s, p, LBRACE) {
        delimited_group(s, p, LBRACE, braces_body(s, p + 1), RBRACE)
    } else {
        SpecPos::Err(err1(p, ErrorKind::Primitive(PrimitiveKind::Tag)))
    }
}

/// One piece of the body of a `[ ... ]` group.
pub open spec fn brackets_piece(s: Seq<u8>, i: int) -> Option<int>
    decreases s.len() - i, 1int,
{
    if span_end(s, i, ByteClass::NotBracketSpecial) > i {
        Some(span_end(s, i, ByteClass::NotBracketSpecial))
    } else if spec_brackets(s, i) is Ok {
        Some(spec_brackets(s, i)->Ok_0)
    } else if spec_braces(s, i) is Ok {
        Some(spec_braces(s, i)->Ok_0)
    } else if spec_parens(s, i) is Ok {
        Some(spec_parens(s, i)->Ok_0)
    } else {
        atom_piece(s, i)
    }
}

/// One piece of the body of a `{ ... }` group.
pub open spec fn braces_piece(s: Seq<u8>, i: int) -> Option<int>
    decreases s.len() - i, 1int,
{
    if span_end(s, i, ByteClass::NotBraceSpecial) > i {
        Some(span_end(s, i, ByteClass::NotBraceSpecial))
    } else if spec_brackets(s, i) is Ok {
        Some(spec_brackets(s, i)->Ok_0)
    } else if spec_braces(s, i) is Ok {
        Some(spec_braces(s, i)->Ok_0)
    } else if spec_parens(s, i) is Ok {
        Some(spec_parens(s, i)->Ok_0)
    } else {
        atom_piece(s, i)
    }
}

/// One piece of the inside of a `( ... )` group.
pub open spec fn parens_piece(s: Seq<u8>, i: int) -> Option<int>
    decreases s.len() - i, 1int,
{
    if span_end(s, i, ByteClass::NotBraceSpecial) > i {
        Some(span_end(s, i, ByteClass::NotBraceSpecial))
    } else if spec_braces(s, i) is Ok {
        Some(spec_braces(s, i)->Ok_0)
    } else if spec_brackets(s, i) is Ok {
        Some(spec_brackets(s, i)->Ok_0)
    } else if spec_parens(s, i) is Ok {
        Some(spec_parens(s, i)->Ok_0)
    } else {
        atom_piece(s, i)
    }
}

/// The body of a `[ ]` group from `i`: as many pieces as there are.
pub open spec fn brackets_body(s: Seq<u8>, i: int) -> SpecPos
    decreases s.len() - i, 2int,
{
    match brackets_piece(s, i) {
        None => SpecPos::Ok(i),
        Some(j) => if i < j <= s.len() {
            brackets_body(s, j)
        } else {
            SpecPos::Err(err1(i, ErrorKind::Primitive(PrimitiveKind::Many0)))
        },
    }
}

/// The body of a `{ }` group from `i`: as many pieces as there are.
pub open spec fn braces_body(s: Seq<u8>, i: int) -> SpecPos
    decreases s.len() - i, 2int,
{
    match braces_piece(s, i) {
        None => SpecPos::Ok(i),
        Some(j) => if i < j <= s.len() {
            braces_body(s, j)
        } else {
            SpecPos::Err(err1(i, ErrorKind::Primitive(PrimitiveKind::Many0)))
        },
    }
}

/// The inside of a `( )` group from `i`: as many pieces as there are.
pub open spec fn parens_body(s: Seq<u8>, i: int) -> SpecPos
    decreases s.len() - i, 2int,
{
    match parens_piece(s, i) {
        None => SpecPos::Ok(i),
        Some(j) => if i < j <= s.len() {
            parens_body(s, j)
        } else {
            SpecPos::Err(err1(i, ErrorKind::Primitive(PrimitiveKind::Many0)))
        },
    }
}

/// What stands between `(` and `)`, checked to be UTF-8.
pub open spec fn spec_inside_parens(s: Seq<u8>, p: int) -> SpecPos
    decreases s.len() - p, 3int,
{
    match parens_body(s, p) {
        SpecPos::Err(e) => SpecPos::Err(e),
        SpecPos::Ok(q) => if !is_text(s, p, q) {
            SpecPos::Err(err1(p, ErrorKind::Primitive(PrimitiveKind::MapRes)))
        } else {
            SpecPos::Ok(q)
        },
    }
}

/// Where an expression's head starts: after an optional `&` or `*`.
pub open spec fn expr_prefix_end(s: Seq<u8>, p: int) -> int {
    if byte_at(s, p, AMP) || byte_at(s, p, STAR) {
        p + 1
    } else {
        p
    }
}

/// The head of an expression: a name, a number, a string literal, or a
/// `( )` or `[ ]` group.
pub open spec fn expr_head(s: Seq<u8>, p: int) -> SpecPos
    decreases s.len() - p, 1int,
{
    if spec_rust_name(s, p) is Ok {
        spec_rust_name(s, p)
    } else if spec_digits(s, p) is Ok {
        spec_digits(s, p)
    } else if spec_quoted_string(s, p) is Ok {
        spec_quoted_string(s, p)
    } else if spec_parens(s, p) is Ok {
        spec_parens(s, p)
    } else {
        match spec_brackets(s, p) {
            SpecPos::Ok(q) => SpecPos::Ok(q),
            SpecPos::Err(e) => SpecPos::Err(err_push(e, p, ErrorKind::Primitive(PrimitiveKind::Alt))),
        }
    }
}

/// One suffix of an expression: `.expr`, `::expr`, `( )`, `{ }`, `[ ]`,
/// `!( )` or `![ ]`.
pub open spec fn expr_suffix(s: Seq<u8>, i: int) -> Option<int>
    decreases s.len() - i, 1int,
{
    if byte_at(s, i, DOT) && spec_expression(s, i + 1) is Ok {
        Some(spec_expression(s, i + 1)->Ok_0)
    } else if tag_at(s, i, seq![COLON, COLON]) && spec_expression(s, i + 2) is Ok {
        Some(spec_expression(s, i + 2)->Ok_0)
    } else if spec_parens(s, i) is Ok {
        Some(spec_parens(s, i)->Ok_0)
    } else if spec_braces(s, i) is Ok {
        Some(spec_braces(s, i)->Ok_0)
    } else if spec_brackets(s, i) is Ok {
        Some(spec_brackets(s, i)->Ok_0)
    } else if byte_at(s, i, BANG) && spec_parens(s, i + 1) is Ok {
        Some(spec_parens(s, i + 1)->Ok_0)
    } else if byte_at(s, i, BANG) && spec_brackets(s, i + 1) is Ok {
        Some(spec_brackets(s, i + 1)->Ok_0)
    } else {
        None
    }
}

/// All the suffixes of an expression, from `i`.
pub open spec fn expr_suffixes(s: Seq<u8>, i: int) -> SpecPos
    decreases s.len() - i, 2int,
{
    match expr_suffix(s, i) {
        None => SpecPos::Ok(i),
        Some(j) => if i < j <= s.len() {
            expr_suffixes(s, j)
        } else {
            SpecPos::Err(err1(i, ErrorKind::Primitive(PrimitiveKind::Many0)))
        },
    }
}

/// A Rust expression, checked to be UTF-8.
pub open spec fn spec_expression(s: Seq<u8>, p: int) -> SpecPos
    decreases s.len() - p, 3int,
{
    let ctx = ErrorKind::Context(ContextMsg::ExpectedRustExpression);
    match expr_head(s, expr_prefix_end(s, p)) {
        SpecPos::Err(e) => SpecPos::Err(err_push(e, p, ctx)),
        SpecPos::Ok(q) => if p <= q <= s.len() {
            match expr_suffixes(s, q) {
                SpecPos::Err(e) => SpecPos::Err(err_push(e, p, ctx)),
                SpecPos::Ok(r) => if !is_text(s, p, r) {
                    SpecPos::Err(err1(p, ErrorKind::Primitive(PrimitiveKind::MapRes)))
                } else {
                    SpecPos::Ok(r)
                },
            }
        } else {
            SpecPos::Err(Seq::empty())
        },
    }
}

/// A separator in a list of expressions: `,` and any spaces.
pub open spec fn comma_sep(s: Seq<u8>, i: int) -> Option<int> {
    if byte_at(s, i, COMMA) {
        Some(span_end(s, i + 1, ByteClass::Space))
    } else {
        None
    }
}

/// The rest of a comma separated list of expressions, after `acc`.
pub open spec fn comma_expressions_rest(s: Seq<u8>, i: int, acc: Seq<Seq<char>>) -> SpecVal<
    Seq<Seq<char>>,
>
    decreases s.len() - i,
{
    match comma_sep(s, i) {
        None => SpecVal::Ok((i, acc)),
        Some(i1) => if i < i1 <= s.len() {
            match spec_expression(s, i1) {
                SpecPos::Err(_) => SpecVal::Ok((i, acc)),
                SpecPos::Ok(i2) => if i1 <= i2 <= s.len() {
                    comma_expressions_rest(s, i2, acc.push(range_text(s, i1, i2)))
                } else {
                    SpecVal::Err(Seq::empty())
                },
            }
        } else {
            SpecVal::Err(err1(i1, ErrorKind::Primitive(PrimitiveKind::SeparatedList)))
        },
    }
}

/// A possibly empty comma separated list of expressions.
pub open spec fn comma_expression_list(s: Seq<u8>, p: int) -> SpecVal<Seq<Seq<char>>> {
    match spec_expression(s, p) {
        SpecPos::Err(_) => SpecVal::Ok((p, Seq::empty())),
        SpecPos::Ok(q) => comma_expressions_rest(s, q, seq![range_text(s, p, q)]),
    }
}

/// The parts joined by `sep`.
pub open spec fn join(parts: Seq<Seq<char>>, sep: Seq<char>) -> Seq<char>
    decreases parts.len(),
{
    if parts.len() == 0 {
        Seq::empty()
    } else if parts.len() == 1 {
        parts[0]
    } else {
        join(parts.drop_last(), sep) + sep + parts.last()
    }
}

/// A comma separated list of expressions, normalized to be joined by `", "`.
pub open spec fn spec_comma_expressions(s: Seq<u8>, p: int) -> SpecVal<Seq<char>> {
    match comma_expression_list(s, p) {
        SpecVal::Ok((q, parts)) => SpecVal::Ok((q, join(parts, ", "@))),
        SpecVal::Err(e) => SpecVal::Err(e),
    }
}


/// Parses a name at `p`.
pub fn rust_name_at(s: &[u8], p: usize) -> (r: Result<usize, ParseError>)
    requires
        p <= s@.len(),
    ensures
        pos_rel(r, spec_rust_name(s@, p as int)),
        r matches Ok(q) ==> p < q <= s@.len(),
{
    if p < s.len() && (s[p] == UNDERSCORE || crate::bytes::class_contains(ByteClass::Alpha, s[p])) {
        Ok(span(s, p + 1, ByteClass::NameTail))
    } else {
        let e = mk_err(p, ErrorKind::Primitive(PrimitiveKind::Alpha));
        Err(add_err(e, p, ErrorKind::Primitive(PrimitiveKind::Alt)))
    }
}

fn digits_at(s: &[u8], p: usize) -> (r: Result<usize, ParseError>)
    requires
        p <= s@.len(),
    ensures
        pos_rel(r, spec_digits(s@, p as int)),
        r matches Ok(q) ==> p < q <= s@.len(),
{
    let e = span(s, p, ByteClass::Digit);
    if e > p {
        Ok(e)
    } else {
        Err(mk_err(p, ErrorKind::Primitive(PrimitiveKind::Digit)))
    }
}

fn escapable(b: u8) -> (r: bool)
    ensures
        r == is_escapable(b),
{
    b == SQUOTE || b == DQUOTE || b == BACKSLASH || b == 110 || b == 114 || b == 116 || b == 48
        || b == 120 || b == 117
}

fn escaped_body_at(s: &[u8], start: usize) -> (r: Result<usize, ParseError>)
    requires
        start <= s@.len(),
    ensures
        pos_rel(r, escaped_body(s@, start as int, start as int)),
        r matches Ok(q) ==> start <= q <= s@.len(),
{
    let len = s.len();
    let mut i = start;
    loop
        invariant
            start <= i <= s@.len(),
            len == s@.len(),
            escaped_body(s@, start as int, start as int) == escaped_body(
                s@,
                start as int,
                i as int,
            ),
        decreases s@.len() - i,
    {
        if i >= s.len() {
            return Ok(i);
        }
        let e = span(s, i, ByteClass::NotQuoteOrBackslash);
        if e > i {
            if e >= s.len() {
                return Ok(e);
            }
            i = e;
        } else if s[i] == BACKSLASH {
            if s.len() - i <= 1 {
                return Err(mk_err(start, ErrorKind::Primitive(PrimitiveKind::Escaped)));
            } else if escapable(s[i + 1]) {
                if s.len() - i <= 2 {
                    return Ok(i + 2);
                }
                i = i + 2;
            } else {
                return Err(mk_err(i + 1, ErrorKind::Primitive(PrimitiveKind::OneOf)));
            }
        } else if i == start {
            return Err(mk_err(start, ErrorKind::Primitive(PrimitiveKind::Escaped)));
        } else {
            return Ok(i);
        }
    }
}

/// Parses a string literal at `p`.
pub fn quoted_string_at(s: &[u8], p: usize) -> (r: Result<usize, ParseError>)
    requires
        p <= s@.len(),
    ensures
        pos_rel(r, spec_quoted_string(s@, p as int)),
        r matches Ok(q) ==> p + 2 <= q <= s@.len(),
{
    if !has_byte(s, p, DQUOTE) {
        return Err(mk_err(p, ErrorKind::Char('"')));
    }
    let q = match escaped_body_at(s, p + 1) {
        Ok(e) => e,
        Err(_) => p + 1,
    };
    if !has_byte(s, q, DQUOTE) {
        return Err(mk_err(q, ErrorKind::Char('"')));
    }
    if !range_is_utf8(s, p, q + 1) {
        return Err(mk_err(p, ErrorKind::Primitive(PrimitiveKind::MapRes)));
    }
    Ok(q + 1)
}

fn rust_comment_piece_at(s: &[u8], i: usize) -> (r: Option<usize>)
    requires
        i <= s@.len(),
    ensures
        r matches Some(j) ==> rust_comment_piece(s@, i as int) == Some(j as int) && i < j
            <= s@.len(),
        r is None ==> rust_comment_piece(s@, i as int) is None,
{
    let e = span(s, i, ByteClass::NotStar);
    if e > i {
        Some(e)
    } else if has_byte(s, i, STAR) && !has_byte(s, i + 1, SLASH) {
        Some(i + 1)
    } else {
        None
    }
}

/// Parses a `/* */` comment at `p`.
pub fn rust_comment_at(s: &[u8], p: usize) -> (r: Result<usize, ParseError>)
    requires
        p <= s@.len(),
    ensures
        pos_rel(r, spec_rust_comment(s@, p as int)),
        r matches Ok(q) ==> p + 4 <= q <= s@.len(),
{
    let open: [u8; 2] = [SLASH, STAR];
    assert(open@ == seq![SLASH, STAR]);
    if !has_tag(s, p, &open) {
        return Err(mk_err(p, ErrorKind::Primitive(PrimitiveKind::Tag)));
    }
    assert(open@.len() == 2);
    let mut i = p + 2;
    loop
        invariant
            p + 2 <= i <= s@.len(),
            rust_comment_body(s@, p + 2) == rust_comment_body(s@, i as int),
        ensures
            p + 2 <= i <= s@.len(),
            rust_comment_body(s@, p + 2) == SpecPos::Ok(i as int),
        decreases s@.len() - i,
    {
        match rust_comment_piece_at(s, i) {
            None => {
                break ;
            },
            Some(j) => {
                i = j;
            },
        }
    }
    let close: [u8; 2] = [STAR, SLASH];
    assert(close@ == seq![STAR, SLASH]);
    if has_tag(s, i, &close) {
        assert(close@.len() == 2);
        Ok(i + 2)
    } else {
        Err(mk_err(i, ErrorKind::Primitive(PrimitiveKind::Tag)))
    }
}

fn slash_piece_at(s: &[u8], i: usize) -> (r: Option<usize>)
    requires
        i <= s@.len(),
    ensures
        r matches Some(j) ==> slash_piece(s@, i as int) == Some(j as int) && i < j <= s@.len(),
        r is None ==> slash_piece(s@, i as int) is None,
{
    if has_byte(s, i, SLASH) && s.len() - i > 1 && s[i + 1] != STAR {
        Some(i + 2)
    } else {
        None
    }
}

fn atom_piece_at(s: &[u8], i: usize) -> (r: Option<usize>)
    requires
        i <= s@.len(),
    ensures
        r matches Some(j) ==> atom_piece(s@, i as int) == Some(j as int) && i < j <= s@.len(),
        r is None ==> atom_piece(s@, i as int) is None,
{
    match quoted_string_at(s, i) {
        Ok(q) => Some(q),
        Err(_) => match rust_comment_at(s, i) {
            Ok(q) => Some(q),
            Err(_) => slash_piece_at(s, i),
        },
    }
}

/// Closes a group opened by `open` at `p` whose body parsed as `body`.
fn finish_group(
    s: &[u8],
    p: usize,
    open: u8,
    body: Result<usize, ParseError>,
    Ghost(sb): Ghost<SpecPos>,
    close: u8,
) -> (r: Result<usize, ParseError>)
    requires
        p < s@.len(),
        s@[p as int] == open,
        pos_rel(body, sb),
        body matches Ok(q) ==> p < q <= s@.len(),
    ensures
        pos_rel(r, delimited_group(s@, p as int, open, sb, close)),
        r matches Ok(q) ==> p + 2 <= q <= s@.len(),
{
    match body {
        Err(e) => Err(e),
        Ok(q) => {
            if !has_byte(s, q, close) {
                Err(mk_err(q, ErrorKind::Primitive(PrimitiveKind::Tag)))
            } else if !range_is_utf8(s, p, q + 1) {
                Err(mk_err(p, ErrorKind::Primitive(PrimitiveKind::MapRes)))
            } else {
                Ok(q + 1)
            }
        },
    }
}

/// Parses a `( )` group at `p`.
pub fn parens_at(s: &[u8], p: usize) -> (r: Result<usize, ParseError>)
    requires
        p <= s@.len(),
    ensures
        pos_rel(r, spec_parens(s@, p as int)),
        r matches Ok(q) ==> p + 2 <= q <= s@.len(),
    decreases s@.len() - p, 0int,
{
    if !has_byte(s, p, LPAREN) {
        return Err(mk_err(p, ErrorKind::Primitive(PrimitiveKind::Tag)));
    }
    let body = inside_parens_at(s, p + 1);
    finish_group(s, p, LPAREN, body, Ghost(spec_inside_parens(s@, p + 1)), RPAREN)
}

/// Parses a `[ ]` group at `p`.
pub fn brackets_at(s: &[u8], p: usize) -> (r: Result<usize, ParseError>)
    requires
        p <= s@.len(),
    ensures
        pos_rel(r, spec_brackets(s@, p as int)),
        r matches Ok(q) ==> p + 2 <= q <= s@.len(),
    decreases s@.len() - p, 0int,
{
    if !has_byte(s, p, LBRACKET) {
        return Err(mk_err(p, ErrorKind::Primitive(PrimitiveKind::Tag)));
    }
    let q = brackets_body_at(s, p + 1);
    finish_group(s, p, LBRACKET, Ok(q), Ghost(brackets_body(s@, p + 1)), RBRACKET)
}

/// Parses a `{ }` group at `p`.
pub fn braces_at(s: &[u8], p: usize) -> (r: Result<usize, ParseError>)
    requires
        p <= s@.len(),
    ensures
        pos_rel(r, spec_braces(s@, p as int)),
        r matches Ok(q) ==> p + 2 <= q <= s@.len(),
    decreases s@.len() - p, 0int,
{
    if !has_byte(s, p, LBRACE) {
        return Err(mk_err(p, ErrorKind::Primitive(PrimitiveKind::Tag)));
    }
    let q = braces_body_at(s, p + 1);
    finish_group(s, p, LBRACE, Ok(q), Ghost(braces_body(s@, p + 1)), RBRACE)
}

fn brackets_piece_at(s: &[u8], i: usize) -> (r: Option<usize>)
    requires
        i <= s@.len(),
    ensures
        r matches Some(j) ==> brackets_piece(s@, i as int) == Some(j as int) && i < j
            <= s@.len(),
        r is None ==> brackets_piece(s@, i as int) is None,
    decreases s@.len() - i, 1int,
{
    let e = span(s, i, ByteClass::NotBracketSpecial);
    if e > i {
        return Some(e);
    }
    if let Ok(q) = brackets_at(s, i) {
        return Some(q);
    }
    if let Ok(q) = braces_at(s, i) {
        return Some(q);
    }
    if let Ok(q) = parens_at(s, i) {
        return Some(q);
    }
    atom_piece_at(s, i)
}

fn braces_piece_at(s: &[u8], i: usize) -> (r: Option<usize>)
    requires
        i <= s@.len(),
    ensures
        r matches Some(j) ==> braces_piece(s@, i as int) == Some(j as int) && i < j <= s@.len(),
        r is None ==> braces_piece(s@, i as int) is None,
    decreases s@.len() - i, 1int,
{
    let e = span(s, i, ByteClass::NotBraceSpecial);
    if e > i {
        return Some(e);
    }
    if let Ok(q) = brackets_at(s, i) {
        return Some(q);
    }
    if let Ok(q) = braces_at(s, i) {
        return Some(q);
    }
    if let Ok(q) = parens_at(s, i) {
        return Some(q);
    }
    atom_piece_at(s, i)
}

fn parens_piece_at(s: &[u8], i: usize) -> (r: Option<usize>)
    requires
        i <= s@.len(),
    ensures
        r matches Some(j) ==> parens_piece(s@, i as int) == Some(j as int) && i < j <= s@.len(),
        r is None ==> parens_piece(s@, i as int) is None,
    decreases s@.len() - i, 1int,
{
    let e = span(s, i, ByteClass::NotBraceSpecial);
    if e > i {
        return Some(e);
    }
    if let Ok(q) = braces_at(s, i) {
        return Some(q);
    }
    if let Ok(q) = brackets_at(s, i) {
        return Some(q);
    }
    if let Ok(q) = parens_at(s, i) {
        return Some(q);
    }
    atom_piece_at(s, i)
}

fn brackets_body_at(s: &[u8], p: usize) -> (q: usize)
    requires
        p <= s@.len(),
    ensures
        brackets_body(s@, p as int) == SpecPos::Ok(q as int),
        p <= q <= s@.len(),
    decreases s@.len() - p, 2int,
{
    let mut i = p;
    loop
        invariant
            p <= i <= s@.len(),
            brackets_body(s@, p as int) == brackets_body(s@, i as int),
        ensures
            p <= i <= s@.len(),
            brackets_body(s@, p as int) == SpecPos::Ok(i as int),
        decreases s@.len() - i,
    {
        match brackets_piece_at(s, i) {
            None => {
                break ;
            },
            Some(j) => {
                i = j;
            },
        }
    }
    i
}

fn braces_body_at(s: &[u8], p: usize) -> (q: usize)
    requires
        p <= s@.len(),
    ensures
        braces_body(s@, p as int) == SpecPos::Ok(q as int),
        p <= q <= s@.len(),
    decreases s@.len() - p, 2int,
{
    let mut i = p;
    loop
        invariant
            p <= i <= s@.len(),
            braces_body(s@, p as int) == braces_body(s@, i as int),
        ensures
            p <= i <= s@.len(),
            braces_body(s@, p as int) == SpecPos::Ok(i as int),
        decreases s@.len() - i,
    {
        match braces_piece_at(s, i) {
            None => {
                break ;
            },
            Some(j) => {
                i = j;
            },
        }
    }
    i
}

fn parens_body_at(s: &[u8], p: usize) -> (q: usize)
    requires
        p <= s@.len(),
    ensures
        parens_body(s@, p as int) == SpecPos::Ok(q as int),
        p <= q <= s@.len(),
    decreases s@.len() - p, 2int,
{
    let mut i = p;
    loop
        invariant
            p <= i <= s@.len(),
            parens_body(s@, p as int) == parens_body(s@, i as int),
        ensures
            p <= i <= s@.len(),
            parens_body(s@, p as int) == SpecPos::Ok(i as int),
        decreases s@.len() - i,
    {
        match parens_piece_at(s, i) {
            None => {
                break ;
            },
            Some(j) => {
                i = j;
            },
        }
    }
    i
}

/// Parses what may stand inside `( )`, at `p`.
pub fn inside_parens_at(s: &[u8], p: usize) -> (r: Result<usize, ParseError>)
    requires
        p <= s@.len(),
    ensures
        pos_rel(r, spec_inside_parens(s@, p as int)),
        r matches Ok(q) ==> p <= q <= s@.len(),
    decreases s@.len() - p, 3int,
{
    let q = parens_body_at(s, p);
    if !range_is_utf8(s, p, q) {
        Err(mk_err(p, ErrorKind::Primitive(PrimitiveKind::MapRes)))
    } else {
        Ok(q)
    }
}

fn expr_head_at(s: &[u8], p: usize) -> (r: Result<usize, ParseError>)
    requires
        p <= s@.len(),
    ensures
        pos_rel(r, expr_head(s@, p as int)),
        r matches Ok(q) ==> p < q <= s@.len(),
    decreases s@.len() - p, 1int,
{
    if let Ok(q) = rust_name_at(s, p) {
        return Ok(q);
    }
    if let Ok(q) = digits_at(s, p) {
        return Ok(q);
    }
    if let Ok(q) = quoted_string_at(s, p) {
        return Ok(q);
    }
    if let Ok(q) = parens_at(s, p) {
        return Ok(q);
    }
    match brackets_at(s, p) {
        Ok(q) => Ok(q),
        Err(e) => Err(add_err(e, p, ErrorKind::Primitive(PrimitiveKind::Alt))),
    }
}

fn expr_suffix_at(s: &[u8], i: usize) -> (r: Option<usize>)
    requires
        i <= s@.len(),
    ensures
        r matches Some(j) ==> expr_suffix(s@, i as int) == Some(j as int) && i < j <= s@.len(),
        r is None ==> expr_suffix(s@, i as int) is None,
    decreases s@.len() - i, 1int,
{
    if has_byte(s, i, DOT) {
        if let Ok(q) = expression_at(s, i + 1) {
            return Some(q);
        }
    }
    let path: [u8; 2] = [COLON, COLON];
    assert(path@ == seq![COLON, COLON]);
    if has_tag(s, i, &path) {
        assert(path@.len() == 2);
        if let Ok(q) = expression_at(s, i + 2) {
            return Some(q);
        }
    }
    if let Ok(q) = parens_at(s, i) {
        return Some(q);
    }
    if let Ok(q) = braces_at(s, i) {
        return Some(q);
    }
    if let Ok(q) = brackets_at(s, i) {
        return Some(q);
    }
    if has_byte(s, i, BANG) {
        if let Ok(q) = parens_at(s, i + 1) {
            return Some(q);
        }
    }
    if has_byte(s, i, BANG) {
        if let Ok(q) = brackets_at(s, i + 1) {
            return Some(q);
        }
    }
    None
}

fn expr_suffixes_at(s: &[u8], p: usize) -> (q: usize)
    requires
        p <= s@.len(),
    ensures
        expr_suffixes(s@, p as int) == SpecPos::Ok(q as int),
        p <= q <= s@.len(),
    decreases s@.len() - p, 2int,
{
    let mut i = p;
    loop
        invariant
            p <= i <= s@.len(),
            expr_suffixes(s@, p as int) == expr_suffixes(s@, i as int),
        ensures
            p <= i <= s@.len(),
            expr_suffixes(s@, p as int) == SpecPos::Ok(i as int),
        decreases s@.len() - i,
    {
        match expr_suffix_at(s, i) {
            None => {
                break ;
            },
            Some(j) => {
                i = j;
            },
        }
    }
    i
}

/// Parses a Rust expression starting at `p`.
pub fn expression_at(s: &[u8], p: usize) -> (r: Result<usize, ParseError>)
    requires
        p <= s@.len(),
    ensures
        pos_rel(r, spec_expression(s@, p as int)),
        r matches Ok(q) ==> p < q <= s@.len(),
    decreases s@.len() - p, 3int,
{
    let q1 = if has_byte(s, p, AMP) || has_byte(s, p, STAR) {
        p + 1
    } else {
        p
    };
    match expr_head_at(s, q1) {
        Err(e) => Err(add_err(e, p, ErrorKind::Context(ContextMsg::ExpectedRustExpression))),
        Ok(q) => {
            let r = expr_suffixes_at(s, q);
            if !range_is_utf8(s, p, r) {
                Err(mk_err(p, ErrorKind::Primitive(PrimitiveKind::MapRes)))
            } else {
                Ok(r)
            }
        },
    }
}


/// The parts joined by `sep`, as a `String`.
pub fn join_strings(parts: &Vec<String>, sep: &str) -> (r: String)
    ensures
        r@ == join(parts@.map_values(|x: String| x@), sep@),
{
    let ghost views = parts@.map_values(|x: String| x@);
    let mut r = String::new();
    let mut i: usize = 0;
    while i < parts.len()
        invariant
            i <= parts@.len(),
            views == parts@.map_values(|x: String| x@),
            r@ == join(views.take(i as int), sep@),
        decreases parts@.len() - i,
    {
        assert(views.take(i + 1).drop_last() =~= views.take(i as int));
        if i != 0 {
            r.append(sep);
        } else {
            assert(views.take(0) =~= Seq::<Seq<char>>::empty());
            assert(r@ =~= Seq::<char>::empty());
        }
        r.append(parts[i].as_str());
        assert(views.take(i + 1).last() == parts@[i as int]@);
        if i == 0 {
            assert(r@ =~= views.take(1)[0]);
        }
        i += 1;
    }
    assert(views.take(parts@.len() as int) =~= views);
    r
}

fn comma_sep_at(s: &[u8], i: usize) -> (r: Option<usize>)
    requires
        i <= s@.len(),
    ensures
        r matches Some(j) ==> comma_sep(s@, i as int) == Some(j as int) && i < j <= s@.len(),
        r is None ==> comma_sep(s@, i as int) is None,
{
    if has_byte(s, i, COMMA) {
        Some(span(s, i + 1, ByteClass::Space))
    } else {
        None
    }
}

/// The text of a range already known to be UTF-8.
pub fn known_text(s: &[u8], a: usize, b: usize) -> (t: String)
    requires
        a <= b <= s@.len(),
        is_text(s@, a as int, b as int),
    ensures
        t@ == range_text(s@, a as int, b as int),
{
    match crate::bytes::range_string(s, a, b) {
        Some(t) => t,
        None => String::new(),
    }
}

/// Parses a possibly empty comma separated list of expressions at `p`,
/// giving the text of each.
pub fn comma_expression_list_at(s: &[u8], p: usize) -> (r: (usize, Vec<String>))
    requires
        p <= s@.len(),
    ensures
        comma_expression_list(s@, p as int) == SpecVal::Ok(
            (r.0 as int, r.1@.map_values(|x: String| x@)),
        ),
        p <= r.0 <= s@.len(),
{
    let mut parts: Vec<String> = Vec::new();
    let q = match expression_at(s, p) {
        Err(_) => {
            assert(parts@.map_values(|x: String| x@) =~= Seq::<Seq<char>>::empty());
            return (p, parts);
        },
        Ok(q) => q,
    };
    parts.push(known_text(s, p, q));
    assert(parts@.map_values(|x: String| x@) =~= seq![range_text(s@, p as int, q as int)]);
    let mut i = q;
    loop
        invariant
            p <= i <= s@.len(),
            comma_expression_list(s@, p as int) == comma_expressions_rest(
                s@,
                i as int,
                parts@.map_values(|x: String| x@),
            ),
        decreases s@.len() - i,
    {
        let i1 = match comma_sep_at(s, i) {
            None => {
                return (i, parts);
            },
            Some(i1) => i1,
        };
        match expression_at(s, i1) {
            Err(_) => {
                return (i, parts);
            },
            Ok(i2) => {
                let ghost old_parts = parts@.map_values(|x: String| x@);
                parts.push(known_text(s, i1, i2));
                assert(parts@.map_values(|x: String| x@) =~= old_parts.push(
                    range_text(s@, i1 as int, i2 as int),
                ));
                i = i2;
            },
        }
    }
}

/// The part of `s` from `q` on.
fn rest_of(s: &[u8], q: usize) -> (rest: &[u8])
    requires
        q <= s@.len(),
    ensures
        rest@ == s@.subrange(q as int, s@.len() as int),
{
    vstd::slice::slice_subrange(s, q, s.len())
}

/// Turns a position result on `s` into a result carrying the rest of the
/// input and the consumed text.
fn text_result<'a>(s: &'a [u8], r: Result<usize, ParseError>, Ghost(sr): Ghost<SpecPos>) -> (out:
    PResult<'a, &'a str>)
    requires
        pos_rel(r, sr),
        r matches Ok(q) ==> q <= s@.len() && is_text(s@, 0, q as int),
    ensures
        presult_rel(out, s@, sr),
        out matches Ok((rest, v)) ==> v@ == range_text(s@, 0, s@.len() - rest@.len()),
{
    match r {
        Err(e) => Err(e),
        Ok(q) => match crate::bytes::range_str(s, 0, q) {
            Some(v) => Ok((rest_of(s, q), v)),
            None => Err(ParseError { errors: Vec::new() }),
        },
    }
}

/// A Rust expression at the start of `input`.
pub fn expression(input: &[u8]) -> (r: PResult<&str>)
    ensures
        presult_rel(r, input@, spec_expression(input@, 0)),
        r matches Ok((rest, v)) ==> v@ == range_text(input@, 0, input@.len() - rest@.len()),
{
    let r = expression_at(input, 0);
    text_result(input, r, Ghost(spec_expression(input@, 0)))
}

/// The text of `s`, if it is valid UTF-8.
pub fn input_to_str(s: &[u8]) -> (r: Result<&str, std::str::Utf8Error>)
    ensures
        r is Ok <==> vstd::utf8::valid_utf8(s@),
        r matches Ok(t) ==> t@ == decode_utf8(s@),
{
    str_from_utf8(s)
}

/// A comma separated list of expressions at the start of `input`, joined
/// by `", "`.
pub fn comma_expressions(input: &[u8]) -> (r: PResult<String>)
    ensures
        r matches Ok((rest, v)) ==> spec_comma_expressions(input@, 0) == SpecVal::Ok(
            (input@.len() - rest@.len(), v@),
        ) && rest@ == input@.subrange(input@.len() - rest@.len(), input@.len() as int),
        r is Ok,
{
    let (q, parts) = comma_expression_list_at(input, 0);
    let joined = join_strings(&parts, ", ");
    Ok((rest_of(input, q), joined))
}

/// A Rust name at the start of `input`.
pub fn rust_name(input: &[u8]) -> (r: PResult<&str>)
    ensures
        presult_rel(r, input@, spec_rust_name(input@, 0)),
        r matches Ok((rest, v)) ==> v@ == range_text(input@, 0, input@.len() - rest@.len()),
{
    let r = rust_name_at(input, 0);
    proof {
        if let Ok(q) = r {
            crate::bytes::lemma_span_end(input@, 1, ByteClass::NameTail);
            assert forall|i: int| 0 <= i < q implies #[trigger] input@[i] < 128 by {
                if i > 0 {
                    assert(crate::bytes::class_has(ByteClass::NameTail, input@[i]));
                }
            }
            crate::bytes::lemma_ascii_range_is_text(input@, 0, q as int);
        }
    }
    text_result(input, r, Ghost(spec_rust_name(input@, 0)))
}

/// A `{ ... }` group at the start of `input`.
pub fn expr_in_braces(input: &[u8]) -> (r: PResult<&str>)
    ensures
        presult_rel(r, input@, spec_braces(input@, 0)),
        r matches Ok((rest, v)) ==> v@ == range_text(input@, 0, input@.len() - rest@.len()),
{
    let r = braces_at(input, 0);
    text_result(input, r, Ghost(spec_braces(input@, 0)))
}

/// What may stand inside `( ... )`, at the start of `input`.
pub fn expr_inside_parens(input: &[u8]) -> (r: PResult<&str>)
    ensures
        presult_rel(r, input@, spec_inside_parens(input@, 0)),
        r matches Ok((rest, v)) ==> v@ == range_text(input@, 0, input@.len() - rest@.len()),
{
    let r = inside_parens_at(input, 0);
    text_result(input, r, Ghost(spec_inside_parens(input@, 0)))
}

/// A string literal at the start of `input`.
pub fn quoted_string(input: &[u8]) -> (r: PResult<&str>)
    ensures
        presult_rel(r, input@, spec_quoted_string(input@, 0)),
        r matches Ok((rest, v)) ==> v@ == range_text(input@, 0, input@.len() - rest@.len()),
{
    let r = quoted_string_at(input, 0);
    text_result(input, r, Ghost(spec_quoted_string(input@, 0)))
}

/// A `/* ... */` comment at the start of `input`; the value is what stands
/// between the delimiters.
pub fn rust_comment(input: &[u8]) -> (r: PResult<&[u8]>)
    ensures
        presult_rel(r, input@, spec_rust_comment(input@, 0)),
        r matches Ok((rest, v)) ==> v@ == input@.subrange(2, input@.len() - rest@.len() - 2),
{
    match rust_comment_at(input, 0) {
        Err(e) => Err(e),
        Ok(q) => Ok((rest_of(input, q), vstd::slice::slice_subrange(input, 2, q - 2))),
    }
}

/// The suffixes of an expression end between where they start and the end
/// of input.
proof fn lemma_expr_suffixes_bounds(s: Seq<u8>, i: int)
    requires
        0 <= i <= s.len(),
    ensures
        expr_suffixes(s, i) matches SpecPos::Ok(r) ==> i <= r <= s.len(),
    decreases s.len() - i,
{
    match expr_suffix(s, i) {
        None => {},
        Some(j) => if i < j <= s.len() {
            lemma_expr_suffixes_bounds(s, j);
        },
    }
}

/// An expression found at `p` ends between `p` and the end of input.
pub proof fn lemma_expression_bounds(s: Seq<u8>, p: int)
    requires
        0 <= p <= s.len(),
    ensures
        spec_expression(s, p) matches SpecPos::Ok(q) ==> p <= q <= s.len(),
{
    if let SpecPos::Ok(q) = expr_head(s, expr_prefix_end(s, p)) {
        if p <= q <= s.len() {
            lemma_expr_suffixes_bounds(s, q);
        }
    }
}

/// A string literal that is a single escape, `"\c"`, is read whole when `c`
/// is one of the bytes Rust allows after `\` (`'`, `"`, `\`, `n`, `r`, `t`,
/// `0`, `x`, `u`), and refused for any other byte.
pub proof fn law_single_escape(s: Seq<u8>, p: int, c: u8)
    requires
        0 <= p,
        p + 4 <= s.len(),
        s[p] == 34u8,
        s[p + 1] == 92u8,
        s[p + 2] == c,
        s[p + 3] == 34u8,
    ensures
        (c == 39u8 || c == 34u8 || c == 92u8 || c == 110u8 || c == 114u8 || c == 116u8 || c
            == 48u8 || c == 120u8 || c == 117u8) ==> spec_quoted_string(s, p) == SpecPos::Ok(
            p + 4,
        ),
        !(c == 39u8 || c == 34u8 || c == 92u8 || c == 110u8 || c == 114u8 || c == 116u8 || c
            == 48u8 || c == 120u8 || c == 117u8) ==> spec_quoted_string(s, p) is Err,
{
    assert(span_end(s, p + 1, ByteClass::NotQuoteOrBackslash) == p + 1);
    assert(span_end(s, p + 3, ByteClass::NotQuoteOrBackslash) == p + 3);
    if is_escapable(c) {
        assert(escaped_body(s, p + 1, p + 3) == SpecPos::Ok(p + 3));
        assert(escaped_body(s, p + 1, p + 1) == SpecPos::Ok(p + 3));
        crate::bytes::lemma_ascii_range_is_text(s, p, p + 4);
    } else {
        assert(escaped_body(s, p + 1, p + 1) is Err);
    }
}

/// Inside the body of a string literal, a `\` followed by one of the bytes
/// Rust allows after it (`'`, `"`, `\`, `n`, `r`, `t`, `0`, `x`, `u`) is one
/// escape: the body goes on after the pair exactly as it would from there.
pub proof fn law_escape_continues(s: Seq<u8>, start: int, i: int)
    requires
        0 <= i,
        i + 2 < s.len(),
        s[i] == 92u8,
        s[i + 1] == 39u8 || s[i + 1] == 34u8 || s[i + 1] == 92u8 || s[i + 1] == 110u8 || s[i + 1]
            == 114u8 || s[i + 1] == 116u8 || s[i + 1] == 48u8 || s[i + 1] == 120u8 || s[i + 1]
            == 117u8,
    ensures
        escaped_body(s, start, i) == escaped_body(s, start, i + 2),
{
    assert(span_end(s, i, ByteClass::NotQuoteOrBackslash) == i);
}

/// A successful expression parse consumed valid UTF-8.
pub proof fn lemma_expression_text(s: Seq<u8>, p: int)
    ensures
        spec_expression(s, p) matches SpecPos::Ok(q) ==> is_text(s, p, q),
{
}

/// A name is ASCII, so its text is always valid.
pub proof fn lemma_rust_name_text(s: Seq<u8>, p: int)
    requires
        0 <= p <= s.len(),
    ensures
        spec_rust_name(s, p) matches SpecPos::Ok(q) ==> p < q <= s.len() && is_text(s, p, q),
{
    if let SpecPos::Ok(q) = spec_rust_name(s, p) {
        crate::bytes::lemma_span_end(s, p + 1, ByteClass::NameTail);
        assert forall|i: int| p <= i < q implies #[trigger] s[i] < 128 by {
            if i > p {
                assert(crate::bytes::class_has(ByteClass::NameTail, s[i]));
            }
        }
        crate::bytes::lemma_ascii_range_is_text(s, p, q);
    }
}

/// What a successful parse inside parentheses consumed is valid UTF-8.
pub proof fn lemma_inside_parens_text(s: Seq<u8>, p: int)
    ensures
        spec_inside_parens(s, p) matches SpecPos::Ok(q) ==> is_text(s, p, q),
{
}

} // verus!
