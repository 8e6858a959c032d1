//! The body of a template: text, `@expression`s, `@if`, `@for`, `@match`,
//! `@:calls(...)` of other templates, and comments.
use crate::bytes::{
    byte_at, has_byte, has_tag, is_text, range_text, span, span_end, tag_at, ByteClass, AMP, AT, BANG, COMMA,
    EQ, GT, LBRACE, LPAREN, LT, PIPE, RBRACE, RPAREN, STAR,
};
use crate::expression::{
    braces_at, comma_expression_list, expression_at, inside_parens_at, join, join_strings, known_text,
    rust_name_at, spec_braces, spec_expression, spec_inside_parens, spec_rust_name,
};
use crate::parseresult::{
    add_err, err1, err_push, mk_err, ContextMsg, ErrorEntry, ErrorKind, PrimitiveKind, PResult, ParseError,
    SpecPos, SpecVal,
};
use crate::spacelike::{comment_tail_at, lemma_spacelike, sp, spacelike_at, spec_comment_tail};
use vstd::prelude::*;

verus! {

/// One element of a template body.
#[derive(Debug, PartialEq, Eq)]
pub enum TemplateExpression {
    Comment,
    Text { text: String },
    Expression { expr: String },
    ForLoop { name: String, expr: String, body: Vec<TemplateExpression> },
    IfBlock {
        expr: String,
        body: Vec<TemplateExpression>,
        else_body: Option<Vec<TemplateExpression>>,
    },
    MatchBlock { expr: String, arms: Vec<(String, Vec<TemplateExpression>)> },
    CallTemplate { name: String, args: Vec<TemplateArgument> },
}

/// An argument in a call of another template.
#[derive(Debug, PartialEq, Eq)]
pub enum TemplateArgument {
    /// A Rust expression.
    Rust(String),
    /// A template body, passed as a closure that renders it.
    Body(Vec<TemplateExpression>),
}

/// The mathematical model of a template body element.
pub enum TExpr {
    Comment,
    Text(Seq<char>),
    Expression(Seq<char>),
    ForLoop(Seq<char>, Seq<char>, Seq<TExpr>),
    IfBlock(Seq<char>, Seq<TExpr>, Option<Seq<TExpr>>),
    MatchBlock(Seq<char>, Seq<(Seq<char>, Seq<TExpr>)>),
    CallTemplate(Seq<char>, Seq<TArg>),
}

/// The mathematical model of a template argument.
pub enum TArg {
    Rust(Seq<char>),
    Body(Seq<TExpr>),
}

/// The model of a template element.
pub open spec fn expr_model(e: TemplateExpression) -> TExpr
    decreases e,
{
    match e {
        TemplateExpression::Comment => TExpr::Comment,
        TemplateExpression::Text { text } => TExpr::Text(text@),
        TemplateExpression::Expression { expr } => TExpr::Expression(expr@),
        TemplateExpression::ForLoop { name, expr, body } => TExpr::ForLoop(
            name@,
            expr@,
            exprs_model(body@),
        ),
        TemplateExpression::IfBlock { expr, body, else_body } => TExpr::IfBlock(
            expr@,
            exprs_model(body@),
            match else_body {
                Some(v) => Some(exprs_model(v@)),
                None => None,
            },
        ),
        TemplateExpression::MatchBlock { expr, arms } => TExpr::MatchBlock(
            expr@,
            arms_model(arms@),
        ),
        TemplateExpression::CallTemplate { name, args } => TExpr::CallTemplate(
            name@,
            args_model(args@),
        ),
    }
}

/// The models of a sequence of template elements.
pub open spec fn exprs_model(v: Seq<TemplateExpression>) -> Seq<TExpr>
    decreases v,
{
    Seq::new(
        v.len(),
        |i: int|
            if 0 <= i < v.len() {
                expr_model(v[i])
            } else {
                TExpr::Comment
            },
    )
}

/// The models of the arms of a `@match`.
pub open spec fn arms_model(v: Seq<(String, Vec<TemplateExpression>)>) -> Seq<
    (Seq<char>, Seq<TExpr>),
>
    decreases v,
{
    Seq::new(
        v.len(),
        |i: int|
            if 0 <= i < v.len() {
                (v[i].0@, exprs_model(v[i].1@))
            } else {
                (Seq::empty(), Seq::empty())
            },
    )
}

/// The model of a template argument.
pub open spec fn arg_model(a: TemplateArgument) -> TArg
    decreases a,
{
    match a {
        TemplateArgument::Rust(s) => TArg::Rust(s@),
        TemplateArgument::Body(v) => TArg::Body(exprs_model(v@)),
    }
}

/// The models of a sequence of template arguments.
pub open spec fn args_model(v: Seq<TemplateArgument>) -> Seq<TArg>
    decreases v,
{
    Seq::new(
        v.len(),
        |i: int|
            if 0 <= i < v.len() {
                arg_model(v[i])
            } else {
                TArg::Rust(Seq::empty())
            },
    )
}

impl View for TemplateExpression {
    type V = TExpr;

    open spec fn view(&self) -> TExpr {
        expr_model(*self)
    }
}

impl View for TemplateArgument {
    type V = TArg;

    open spec fn view(&self) -> TArg {
        arg_model(*self)
    }
}

/// A relational or logical operator, with the space around it.
#[verifier::opaque]
pub open spec fn rel_operator_end(s: Seq<u8>, p: int) -> Option<int> {
    let a = sp(s, p);
    let op_end = if tag_at(s, a, seq![BANG, EQ]) || tag_at(s, a, seq![AMP, AMP]) || tag_at(
        s,
        a,
        seq![LT, EQ],
    ) {
        Some(a + 2)
    } else if byte_at(s, a, LT) {
        Some(a + 1)
    } else if tag_at(s, a, seq![EQ, EQ]) || tag_at(s, a, seq![GT, EQ]) {
        Some(a + 2)
    } else if byte_at(s, a, GT) {
        Some(a + 1)
    } else if tag_at(s, a, seq![PIPE, PIPE]) {
        Some(a + 2)
    } else {
        None
    };
    match op_end {
        Some(e) => Some(sp(s, e)),
        None => None,
    }
}

/// A condition: an optionally negated expression, optionally followed by
/// an operator and another condition.
#[verifier::opaque]
pub open spec fn spec_logic_expression(s: Seq<u8>, p: int) -> SpecPos
    decreases s.len() - p,
{
    let a = if byte_at(s, p, BANG) {
        sp(s, p + 1)
    } else {
        p
    };
    match spec_expression(s, a) {
        SpecPos::Err(e) => SpecPos::Err(e),
        SpecPos::Ok(b) => {
            let c = match rel_operator_end(s, b) {
                Some(r) => if p < r <= s.len() {
                    match spec_logic_expression(s, r) {
                        SpecPos::Ok(t) => t,
                        SpecPos::Err(_) => b,
                    }
                } else {
                    b
                },
                None => b,
            };
            if !is_text(s, p, c) {
                SpecPos::Err(err1(p, ErrorKind::Primitive(PrimitiveKind::MapRes)))
            } else {
                SpecPos::Ok(c)
            }
        },
    }
}

/// The keyword `let` at `p`: the three letters, not followed by a byte
/// that could continue a name.
pub open spec fn let_keyword_at(s: Seq<u8>, p: int) -> bool {
    tag_at(s, p, seq![108u8, 101u8, 116u8]) && !(p + 3 < s.len()
        && crate::bytes::class_has(ByteClass::NameTail, s[p + 3]))
}

/// The condition of an `@if`: `let pattern = expression`, or a logic
/// expression.
#[verifier::opaque]
pub open spec fn spec_cond_expression(s: Seq<u8>, p: int) -> SpecVal<Seq<char>> {
    if let_keyword_at(s, p) {
        let a = sp(s, p + 3);
        match spec_expression(s, a) {
            SpecPos::Err(e) => SpecVal::Err(
                err_push(e, a, ErrorKind::Context(ContextMsg::ExpectedLetLhs)),
            ),
            SpecPos::Ok(b) => {
                let c = sp(s, b);
                if !byte_at(s, c, EQ) {
                    SpecVal::Err(err1(c, ErrorKind::Char('=')))
                } else {
                    let d = sp(s, c + 1);
                    match spec_expression(s, d) {
                        SpecPos::Err(e) => SpecVal::Err(
                            err_push(e, d, ErrorKind::Context(ContextMsg::ExpectedLetRhs)),
                        ),
                        SpecPos::Ok(f) => SpecVal::Ok(
                            (
                                f,
                                "let "@ + range_text(s, a, b) + " = "@ + range_text(s, d, f),
                            ),
                        ),
                    }
                }
            },
        }
    } else {
        match spec_logic_expression(s, p) {
            SpecPos::Err(e) => SpecVal::Err(
                err_push(e, p, ErrorKind::Context(ContextMsg::ExpectedExpression)),
            ),
            SpecPos::Ok(q) => SpecVal::Ok((q, range_text(s, p, q))),
        }
    }
}

/// The iterable of a `@for`: an expression, optionally a range `..` or
/// `..=` to another expression.
#[verifier::opaque]
pub open spec fn spec_loop_expression(s: Seq<u8>, p: int) -> SpecVal<Seq<char>> {
    match spec_expression(s, p) {
        SpecPos::Err(e) => SpecVal::Err(e),
        SpecPos::Ok(a) => {
            let c = if tag_at(s, a, seq![46u8, 46u8]) {
                let b = if byte_at(s, a + 2, EQ) {
                    a + 3
                } else {
                    a + 2
                };
                match spec_expression(s, b) {
                    SpecPos::Ok(d) => d,
                    SpecPos::Err(_) => a,
                }
            } else {
                a
            };
            if !is_text(s, p, c) {
                SpecVal::Err(err1(p, ErrorKind::Primitive(PrimitiveKind::MapRes)))
            } else {
                SpecVal::Ok((c, range_text(s, p, c)))
            }
        },
    }
}

/// The loop variable of a `@for`, before the whitespace after it.
#[verifier::opaque]
pub open spec fn for_variable_core(s: Seq<u8>, a: int) -> SpecVal<Seq<char>> {
    let first: Option<(int, Seq<char>)> = match spec_rust_name(s, a) {
        SpecPos::Ok(n) => {
            let b = match spec_braces(s, n) {
                SpecPos::Ok(m) => m,
                SpecPos::Err(_) => n,
            };
            if !is_text(s, a, b) {
                None
            } else {
                Some((b, range_text(s, a, b)))
            }
        },
        SpecPos::Err(_) => None,
    };
    match first {
        Some(r) => SpecVal::Ok(r),
        None => {
            let amp = byte_at(s, a, AMP);
            let c = if amp {
                a + 1
            } else {
                a
            };
            let second: SpecVal<Seq<char>> = if !byte_at(s, c, LPAREN) {
                SpecVal::Err(err1(c, ErrorKind::Char('(')))
            } else {
                match comma_expression_list(s, c + 1) {
                    SpecVal::Err(e) => SpecVal::Err(e),
                    SpecVal::Ok((d, parts)) => if !byte_at(s, d, RPAREN) {
                        SpecVal::Err(err1(d, ErrorKind::Char(')')))
                    } else {
                        SpecVal::Ok(
                            (
                                d + 1,
                                (if amp {
                                    "&"@
                                } else {
                                    ""@
                                }) + "("@ + join(parts, ", "@) + ")"@,
                            ),
                        )
                    },
                }
            };
            match second {
                SpecVal::Ok(r) => SpecVal::Ok(r),
                SpecVal::Err(e) => SpecVal::Err(
                    err_push(
                        err_push(e, a, ErrorKind::Primitive(PrimitiveKind::Alt)),
                        a,
                        ErrorKind::Context(ContextMsg::ExpectedLoopVariable),
                    ),
                ),
            }
        },
    }
}

/// The loop variable of a `@for`: a name (optionally destructuring a
/// struct), or a tuple pattern, with the space around it.
#[verifier::opaque]
pub open spec fn spec_for_variable(s: Seq<u8>, p: int) -> SpecVal<Seq<char>> {
    match for_variable_core(s, sp(s, p)) {
        SpecVal::Ok((b, v)) => SpecVal::Ok((sp(s, b), v)),
        SpecVal::Err(e) => SpecVal::Err(e),
    }
}

/// What `@` starts.
pub enum AtForm {
    Comment,
    Call,
    At,
    OpenBrace,
    CloseBrace,
    Paren,
    If,
    For,
    Match,
    Expression,
}

/// The form after an `@` at `q - 1`, and where its content starts.
pub open spec fn at_form(s: Seq<u8>, q: int) -> (AtForm, int) {
    if byte_at(s, q, STAR) {
        (AtForm::Comment, q + 1)
    } else if byte_at(s, q, 58u8) {
        (AtForm::Call, q + 1)
    } else if byte_at(s, q, AT) {
        (AtForm::At, q + 1)
    } else if byte_at(s, q, LBRACE) {
        (AtForm::OpenBrace, q + 1)
    } else if byte_at(s, q, RBRACE) {
        (AtForm::CloseBrace, q + 1)
    } else if byte_at(s, q, LPAREN) {
        (AtForm::Paren, q + 1)
    } else if tag_at(s, q, seq![105u8, 102u8, 32u8]) {
        (AtForm::If, q + 3)
    } else if tag_at(s, q, seq![102u8, 111u8, 114u8, 32u8]) {
        (AtForm::For, q + 4)
    } else if tag_at(s, q, seq![109u8, 97u8, 116u8, 99u8, 104u8, 32u8]) {
        (AtForm::Match, q + 6)
    } else {
        (AtForm::Expression, q)
    }
}

/// One element of a template body.
pub open spec fn spec_template_expression(s: Seq<u8>, p: int) -> SpecVal<TExpr>
    decreases s.len() - p, 3int,
{
    if !byte_at(s, p, AT) {
        let e = span_end(s, p, ByteClass::NotTextSpecial);
        if e == p {
            SpecVal::Err(err1(p, ErrorKind::Primitive(PrimitiveKind::IsNot)))
        } else if !is_text(s, p, e) {
            SpecVal::Err(err1(p, ErrorKind::Primitive(PrimitiveKind::MapRes)))
        } else {
            SpecVal::Ok((e, TExpr::Text(range_text(s, p, e))))
        }
    } else {
        let (form, q) = at_form(s, p + 1);
        match form {
            AtForm::Comment => match spec_comment_tail(s, q) {
                SpecPos::Ok(r) => SpecVal::Ok((r, TExpr::Comment)),
                SpecPos::Err(e) => SpecVal::Err(e),
            },
            AtForm::At => SpecVal::Ok((q, TExpr::Text("@"@))),
            AtForm::OpenBrace => SpecVal::Ok((q, TExpr::Text("{"@))),
            AtForm::CloseBrace => SpecVal::Ok((q, TExpr::Text("}"@))),
            AtForm::Call => spec_call_form(s, p),
            AtForm::If => spec_if(s, q),
            AtForm::For => spec_for_form(s, p),
            AtForm::Match => spec_match_form(s, p),
            AtForm::Paren => match spec_inside_parens(s, q) {
                SpecPos::Err(e) => SpecVal::Err(e),
                SpecPos::Ok(r) => if !byte_at(s, r, RPAREN) {
                    SpecVal::Err(err1(r, ErrorKind::Primitive(PrimitiveKind::Tag)))
                } else {
                    SpecVal::Ok((r + 1, TExpr::Expression("("@ + range_text(s, q, r) + ")"@)))
                },
            },
            AtForm::Expression => match spec_expression(s, q) {
                SpecPos::Err(e) => SpecVal::Err(e),
                SpecPos::Ok(r) => SpecVal::Ok((r, TExpr::Expression(range_text(s, q, r)))),
            },
        }
    }
}

/// `@:name(arguments)` at `p`.
pub open spec fn spec_call_form(s: Seq<u8>, p: int) -> SpecVal<TExpr>
    decreases s.len() - p, 2int,
{
    let q = p + 2;
    match spec_rust_name(s, q) {
        SpecPos::Err(e) => SpecVal::Err(e),
        SpecPos::Ok(n) => if !byte_at(s, n, LPAREN) {
            SpecVal::Err(err1(n, ErrorKind::Char('(')))
        } else {
            proof {
                crate::bytes::lemma_span_end(s, q + 1, ByteClass::NameTail);
            }
            match spec_call_args(s, n + 1) {
                SpecVal::Err(e) => SpecVal::Err(e),
                SpecVal::Ok((m, args)) => if !byte_at(s, m, RPAREN) {
                    SpecVal::Err(err1(m, ErrorKind::Char(')')))
                } else {
                    SpecVal::Ok((m + 1, TExpr::CallTemplate(range_text(s, q, n), args)))
                },
            }
        },
    }
}

/// `@for variable in iterable { body }` at `p`.
pub open spec fn spec_for_form(s: Seq<u8>, p: int) -> SpecVal<TExpr>
    decreases s.len() - p, 2int,
{
    let q = p + 5;
    match spec_for_variable(s, q) {
        SpecVal::Err(e) => SpecVal::Err(e),
        SpecVal::Ok((a, name)) => if !tag_at(s, a, seq![105u8, 110u8]) {
            SpecVal::Err(
                err_push(
                    err1(a, ErrorKind::Primitive(PrimitiveKind::Tag)),
                    a,
                    ErrorKind::Context(ContextMsg::ExpectedIn),
                ),
            )
        } else {
            let b = sp(s, a + 2);
            match spec_loop_expression(s, b) {
                SpecVal::Err(e) => SpecVal::Err(
                    err_push(e, b, ErrorKind::Context(ContextMsg::ExpectedIterable)),
                ),
                SpecVal::Ok((c, expr)) => {
                    let d = sp(s, c);
                    if p < d <= s.len() {
                        match spec_template_block(s, d) {
                            SpecVal::Err(e) => SpecVal::Err(
                                err_push(e, d, ErrorKind::Context(ContextMsg::ErrorInLoopBlock)),
                            ),
                            SpecVal::Ok((g, body)) => SpecVal::Ok(
                                (g, TExpr::ForLoop(name, expr, body)),
                            ),
                        }
                    } else {
                        SpecVal::Err(Seq::empty())
                    }
                },
            }
        },
    }
}

/// `@match expression { arms }` at `p`.
pub open spec fn spec_match_form(s: Seq<u8>, p: int) -> SpecVal<TExpr>
    decreases s.len() - p, 2int,
{
    let q = p + 7;
    let ctx = ErrorKind::Context(ContextMsg::ErrorInMatch);
    let a = sp(s, q);
    match spec_expression(s, a) {
        SpecPos::Err(e) => SpecVal::Err(err_push(e, q, ctx)),
        SpecPos::Ok(b) => {
            let c = sp(s, b);
            if !byte_at(s, c, LBRACE) {
                SpecVal::Err(err_push(err1(c, ErrorKind::Char('{')), q, ctx))
            } else if p < c {
                match spec_match_arms(s, c + 1, Seq::empty()) {
                    SpecVal::Err(e) => SpecVal::Err(err_push(e, q, ctx)),
                    SpecVal::Ok((d, arms)) => SpecVal::Ok(
                        (d, TExpr::MatchBlock(range_text(s, a, b), arms)),
                    ),
                }
            } else {
                SpecVal::Err(Seq::empty())
            }
        },
    }
}

/// `{`, template elements, `}`.
pub open spec fn spec_template_block(s: Seq<u8>, p: int) -> SpecVal<Seq<TExpr>>
    decreases s.len() - p, 0int,
{
    if !byte_at(s, p, LBRACE) {
        SpecVal::Err(err1(p, ErrorKind::Char('{')))
    } else {
        block_items(s, p + 1, Seq::empty())
    }
}

/// The elements of a block from `i` up to its closing `}`, after `acc`.
pub open spec fn block_items(s: Seq<u8>, i: int, acc: Seq<TExpr>) -> SpecVal<Seq<TExpr>>
    decreases s.len() - i, 4int,
{
    if byte_at(s, i, RBRACE) {
        SpecVal::Ok((i + 1, acc))
    } else {
        match spec_template_expression(s, i) {
            SpecVal::Err(e) => SpecVal::Err(
                err_push(
                    err_push(e, i, ErrorKind::Context(ContextMsg::ErrorInExpression)),
                    i,
                    ErrorKind::Primitive(PrimitiveKind::ManyTill),
                ),
            ),
            SpecVal::Ok((j, x)) => if i < j <= s.len() {
                block_items(s, j, acc.push(x))
            } else {
                SpecVal::Err(err1(j, ErrorKind::Primitive(PrimitiveKind::ManyTill)))
            },
        }
    }
}

/// The rest of an `@if` after `if `: the condition, the block, and an
/// optional `else` block or `else if`.
pub open spec fn spec_if(s: Seq<u8>, p: int) -> SpecVal<TExpr>
    decreases s.len() - p, 2int,
{
    let ctx = ErrorKind::Context(ContextMsg::ErrorInConditional);
    match spec_cond_expression(s, sp(s, p)) {
        SpecVal::Err(e) => SpecVal::Err(err_push(e, p, ctx)),
        SpecVal::Ok((b, expr)) => {
            let c = sp(s, b);
            if p <= c <= s.len() {
                match spec_template_block(s, c) {
                    SpecVal::Err(e) => SpecVal::Err(err_push(e, p, ctx)),
                    SpecVal::Ok((d, body)) => if_else_part(s, p, d, expr, body),
                }
            } else {
                SpecVal::Err(Seq::empty())
            }
        },
    }
}

/// An `@if` whose block ended at `d`, with its optional `else` part.
pub open spec fn if_else_part(s: Seq<u8>, p: int, d: int, expr: Seq<char>, body: Seq<TExpr>) -> SpecVal<TExpr>
    decreases s.len() - p, 1int,
{
    let e0 = sp(s, d);
    let plain = SpecVal::Ok((d, TExpr::IfBlock(expr, body, None)));
    if tag_at(s, e0, seq![101u8, 108u8, 115u8, 101u8]) {
        let f = sp(s, e0 + 4);
        let chained = if tag_at(s, f, seq![105u8, 102u8]) && p < f + 2 {
            spec_if(s, f + 2)
        } else {
            SpecVal::Err(Seq::empty())
        };
        match chained {
            SpecVal::Ok((g, ie)) => SpecVal::Ok((g, TExpr::IfBlock(expr, body, Some(seq![ie])))),
            SpecVal::Err(_) => if p <= f <= s.len() {
                match spec_template_block(s, f) {
                    SpecVal::Ok((g, eb)) => SpecVal::Ok((g, TExpr::IfBlock(expr, body, Some(eb)))),
                    SpecVal::Err(_) => plain,
                }
            } else {
                plain
            },
        }
    } else {
        plain
    }
}

/// The head of an arm of a `@match` at `i`: the pattern and `=>`; the
/// start and end of the pattern and where the block starts.
#[verifier::opaque]
pub open spec fn match_arm_head(s: Seq<u8>, i: int) -> Result<(int, int, int), Seq<ErrorEntry>> {
    let ctx = ErrorKind::Context(ContextMsg::ErrorInMatchArm);
    let a = sp(s, i);
    match spec_expression(s, a) {
        SpecPos::Err(e) => Err(err_push(e, i, ctx)),
        SpecPos::Ok(b) => {
            let c = sp(s, b);
            if !tag_at(s, c, seq![EQ, GT]) {
                Err(err_push(err1(c, ErrorKind::Primitive(PrimitiveKind::Tag)), i, ctx))
            } else {
                Ok((a, b, sp(s, c + 2)))
            }
        },
    }
}

/// One arm of a `@match`: a pattern, `=>`, and a block.
pub open spec fn spec_match_arm(s: Seq<u8>, i: int) -> SpecVal<(Seq<char>, Seq<TExpr>)>
    decreases s.len() - i, 1int,
{
    match match_arm_head(s, i) {
        Err(e) => SpecVal::Err(e),
        Ok((a, b, d)) => if i <= d <= s.len() {
            match spec_template_block(s, d) {
                SpecVal::Err(e) => SpecVal::Err(
                    err_push(e, i, ErrorKind::Context(ContextMsg::ErrorInMatchArm)),
                ),
                SpecVal::Ok((g, body)) => SpecVal::Ok((g, (range_text(s, a, b), body))),
            }
        } else {
            SpecVal::Err(Seq::empty())
        },
    }
}

/// The arms of a `@match` from `i` up to its closing `}`, after `acc`.
pub open spec fn spec_match_arms(
    s: Seq<u8>,
    i: int,
    acc: Seq<(Seq<char>, Seq<TExpr>)>,
) -> SpecVal<Seq<(Seq<char>, Seq<TExpr>)>>
    decreases s.len() - i, 2int,
{
    if byte_at(s, sp(s, i), RBRACE) {
        SpecVal::Ok((sp(s, i) + 1, acc))
    } else {
        match spec_match_arm(s, i) {
            SpecVal::Err(e) => SpecVal::Err(err_push(e, i, ErrorKind::Primitive(PrimitiveKind::ManyTill))),
            SpecVal::Ok((j, arm)) => if i < j <= s.len() {
                spec_match_arms(s, j, acc.push(arm))
            } else {
                SpecVal::Err(err1(j, ErrorKind::Primitive(PrimitiveKind::ManyTill)))
            },
        }
    }
}

/// An argument of a template call: a `{ ... }` body or a Rust expression.
pub open spec fn spec_template_argument(s: Seq<u8>, p: int) -> SpecVal<TArg>
    decreases s.len() - p, 0int,
{
    let body: Option<(int, Seq<TExpr>)> = if byte_at(s, p, LBRACE) {
        match arg_body_items(s, p + 1, Seq::empty()) {
            SpecVal::Ok((q, xs)) => if byte_at(s, q, RBRACE) {
                Some((sp(s, q + 1), xs))
            } else {
                None
            },
            SpecVal::Err(_) => None,
        }
    } else {
        None
    };
    match body {
        Some((q, xs)) => SpecVal::Ok((q, TArg::Body(xs))),
        None => match spec_expression(s, p) {
            SpecPos::Ok(r) => SpecVal::Ok((r, TArg::Rust(range_text(s, p, r)))),
            SpecPos::Err(e) => SpecVal::Err(err_push(e, p, ErrorKind::Primitive(PrimitiveKind::Alt))),
        },
    }
}

/// As many template elements as there are from `i`, after `acc`.
pub open spec fn arg_body_items(s: Seq<u8>, i: int, acc: Seq<TExpr>) -> SpecVal<Seq<TExpr>>
    decreases s.len() - i, 4int,
{
    match spec_template_expression(s, i) {
        SpecVal::Err(_) => SpecVal::Ok((i, acc)),
        SpecVal::Ok((j, x)) => if i < j <= s.len() {
            arg_body_items(s, j, acc.push(x))
        } else {
            SpecVal::Err(err1(i, ErrorKind::Primitive(PrimitiveKind::Many0)))
        },
    }
}

/// The comma separated arguments of a template call.
pub open spec fn spec_call_args(s: Seq<u8>, p: int) -> SpecVal<Seq<TArg>>
    decreases s.len() - p, 2int,
{
    match spec_template_argument(s, p) {
        SpecVal::Err(_) => SpecVal::Ok((p, Seq::empty())),
        SpecVal::Ok((q, a)) => if p <= q <= s.len() {
            call_args_rest(s, q, seq![a])
        } else {
            SpecVal::Err(Seq::empty())
        },
    }
}

/// The rest of the arguments of a template call, after `acc`.
pub open spec fn call_args_rest(s: Seq<u8>, i: int, acc: Seq<TArg>) -> SpecVal<Seq<TArg>>
    decreases s.len() - i, 1int,
{
    if byte_at(s, i, COMMA) {
        let i1 = sp(s, i + 1);
        proof {
            lemma_spacelike(s, i + 1);
        }
        match spec_template_argument(s, i1) {
            SpecVal::Err(_) => SpecVal::Ok((i, acc)),
            SpecVal::Ok((i2, a)) => if i1 <= i2 <= s.len() {
                call_args_rest(s, i2, acc.push(a))
            } else {
                SpecVal::Err(Seq::empty())
            },
        }
    } else {
        SpecVal::Ok((i, acc))
    }
}

/// A parse result with a text value agrees with a specification result.
pub open spec fn str_rel(r: Result<(usize, String), ParseError>, sr: SpecVal<Seq<char>>) -> bool {
    match r {
        Ok((q, v)) => sr == SpecVal::Ok((q as int, v@)),
        Err(e) => sr == SpecVal::<Seq<char>>::Err(e.errors@),
    }
}

/// A parse result with an element agrees with a specification result.
pub open spec fn te_rel(r: Result<(usize, TemplateExpression), ParseError>, sr: SpecVal<TExpr>) -> bool {
    match r {
        Ok((q, v)) => sr == SpecVal::Ok((q as int, expr_model(v))),
        Err(e) => sr == SpecVal::<TExpr>::Err(e.errors@),
    }
}

/// A parse result with elements agrees with a specification result.
pub open spec fn tes_rel(
    r: Result<(usize, Vec<TemplateExpression>), ParseError>,
    sr: SpecVal<Seq<TExpr>>,
) -> bool {
    match r {
        Ok((q, v)) => sr == SpecVal::Ok((q as int, exprs_model(v@))),
        Err(e) => sr == SpecVal::<Seq<TExpr>>::Err(e.errors@),
    }
}

/// A parse result with an argument agrees with a specification result.
pub open spec fn arg_rel(r: Result<(usize, TemplateArgument), ParseError>, sr: SpecVal<TArg>) -> bool {
    match r {
        Ok((q, v)) => sr == SpecVal::Ok((q as int, arg_model(v))),
        Err(e) => sr == SpecVal::<TArg>::Err(e.errors@),
    }
}

/// A parse result with a match arm agrees with a specification result.
pub open spec fn arm_rel(
    r: Result<(usize, (String, Vec<TemplateExpression>)), ParseError>,
    sr: SpecVal<(Seq<char>, Seq<TExpr>)>,
) -> bool {
    match r {
        Ok((q, v)) => sr == SpecVal::Ok((q as int, (v.0@, exprs_model(v.1@)))),
        Err(e) => sr == SpecVal::<(Seq<char>, Seq<TExpr>)>::Err(e.errors@),
    }
}

/// One level of the model of a template element.
pub proof fn lemma_expr_model(e: TemplateExpression)
    ensures
        expr_model(e) == match e {
            TemplateExpression::Comment => TExpr::Comment,
            TemplateExpression::Text { text } => TExpr::Text(text@),
            TemplateExpression::Expression { expr } => TExpr::Expression(expr@),
            TemplateExpression::ForLoop { name, expr, body } => TExpr::ForLoop(
                name@,
                expr@,
                exprs_model(body@),
            ),
            TemplateExpression::IfBlock { expr, body, else_body } => TExpr::IfBlock(
                expr@,
                exprs_model(body@),
                match else_body {
                    Some(v) => Some(exprs_model(v@)),
                    None => None,
                },
            ),
            TemplateExpression::MatchBlock { expr, arms } => TExpr::MatchBlock(
                expr@,
                arms_model(arms@),
            ),
            TemplateExpression::CallTemplate { name, args } => TExpr::CallTemplate(
                name@,
                args_model(args@),
            ),
        },
{
}

/// One level of the model of a template argument.
pub proof fn lemma_arg_model(a: TemplateArgument)
    ensures
        arg_model(a) == match a {
            TemplateArgument::Rust(s) => TArg::Rust(s@),
            TemplateArgument::Body(v) => TArg::Body(exprs_model(v@)),
        },
{
}

/// The models of empty vectors are empty.
pub proof fn lemma_models_empty()
    ensures
        exprs_model(Seq::<TemplateExpression>::empty()) == Seq::<TExpr>::empty(),
        args_model(Seq::<TemplateArgument>::empty()) == Seq::<TArg>::empty(),
        arms_model(Seq::<(String, Vec<TemplateExpression>)>::empty()) == Seq::<
            (Seq<char>, Seq<TExpr>),
        >::empty(),
{
    assert(exprs_model(Seq::<TemplateExpression>::empty()) =~= Seq::<TExpr>::empty());
    assert(args_model(Seq::<TemplateArgument>::empty()) =~= Seq::<TArg>::empty());
    assert(arms_model(Seq::<(String, Vec<TemplateExpression>)>::empty()) =~= Seq::<
        (Seq<char>, Seq<TExpr>),
    >::empty());
}

/// The model of a vector after a push.
pub proof fn lemma_exprs_model_push(v: Seq<TemplateExpression>, x: TemplateExpression)
    ensures
        exprs_model(v.push(x)) == exprs_model(v).push(expr_model(x)),
        exprs_model(Seq::<TemplateExpression>::empty()) == Seq::<TExpr>::empty(),
{
    assert(exprs_model(v.push(x)) =~= exprs_model(v).push(expr_model(x)));
    assert(exprs_model(Seq::<TemplateExpression>::empty()) =~= Seq::<TExpr>::empty());
}

/// The model of a vector of arguments after a push.
pub proof fn lemma_args_model_push(v: Seq<TemplateArgument>, x: TemplateArgument)
    ensures
        args_model(v.push(x)) == args_model(v).push(arg_model(x)),
        args_model(Seq::<TemplateArgument>::empty()) == Seq::<TArg>::empty(),
{
    assert(args_model(v.push(x)) =~= args_model(v).push(arg_model(x)));
    assert(args_model(Seq::<TemplateArgument>::empty()) =~= Seq::<TArg>::empty());
}

/// The model of a vector of match arms after a push.
pub proof fn lemma_arms_model_push(
    v: Seq<(String, Vec<TemplateExpression>)>,
    x: (String, Vec<TemplateExpression>),
)
    ensures
        arms_model(v.push(x)) == arms_model(v).push((x.0@, exprs_model(x.1@))),
        arms_model(Seq::<(String, Vec<TemplateExpression>)>::empty()) == Seq::<
            (Seq<char>, Seq<TExpr>),
        >::empty(),
{
    assert(arms_model(v.push(x)) =~= arms_model(v).push((x.0@, exprs_model(x.1@))));
    assert(arms_model(Seq::<(String, Vec<TemplateExpression>)>::empty()) =~= Seq::<
        (Seq<char>, Seq<TExpr>),
    >::empty());
}

fn rel_operator_end_at(s: &[u8], p: usize) -> (r: Option<usize>)
    requires
        p <= s@.len(),
    ensures
        r matches Some(j) ==> rel_operator_end(s@, p as int) == Some(j as int) && p < j
            <= s@.len(),
        r is None ==> rel_operator_end(s@, p as int) is None,
{
    proof {
        reveal(rel_operator_end);
    }
    let a = spacelike_at(s, p);
    let ne: [u8; 2] = [BANG, EQ];
    let and: [u8; 2] = [AMP, AMP];
    let le: [u8; 2] = [LT, EQ];
    let ee: [u8; 2] = [EQ, EQ];
    let ge: [u8; 2] = [GT, EQ];
    let or: [u8; 2] = [PIPE, PIPE];
    assert(ne@ == seq![BANG, EQ] && and@ == seq![AMP, AMP] && le@ == seq![LT, EQ]);
    assert(ee@ == seq![EQ, EQ] && ge@ == seq![GT, EQ] && or@ == seq![PIPE, PIPE]);
    let op_end: Option<usize> = if has_tag(s, a, &ne) || has_tag(s, a, &and) || has_tag(
        s,
        a,
        &le,
    ) {
        Some(a + 2)
    } else if has_byte(s, a, LT) {
        Some(a + 1)
    } else if has_tag(s, a, &ee) || has_tag(s, a, &ge) {
        Some(a + 2)
    } else if has_byte(s, a, GT) {
        Some(a + 1)
    } else if has_tag(s, a, &or) {
        Some(a + 2)
    } else {
        None
    };
    match op_end {
        Some(e) => Some(spacelike_at(s, e)),
        None => None,
    }
}

fn logic_expression_at(s: &[u8], p: usize) -> (r: Result<usize, ParseError>)
    requires
        p <= s@.len(),
    ensures
        crate::parseresult::pos_rel(r, spec_logic_expression(s@, p as int)),
        r matches Ok(q) ==> p < q <= s@.len(),
    decreases s@.len() - p,
{
    proof {
        reveal(spec_logic_expression);
    }
    let a = if has_byte(s, p, BANG) {
        spacelike_at(s, p + 1)
    } else {
        p
    };
    match expression_at(s, a) {
        Err(e) => Err(e),
        Ok(b) => {
            let c = match rel_operator_end_at(s, b) {
                Some(r) => match logic_expression_at(s, r) {
                    Ok(t) => t,
                    Err(_) => b,
                },
                None => b,
            };
            if !crate::bytes::range_is_utf8(s, p, c) {
                Err(mk_err(p, ErrorKind::Primitive(PrimitiveKind::MapRes)))
            } else {
                Ok(c)
            }
        },
    }
}

fn cond_expression_at(s: &[u8], p: usize) -> (r: Result<(usize, String), ParseError>)
    requires
        p <= s@.len(),
    ensures
        str_rel(r, spec_cond_expression(s@, p as int)),
        r matches Ok((q, _)) ==> p < q <= s@.len(),
{
    proof {
        reveal(spec_cond_expression);
        reveal(spec_logic_expression);
    }
    let kw: [u8; 3] = [108u8, 101u8, 116u8];
    assert(kw@ == seq![108u8, 101u8, 116u8]);
    let is_let = has_tag(s, p, &kw) && !(s.len() - p > 3 && crate::bytes::class_contains(
        ByteClass::NameTail,
        s[p + 3],
    ));
    if is_let {
        assert(kw@.len() == 3);
        let a = spacelike_at(s, p + 3);
        match expression_at(s, a) {
            Err(e) => Err(add_err(e, a, ErrorKind::Context(ContextMsg::ExpectedLetLhs))),
            Ok(b) => {
                let c = spacelike_at(s, b);
                if !has_byte(s, c, EQ) {
                    return Err(mk_err(c, ErrorKind::Char('=')));
                }
                let d = spacelike_at(s, c + 1);
                match expression_at(s, d) {
                    Err(e) => Err(add_err(e, d, ErrorKind::Context(ContextMsg::ExpectedLetRhs))),
                    Ok(f) => {
                        proof {
                            crate::expression::lemma_expression_text(s@, a as int);
                            crate::expression::lemma_expression_text(s@, d as int);
                        }
                        let lhs = known_text(s, a, b);
                        let rhs = known_text(s, d, f);
                        let mut out = String::from_str("let ");
                        out.append(lhs.as_str());
                        out.append(" = ");
                        out.append(rhs.as_str());
                        Ok((f, out))
                    },
                }
            },
        }
    } else {
        match logic_expression_at(s, p) {
            Err(e) => Err(add_err(e, p, ErrorKind::Context(ContextMsg::ExpectedExpression))),
            Ok(q) => Ok((q, known_text(s, p, q))),
        }
    }
}

fn loop_expression_at(s: &[u8], p: usize) -> (r: Result<(usize, String), ParseError>)
    requires
        p <= s@.len(),
    ensures
        str_rel(r, spec_loop_expression(s@, p as int)),
        r matches Ok((q, _)) ==> p < q <= s@.len(),
{
    proof {
        reveal(spec_loop_expression);
    }
    match expression_at(s, p) {
        Err(e) => Err(e),
        Ok(a) => {
            let dots: [u8; 2] = [46u8, 46u8];
            assert(dots@ == seq![46u8, 46u8]);
            let c = if has_tag(s, a, &dots) {
                assert(dots@.len() == 2);
                let b = if has_byte(s, a + 2, EQ) {
                    a + 3
                } else {
                    a + 2
                };
                match expression_at(s, b) {
                    Ok(d) => d,
                    Err(_) => a,
                }
            } else {
                a
            };
            match crate::bytes::range_string(s, p, c) {
                None => Err(mk_err(p, ErrorKind::Primitive(PrimitiveKind::MapRes))),
                Some(t) => Ok((c, t)),
            }
        },
    }
}

fn for_variable_core_at(s: &[u8], a: usize) -> (r: Result<(usize, String), ParseError>)
    requires
        a <= s@.len(),
    ensures
        str_rel(r, for_variable_core(s@, a as int)),
        r matches Ok((q, _)) ==> a < q <= s@.len(),
{
    proof {
        reveal(for_variable_core);
    }
    if let Ok(n) = rust_name_at(s, a) {
        let b = match braces_at(s, n) {
            Ok(m) => m,
            Err(_) => n,
        };
        if let Some(t) = crate::bytes::range_string(s, a, b) {
            return Ok((b, t));
        }
    }
    let amp = has_byte(s, a, AMP);
    let c = if amp {
        a + 1
    } else {
        a
    };
    let second: Result<(usize, String), ParseError> = if !has_byte(s, c, LPAREN) {
        Err(mk_err(c, ErrorKind::Char('(')))
    } else {
        let (d, parts) = crate::expression::comma_expression_list_at(s, c + 1);
        if !has_byte(s, d, RPAREN) {
            Err(mk_err(d, ErrorKind::Char(')')))
        } else {
            let joined = join_strings(&parts, ", ");
            let mut out = if amp {
                String::from_str("&")
            } else {
                String::from_str("")
            };
            out.append("(");
            out.append(joined.as_str());
            out.append(")");
            Ok((d + 1, out))
        }
    };
    match second {
        Ok(r) => Ok(r),
        Err(e) => Err(
            add_err(
                add_err(e, a, ErrorKind::Primitive(PrimitiveKind::Alt)),
                a,
                ErrorKind::Context(ContextMsg::ExpectedLoopVariable),
            ),
        ),
    }
}

fn for_variable_at(s: &[u8], p: usize) -> (r: Result<(usize, String), ParseError>)
    requires
        p <= s@.len(),
    ensures
        str_rel(r, spec_for_variable(s@, p as int)),
        r matches Ok((q, _)) ==> p < q <= s@.len(),
{
    proof {
        reveal(spec_for_variable);
    }
    let a = spacelike_at(s, p);
    match for_variable_core_at(s, a) {
        Ok((b, v)) => Ok((spacelike_at(s, b), v)),
        Err(e) => Err(e),
    }
}

fn at_form_at(s: &[u8], q: usize) -> (r: (AtForm, usize))
    requires
        q <= s@.len(),
    ensures
        at_form(s@, q as int) == (r.0, r.1 as int),
        q <= r.1 <= s@.len(),
{
    let kif: [u8; 3] = [105u8, 102u8, 32u8];
    let kfor: [u8; 4] = [102u8, 111u8, 114u8, 32u8];
    let kmatch: [u8; 6] = [109u8, 97u8, 116u8, 99u8, 104u8, 32u8];
    assert(kif@ == seq![105u8, 102u8, 32u8]);
    assert(kfor@ == seq![102u8, 111u8, 114u8, 32u8]);
    assert(kmatch@ == seq![109u8, 97u8, 116u8, 99u8, 104u8, 32u8]);
    if has_byte(s, q, STAR) {
        (AtForm::Comment, q + 1)
    } else if has_byte(s, q, 58u8) {
        (AtForm::Call, q + 1)
    } else if has_byte(s, q, AT) {
        (AtForm::At, q + 1)
    } else if has_byte(s, q, LBRACE) {
        (AtForm::OpenBrace, q + 1)
    } else if has_byte(s, q, RBRACE) {
        (AtForm::CloseBrace, q + 1)
    } else if has_byte(s, q, LPAREN) {
        (AtForm::Paren, q + 1)
    } else if has_tag(s, q, &kif) {
        assert(kif@.len() == 3);
        (AtForm::If, q + 3)
    } else if has_tag(s, q, &kfor) {
        assert(kfor@.len() == 4);
        (AtForm::For, q + 4)
    } else if has_tag(s, q, &kmatch) {
        assert(kmatch@.len() == 6);
        (AtForm::Match, q + 6)
    } else {
        (AtForm::Expression, q)
    }
}

/// Parses one element of a template body at `p`.
pub fn template_expression_at(s: &[u8], p: usize) -> (r: Result<
    (usize, TemplateExpression),
    ParseError,
>)
    requires
        p <= s@.len(),
    ensures
        te_rel(r, spec_template_expression(s@, p as int)),
        r matches Ok((q, _)) ==> p < q <= s@.len(),
    decreases s@.len() - p, 3int,
{
    if !has_byte(s, p, AT) {
        let e = span(s, p, ByteClass::NotTextSpecial);
        if e == p {
            return Err(mk_err(p, ErrorKind::Primitive(PrimitiveKind::IsNot)));
        }
        return match crate::bytes::range_string(s, p, e) {
            None => Err(mk_err(p, ErrorKind::Primitive(PrimitiveKind::MapRes))),
            Some(t) => {
                let v = TemplateExpression::Text { text: t };
                proof {
                    lemma_expr_model(v);
                }
                Ok((e, v))
            },
        };
    }
    let (form, q) = at_form_at(s, p + 1);
    match form {
        AtForm::Comment => match comment_tail_at(s, q) {
            Ok(r) => {
                let v = TemplateExpression::Comment;
                proof {
                    lemma_expr_model(v);
                }
                Ok((r, v))
            },
            Err(e) => Err(e),
        },
        AtForm::At => {
            let v = TemplateExpression::Text { text: String::from_str("@") };
            proof {
                lemma_expr_model(v);
            }
            Ok((q, v))
        },
        AtForm::OpenBrace => {
            let v = TemplateExpression::Text { text: String::from_str("{") };
            proof {
                lemma_expr_model(v);
            }
            Ok((q, v))
        },
        AtForm::CloseBrace => {
            let v = TemplateExpression::Text { text: String::from_str("}") };
            proof {
                lemma_expr_model(v);
            }
            Ok((q, v))
        },
        AtForm::Call => call_form_at(s, p),
        AtForm::If => if_at(s, q),
        AtForm::For => for_form_at(s, p),
        AtForm::Match => match_form_at(s, p),
        AtForm::Paren => match inside_parens_at(s, q) {
            Err(e) => Err(e),
            Ok(r) => {
                if !has_byte(s, r, RPAREN) {
                    Err(mk_err(r, ErrorKind::Primitive(PrimitiveKind::Tag)))
                } else {
                    proof {
                        crate::expression::lemma_inside_parens_text(s@, q as int);
                    }
                    let inner = known_text(s, q, r);
                    let mut out = String::from_str("(");
                    out.append(inner.as_str());
                    out.append(")");
                    {
                        let v = TemplateExpression::Expression { expr: out };
                        proof {
                            lemma_expr_model(v);
                        }
                        Ok((r + 1, v))
                    }
                }
            },
        },
        AtForm::Expression => match expression_at(s, q) {
            Err(e) => Err(e),
            Ok(r) => {
                proof {
                    crate::expression::lemma_expression_text(s@, q as int);
                }
                {
                    let v = TemplateExpression::Expression { expr: known_text(s, q, r) };
                    proof {
                        lemma_expr_model(v);
                    }
                    Ok((r, v))
                }
            },
        },
    }
}

fn call_form_at(s: &[u8], p: usize) -> (r: Result<(usize, TemplateExpression), ParseError>)
    requires
        p + 2 <= s@.len(),
    ensures
        te_rel(r, spec_call_form(s@, p as int)),
        r matches Ok((q, _)) ==> p < q <= s@.len(),
    decreases s@.len() - p, 2int,
{
    let _len = s.len();
    let q = p + 2;
    match rust_name_at(s, q) {
        Err(e) => Err(e),
        Ok(n) => {
            if !has_byte(s, n, LPAREN) {
                return Err(mk_err(n, ErrorKind::Char('(')));
            }
            let (m, args) = call_args_at(s, n + 1);
            if !has_byte(s, m, RPAREN) {
                return Err(mk_err(m, ErrorKind::Char(')')));
            }
            proof {
                crate::expression::lemma_rust_name_text(s@, q as int);
            }
            let name = known_text(s, q, n);
            {
                let v = TemplateExpression::CallTemplate { name, args };
                proof {
                    lemma_expr_model(v);
                }
                Ok((m + 1, v))
            }
        },
    }
}

fn call_args_at(s: &[u8], p: usize) -> (r: (usize, Vec<TemplateArgument>))
    requires
        p <= s@.len(),
    ensures
        spec_call_args(s@, p as int) == SpecVal::Ok((r.0 as int, args_model(r.1@))),
        p <= r.0 <= s@.len(),
    decreases s@.len() - p, 1int,
{
    let mut args: Vec<TemplateArgument> = Vec::new();
    proof {
        lemma_models_empty();
        assert(args@ =~= Seq::<TemplateArgument>::empty());
    }
    let mut i = match template_argument_at(s, p) {
        Err(_) => {
            return (p, args);
        },
        Ok((q, a)) => {
            args.push(a);
            proof {
                lemma_args_model_push(Seq::empty(), a);
                assert(args@ =~= Seq::empty().push(a));
            }
            q
        },
    };
    loop
        invariant
            p < i <= s@.len(),
            spec_call_args(s@, p as int) == call_args_rest(s@, i as int, args_model(args@)),
        decreases s@.len() - i,
    {
        if !has_byte(s, i, COMMA) {
            return (i, args);
        }
        let i1 = spacelike_at(s, i + 1);
        match template_argument_at(s, i1) {
            Err(_) => {
                return (i, args);
            },
            Ok((i2, a)) => {
                proof {
                    lemma_args_model_push(args@, a);
                }
                args.push(a);
                i = i2;
            },
        }
    }
}

fn template_argument_at(s: &[u8], p: usize) -> (r: Result<(usize, TemplateArgument), ParseError>)
    requires
        p <= s@.len(),
    ensures
        arg_rel(r, spec_template_argument(s@, p as int)),
        r matches Ok((q, _)) ==> p < q <= s@.len(),
    decreases s@.len() - p, 0int,
{
    if has_byte(s, p, LBRACE) {
        let mut xs: Vec<TemplateExpression> = Vec::new();
        proof {
            lemma_models_empty();
            assert(xs@ =~= Seq::<TemplateExpression>::empty());
        }
        let mut i = p + 1;
        loop
            invariant
                p < i <= s@.len(),
                arg_body_items(s@, p + 1, Seq::empty()) == arg_body_items(
                    s@,
                    i as int,
                    exprs_model(xs@),
                ),
            ensures
                p < i <= s@.len(),
                arg_body_items(s@, p + 1, Seq::empty()) == SpecVal::Ok(
                    (i as int, exprs_model(xs@)),
                ),
            decreases s@.len() - i,
        {
            match template_expression_at(s, i) {
                Err(_) => {
                    break ;
                },
                Ok((j, x)) => {
                    proof {
                        lemma_exprs_model_push(xs@, x);
                    }
                    xs.push(x);
                    i = j;
                },
            }
        }
        if has_byte(s, i, RBRACE) {
            let q = spacelike_at(s, i + 1);
            {
                let v = TemplateArgument::Body(xs);
                proof {
                    lemma_arg_model(v);
                }
                return Ok((q, v));
            }
        }
    }
    match expression_at(s, p) {
        Ok(r) => {
            proof {
                crate::expression::lemma_expression_text(s@, p as int);
            }
            {
                let v = TemplateArgument::Rust(known_text(s, p, r));
                proof {
                    lemma_arg_model(v);
                }
                Ok((r, v))
            }
        },
        Err(e) => Err(add_err(e, p, ErrorKind::Primitive(PrimitiveKind::Alt))),
    }
}

/// Parses a `{ ... }` block of template elements at `p`.
pub fn template_block_at(s: &[u8], p: usize) -> (r: Result<
    (usize, Vec<TemplateExpression>),
    ParseError,
>)
    requires
        p <= s@.len(),
    ensures
        tes_rel(r, spec_template_block(s@, p as int)),
        r matches Ok((q, _)) ==> p < q <= s@.len(),
    decreases s@.len() - p, 0int,
{
    if !has_byte(s, p, LBRACE) {
        return Err(mk_err(p, ErrorKind::Char('{')));
    }
    let mut xs: Vec<TemplateExpression> = Vec::new();
    proof {
        lemma_models_empty();
        assert(xs@ =~= Seq::<TemplateExpression>::empty());
    }
    let mut i = p + 1;
    loop
        invariant
            p < i <= s@.len(),
            spec_template_block(s@, p as int) == block_items(s@, i as int, exprs_model(xs@)),
        decreases s@.len() - i,
    {
        if has_byte(s, i, RBRACE) {
            return Ok((i + 1, xs));
        }
        match template_expression_at(s, i) {
            Err(e) => {
                let e = add_err(e, i, ErrorKind::Context(ContextMsg::ErrorInExpression));
                return Err(add_err(e, i, ErrorKind::Primitive(PrimitiveKind::ManyTill)));
            },
            Ok((j, x)) => {
                proof {
                    lemma_exprs_model_push(xs@, x);
                }
                xs.push(x);
                i = j;
            },
        }
    }
}

fn if_at(s: &[u8], p: usize) -> (r: Result<(usize, TemplateExpression), ParseError>)
    requires
        p <= s@.len(),
    ensures
        te_rel(r, spec_if(s@, p as int)),
        r matches Ok((q, _)) ==> p < q <= s@.len(),
    decreases s@.len() - p, 2int,
{
    let ctx = ErrorKind::Context(ContextMsg::ErrorInConditional);
    let a = spacelike_at(s, p);
    match cond_expression_at(s, a) {
        Err(e) => Err(add_err(e, p, ctx)),
        Ok((b, expr)) => {
            let c = spacelike_at(s, b);
            match template_block_at(s, c) {
                Err(e) => Err(add_err(e, p, ctx)),
                Ok((d, body)) => if_else_part_at(s, p, d, expr, body),
            }
        },
    }
}

fn if_else_part_at(
    s: &[u8],
    p: usize,
    d: usize,
    expr: String,
    body: Vec<TemplateExpression>,
) -> (r: Result<(usize, TemplateExpression), ParseError>)
    requires
        p < d <= s@.len(),
    ensures
        te_rel(r, if_else_part(s@, p as int, d as int, expr@, exprs_model(body@))),
        r matches Ok((q, _)) ==> p < q <= s@.len(),
    decreases s@.len() - p, 1int,
{
    let e0 = spacelike_at(s, d);
    let kelse: [u8; 4] = [101u8, 108u8, 115u8, 101u8];
    assert(kelse@ == seq![101u8, 108u8, 115u8, 101u8]);
    if !has_tag(s, e0, &kelse) {
        {
            let v = TemplateExpression::IfBlock { expr, body, else_body: None };
            proof {
                lemma_expr_model(v);
            }
            return Ok((d, v));
        }
    }
    assert(kelse@.len() == 4);
    let f = spacelike_at(s, e0 + 4);
    let kif: [u8; 2] = [105u8, 102u8];
    assert(kif@ == seq![105u8, 102u8]);
    if has_tag(s, f, &kif) {
        assert(kif@.len() == 2);
        if let Ok((g, ie)) = if_at(s, f + 2) {
            let mut chain: Vec<TemplateExpression> = Vec::new();
            proof {
                lemma_models_empty();
                lemma_exprs_model_push(chain@, ie);
                assert(chain@ =~= Seq::<TemplateExpression>::empty());
            }
            chain.push(ie);
            assert(exprs_model(chain@) =~= seq![expr_model(ie)]);
            let v = TemplateExpression::IfBlock { expr, body, else_body: Some(chain) };
            proof {
                lemma_expr_model(v);
            }
            return Ok((g, v));
        }
    }
    match template_block_at(s, f) {
        Ok((g, eb)) => {
            let v = TemplateExpression::IfBlock { expr, body, else_body: Some(eb) };
            proof {
                lemma_expr_model(v);
            }
            Ok((g, v))
        },
        Err(_) => {
            let v = TemplateExpression::IfBlock { expr, body, else_body: None };
            proof {
                lemma_expr_model(v);
            }
            Ok((d, v))
        },
    }
}

fn for_form_at(s: &[u8], p: usize) -> (r: Result<(usize, TemplateExpression), ParseError>)
    requires
        p + 5 <= s@.len(),
    ensures
        te_rel(r, spec_for_form(s@, p as int)),
        r matches Ok((q, _)) ==> p < q <= s@.len(),
    decreases s@.len() - p, 2int,
{
    let _len = s.len();
    let (a, name) = match for_variable_at(s, p + 5) {
        Err(e) => {
            return Err(e);
        },
        Ok(v) => v,
    };
    let kin: [u8; 2] = [105u8, 110u8];
    assert(kin@ == seq![105u8, 110u8]);
    if !has_tag(s, a, &kin) {
        let e = mk_err(a, ErrorKind::Primitive(PrimitiveKind::Tag));
        return Err(add_err(e, a, ErrorKind::Context(ContextMsg::ExpectedIn)));
    }
    assert(kin@.len() == 2);
    let b = spacelike_at(s, a + 2);
    match loop_expression_at(s, b) {
        Err(e) => Err(add_err(e, b, ErrorKind::Context(ContextMsg::ExpectedIterable))),
        Ok((c, expr)) => {
            let d = spacelike_at(s, c);
            match template_block_at(s, d) {
                Err(e) => Err(add_err(e, d, ErrorKind::Context(ContextMsg::ErrorInLoopBlock))),
                Ok((g, body)) => {
                    let v = TemplateExpression::ForLoop { name, expr, body };
                    proof {
                        lemma_expr_model(v);
                    }
                    Ok((g, v))
                },
            }
        },
    }
}

#[verifier::spinoff_prover]
#[verifier::rlimit(40)]
fn match_arm_head_at(s: &[u8], i: usize) -> (r: Result<(usize, usize, usize), ParseError>)
    requires
        i <= s@.len(),
    ensures
        match r {
            Ok((a, b, d)) => match_arm_head(s@, i as int) == Ok::<(int, int, int), Seq<ErrorEntry>>(
                (a as int, b as int, d as int),
            ) && i <= a < b <= d <= s@.len() && is_text(s@, a as int, b as int),
            Err(e) => match_arm_head(s@, i as int) == Err::<(int, int, int), Seq<ErrorEntry>>(
                e.errors@,
            ),
        },
{
    proof {
        reveal(match_arm_head);
    }
    let ctx = ErrorKind::Context(ContextMsg::ErrorInMatchArm);
    let a = spacelike_at(s, i);
    match expression_at(s, a) {
        Err(e) => Err(add_err(e, i, ctx)),
        Ok(b) => {
            let c = spacelike_at(s, b);
            let arrow: [u8; 2] = [EQ, GT];
            assert(arrow@ == seq![EQ, GT]);
            if !has_tag(s, c, &arrow) {
                return Err(add_err(mk_err(c, ErrorKind::Primitive(PrimitiveKind::Tag)), i, ctx));
            }
            assert(arrow@.len() == 2);
            proof {
                crate::expression::lemma_expression_text(s@, a as int);
            }
            Ok((a, b, spacelike_at(s, c + 2)))
        },
    }
}

fn match_arm_at(s: &[u8], i: usize) -> (r: Result<
    (usize, (String, Vec<TemplateExpression>)),
    ParseError,
>)
    requires
        i <= s@.len(),
    ensures
        arm_rel(r, spec_match_arm(s@, i as int)),
        r matches Ok((q, _)) ==> i < q <= s@.len(),
    decreases s@.len() - i, 1int,
{
    match match_arm_head_at(s, i) {
        Err(e) => Err(e),
        Ok((a, b, d)) => match template_block_at(s, d) {
            Err(e) => Err(add_err(e, i, ErrorKind::Context(ContextMsg::ErrorInMatchArm))),
            Ok((g, body)) => Ok((g, (known_text(s, a, b), body))),
        },
    }
}

fn match_form_at(s: &[u8], p: usize) -> (r: Result<(usize, TemplateExpression), ParseError>)
    requires
        p + 7 <= s@.len(),
    ensures
        te_rel(r, spec_match_form(s@, p as int)),
        r matches Ok((q, _)) ==> p < q <= s@.len(),
    decreases s@.len() - p, 2int,
{
    let _len = s.len();
    let ctx = ErrorKind::Context(ContextMsg::ErrorInMatch);
    let q = p + 7;
    let a = spacelike_at(s, q);
    let b = match expression_at(s, a) {
        Err(e) => {
            return Err(add_err(e, q, ctx));
        },
        Ok(b) => b,
    };
    let c = spacelike_at(s, b);
    if !has_byte(s, c, LBRACE) {
        return Err(add_err(mk_err(c, ErrorKind::Char('{')), q, ctx));
    }
    proof {
        crate::expression::lemma_expression_text(s@, a as int);
    }
    let mut arms: Vec<(String, Vec<TemplateExpression>)> = Vec::new();
    proof {
        lemma_models_empty();
        assert(arms@ =~= Seq::<(String, Vec<TemplateExpression>)>::empty());
    }
    let mut i = c + 1;
    loop
        invariant
            p < c < i <= s@.len(),
            q <= a < b <= c,
            q == p + 7,
            spec_match_arms(s@, c + 1, Seq::empty()) == spec_match_arms(
                s@,
                i as int,
                arms_model(arms@),
            ),
            spec_match_form(s@, p as int) == match spec_match_arms(s@, c + 1, Seq::empty()) {
                SpecVal::Err(e) => SpecVal::Err(err_push(e, q as int, ctx)),
                SpecVal::Ok((d, arms)) => SpecVal::Ok(
                    (d, TExpr::MatchBlock(range_text(s@, a as int, b as int), arms)),
                ),
            },
            crate::bytes::is_text(s@, a as int, b as int),
        decreases s@.len() - i,
    {
        let j0 = spacelike_at(s, i);
        if has_byte(s, j0, RBRACE) {
            let expr = known_text(s, a, b);
            {
                let v = TemplateExpression::MatchBlock { expr, arms };
                proof {
                    lemma_expr_model(v);
                }
                return Ok((j0 + 1, v));
            }
        }
        match match_arm_at(s, i) {
            Err(e) => {
                let e = add_err(e, i, ErrorKind::Primitive(PrimitiveKind::ManyTill));
                return Err(add_err(e, q, ctx));
            },
            Ok((j, arm)) => {
                proof {
                    lemma_arms_model_push(arms@, arm);
                }
                arms.push(arm);
                i = j;
            },
        }
    }
}

/// One template element at the start of `input`.
pub fn template_expression(input: &[u8]) -> (r: PResult<TemplateExpression>)
    ensures
        r matches Ok((rest, v)) ==> spec_template_expression(input@, 0) == SpecVal::Ok(
            (input@.len() - rest@.len(), v@),
        ) && rest@ == input@.subrange(input@.len() - rest@.len(), input@.len() as int),
        r matches Err(e) ==> spec_template_expression(input@, 0) == SpecVal::<TExpr>::Err(
            e.errors@,
        ),
{
    match template_expression_at(input, 0) {
        Ok((q, v)) => Ok((vstd::slice::slice_subrange(input, q, input.len()), v)),
        Err(e) => Err(e),
    }
}

/// The loop variable of a `@for` at the start of `input`, with the space
/// around it.
pub fn for_variable(input: &[u8]) -> (r: PResult<String>)
    ensures
        r matches Ok((rest, v)) ==> spec_for_variable(input@, 0) == SpecVal::Ok(
            (input@.len() - rest@.len(), v@),
        ) && rest@ == input@.subrange(input@.len() - rest@.len(), input@.len() as int),
        r matches Err(e) ==> spec_for_variable(input@, 0) == SpecVal::<Seq<char>>::Err(e.errors@),
{
    match for_variable_at(input, 0) {
        Ok((q, v)) => Ok((vstd::slice::slice_subrange(input, q, input.len()), v)),
        Err(e) => Err(e),
    }
}

/// `@@`, `@{` and `@}` stand for a verbatim `@`, `{` and `}`: each is a
/// text element of that one character, and nothing after it is read.
pub proof fn law_escaped_specials(s: Seq<u8>)
    requires
        s.len() >= 2,
        s[0] == AT,
    ensures
        s[1] == AT ==> spec_template_expression(s, 0) == SpecVal::Ok((2, TExpr::Text("@"@))),
        s[1] == LBRACE ==> spec_template_expression(s, 0) == SpecVal::Ok((2, TExpr::Text("{"@))),
        s[1] == RBRACE ==> spec_template_expression(s, 0) == SpecVal::Ok((2, TExpr::Text("}"@))),
{
}

/// Text runs up to the next `@`, `{` or `}`: a text element holds none of
/// them, and it ends at one of them or at the end of input.
pub proof fn law_text_stops_at_specials(s: Seq<u8>, p: int)
    requires
        0 <= p <= s.len(),
        !byte_at(s, p, AT),
    ensures
        spec_template_expression(s, p) matches SpecVal::Ok((q, _)) ==> {
            &&& p < q <= s.len()
            &&& forall|i: int| p <= i < q ==> !(#[trigger] s[i] == AT || s[i] == LBRACE || s[i] == RBRACE)
            &&& (q == s.len() || s[q] == AT || s[q] == LBRACE || s[q] == RBRACE)
        },
{
    crate::bytes::lemma_span_end(s, p, ByteClass::NotTextSpecial);
    let e = span_end(s, p, ByteClass::NotTextSpecial);
    assert forall|i: int| p <= i < e implies !(#[trigger] s[i] == AT || s[i] == LBRACE || s[i]
        == RBRACE) by {
        assert(crate::bytes::class_has(ByteClass::NotTextSpecial, s[i]));
    }
}

/// The condition of an `@if` at the start of `input`: a let binding, or
/// a logic expression.
pub fn cond_expression(input: &[u8]) -> (r: PResult<String>)
    ensures
        r matches Ok((rest, v)) ==> spec_cond_expression(input@, 0) == SpecVal::Ok(
            (input@.len() - rest@.len(), v@),
        ) && rest@ == input@.subrange(input@.len() - rest@.len(), input@.len() as int),
        r matches Err(e) ==> spec_cond_expression(input@, 0) == SpecVal::<Seq<char>>::Err(
            e.errors@,
        ),
{
    match cond_expression_at(input, 0) {
        Ok((q, v)) => Ok((vstd::slice::slice_subrange(input, q, input.len()), v)),
        Err(e) => Err(e),
    }
}

/// The operators that may join two parts of a condition, as bytes: `!=`,
/// `&&`, `<=`, `<`, `==`, `>=`, `>` and `||`.
pub open spec fn condition_operators() -> Seq<Seq<u8>> {
    seq![
        seq![33u8, 61u8],
        seq![38u8, 38u8],
        seq![60u8, 61u8],
        seq![60u8],
        seq![61u8, 61u8],
        seq![62u8, 61u8],
        seq![62u8],
        seq![124u8, 124u8],
    ]
}

/// Two bytes at `a` are the tag `t` of two bytes exactly when each is its
/// byte of `t`.
proof fn lemma_tag_two(s: Seq<u8>, a: int, t: Seq<u8>)
    requires
        t.len() == 2,
    ensures
        tag_at(s, a, t) <==> (0 <= a && a + 2 <= s.len() && s[a] == t[0] && s[a + 1] == t[1]),
{
    if 0 <= a && a + 2 <= s.len() {
        let w = s.subrange(a, a + 2);
        assert(w[0] == s[a] && w[1] == s[a + 1]);
        if s[a] == t[0] && s[a + 1] == t[1] {
            assert(w =~= t);
        }
    }
}

/// A condition that starts with an expression (not with `!` nor with the
/// keyword `let`) and goes on with any of the operators `!=`, `&&`, `<=`,
/// `<`, `==`, `>=`, `>`, `||` and a further condition is read as a whole:
/// the condition ends where that further condition ends, and its text is
/// everything up to there. A one-byte operator `<` or `>` is meant when no
/// `=` follows it.
pub proof fn law_condition_operators(s: Seq<u8>, p: int, b: int, k: int, t: int)
    requires
        0 <= p <= s.len(),
        0 <= k < condition_operators().len(),
        !byte_at(s, p, 33u8),
        !let_keyword_at(s, p),
        spec_expression(s, p) == SpecPos::Ok(b),
        tag_at(s, sp(s, b), condition_operators()[k]),
        condition_operators()[k].len() == 1 ==> !byte_at(s, sp(s, b) + 1, 61u8),
        spec_logic_expression(
            s,
            sp(s, sp(s, b) + condition_operators()[k].len()),
        ) == SpecPos::Ok(t),
        is_text(s, p, t),
    ensures
        spec_cond_expression(s, p) == SpecVal::Ok((t, range_text(s, p, t))),
{
    let ops = condition_operators();
    let op = ops[k];
    crate::expression::lemma_expression_bounds(s, p);
    crate::spacelike::lemma_spacelike(s, b);
    let a = sp(s, b);
    let e = a + op.len();
    crate::spacelike::lemma_spacelike(s, e);
    let r = sp(s, e);
    assert(p < r <= s.len());
    lemma_tag_two(s, a, seq![33u8, 61u8]);
    lemma_tag_two(s, a, seq![38u8, 38u8]);
    lemma_tag_two(s, a, seq![60u8, 61u8]);
    lemma_tag_two(s, a, seq![61u8, 61u8]);
    lemma_tag_two(s, a, seq![62u8, 61u8]);
    lemma_tag_two(s, a, seq![124u8, 124u8]);
    if op.len() == 2 {
        lemma_tag_two(s, a, op);
    } else {
        assert(s.subrange(a, a + 1)[0] == s[a]);
    }
    assert(rel_operator_end(s, b) == Some(r)) by {
        reveal(rel_operator_end);
    }
    assert(spec_logic_expression(s, p) == SpecPos::Ok(t)) by {
        reveal(spec_logic_expression);
    }
    reveal(spec_cond_expression);
}

} // verus!
