//! A whole template: preamble lines, the declaration of its lifetimes and
//! arguments, and its body; and the Rust function it compiles to.
use crate::bytes::{
    byte_at, has_byte, has_tag, is_text, range_text, span, span_end, tag_at, ByteClass, AMP, AT,
    COLON, COMMA, GT, LBRACKET, LPAREN, LT, RBRACKET, RPAREN, SEMI, SQUOTE,
};
use crate::expression::{known_text, rust_name_at, spec_rust_name};
use crate::parseresult::{
    add_err, err1, err_push, mk_err, pos_rel, presult_rel, ContextMsg, ErrorKind, PrimitiveKind,
    PResult, ParseError, SpecPos, SpecVal,
};
use crate::rustcode::codes;
use crate::spacelike::{sp, spacelike_at};
use crate::templateexpression::{
    exprs_model, spec_template_expression, template_expression_at, TExpr, TemplateExpression,
};
use vstd::prelude::*;

verus! {

/// A lifetime after optional space: `'` and a name.
pub open spec fn spec_lifetime(s: Seq<u8>, p: int) -> SpecPos {
    let a = sp(s, p);
    if !byte_at(s, a, SQUOTE) {
        SpecPos::Err(err1(a, ErrorKind::Primitive(PrimitiveKind::Tag)))
    } else {
        spec_rust_name(s, a + 1)
    }
}

/// Where the head of a type starts: after an optional `&`, an optional
/// lifetime, and an optional `impl` or `dyn`, with the space around them.
pub open spec fn type_prefix_end(s: Seq<u8>, p: int) -> int {
    let a = if byte_at(s, p, AMP) {
        p + 1
    } else {
        p
    };
    let b = match spec_lifetime(s, a) {
        SpecPos::Ok(x) => x,
        SpecPos::Err(_) => a,
    };
    let c0 = sp(s, b);
    let c1 = if tag_at(s, c0, seq![105u8, 109u8, 112u8, 108u8]) {
        c0 + 4
    } else if tag_at(s, c0, seq![100u8, 121u8, 110u8]) {
        c0 + 3
    } else {
        c0
    };
    sp(s, c1)
}

/// A Rust type: a name, `[type]` or a tuple, after its prefix, and
/// optionally followed by `<` generic arguments `>`.
pub open spec fn spec_type_expression(s: Seq<u8>, p: int) -> SpecPos
    decreases s.len() - p, 0int,
{
    let c = type_prefix_end(s, p);
    if !(p <= c <= s.len()) {
        SpecPos::Err(Seq::empty())
    } else {
        let head: SpecPos = if spec_rust_name(s, c) is Ok {
            spec_rust_name(s, c)
        } else {
            let slice: SpecPos = if !byte_at(s, c, LBRACKET) {
                SpecPos::Err(err1(c, ErrorKind::Primitive(PrimitiveKind::Tag)))
            } else {
                match spec_type_expression(s, c + 1) {
                    SpecPos::Err(e) => SpecPos::Err(e),
                    SpecPos::Ok(e) => if byte_at(s, e, RBRACKET) {
                        SpecPos::Ok(e + 1)
                    } else {
                        SpecPos::Err(err1(e, ErrorKind::Primitive(PrimitiveKind::Tag)))
                    },
                }
            };
            if slice is Ok {
                slice
            } else if !byte_at(s, c, LPAREN) {
                SpecPos::Err(
                    err_push(
                        err_push(err1(c, ErrorKind::Primitive(PrimitiveKind::Tag)), c, ErrorKind::Primitive(PrimitiveKind::Alt)),
                        c,
                        ErrorKind::Context(ContextMsg::ExpectedTypeExpression),
                    ),
                )
            } else {
                let e = spec_comma_types(s, c + 1);
                if byte_at(s, e, RPAREN) {
                    SpecPos::Ok(e + 1)
                } else {
                    SpecPos::Err(
                        err_push(
                            err_push(err1(e, ErrorKind::Primitive(PrimitiveKind::Tag)), c, ErrorKind::Primitive(PrimitiveKind::Alt)),
                            c,
                            ErrorKind::Context(ContextMsg::ExpectedTypeExpression),
                        ),
                    )
                }
            }
        };
        match head {
            SpecPos::Err(e) => SpecPos::Err(e),
            SpecPos::Ok(d) => if p <= d <= s.len() && byte_at(s, d, LT) {
                let f = spec_comma_types(s, d + 1);
                if byte_at(s, f, GT) {
                    SpecPos::Ok(f + 1)
                } else {
                    SpecPos::Ok(d)
                }
            } else {
                SpecPos::Ok(d)
            },
        }
    }
}

/// A type or a lifetime, where one is in a list of generic arguments.
pub open spec fn type_or_lifetime(s: Seq<u8>, p: int) -> Option<int>
    decreases s.len() - p, 1int,
{
    match spec_type_expression(s, p) {
        SpecPos::Ok(q) => Some(q),
        SpecPos::Err(_) => match spec_lifetime(s, p) {
            SpecPos::Ok(q) => Some(q),
            SpecPos::Err(_) => None,
        },
    }
}

/// A separator in a list of types: `,` and any whitespace.
pub open spec fn list_sep(s: Seq<u8>, i: int) -> Option<int> {
    if byte_at(s, i, COMMA) {
        Some(span_end(s, i + 1, ByteClass::MultiSpace))
    } else {
        None
    }
}

/// The rest of a list of types and lifetimes, from after an element at `i`.
pub open spec fn comma_types_rest(s: Seq<u8>, i: int) -> int
    decreases s.len() - i, 2int,
{
    match list_sep(s, i) {
        None => i,
        Some(i1) => if i < i1 <= s.len() {
            match type_or_lifetime(s, i1) {
                Some(i2) => if i1 <= i2 <= s.len() {
                    comma_types_rest(s, i2)
                } else {
                    i
                },
                None => i,
            }
        } else {
            i
        },
    }
}

/// A possibly empty, comma separated list of types and lifetimes, with an
/// optional trailing comma; it always succeeds.
pub open spec fn spec_comma_types(s: Seq<u8>, p: int) -> int
    decreases s.len() - p, 2int,
{
    let r = match type_or_lifetime(s, p) {
        None => p,
        Some(q) => if p < q <= s.len() {
            comma_types_rest(s, q)
        } else {
            p
        },
    };
    match list_sep(s, r) {
        Some(t) => t,
        None => r,
    }
}

fn lifetime_at(s: &[u8], p: usize) -> (r: Result<usize, ParseError>)
    requires
        p <= s@.len(),
    ensures
        pos_rel(r, spec_lifetime(s@, p as int)),
        r matches Ok(q) ==> p < q <= s@.len(),
{
    let a = spacelike_at(s, p);
    if !has_byte(s, a, SQUOTE) {
        Err(mk_err(a, ErrorKind::Primitive(PrimitiveKind::Tag)))
    } else {
        rust_name_at(s, a + 1)
    }
}

fn type_prefix_end_at(s: &[u8], p: usize) -> (c: usize)
    requires
        p <= s@.len(),
    ensures
        c == type_prefix_end(s@, p as int),
        p <= c <= s@.len(),
{
    let a = if has_byte(s, p, AMP) {
        p + 1
    } else {
        p
    };
    let b = match lifetime_at(s, a) {
        Ok(x) => x,
        Err(_) => a,
    };
    let c0 = spacelike_at(s, b);
    let kimpl: [u8; 4] = [105u8, 109u8, 112u8, 108u8];
    let kdyn: [u8; 3] = [100u8, 121u8, 110u8];
    assert(kimpl@ == seq![105u8, 109u8, 112u8, 108u8]);
    assert(kdyn@ == seq![100u8, 121u8, 110u8]);
    let c1 = if has_tag(s, c0, &kimpl) {
        assert(kimpl@.len() == 4);
        c0 + 4
    } else if has_tag(s, c0, &kdyn) {
        assert(kdyn@.len() == 3);
        c0 + 3
    } else {
        c0
    };
    spacelike_at(s, c1)
}

/// Parses a Rust type at `p`.
pub fn type_expression_at(s: &[u8], p: usize) -> (r: Result<usize, ParseError>)
    requires
        p <= s@.len(),
    ensures
        pos_rel(r, spec_type_expression(s@, p as int)),
        r matches Ok(q) ==> p < q <= s@.len(),
    decreases s@.len() - p, 0int,
{
    let c = type_prefix_end_at(s, p);
    let head: Result<usize, ParseError> = match rust_name_at(s, c) {
        Ok(n) => Ok(n),
        Err(_) => {
            let slice: Result<usize, ParseError> = if !has_byte(s, c, LBRACKET) {
                Err(mk_err(c, ErrorKind::Primitive(PrimitiveKind::Tag)))
            } else {
                match type_expression_at(s, c + 1) {
                    Err(e) => Err(e),
                    Ok(e) => if has_byte(s, e, RBRACKET) {
                        Ok(e + 1)
                    } else {
                        Err(mk_err(e, ErrorKind::Primitive(PrimitiveKind::Tag)))
                    },
                }
            };
            if slice.is_ok() {
                slice
            } else if !has_byte(s, c, LPAREN) {
                let e = add_err(mk_err(c, ErrorKind::Primitive(PrimitiveKind::Tag)), c, ErrorKind::Primitive(PrimitiveKind::Alt));
                Err(add_err(e, c, ErrorKind::Context(ContextMsg::ExpectedTypeExpression)))
            } else {
                let e = comma_types_at(s, c + 1);
                if has_byte(s, e, RPAREN) {
                    Ok(e + 1)
                } else {
                    let e = add_err(mk_err(e, ErrorKind::Primitive(PrimitiveKind::Tag)), c, ErrorKind::Primitive(PrimitiveKind::Alt));
                    Err(add_err(e, c, ErrorKind::Context(ContextMsg::ExpectedTypeExpression)))
                }
            }
        },
    };
    match head {
        Err(e) => Err(e),
        Ok(d) => {
            if has_byte(s, d, LT) {
                let f = comma_types_at(s, d + 1);
                if has_byte(s, f, GT) {
                    Ok(f + 1)
                } else {
                    Ok(d)
                }
            } else {
                Ok(d)
            }
        },
    }
}

fn type_or_lifetime_at(s: &[u8], p: usize) -> (r: Option<usize>)
    requires
        p <= s@.len(),
    ensures
        r matches Some(q) ==> type_or_lifetime(s@, p as int) == Some(q as int) && p < q
            <= s@.len(),
        r is None ==> type_or_lifetime(s@, p as int) is None,
    decreases s@.len() - p, 1int,
{
    match type_expression_at(s, p) {
        Ok(q) => Some(q),
        Err(_) => match lifetime_at(s, p) {
            Ok(q) => Some(q),
            Err(_) => None,
        },
    }
}

fn list_sep_at(s: &[u8], i: usize) -> (r: Option<usize>)
    requires
        i <= s@.len(),
    ensures
        r matches Some(j) ==> list_sep(s@, i as int) == Some(j as int) && i < j <= s@.len(),
        r is None ==> list_sep(s@, i as int) is None,
{
    if has_byte(s, i, COMMA) {
        Some(span(s, i + 1, ByteClass::MultiSpace))
    } else {
        None
    }
}

/// Parses a possibly empty list of types and lifetimes at `p`.
pub fn comma_types_at(s: &[u8], p: usize) -> (q: usize)
    requires
        p <= s@.len(),
    ensures
        q == spec_comma_types(s@, p as int),
        p <= q <= s@.len(),
    decreases s@.len() - p, 2int,
{
    let mut i = match type_or_lifetime_at(s, p) {
        None => p,
        Some(q) => q,
    };
    if i > p {
        loop
            invariant
                p < i <= s@.len(),
                spec_comma_types(s@, p as int) == match list_sep(
                    s@,
                    comma_types_rest(s@, i as int),
                ) {
                    Some(t) => t,
                    None => comma_types_rest(s@, i as int),
                },
            ensures
                p < i <= s@.len(),
                spec_comma_types(s@, p as int) == match list_sep(
                    s@,
                    comma_types_rest(s@, i as int),
                ) {
                    Some(t) => t,
                    None => comma_types_rest(s@, i as int),
                },
                list_sep(s@, i as int) matches Some(i1) ==> type_or_lifetime(s@, i1) is None,
            decreases s@.len() - i,
        {
            let i1 = match list_sep_at(s, i) {
                None => {
                    break ;
                },
                Some(i1) => i1,
            };
            match type_or_lifetime_at(s, i1) {
                None => {
                    break ;
                },
                Some(i2) => {
                    i = i2;
                },
            }
        }
    }
    match list_sep_at(s, i) {
        Some(t) => t,
        None => i,
    }
}

/// A Rust type at the start of `input`.
pub fn type_expression(input: &[u8]) -> (r: PResult<()>)
    ensures
        presult_rel(r, input@, spec_type_expression(input@, 0)),
{
    match type_expression_at(input, 0) {
        Ok(q) => Ok((vstd::slice::slice_subrange(input, q, input.len()), ())),
        Err(e) => Err(e),
    }
}

/// A possibly empty list of types and lifetimes at the start of `input`.
pub fn comma_type_expressions(input: &[u8]) -> (r: PResult<()>)
    ensures
        presult_rel(r, input@, SpecPos::Ok(spec_comma_types(input@, 0))),
        r is Ok,
{
    let q = comma_types_at(input, 0);
    Ok((vstd::slice::slice_subrange(input, q, input.len()), ()))
}

/// The parsed form of a template.
pub struct TemplateModel {
    /// The preamble lines, without their `@` and `;`.
    pub preamble: Seq<Seq<char>>,
    /// The declared lifetimes, as written between `<` and `>`.
    pub type_args: Seq<char>,
    /// The formal arguments, as written.
    pub args: Seq<Seq<char>>,
    /// The elements of the body.
    pub body: Seq<TExpr>,
}

/// A template, as parsed from its source.
#[derive(Debug, PartialEq, Eq)]
pub struct Template {
    preamble: Vec<String>,
    type_args: String,
    args: Vec<String>,
    body: Vec<TemplateExpression>,
}

/// The characters of each string.
pub open spec fn strings_model(v: Seq<String>) -> Seq<Seq<char>> {
    v.map_values(|x: String| x@)
}

impl View for Template {
    type V = TemplateModel;

    closed spec fn view(&self) -> TemplateModel {
        TemplateModel {
            preamble: strings_model(self.preamble@),
            type_args: self.type_args@,
            args: strings_model(self.args@),
            body: exprs_model(self.body@),
        }
    }
}

/// A preamble line at `i`: `@`, text without `;`, `(` and `)`, `;`, and
/// the space after it.
pub open spec fn preamble_item(s: Seq<u8>, i: int) -> Option<(int, Seq<char>)> {
    if byte_at(s, i, AT) {
        let e = span_end(s, i + 1, ByteClass::NotPreambleSpecial);
        if e > i + 1 && is_text(s, i + 1, e) && byte_at(s, e, SEMI) {
            Some((sp(s, e + 1), range_text(s, i + 1, e)))
        } else {
            None
        }
    } else {
        None
    }
}

/// As many preamble lines as there are from `i`, after `acc`.
#[verifier::opaque]
pub open spec fn preamble_items(s: Seq<u8>, i: int, acc: Seq<Seq<char>>) -> SpecVal<
    Seq<Seq<char>>,
>
    decreases s.len() - i,
{
    match preamble_item(s, i) {
        None => SpecVal::Ok((i, acc)),
        Some((j, line)) => if i < j <= s.len() {
            preamble_items(s, j, acc.push(line))
        } else {
            SpecVal::Err(err1(i, ErrorKind::Primitive(PrimitiveKind::Many0)))
        },
    }
}

/// A preamble line found at `i` is `@`, then its text, which holds no `;`,
/// `(` or `)`, then `;`: the line is that text, and reading goes on after
/// the `;` and any space.
pub proof fn law_preamble_line_text(s: Seq<u8>, i: int)
    requires
        0 <= i <= s.len(),
    ensures
        preamble_item(s, i) matches Some((j, line)) ==> exists|e: int|
            #![trigger s[e]]
            {
                &&& i + 1 < e < s.len()
                &&& s[i] == 64u8
                &&& s[e] == 59u8
                &&& forall|k: int| i + 1 <= k < e ==> #[trigger] s[k] != 59u8 && s[k] != 40u8 && s[k] != 41u8
                &&& line == range_text(s, i + 1, e)
                &&& j == sp(s, e + 1)
            },
{
    if let Some((j, line)) = preamble_item(s, i) {
        let e = span_end(s, i + 1, ByteClass::NotPreambleSpecial);
        crate::bytes::lemma_span_end(s, i + 1, ByteClass::NotPreambleSpecial);
        assert(s[e] == 59u8);
    }
}

/// Reading preamble lines after lines already read keeps those in front:
/// the result is the lines already read followed by the lines read from `i`
/// on their own, ending at the same place (and an error stays the same
/// error).
pub proof fn law_preamble_keeps_earlier(s: Seq<u8>, i: int, acc: Seq<Seq<char>>)
    requires
        0 <= i <= s.len(),
    ensures
        match preamble_items(s, i, Seq::empty()) {
            SpecVal::Ok((q, lines)) => preamble_items(s, i, acc) == SpecVal::Ok((q, acc + lines)),
            SpecVal::Err(e) => preamble_items(s, i, acc) == SpecVal::<Seq<Seq<char>>>::Err(e),
        },
    decreases s.len() - i,
{
    reveal(preamble_items);
    match preamble_item(s, i) {
        None => {
            assert(acc + Seq::<Seq<char>>::empty() =~= acc);
        },
        Some((j, line)) => {
            if i < j <= s.len() {
                law_preamble_keeps_earlier(s, j, acc.push(line));
                law_preamble_keeps_earlier(s, j, seq![line]);
                assert(Seq::<Seq<char>>::empty().push(line) =~= seq![line]);
                if let SpecVal::Ok((q, rest)) = preamble_items(s, j, Seq::empty()) {
                    assert(acc.push(line) + rest =~= acc + (seq![line] + rest));
                }
            }
        },
    }
}

/// The preamble lines read from `i`, where a line starts, are that line
/// followed by the lines read after it: every line is kept, in order.
pub proof fn law_preamble_line_then_rest(s: Seq<u8>, i: int, j: int, line: Seq<char>)
    requires
        0 <= i <= s.len(),
        preamble_item(s, i) == Some((j, line)),
        i < j <= s.len(),
    ensures
        match preamble_items(s, j, Seq::empty()) {
            SpecVal::Ok((q, rest)) => preamble_items(s, i, Seq::empty()) == SpecVal::Ok(
                (q, seq![line] + rest),
            ),
            SpecVal::Err(e) => preamble_items(s, i, Seq::empty()) == SpecVal::<
                Seq<Seq<char>>,
            >::Err(e),
        },
{
    reveal(preamble_items);
    assert(Seq::<Seq<char>>::empty().push(line) =~= seq![line]);
    law_preamble_keeps_earlier(s, j, seq![line]);
}

/// A lifetime declaration at `i`: `'` and a name.
pub open spec fn lifetime_decl(s: Seq<u8>, i: int) -> Option<int> {
    if byte_at(s, i, SQUOTE) {
        match spec_rust_name(s, i + 1) {
            SpecPos::Ok(e) => Some(e),
            SpecPos::Err(_) => None,
        }
    } else {
        None
    }
}

/// The rest of a list of lifetime declarations, from after one at `i`.
pub open spec fn lifetimes_rest(s: Seq<u8>, i: int) -> int
    decreases s.len() - i,
{
    match list_sep(s, i) {
        None => i,
        Some(i1) => match lifetime_decl(s, i1) {
            Some(i2) => if i < i2 <= s.len() {
                lifetimes_rest(s, i2)
            } else {
                i
            },
            None => i,
        },
    }
}

/// The declared lifetimes at `p`: `<`, lifetimes separated by commas, `>`;
/// `None` where there is no such declaration.
#[verifier::opaque]
pub open spec fn spec_type_args(s: Seq<u8>, p: int) -> Option<(int, Seq<char>)> {
    if byte_at(s, p, LT) {
        let a = span_end(s, p + 1, ByteClass::MultiSpace);
        match lifetime_decl(s, a) {
            None => None,
            Some(b) => {
                let c = lifetimes_rest(s, b);
                if is_text(s, a, c) && byte_at(s, c, GT) {
                    Some((c + 1, range_text(s, a, c)))
                } else {
                    None
                }
            },
        }
    } else {
        None
    }
}

/// A formal argument at `p`: a name, `:` and a type, with space between.
#[verifier::opaque]
pub open spec fn spec_formal_argument(s: Seq<u8>, p: int) -> Option<int> {
    match spec_rust_name(s, p) {
        SpecPos::Err(_) => None,
        SpecPos::Ok(n) => {
            let a = sp(s, n);
            if byte_at(s, a, COLON) {
                match spec_type_expression(s, sp(s, a + 1)) {
                    SpecPos::Ok(e) => if is_text(s, p, e) {
                        Some(e)
                    } else {
                        None
                    },
                    SpecPos::Err(_) => None,
                }
            } else {
                None
            }
        },
    }
}

/// The rest of the formal arguments, from after one at `i`, after `acc`.
pub open spec fn formal_args_rest(s: Seq<u8>, i: int, acc: Seq<Seq<char>>) -> (int, Seq<Seq<char>>)
    decreases s.len() - i,
{
    match list_sep(s, i) {
        None => (i, acc),
        Some(i1) => match spec_formal_argument(s, i1) {
            Some(i2) => if i < i2 <= s.len() {
                formal_args_rest(s, i2, acc.push(range_text(s, i1, i2)))
            } else {
                (i, acc)
            },
            None => (i, acc),
        },
    }
}

/// The possibly empty, comma separated formal arguments at `p`.
#[verifier::opaque]
pub open spec fn spec_formal_args(s: Seq<u8>, p: int) -> (int, Seq<Seq<char>>) {
    match spec_formal_argument(s, p) {
        None => (p, Seq::empty()),
        Some(q) => formal_args_rest(s, q, seq![range_text(s, p, q)]),
    }
}

/// The elements of the body from `i` to the end of input, after `acc`.
#[verifier::opaque]
pub open spec fn body_items(s: Seq<u8>, i: int, acc: Seq<TExpr>) -> SpecVal<Seq<TExpr>>
    decreases s.len() - i,
{
    if i >= s.len() {
        SpecVal::Ok((i, acc))
    } else {
        match spec_template_expression(s, i) {
            SpecVal::Err(e) => SpecVal::Err(
                err_push(
                    err_push(e, i, ErrorKind::Context(ContextMsg::ErrorInExpression)),
                    i,
                    ErrorKind::Primitive(PrimitiveKind::ManyTill),
                ),
            ),
            SpecVal::Ok((j, x)) => if i < j <= s.len() {
                body_items(s, j, acc.push(x))
            } else {
                SpecVal::Err(err1(j, ErrorKind::Primitive(PrimitiveKind::ManyTill)))
            },
        }
    }
}

/// What follows the `@` of the declaration at `p1`: the lifetimes, the
/// formal arguments, and the body.
pub open spec fn declaration_and_body(s: Seq<u8>, p1: int, preamble: Seq<Seq<char>>) -> SpecVal<
    TemplateModel,
> {
    let (p3, type_args) = match spec_type_args(s, p1 + 1) {
        Some(x) => x,
        None => (p1 + 1, Seq::empty()),
    };
    if !byte_at(s, p3, LPAREN) {
        SpecVal::Err(
            err_push(
                err1(p3, ErrorKind::Primitive(PrimitiveKind::Tag)),
                p3,
                ErrorKind::Context(ContextMsg::ExpectedArgumentsDeclaration),
            ),
        )
    } else {
        let (p5, args) = spec_formal_args(s, span_end(s, p3 + 1, ByteClass::MultiSpace));
        let p6 = span_end(s, p5, ByteClass::MultiSpace);
        if !byte_at(s, p6, RPAREN) {
            SpecVal::Err(
                err_push(
                    err1(p6, ErrorKind::Primitive(PrimitiveKind::Tag)),
                    p5,
                    ErrorKind::Context(ContextMsg::ExpectedCommaOrParen),
                ),
            )
        } else {
            match body_items(s, sp(s, p6 + 1), Seq::empty()) {
                SpecVal::Err(e) => SpecVal::Err(e),
                SpecVal::Ok((q, body)) => SpecVal::Ok(
                    (q, TemplateModel { preamble, type_args, args, body }),
                ),
            }
        }
    }
}

/// A whole template: space, preamble lines, `@`, optional lifetimes,
/// `(` formal arguments `)`, and the body up to the end of input.
pub open spec fn spec_template(s: Seq<u8>) -> SpecVal<TemplateModel> {
    match preamble_items(s, sp(s, 0), Seq::empty()) {
        SpecVal::Err(e) => SpecVal::Err(e),
        SpecVal::Ok((p1, preamble)) => if !byte_at(s, p1, AT) {
            SpecVal::Err(
                err_push(
                    err1(p1, ErrorKind::Primitive(PrimitiveKind::Tag)),
                    p1,
                    ErrorKind::Context(ContextMsg::ExpectedTemplateDeclaration),
                ),
            )
        } else {
            declaration_and_body(s, p1, preamble)
        },
    }
}

fn preamble_item_at(s: &[u8], i: usize) -> (r: Option<(usize, String)>)
    requires
        i <= s@.len(),
    ensures
        r matches Some((j, line)) ==> preamble_item(s@, i as int) == Some((j as int, line@)) && i
            < j <= s@.len(),
        r is None ==> preamble_item(s@, i as int) is None,
{
    if !has_byte(s, i, AT) {
        return None;
    }
    let e = span(s, i + 1, ByteClass::NotPreambleSpecial);
    if e == i + 1 {
        return None;
    }
    let line = match crate::bytes::range_string(s, i + 1, e) {
        None => {
            return None;
        },
        Some(t) => t,
    };
    if !has_byte(s, e, SEMI) {
        return None;
    }
    Some((spacelike_at(s, e + 1), line))
}

fn lifetime_decl_at(s: &[u8], i: usize) -> (r: Option<usize>)
    requires
        i <= s@.len(),
    ensures
        r matches Some(j) ==> lifetime_decl(s@, i as int) == Some(j as int) && i < j <= s@.len(),
        r is None ==> lifetime_decl(s@, i as int) is None,
{
    if has_byte(s, i, SQUOTE) {
        match rust_name_at(s, i + 1) {
            Ok(e) => Some(e),
            Err(_) => None,
        }
    } else {
        None
    }
}

fn type_args_at(s: &[u8], p: usize) -> (r: Option<(usize, String)>)
    requires
        p <= s@.len(),
    ensures
        r matches Some((j, t)) ==> spec_type_args(s@, p as int) == Some((j as int, t@)) && p < j
            <= s@.len(),
        r is None ==> spec_type_args(s@, p as int) is None,
{
    proof {
        reveal(spec_type_args);
    }
    if !has_byte(s, p, LT) {
        return None;
    }
    let a = span(s, p + 1, ByteClass::MultiSpace);
    let mut i = match lifetime_decl_at(s, a) {
        None => {
            return None;
        },
        Some(b) => b,
    };
    loop
        invariant
            a < i <= s@.len(),
            lifetimes_rest(s@, lifetime_decl(s@, a as int)->0) == lifetimes_rest(s@, i as int),
            lifetime_decl(s@, a as int) is Some,
        ensures
            a < i <= s@.len(),
            lifetimes_rest(s@, lifetime_decl(s@, a as int)->0) == i,
            lifetime_decl(s@, a as int) is Some,
        decreases s@.len() - i,
    {
        let i1 = match list_sep_at(s, i) {
            None => {
                break ;
            },
            Some(i1) => i1,
        };
        match lifetime_decl_at(s, i1) {
            None => {
                break ;
            },
            Some(i2) => {
                i = i2;
            },
        }
    }
    if !has_byte(s, i, GT) {
        return None;
    }
    match crate::bytes::range_string(s, a, i) {
        None => None,
        Some(t) => Some((i + 1, t)),
    }
}

fn formal_argument_at(s: &[u8], p: usize) -> (r: Option<usize>)
    requires
        p <= s@.len(),
    ensures
        r matches Some(j) ==> spec_formal_argument(s@, p as int) == Some(j as int) && p < j
            <= s@.len() && is_text(s@, p as int, j as int),
        r is None ==> spec_formal_argument(s@, p as int) is None,
{
    proof {
        reveal(spec_formal_argument);
    }
    let n = match rust_name_at(s, p) {
        Err(_) => {
            return None;
        },
        Ok(n) => n,
    };
    let a = spacelike_at(s, n);
    if !has_byte(s, a, COLON) {
        return None;
    }
    let b = spacelike_at(s, a + 1);
    match type_expression_at(s, b) {
        Err(_) => None,
        Ok(e) => if crate::bytes::range_is_utf8(s, p, e) {
            Some(e)
        } else {
            None
        },
    }
}

fn formal_args_at(s: &[u8], p: usize) -> (r: (usize, Vec<String>))
    requires
        p <= s@.len(),
    ensures
        spec_formal_args(s@, p as int) == (r.0 as int, strings_model(r.1@)),
        p <= r.0 <= s@.len(),
{
    proof {
        reveal(spec_formal_args);
        reveal(formal_args_rest);
    }
    let mut args: Vec<String> = Vec::new();
    let q = match formal_argument_at(s, p) {
        None => {
            assert(strings_model(args@) =~= Seq::<Seq<char>>::empty());
            return (p, args);
        },
        Some(q) => q,
    };
    args.push(known_text(s, p, q));
    assert(strings_model(args@) =~= seq![range_text(s@, p as int, q as int)]);
    let mut i = q;
    loop
        invariant
            p <= i <= s@.len(),
            spec_formal_args(s@, p as int) == formal_args_rest(
                s@,
                i as int,
                strings_model(args@),
            ),
        decreases s@.len() - i,
    {
        let i1 = match list_sep_at(s, i) {
            None => {
                return (i, args);
            },
            Some(i1) => i1,
        };
        match formal_argument_at(s, i1) {
            None => {
                return (i, args);
            },
            Some(i2) => {
                let ghost before = strings_model(args@);
                args.push(known_text(s, i1, i2));
                assert(strings_model(args@) =~= before.push(
                    range_text(s@, i1 as int, i2 as int),
                ));
                i = i2;
            },
        }
    }
}

fn body_at(s: &[u8], p: usize) -> (r: Result<(usize, Vec<TemplateExpression>), ParseError>)
    requires
        p <= s@.len(),
    ensures
        match r {
            Ok((q, v)) => body_items(s@, p as int, Seq::empty()) == SpecVal::Ok(
                (q as int, exprs_model(v@)),
            ) && q <= s@.len(),
            Err(e) => body_items(s@, p as int, Seq::empty()) == SpecVal::<Seq<TExpr>>::Err(
                e.errors@,
            ),
        },
{
    proof {
        reveal(body_items);
    }
    let mut xs: Vec<TemplateExpression> = Vec::new();
    proof {
        crate::templateexpression::lemma_models_empty();
        assert(xs@ =~= Seq::<TemplateExpression>::empty());
    }
    let mut i = p;
    loop
        invariant
            p <= i <= s@.len(),
            body_items(s@, p as int, Seq::empty()) == body_items(
                s@,
                i as int,
                exprs_model(xs@),
            ),
        decreases s@.len() - i,
    {
        proof {
            reveal(body_items);
        }
        if i >= s.len() {
            return Ok((i, xs));
        }
        match template_expression_at(s, i) {
            Err(e) => {
                let e = add_err(e, i, ErrorKind::Context(ContextMsg::ErrorInExpression));
                return Err(add_err(e, i, ErrorKind::Primitive(PrimitiveKind::ManyTill)));
            },
            Ok((j, x)) => {
                proof {
                    crate::templateexpression::lemma_exprs_model_push(xs@, x);
                }
                xs.push(x);
                i = j;
            },
        }
    }
}

fn preamble_at(s: &[u8], p: usize) -> (r: (usize, Vec<String>))
    requires
        p <= s@.len(),
    ensures
        preamble_items(s@, p as int, Seq::empty()) == SpecVal::Ok(
            (r.0 as int, strings_model(r.1@)),
        ),
        p <= r.0 <= s@.len(),
{
    proof {
        reveal(preamble_items);
    }
    let mut lines: Vec<String> = Vec::new();
    assert(strings_model(lines@) =~= Seq::<Seq<char>>::empty());
    let mut i = p;
    loop
        invariant
            p <= i <= s@.len(),
            preamble_items(s@, p as int, Seq::empty()) == preamble_items(
                s@,
                i as int,
                strings_model(lines@),
            ),
        decreases s@.len() - i,
    {
        proof {
            reveal(preamble_items);
        }
        match preamble_item_at(s, i) {
            None => {
                return (i, lines);
            },
            Some((j, line)) => {
                let ghost before = strings_model(lines@);
                lines.push(line);
                assert(strings_model(lines@) =~= before.push(line@));
                i = j;
            },
        }
    }
}

fn declaration_and_body_at(s: &[u8], p1: usize, preamble: Vec<String>) -> (r: Result<
    (usize, Template),
    ParseError,
>)
    requires
        p1 < s@.len(),
    ensures
        match r {
            Ok((q, t)) => declaration_and_body(s@, p1 as int, strings_model(preamble@))
                == SpecVal::Ok((q as int, t@)) && q <= s@.len(),
            Err(e) => declaration_and_body(s@, p1 as int, strings_model(preamble@))
                == SpecVal::<TemplateModel>::Err(e.errors@),
        },
{
    let _len = s.len();
    let (p3, type_args) = match type_args_at(s, p1 + 1) {
        Some(x) => x,
        None => (p1 + 1, String::new()),
    };
    if !has_byte(s, p3, LPAREN) {
        let e = mk_err(p3, ErrorKind::Primitive(PrimitiveKind::Tag));
        return Err(add_err(e, p3, ErrorKind::Context(ContextMsg::ExpectedArgumentsDeclaration)));
    }
    let p4 = span(s, p3 + 1, ByteClass::MultiSpace);
    let (p5, args) = formal_args_at(s, p4);
    let p6 = span(s, p5, ByteClass::MultiSpace);
    if !has_byte(s, p6, RPAREN) {
        let e = mk_err(p6, ErrorKind::Primitive(PrimitiveKind::Tag));
        return Err(add_err(e, p5, ErrorKind::Context(ContextMsg::ExpectedCommaOrParen)));
    }
    let p7 = spacelike_at(s, p6 + 1);
    match body_at(s, p7) {
        Err(e) => Err(e),
        Ok((q, body)) => {
            let t = Template { preamble, type_args, args, body };
            Ok((q, t))
        },
    }
}

/// Parses a whole template.
pub fn template(input: &[u8]) -> (r: PResult<Template>)
    ensures
        r matches Ok((rest, t)) ==> spec_template(input@) matches SpecVal::Ok((q, m)) && m == t@
            && rest@ == input@.subrange(q, input@.len() as int),
        r matches Err(e) ==> spec_template(input@) == SpecVal::<TemplateModel>::Err(e.errors@),
{
    let p0 = spacelike_at(input, 0);
    let (p1, preamble) = preamble_at(input, p0);
    if !has_byte(input, p1, AT) {
        let e = mk_err(p1, ErrorKind::Primitive(PrimitiveKind::Tag));
        return Err(add_err(e, p1, ErrorKind::Context(ContextMsg::ExpectedTemplateDeclaration)));
    }
    match declaration_and_body_at(input, p1, preamble) {
        Err(e) => Err(e),
        Ok((q, t)) => Ok((vstd::slice::slice_subrange(input, q, input.len()), t)),
    }
}

/// `s` with each occurrence of `from` replaced by `to`, from left to right,
/// where occurrences do not overlap; an empty `from` occurs before each
/// character and at the end.
pub open spec fn replace_all(s: Seq<char>, from: Seq<char>, to: Seq<char>) -> Seq<char>
    decreases s.len(),
{
    if from.len() == 0 {
        if s.len() == 0 {
            to
        } else {
            to + seq![s[0]] + replace_all(s.skip(1), from, to)
        }
    } else if s.len() == 0 {
        Seq::empty()
    } else if 0 < from.len() <= s.len() && s.take(from.len() as int) == from {
        to + replace_all(s.skip(from.len() as int), from, to)
    } else {
        seq![s[0]] + replace_all(s.skip(1), from, to)
    }
}

/// The characters of a string slice.
pub(crate) fn chars_of(s: &str) -> (v: Vec<char>)
    ensures
        v@ == s@,
{
    broadcast use vstd::string::group_string_axioms;

    let mut it = s.chars();
    let mut v: Vec<char> = Vec::new();
    loop
        invariant
            v@ + vstd::std_specs::iter::IteratorSpec::remaining(&it) == s@,
            vstd::std_specs::iter::IteratorSpec::decrease(&it) is Some,
        decreases vstd::std_specs::iter::IteratorSpec::decrease(&it)->0,
    {
        match it.next() {
            Some(c) => {
                v.push(c);
            },
            None => {
                assert(v@ =~= s@);
                return v;
            },
        }
    }
}

/// Whether `from` occurs in `cs` at `i`.
fn occurs_at(cs: &Vec<char>, i: usize, from: &Vec<char>) -> (r: bool)
    requires
        i <= cs@.len(),
    ensures
        r == (from@.len() <= cs@.len() - i && cs@.skip(i as int).take(from@.len() as int)
            == from@),
{
    if from.len() > cs.len() - i {
        return false;
    }
    let mut j: usize = 0;
    while j < from.len()
        invariant
            j <= from@.len(),
            i + from@.len() <= cs@.len() <= usize::MAX,
            forall|k: int| 0 <= k < j ==> cs@[i + k] == from@[k],
        decreases from@.len() - j,
    {
        if cs[i + j] != from[j] {
            assert(cs@.skip(i as int).take(from@.len() as int)[j as int] != from@[j as int]);
            return false;
        }
        j += 1;
    }
    assert(cs@.skip(i as int).take(from@.len() as int) =~= from@);
    true
}

/// `s` with each occurrence of `from` replaced by `to`.
pub fn replace_str(s: &str, from: &str, to: &str) -> (r: String)
    ensures
        r@ == replace_all(s@, from@, to@),
{
    let cs = chars_of(s);
    let fs = chars_of(from);
    let mut r = String::new();
    let mut i: usize = 0;
    assert(cs@.skip(0) =~= cs@);
    if fs.len() == 0 {
        while i < cs.len()
            invariant
                i <= cs@.len(),
                cs@ == s@,
                from@.len() == 0,
                replace_all(s@, from@, to@) == r@ + replace_all(cs@.skip(i as int), from@, to@),
            decreases cs@.len() - i,
        {
            let ghost rest = cs@.skip(i as int);
            let ghost before = r@;
            assert(rest.skip(1) =~= cs@.skip(i + 1));
            assert(rest[0] == cs@[i as int]);
            r.append(to);
            crate::bytes::push_char(&mut r, cs[i]);
            assert(before + replace_all(rest, from@, to@) =~= r@ + replace_all(
                cs@.skip(i + 1),
                from@,
                to@,
            ));
            i = i + 1;
        }
        assert(cs@.skip(i as int) =~= Seq::<char>::empty());
        r.append(to);
        return r;
    }
    while i < cs.len()
        invariant
            i <= cs@.len(),
            cs@ == s@,
            fs@ == from@,
            fs@.len() > 0,
            replace_all(s@, from@, to@) == r@ + replace_all(cs@.skip(i as int), from@, to@),
        decreases cs@.len() - i,
    {
        let ghost rest = cs@.skip(i as int);
        let ghost before = r@;
        if occurs_at(&cs, i, &fs) {
            assert(rest.skip(fs@.len() as int) =~= cs@.skip(i + fs@.len()));
            r.append(to);
            assert(before + replace_all(rest, from@, to@) =~= r@ + replace_all(
                cs@.skip(i + fs@.len()),
                from@,
                to@,
            ));
            i = i + fs.len();
        } else {
            assert(rest.skip(1) =~= cs@.skip(i + 1));
            assert(rest[0] == cs@[i as int]);
            crate::bytes::push_char(&mut r, cs[i]);
            assert(before + replace_all(rest, from@, to@) =~= r@ + replace_all(
                cs@.skip(i + 1),
                from@,
                to@,
            ));
            i = i + 1;
        }
    }
    assert(cs@.skip(i as int) =~= Seq::<char>::empty());
    assert(r@ + Seq::<char>::empty() =~= r@);
    r
}

/// The preamble lines, each ended by `;` and a newline.
pub open spec fn preamble_code(lines: Seq<Seq<char>>) -> Seq<char>
    decreases lines.len(),
{
    if lines.len() == 0 {
        Seq::empty()
    } else {
        preamble_code(lines.drop_last()) + lines.last() + ";\n"@
    }
}

/// The formal arguments as parameters of the generated function, each on a
/// line of its own; an argument of type `Content` becomes a closure that
/// writes to the output.
pub open spec fn parameters_code(args: Seq<Seq<char>>) -> Seq<char>
    decreases args.len(),
{
    if args.len() == 0 {
        Seq::empty()
    } else {
        parameters_code(args.drop_last()) + "  "@ + replace_all(
            args.last(),
            " Content"@,
            " impl FnOnce(&mut W) -> io::Result<()>"@,
        ) + ",\n"@
    }
}

/// The Rust source of the function that a template compiles to.
pub open spec fn rust_function(t: TemplateModel, name: Seq<char>) -> Seq<char> {
    "use std::io::{self, Write};\n#[allow(clippy::useless_attribute, unused)]\nuse super::{Html,ToHtml};\n"@
        + preamble_code(t.preamble)
        + "\n#[allow(clippy::used_underscore_binding)]\npub fn "@ + name + "<"@ + t.type_args + (
    if t.type_args.len() == 0 {
        Seq::empty()
    } else {
        ", "@
    }) + "W>(\n  #[allow(unused_mut)] mut _ructe_out_: W,\n"@ + parameters_code(t.args)
        + ") -> io::Result<()>\nwhere W: Write {\n"@ + codes(t.body) + "Ok(())\n}\n"@
}

/// Writing the parameters of two lists of arguments one after the other is
/// writing the parameters of the joined list: each formal argument has its
/// own line, in order.
pub proof fn law_parameters_concat(a: Seq<Seq<char>>, b: Seq<Seq<char>>)
    ensures
        parameters_code(a + b) == parameters_code(a) + parameters_code(b),
    decreases b.len(),
{
    if b.len() == 0 {
        assert(a + b =~= a);
        assert(parameters_code(a) + Seq::<char>::empty() =~= parameters_code(a));
    } else {
        law_parameters_concat(a, b.drop_last());
        assert((a + b).drop_last() =~= a + b.drop_last());
        assert((a + b).last() == b.last());
        let line = "  "@ + replace_all(
            b.last(),
            " Content"@,
            " impl FnOnce(&mut W) -> io::Result<()>"@,
        ) + ",\n"@;
        assert(parameters_code(a) + parameters_code(b.drop_last()) + line =~= parameters_code(a)
            + (parameters_code(b.drop_last()) + line));
    }
}

/// For every template and every name, the generated function is the fixed
/// imports and the preamble, then the header line `pub fn NAME<LIFETIMES, W>(`
/// (the lifetimes, when there are any, followed by `, `), the output as first
/// parameter, one line per formal argument, the `io::Result` return type with
/// its `where W: Write` bound, the code of each body element in turn, and a
/// final `Ok(())`.
pub proof fn law_rust_function_shape(t: TemplateModel, name: Seq<char>)
    ensures
        rust_function(t, name) == "use std::io::{self, Write};\n#[allow(clippy::useless_attribute, unused)]\nuse super::{Html,ToHtml};\n"@
            + preamble_code(t.preamble) + "\n#[allow(clippy::used_underscore_binding)]\n"@ + (
        "pub fn "@ + name + "<"@ + t.type_args + (if t.type_args.len() == 0 {
            Seq::empty()
        } else {
            ", "@
        }) + "W>(\n"@) + "  #[allow(unused_mut)] mut _ructe_out_: W,\n"@ + parameters_code(t.args)
            + (") -> io::Result<()>\nwhere W: Write {\n"@ + codes(t.body) + "Ok(())\n}\n"@),
{
    let sep: Seq<char> = if t.type_args.len() == 0 {
        Seq::empty()
    } else {
        ", "@
    };
    let imports = "use std::io::{self, Write};\n#[allow(clippy::useless_attribute, unused)]\nuse super::{Html,ToHtml};\n"@;
    let attr = "\n#[allow(clippy::used_underscore_binding)]\n"@;
    let header = "pub fn "@ + name + "<"@ + t.type_args + sep + "W>(\n"@;
    let out_param = "  #[allow(unused_mut)] mut _ructe_out_: W,\n"@;
    let tail = ") -> io::Result<()>\nwhere W: Write {\n"@ + codes(t.body) + "Ok(())\n}\n"@;
    assert("\n#[allow(clippy::used_underscore_binding)]\npub fn "@ =~= attr + "pub fn "@) by {
        reveal_strlit("\n#[allow(clippy::used_underscore_binding)]\npub fn ");
        reveal_strlit("\n#[allow(clippy::used_underscore_binding)]\n");
        reveal_strlit("pub fn ");
    }
    assert("W>(\n  #[allow(unused_mut)] mut _ructe_out_: W,\n"@ =~= "W>(\n"@ + out_param) by {
        reveal_strlit("W>(\n  #[allow(unused_mut)] mut _ructe_out_: W,\n");
        reveal_strlit("W>(\n");
        reveal_strlit("  #[allow(unused_mut)] mut _ructe_out_: W,\n");
    }
    assert(rust_function(t, name) =~= imports + preamble_code(t.preamble) + attr + header
        + out_param + parameters_code(t.args) + tail);
}

impl Template {
    /// Writes the Rust function named `name` that renders this template.
    pub fn write_rust(&self, out: &mut String, name: &str)
        ensures
            final(out)@ == old(out)@ + rust_function(self@, name@),
    {
        let ghost start = out@;
        let ghost m = self@;
        out.append(
            "use std::io::{self, Write};\n#[allow(clippy::useless_attribute, unused)]\nuse super::{Html,ToHtml};\n",
        );
        let ghost head = out@;
        let mut i: usize = 0;
        assert(m.preamble.take(0) =~= Seq::<Seq<char>>::empty());
        while i < self.preamble.len()
            invariant
                i <= self.preamble@.len(),
                m == self@,
                m.preamble == strings_model(self.preamble@),
                out@ == head + preamble_code(m.preamble.take(i as int)),
            decreases self.preamble@.len() - i,
        {
            assert(m.preamble.take(i + 1).drop_last() =~= m.preamble.take(i as int));
            out.append(self.preamble[i].as_str());
            out.append(";\n");
            i += 1;
        }
        assert(m.preamble.take(self.preamble@.len() as int) =~= m.preamble);
        out.append("\n#[allow(clippy::used_underscore_binding)]\npub fn ");
        out.append(name);
        out.append("<");
        out.append(self.type_args.as_str());
        if !self.type_args.as_str().is_empty() {
            out.append(", ");
        } else {
            assert(out@ + Seq::<char>::empty() =~= out@);
        }
        out.append("W>(\n  #[allow(unused_mut)] mut _ructe_out_: W,\n");
        let ghost sig = out@;
        let mut j: usize = 0;
        assert(m.args.take(0) =~= Seq::<Seq<char>>::empty());
        while j < self.args.len()
            invariant
                j <= self.args@.len(),
                m == self@,
                m.args == strings_model(self.args@),
                out@ == sig + parameters_code(m.args.take(j as int)),
            decreases self.args@.len() - j,
        {
            assert(m.args.take(j + 1).drop_last() =~= m.args.take(j as int));
            out.append("  ");
            proof {
                reveal_strlit(" Content");
            }
            let p = replace_str(
                self.args[j].as_str(),
                " Content",
                " impl FnOnce(&mut W) -> io::Result<()>",
            );
            out.append(p.as_str());
            out.append(",\n");
            j += 1;
        }
        assert(m.args.take(self.args@.len() as int) =~= m.args);
        out.append(") -> io::Result<()>\nwhere W: Write {\n");
        let c = crate::rustcode::codes_of(&self.body);
        out.append(c.as_str());
        out.append("Ok(())\n}\n");
    }
}

} // verus!
