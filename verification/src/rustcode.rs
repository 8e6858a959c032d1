//! The Rust code that template elements compile to.
//!
//! Each element writes to a writer named `_ructe_out_`: text as a byte
//! string literal, expressions through `ToHtml`, and the control structures
//! as the matching Rust statements around the code of their bodies.
use crate::templateexpression::{
    expr_model, exprs_model, TArg, TExpr, TemplateArgument, TemplateExpression,
};
use vstd::prelude::*;
use vstd::utf8::is_ascii_chars;

verus! {

/// What `format!("{:?}", s)` gives for a string slice `s`: a quoted Rust
/// string literal that denotes `s`.
pub uninterp spec fn rust_debug_str(s: Seq<char>) -> Seq<char>;

/// `<str as Debug>::fmt`, through `format!("{:?}", ..)`: the result is named
/// `rust_debug_str` of the characters of `s`; nothing more is stated of it.
#[verifier::external_body]
pub(crate) fn debug_str(s: &str) -> (r: String)
    ensures
        r@ == rust_debug_str(s@),
{
    format!("{:?}", s)
}

/// The statement that writes a text, given the text as a string literal:
/// as a byte string when the text is ASCII, else through `as_bytes`.
pub open spec fn text_code(ascii: bool, literal: Seq<char>) -> Seq<char> {
    if ascii {
        "_ructe_out_.write_all(b"@ + literal + ")?;\n"@
    } else {
        "_ructe_out_.write_all("@ + literal + ".as_bytes())?;\n"@
    }
}

/// The code of one template element.
pub open spec fn spec_code(e: TExpr) -> Seq<char>
    decreases e,
{
    match e {
        TExpr::Comment => Seq::empty(),
        TExpr::Text(t) => text_code(is_ascii_chars(t), rust_debug_str(t)),
        TExpr::Expression(x) => x + ".to_html(_ructe_out_.by_ref())?;\n"@,
        TExpr::ForLoop(name, x, body) => "for "@ + name + " in "@ + x + " {\n"@ + codes(body)
            + "}\n"@,
        TExpr::IfBlock(x, body, else_body) => "if "@ + x + " {\n"@ + codes(body) + "}"@
            + match else_body {
            Some(eb) => if eb.len() == 1 && eb[0] is IfBlock {
                " else "@ + spec_code(eb[0])
            } else {
                " else {\n"@ + codes(eb) + "}"@
            },
            None => Seq::empty(),
        } + "\n"@,
        TExpr::MatchBlock(x, arms) => "match "@ + x + " {"@ + arms_code(arms) + "}\n"@,
        TExpr::CallTemplate(name, args) => name + "(_ructe_out_.by_ref()"@ + args_code(args)
            + ")?;\n"@,
    }
}

/// The code of a sequence of elements, one after the other.
pub open spec fn codes(v: Seq<TExpr>) -> Seq<char>
    decreases v,
{
    if v.len() == 0 {
        Seq::empty()
    } else {
        proof {
            assert(decreases_to!(v => v.subrange(0, v.len() - 1)));
        }
        codes(v.drop_last()) + spec_code(v.last())
    }
}

/// The arms of a `match`, each on a line of its own.
pub open spec fn arms_code(arms: Seq<(Seq<char>, Seq<TExpr>)>) -> Seq<char>
    decreases arms,
{
    if arms.len() == 0 {
        Seq::empty()
    } else {
        proof {
            assert(decreases_to!(arms => arms.subrange(0, arms.len() - 1)));
            assert(decreases_to!(arms => arms[arms.len() - 1]));
        }
        arms_code(arms.drop_last()) + "\n  "@ + arms.last().0 + " => {\n"@ + codes(arms.last().1)
            + "}"@
    }
}

/// The arguments of a template call, each after `, `.
pub open spec fn args_code(args: Seq<TArg>) -> Seq<char>
    decreases args,
{
    if args.len() == 0 {
        Seq::empty()
    } else {
        proof {
            assert(decreases_to!(args => args.subrange(0, args.len() - 1)));
        }
        args_code(args.drop_last()) + ", "@ + arg_text(args.last())
    }
}

/// How an argument of a template call is written: a Rust expression as it
/// is, a body as a closure that writes it.
pub open spec fn arg_text(a: TArg) -> Seq<char>
    decreases a,
{
    match a {
        TArg::Rust(s) => s,
        TArg::Body(v) => if v.len() == 0 {
            "|_| Ok(())"@
        } else {
            "#[allow(clippy::used_underscore_binding)] |mut _ructe_out_| {\n"@ + codes(v)
                + "\nOk(())\n}\n"@
        },
    }
}

/// The statement that writes a text, from the text quoted as a string
/// literal and whether the text is ASCII.
pub fn text_write_code(ascii: bool, literal: &str) -> (r: String)
    ensures
        r@ == text_code(ascii, literal@),
{
    if ascii {
        let mut r = String::from_str("_ructe_out_.write_all(b");
        r.append(literal);
        r.append(")?;\n");
        r
    } else {
        let mut r = String::from_str("_ructe_out_.write_all(");
        r.append(literal);
        r.append(".as_bytes())?;\n");
        r
    }
}

pub(crate) fn codes_of(v: &Vec<TemplateExpression>) -> (r: String)
    ensures
        r@ == codes(exprs_model(v@)),
    decreases v,
{
    let ghost ms = exprs_model(v@);
    let mut r = String::new();
    let mut i: usize = 0;
    assert(ms.take(0) =~= Seq::<TExpr>::empty());
    while i < v.len()
        invariant
            i <= v@.len(),
            ms == exprs_model(v@),
            r@ == codes(ms.take(i as int)),
        decreases v@.len() - i,
    {
        proof {
            assert(decreases_to!(v => v@));
            assert(decreases_to!(v@ => v@[i as int]));
            assert(ms.take(i + 1).drop_last() =~= ms.take(i as int));
        }
        let c = v[i].code();
        r.append(c.as_str());
        i += 1;
    }
    assert(ms.take(v@.len() as int) =~= ms);
    r
}

fn arms_code_of(arms: &Vec<(String, Vec<TemplateExpression>)>) -> (r: String)
    ensures
        r@ == arms_code(crate::templateexpression::arms_model(arms@)),
    decreases arms,
{
    let ghost ms = crate::templateexpression::arms_model(arms@);
    let mut r = String::new();
    let mut i: usize = 0;
    assert(ms.take(0) =~= Seq::<(Seq<char>, Seq<TExpr>)>::empty());
    while i < arms.len()
        invariant
            i <= arms@.len(),
            ms == crate::templateexpression::arms_model(arms@),
            r@ == arms_code(ms.take(i as int)),
        decreases arms@.len() - i,
    {
        proof {
            assert(decreases_to!(arms => arms@));
            assert(decreases_to!(arms@ => arms@[i as int]));
            assert(decreases_to!(arms@[i as int] => arms@[i as int].1));
            assert(ms.take(i + 1).drop_last() =~= ms.take(i as int));
        }
        let (pat, body) = &arms[i];
        r.append("\n  ");
        r.append(pat.as_str());
        r.append(" => {\n");
        let c = codes_of(body);
        r.append(c.as_str());
        r.append("}");
        i += 1;
    }
    assert(ms.take(arms@.len() as int) =~= ms);
    r
}

fn args_code_of(args: &Vec<TemplateArgument>) -> (r: String)
    ensures
        r@ == args_code(crate::templateexpression::args_model(args@)),
    decreases args,
{
    let ghost ms = crate::templateexpression::args_model(args@);
    let mut r = String::new();
    let mut i: usize = 0;
    assert(ms.take(0) =~= Seq::<TArg>::empty());
    while i < args.len()
        invariant
            i <= args@.len(),
            ms == crate::templateexpression::args_model(args@),
            r@ == args_code(ms.take(i as int)),
        decreases args@.len() - i,
    {
        proof {
            assert(decreases_to!(args => args@));
            assert(decreases_to!(args@ => args@[i as int]));
            assert(ms.take(i + 1).drop_last() =~= ms.take(i as int));
        }
        r.append(", ");
        let c = args[i].to_string();
        r.append(c.as_str());
        i += 1;
    }
    assert(ms.take(args@.len() as int) =~= ms);
    r
}

impl TemplateArgument {
    /// The argument as it is written in a call: a Rust expression as it is,
    /// a body as a closure that writes it.
    pub fn to_string(&self) -> (r: String)
        ensures
            r@ == arg_text(self@),
        decreases self,
    {
        proof {
            crate::templateexpression::lemma_arg_model(*self);
        }
        match self {
            TemplateArgument::Rust(s) => s.clone(),
            TemplateArgument::Body(v) => {
                if v.len() == 0 {
                    String::from_str("|_| Ok(())")
                } else {
                    let mut r = String::from_str(
                        "#[allow(clippy::used_underscore_binding)] |mut _ructe_out_| {\n",
                    );
                    let c = codes_of(v);
                    r.append(c.as_str());
                    r.append("\nOk(())\n}\n");
                    r
                }
            },
        }
    }
}

impl TemplateExpression {
    /// A text element.
    pub fn text(text: &str) -> (r: Self)
        ensures
            r@ == TExpr::Text(text@),
    {
        let r = TemplateExpression::Text { text: String::from_str(text) };
        proof {
            crate::templateexpression::lemma_expr_model(r);
        }
        r
    }

    /// The Rust code that writes this element to `_ructe_out_`.
    pub fn code(&self) -> (r: String)
        ensures
            r@ == spec_code(self@),
        decreases self,
    {
        proof {
            crate::templateexpression::lemma_expr_model(*self);
        }
        match self {
            TemplateExpression::Comment => String::new(),
            TemplateExpression::Text { text } => {
                let literal = debug_str(text.as_str());
                text_write_code(text.as_str().is_ascii(), literal.as_str())
            },
            TemplateExpression::Expression { expr } => {
                let mut r = expr.clone();
                r.append(".to_html(_ructe_out_.by_ref())?;\n");
                r
            },
            TemplateExpression::ForLoop { name, expr, body } => {
                let mut r = String::from_str("for ");
                r.append(name.as_str());
                r.append(" in ");
                r.append(expr.as_str());
                r.append(" {\n");
                let c = codes_of(body);
                r.append(c.as_str());
                r.append("}\n");
                r
            },
            TemplateExpression::IfBlock { expr, body, else_body } => {
                let mut r = String::from_str("if ");
                r.append(expr.as_str());
                r.append(" {\n");
                let c = codes_of(body);
                r.append(c.as_str());
                r.append("}");
                match else_body {
                    Some(eb) => {
                        proof {
                            assert(exprs_model(eb@).len() == eb@.len());
                        }
                        if eb.len() == 1 && eb[0].is_if_block() {
                            proof {
                                assert(exprs_model(eb@)[0] == expr_model(eb@[0]));
                                assert(decreases_to!(eb => eb@));
                                assert(decreases_to!(eb@ => eb@[0]));
                            }
                            r.append(" else ");
                            let c = eb[0].code();
                            r.append(c.as_str());
                        } else {
                            proof {
                                if eb@.len() == 1 {
                                    assert(exprs_model(eb@)[0] == expr_model(eb@[0]));
                                }
                            }
                            r.append(" else {\n");
                            let c = codes_of(eb);
                            r.append(c.as_str());
                            r.append("}");
                        }
                    },
                    None => {},
                }
                r.append("\n");
                r
            },
            TemplateExpression::MatchBlock { expr, arms } => {
                let mut r = String::from_str("match ");
                r.append(expr.as_str());
                r.append(" {");
                let c = arms_code_of(arms);
                r.append(c.as_str());
                r.append("}\n");
                r
            },
            TemplateExpression::CallTemplate { name, args } => {
                let mut r = name.clone();
                r.append("(_ructe_out_.by_ref()");
                let c = args_code_of(args);
                r.append(c.as_str());
                r.append(")?;\n");
                r
            },
        }
    }

    /// Whether this is an `@if` block.
    pub fn is_if_block(&self) -> (r: bool)
        ensures
            r == (self@ is IfBlock),
    {
        proof {
            crate::templateexpression::lemma_expr_model(*self);
        }
        match self {
            TemplateExpression::IfBlock { .. } => true,
            _ => false,
        }
    }
}

} // verus!
