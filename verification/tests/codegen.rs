use ructe::errors::{def_error, get_error, ErrorRegistry};
use ructe::parseresult::{get_message, show_errors, ContextMsg, ErrorEntry, ErrorKind, PrimitiveKind, ParseError};
use ructe::rustcode::text_write_code;
use ructe::template::{replace_str, template};
use ructe::templateexpression::{TemplateArgument, TemplateExpression};

#[test]
fn text_code_ascii_and_not() {
    assert_eq!(
        TemplateExpression::text("Hi \"you\"\n").code(),
        "_ructe_out_.write_all(b\"Hi \\\"you\\\"\\n\")?;\n"
    );
    assert_eq!(
        TemplateExpression::text("snö").code(),
        "_ructe_out_.write_all(\"snö\".as_bytes())?;\n"
    );
    assert_eq!(text_write_code(true, "\"x\""), "_ructe_out_.write_all(b\"x\")?;\n");
}

#[test]
fn expression_and_comment_code() {
    assert_eq!(
        TemplateExpression::Expression { expr: "x.y".to_string() }.code(),
        "x.y.to_html(_ructe_out_.by_ref())?;\n"
    );
    assert_eq!(TemplateExpression::Comment.code(), "");
}

#[test]
fn control_structures_code() {
    let for_loop = TemplateExpression::ForLoop {
        name: "x".to_string(),
        expr: "xs".to_string(),
        body: vec![TemplateExpression::Expression { expr: "x".to_string() }],
    };
    assert_eq!(for_loop.code(), "for x in xs {\nx.to_html(_ructe_out_.by_ref())?;\n}\n");

    let chained = TemplateExpression::IfBlock {
        expr: "a".to_string(),
        body: vec![],
        else_body: Some(vec![TemplateExpression::IfBlock {
            expr: "b".to_string(),
            body: vec![],
            else_body: Some(vec![TemplateExpression::Comment]),
        }]),
    };
    assert_eq!(chained.code(), "if a {\n} else if b {\n} else {\n}\n\n");

    let matched = TemplateExpression::MatchBlock {
        expr: "v".to_string(),
        arms: vec![("1".to_string(), vec![]), ("_".to_string(), vec![])],
    };
    assert_eq!(matched.code(), "match v {\n  1 => {\n}\n  _ => {\n}}\n");
}

#[test]
fn call_code() {
    let call = TemplateExpression::CallTemplate {
        name: "page".to_string(),
        args: vec![
            TemplateArgument::Rust("t".to_string()),
            TemplateArgument::Body(vec![]),
            TemplateArgument::Body(vec![TemplateExpression::Expression { expr: "b".to_string() }]),
        ],
    };
    assert_eq!(
        call.code(),
        "page(_ructe_out_.by_ref(), t, |_| Ok(()), #[allow(clippy::used_underscore_binding)] |mut _ructe_out_| {\nb.to_html(_ructe_out_.by_ref())?;\n\nOk(())\n}\n)?;\n"
    );
}

#[test]
fn whole_template_to_rust() {
    let src = b"@use foo::Bar;\n@(title: &str, body: Content)\n<h1>@title</h1>";
    let (rest, t) = template(src).unwrap();
    assert!(rest.is_empty());
    let mut out = String::new();
    t.write_rust(&mut out, "page_html");
    assert_eq!(
        out,
        "use std::io::{self, Write};\n\
         #[allow(clippy::useless_attribute, unused)]\n\
         use super::{Html,ToHtml};\n\
         use foo::Bar;\n\
         \n\
         #[allow(clippy::used_underscore_binding)]\n\
         pub fn page_html<W>(\n  #[allow(unused_mut)] mut _ructe_out_: W,\n\
         \x20 title: &str,\n\
         \x20 body: impl FnOnce(&mut W) -> io::Result<()>,\n\
         ) -> io::Result<()>\n\
         where W: Write {\n\
         _ructe_out_.write_all(b\"<h1>\")?;\n\
         title.to_html(_ructe_out_.by_ref())?;\n\
         _ructe_out_.write_all(b\"</h1>\")?;\n\
         Ok(())\n}\n"
    );
}

#[test]
fn template_with_lifetimes() {
    let (_, t) = template(b"@<'a, 'b>(x: &'a u8)").unwrap();
    let mut out = String::new();
    t.write_rust(&mut out, "t");
    assert!(out.contains("pub fn t<'a, 'b, W>(\n"));
    assert!(out.contains("  x: &'a u8,\n"));
}

#[test]
fn template_declaration_missing() {
    let src = b"hello";
    let mut msg = String::new();
    if let Err(e) = template(src) {
        show_errors(&mut msg, src, &e, "");
    }
    assert_eq!(msg, "   1:hello\n     ^ expected '@('...')' template declaration.\n");
}

#[test]
fn template_bad_argument_list() {
    let src = b"@(a: u8 b)";
    let mut msg = String::new();
    if let Err(e) = template(src) {
        show_errors(&mut msg, src, &e, "> ");
    }
    assert_eq!(msg, ">    1:@(a: u8 b)\n>             ^ expected ',' or ')'.\n");
}

#[test]
fn template_body_error_on_second_line() {
    let src = b"@()\nok\n@if { x }";
    let mut msg = String::new();
    if let Err(e) = template(src) {
        show_errors(&mut msg, src, &e, "");
    }
    assert!(msg.starts_with("   3:@if { x }\n     ^ Error in expression starting here:\n"));
}

#[test]
fn messages() {
    assert_eq!(get_message(&ErrorKind::Primitive(PrimitiveKind::Tag)), None);
    assert_eq!(
        get_message(&ErrorKind::Context(ContextMsg::ExpectedIn)),
        Some("Expected \"in\"".to_string())
    );
    assert_eq!(get_message(&ErrorKind::Char('(')), Some("Expected '('".to_string()));
}

#[test]
fn replace_content() {
    assert_eq!(replace_str("a Content, b Content", " Content", "X"), "aX, bX");
    assert_eq!(replace_str("nothing", " Content", "X"), "nothing");
}

#[test]
fn registry_gives_back_messages() {
    let mut r = ErrorRegistry::new();
    let a = def_error(&mut r, "first");
    let b = def_error(&mut r, "second");
    assert_eq!((a, b), (0, 1));
    assert_eq!(get_error(&r, a), Some("first".to_string()));
    assert_eq!(get_error(&r, b), Some("second".to_string()));
    assert_eq!(get_error(&r, 2), None);
}

fn element_errors(input: &[u8]) -> String {
    let mut msg = String::new();
    if let Err(e) = ructe::templateexpression::template_expression(input) {
        show_errors(&mut msg, input, &e, "");
    }
    msg
}

#[test]
fn each_context_message_appears() {
    assert!(element_errors(b"@for x in { }").contains("Expected iterable expression"));
    let block = element_errors(b"@for x in xs y");
    assert!(block.contains("Error in loop block:") && block.contains("Expected '{'"));
    assert!(element_errors(b"@match { }").contains("Error in match expression:"));
    assert!(element_errors(b"@match x { y }").contains("Error in match arm starting here:"));
    let var = element_errors(b"@for { }");
    assert!(var.contains("Expected loop variable name or destructuring tuple") && var.contains("Expected '('"));
    assert!(element_errors(b"@if let = x { }").contains("Expected LHS expression in let binding"));
    assert!(element_errors(b"@if let x = { }").contains("Expected RHS expression in let binding"));
    let src = b"@use x;\n@x";
    let mut msg = String::new();
    if let Err(e) = template(src) {
        show_errors(&mut msg, src, &e, "");
    }
    assert_eq!(msg, "   2:@x\n      ^ expected '('...')' template arguments declaration.\n");
}

#[test]
fn type_expression_error_entries() {
    assert_eq!(
        ructe::template::type_expression(b"<x>"),
        Err(ParseError {
            errors: vec![
                ErrorEntry { pos: 0, kind: ErrorKind::Primitive(PrimitiveKind::Tag) },
                ErrorEntry { pos: 0, kind: ErrorKind::Primitive(PrimitiveKind::Alt) },
                ErrorEntry { pos: 0, kind: ErrorKind::Context(ContextMsg::ExpectedTypeExpression) },
            ],
        })
    );
}

#[test]
fn unknown_escape_in_string_is_an_error() {
    assert!(ructe::expression::quoted_string(b"\"a\\qb\"").is_err());
    assert_eq!(ructe::expression::quoted_string(b"\"a\\nb\" x"), Ok((&b" x"[..], "\"a\\nb\"")));
}

#[test]
fn rust_comment_value_is_inside() {
    assert_eq!(ructe::expression::rust_comment(b"/* hi */x"), Ok((&b"x"[..], &b" hi "[..])));
}

#[test]
fn line_numbers_are_right_aligned() {
    let mut src = b"@()\n".to_vec();
    for _ in 0..10 {
        src.extend_from_slice(b"line\n");
    }
    src.extend_from_slice(b"  @if { x }");
    let mut msg = String::new();
    if let Err(e) = template(&src) {
        show_errors(&mut msg, &src, &e, "");
    }
    assert!(msg.starts_with("  12:  @if { x }\n       ^ Error in expression starting here:\n"));
}

#[test]
fn empty_template_body() {
    let (rest, t) = template(b"@()").unwrap();
    assert!(rest.is_empty());
    let mut out = String::new();
    t.write_rust(&mut out, "e");
    assert!(out.ends_with("pub fn e<W>(\n  #[allow(unused_mut)] mut _ructe_out_: W,\n) -> io::Result<()>\nwhere W: Write {\nOk(())\n}\n"));
}

#[test]
fn empty_element_input_is_an_error() {
    assert_eq!(
        ructe::templateexpression::template_expression(b""),
        Err(ParseError { errors: vec![ErrorEntry { pos: 0, kind: ErrorKind::Primitive(PrimitiveKind::IsNot) }] })
    );
}

#[test]
fn replace_with_empty_pattern() {
    assert_eq!(replace_str("abc", "", "-"), "-a-b-c-");
    assert_eq!(replace_str("", "", "x"), "x");
    assert_eq!(replace_str("", "a", "x"), "");
}

#[test]
fn content_argument_header_and_tail() {
    let (_, t) = template(b"@(body: Content)\n<p>@:body()</p>\n").unwrap();
    let mut s = String::new();
    t.write_rust(&mut s, "p_html");
    assert!(s.contains("pub fn p_html<W>(\n  #[allow(unused_mut)] mut _ructe_out_: W,\n  body: impl FnOnce(&mut W) -> io::Result<()>,\n) -> io::Result<()>\nwhere W: Write {\n"));
    assert!(s.ends_with("Ok(())\n}\n"));
    let (_, t) = template(b"@<'a>(title: &'a str, body: Content)\nx").unwrap();
    let mut s = String::new();
    t.write_rust(&mut s, "q_html");
    assert!(s.contains("pub fn q_html<'a, W>(\n  #[allow(unused_mut)] mut _ructe_out_: W,\n  title: &'a str,\n  body: impl FnOnce(&mut W) -> io::Result<()>,\n) -> io::Result<()>\n"));
}
