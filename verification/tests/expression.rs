use ructe::expression::expression;
use ructe::parseresult::show_errors;

fn check_expr(expr: &str) {
    assert_eq!(expression(expr.as_bytes()), Ok((&b""[..], expr)));
}

fn expression_error_message(input: &[u8]) -> String {
    let mut buf = String::new();
    if let Err(error) = expression(input) {
        show_errors(&mut buf, input, &error, ":");
    }
    buf
}

#[test]
fn expression_1() {
    check_expr("foo");
}
#[test]
fn expression_2() {
    check_expr("x15");
}
#[test]
fn expression_3() {
    check_expr("a_b_c");
}
#[test]
fn expression_4() {
    check_expr("foo.bar");
}
#[test]
fn expression_5() {
    check_expr("foo.bar.baz");
}
#[test]
fn expression_6() {
    check_expr("(!foo.is_empty())");
}
#[test]
fn expression_7() {
    check_expr("foo(x, a.b.c(), d)");
}
#[test]
fn expression_8() {
    check_expr("foo(&\"x\").bar");
}
#[test]
fn expression_9() {
    check_expr("foo().bar(x).baz");
}
#[test]
fn expression_str() {
    check_expr("\"foo\"");
}
#[test]
fn expression_str_paren() {
    check_expr("(\")\")");
}
#[test]
fn expression_str_quoted() {
    check_expr("\"line 1\\nline\\t2\"");
}
#[test]
fn expression_str_quoted_unicode() {
    check_expr("\"Snowman: \\u{2603}\"");
}
#[test]
fn expression_enum_variant() {
    check_expr("MyEnum::Variant.method()");
}
#[test]
fn expression_str_with_escaped_quotes() {
    check_expr("\"Hello \\\"world\\\"\"");
}
#[test]
fn expression_slice() {
    check_expr("&[foo, bar]");
}
#[test]
fn expression_slice_empty() {
    check_expr("&[]");
}
#[test]
fn expression_number() {
    check_expr("42");
}
#[test]
fn expression_with_comment() {
    check_expr("(42 /* truly important number */)");
}
#[test]
fn expression_with_comment_a() {
    check_expr("(42 /* \" */)");
}
#[test]
fn expression_with_comment_b() {
    check_expr("(42 /* ) */)");
}
#[test]
fn expression_arithemtic_in_parens() {
    check_expr("(2 + 3*4 - 5/2)");
}

#[test]
fn non_expression_a() {
    assert_eq!(
        expression_error_message(b".foo"),
        ":   1:.foo\n\
         :     ^ Expected rust expression\n"
    );
}
#[test]
fn non_expression_b() {
    assert_eq!(
        expression_error_message(b" foo"),
        ":   1: foo\n\
         :     ^ Expected rust expression\n"
    );
}
#[test]
fn non_expression_c() {
    assert_eq!(
        expression_error_message(b"(missing end"),
        ":   1:(missing end\n\
         :     ^ Expected rust expression\n"
    );
}

#[test]
fn expression_stops_before_operator() {
    assert_eq!(expression(b"a + b"), Ok((&b" + b"[..], "a")));
}

#[test]
fn expression_macro_call() {
    assert_eq!(expression(b"format!(\"{}\", x) rest"), Ok((&b" rest"[..], "format!(\"{}\", x)")));
}

#[test]
fn expression_deref_and_index() {
    assert_eq!(expression(b"*items[2].name;"), Ok((&b";"[..], "*items[2].name")));
}
