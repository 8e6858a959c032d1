use ructe::template::{comma_type_expressions, type_expression};

fn check_type_expr(expr: &str) {
    assert_eq!(type_expression(expr.as_bytes()), Ok((&b""[..], ())));
}

#[test]
fn tuple() {
    check_type_expr("(Foo, Bar)");
}

#[test]
fn unspaced_tuple() {
    check_type_expr("(Foo,Bar)");
}

#[test]
fn tuple_with_trailing() {
    check_type_expr("(Foo,Bar,)");
}

#[test]
fn generic() {
    check_type_expr("HashMap<Foo, Bar>");
}

#[test]
fn unspaced_generic() {
    check_type_expr("HashMap<Foo,Bar>");
}

#[test]
fn generic_with_trailing() {
    check_type_expr("Vec<Foo,>");
}

#[test]
fn generic_with_lifetime() {
    check_type_expr("SomeTypeWithRef<'a>");
}

#[test]
fn generic_with_anonymous_lifetime() {
    check_type_expr("SomeTypeWithRef<'_>");
}

#[test]
fn multiword_constant() {
    check_type_expr("ONE_TWO_THREE");
}

#[test]
fn reference_slice_and_impl() {
    check_type_expr("&'a [u8]");
    check_type_expr("&dyn Display");
    check_type_expr("impl Iterator<Item>");
}

#[test]
fn type_expression_error() {
    assert!(type_expression(b"<x>").is_err());
}

#[test]
fn comma_types_stop() {
    assert_eq!(comma_type_expressions(b"A, B<C>, 'a, )"), Ok((&b")"[..], ())));
    assert_eq!(comma_type_expressions(b")"), Ok((&b")"[..], ())));
}
