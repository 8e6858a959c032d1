use ructe::parseresult::show_errors;
use ructe::templateexpression::{cond_expression, for_variable, template_expression, TemplateArgument, TemplateExpression};

fn expression_error(input: &[u8]) -> String {
    let mut buf = String::new();
    if let Err(error) = template_expression(input) {
        show_errors(&mut buf, input, &error, ":");
    }
    buf
}

#[test]
fn for_variable_simple() {
    assert_eq!(for_variable(b"foo").unwrap(), (&b""[..], "foo".to_string()))
}

#[test]
fn for_variable_tuple() {
    assert_eq!(for_variable(b"(foo, bar)").unwrap(), (&b""[..], "(foo, bar)".to_string()))
}

#[test]
fn for_variable_tuple_ref() {
    assert_eq!(for_variable(b"&(foo, bar)").unwrap(), (&b""[..], "&(foo, bar)".to_string()))
}

#[test]
fn for_variable_struct() {
    assert_eq!(
        for_variable(b"MyStruct{foo, bar}").unwrap(),
        (&b""[..], "MyStruct{foo, bar}".to_string())
    )
}

#[test]
fn call_simple() {
    assert_eq!(
        template_expression(b"@foo()"),
        Ok((&b""[..], TemplateExpression::Expression { expr: "foo()".to_string() },))
    )
}

#[test]
fn call_empty_str() {
    assert_eq!(
        template_expression(b"@foo(\"\")"),
        Ok((&b""[..], TemplateExpression::Expression { expr: "foo(\"\")".to_string() },))
    )
}

#[test]
fn if_boolean_var() {
    assert_eq!(
        template_expression(b"@if cond { something }"),
        Ok((
            &b""[..],
            TemplateExpression::IfBlock {
                expr: "cond".to_string(),
                body: vec![TemplateExpression::text(" something ")],
                else_body: None,
            }
        ))
    )
}

#[test]
fn if_let() {
    assert_eq!(
        template_expression(b"@if let Some(x) = x { something }"),
        Ok((
            &b""[..],
            TemplateExpression::IfBlock {
                expr: "let Some(x) = x".to_string(),
                body: vec![TemplateExpression::text(" something ")],
                else_body: None,
            }
        ))
    )
}

#[test]
fn if_let_2() {
    assert_eq!(
        template_expression(b"@if let Some((x, y)) = x { something }"),
        Ok((
            &b""[..],
            TemplateExpression::IfBlock {
                expr: "let Some((x, y)) = x".to_string(),
                body: vec![TemplateExpression::text(" something ")],
                else_body: None,
            }
        ))
    )
}

#[test]
fn if_let_3() {
    assert_eq!(
        template_expression(b"@if let Some(p) = Uri::borrow_from(&state) { something }"),
        Ok((
            &b""[..],
            TemplateExpression::IfBlock {
                expr: "let Some(p) = Uri::borrow_from(&state)".to_string(),
                body: vec![TemplateExpression::text(" something ")],
                else_body: None,
            }
        ))
    )
}

#[test]
fn if_let_struct() {
    assert_eq!(
        template_expression(b"@if let Struct{x, y} = variable { something }"),
        Ok((
            &b""[..],
            TemplateExpression::IfBlock {
                expr: "let Struct{x, y} = variable".to_string(),
                body: vec![TemplateExpression::text(" something ")],
                else_body: None,
            }
        ))
    )
}

#[test]
fn if_compare() {
    assert_eq!(
        template_expression(b"@if x == 17 { something }"),
        Ok((
            &b""[..],
            TemplateExpression::IfBlock {
                expr: "x == 17".to_string(),
                body: vec![TemplateExpression::text(" something ")],
                else_body: None,
            }
        ))
    )
}

#[test]
fn if_compare_empty_string() {
    assert_eq!(
        template_expression(b"@if x == \"\" { something }"),
        Ok((
            &b""[..],
            TemplateExpression::IfBlock {
                expr: "x == \"\"".to_string(),
                body: vec![TemplateExpression::text(" something ")],
                else_body: None,
            }
        ))
    )
}

#[test]
fn if_complex_logig() {
    assert_eq!(
        template_expression(b"@if x == 17 || y && z() { something }"),
        Ok((
            &b""[..],
            TemplateExpression::IfBlock {
                expr: "x == 17 || y && z()".to_string(),
                body: vec![TemplateExpression::text(" something ")],
                else_body: None,
            }
        ))
    )
}

#[test]
fn if_missing_conditional() {
    assert_eq!(
        expression_error(b"@if { oops }"),
        ":   1:@if { oops }\n\
         :         ^ Error in conditional expression:\n\
         :   1:@if { oops }\n\
         :         ^ Expected expression\n\
         :   1:@if { oops }\n\
         :         ^ Expected rust expression\n"
    )
}

#[test]
fn if_bad_let() {
    assert_eq!(
        expression_error(b"@if let foo { oops }"),
        ":   1:@if let foo { oops }\n\
         :         ^ Error in conditional expression:\n\
         :   1:@if let foo { oops }\n\
         :                 ^ Expected \'=\'\n"
    )
}

#[test]
fn for_in_struct() {
    assert_eq!(
        template_expression(b"@for Struct{x, y} in structs { something }"),
        Ok((
            &b""[..],
            TemplateExpression::ForLoop {
                name: "Struct{x, y}".to_string(),
                expr: "structs".to_string(),
                body: vec![TemplateExpression::text(" something ")],
            }
        ))
    )
}

#[test]
fn for_missing_in() {
    assert_eq!(
        expression_error(b"@for what ever { hello }"),
        ":   1:@for what ever { hello }\n\
         :               ^ Expected \"in\"\n"
    )
}

#[test]
fn text_until_special() {
    assert_eq!(
        template_expression(b"Hello, {x}"),
        Ok((&b"{x}"[..], TemplateExpression::text("Hello, ")))
    );
}

#[test]
fn escaped_specials() {
    assert_eq!(template_expression(b"@@x"), Ok((&b"x"[..], TemplateExpression::text("@"))));
    assert_eq!(template_expression(b"@{"), Ok((&b""[..], TemplateExpression::text("{"))));
    assert_eq!(template_expression(b"@}"), Ok((&b""[..], TemplateExpression::text("}"))));
}

#[test]
fn comment_element() {
    assert_eq!(template_expression(b"@* note *@rest"), Ok((&b"rest"[..], TemplateExpression::Comment)));
}

#[test]
fn parenthesized_expression() {
    assert_eq!(
        template_expression(b"@(a + b)!"),
        Ok((&b"!"[..], TemplateExpression::Expression { expr: "(a + b)".to_string() }))
    );
}

#[test]
fn if_else_if_else() {
    assert_eq!(
        template_expression(b"@if a { x } else if b { y } else { z }"),
        Ok((
            &b""[..],
            TemplateExpression::IfBlock {
                expr: "a".to_string(),
                body: vec![TemplateExpression::text(" x ")],
                else_body: Some(vec![TemplateExpression::IfBlock {
                    expr: "b".to_string(),
                    body: vec![TemplateExpression::text(" y ")],
                    else_body: Some(vec![TemplateExpression::text(" z ")]),
                }]),
            }
        ))
    );
}

#[test]
fn match_with_arms() {
    assert_eq!(
        template_expression(b"@match x { Some(y) => { @y } None => { none } }"),
        Ok((
            &b""[..],
            TemplateExpression::MatchBlock {
                expr: "x".to_string(),
                arms: vec![
                    (
                        "Some(y)".to_string(),
                        vec![
                            TemplateExpression::text(" "),
                            TemplateExpression::Expression { expr: "y".to_string() },
                            TemplateExpression::text(" "),
                        ]
                    ),
                    ("None".to_string(), vec![TemplateExpression::text(" none ")]),
                ],
            }
        ))
    );
}

#[test]
fn call_template_with_arguments() {
    assert_eq!(
        template_expression(b"@:page(title, {<p>@body</p>})"),
        Ok((
            &b""[..],
            TemplateExpression::CallTemplate {
                name: "page".to_string(),
                args: vec![
                    TemplateArgument::Rust("title".to_string()),
                    TemplateArgument::Body(vec![
                        TemplateExpression::text("<p>"),
                        TemplateExpression::Expression { expr: "body".to_string() },
                        TemplateExpression::text("</p>"),
                    ]),
                ],
            }
        ))
    );
}

#[test]
fn for_range() {
    assert_eq!(
        template_expression(b"@for i in 0..=n {@i}"),
        Ok((
            &b""[..],
            TemplateExpression::ForLoop {
                name: "i".to_string(),
                expr: "0..=n".to_string(),
                body: vec![TemplateExpression::Expression { expr: "i".to_string() }],
            }
        ))
    );
}

#[test]
fn unclosed_block_is_error() {
    assert!(template_expression(b"@if a { x ").is_err());
}

#[test]
fn expression_ends_before_operator() {
    assert_eq!(
        template_expression(b"@a+3 is"),
        Ok((&b"+3 is"[..], TemplateExpression::Expression { expr: "a".to_string() }))
    );
}

#[test]
fn expression_ends_before_trailing_dot() {
    assert_eq!(
        template_expression(b"@arg.</p>"),
        Ok((&b".</p>"[..], TemplateExpression::Expression { expr: "arg".to_string() }))
    );
    assert_eq!(
        template_expression(b"@arg.len()</p>"),
        Ok((&b"</p>"[..], TemplateExpression::Expression { expr: "arg.len()".to_string() }))
    );
}

#[test]
fn parenthesized_expression_ends_at_its_paren() {
    assert_eq!(
        template_expression(b"@(arg).len()"),
        Ok((&b".len()"[..], TemplateExpression::Expression { expr: "(arg)".to_string() }))
    );
}

#[test]
fn condition_beginning_with_let_letters() {
    assert_eq!(cond_expression(b"letter {"), Ok((&b" {"[..], "letter".to_string())));
    assert_eq!(cond_expression(b"let_it {"), Ok((&b" {"[..], "let_it".to_string())));
    assert_eq!(cond_expression(b"let Some(x)=x {"), Ok((&b" {"[..], "let Some(x) = x".to_string())));
}

#[test]
fn if_on_a_name_beginning_with_let() {
    assert_eq!(
        template_expression(b"@if letter { x }"),
        Ok((
            &b""[..],
            TemplateExpression::IfBlock {
                expr: "letter".to_string(),
                body: vec![TemplateExpression::text(" x ")],
                else_body: None,
            }
        ))
    );
}
