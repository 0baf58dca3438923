use klang::ast::{ASTNode, Expression, Function, Prototype};
use klang::lexer::tokenize;
use klang::parser::{parse, ParserSettings};
use klang::token::Token;

fn lit(v: &str) -> Expression {
    Expression::Literal(v.to_string())
}

fn var(n: &str) -> Expression {
    Expression::Variable(n.to_string())
}

fn bin(op: &str, l: Expression, r: Expression) -> Expression {
    Expression::Binary(op.to_string(), Box::new(l), Box::new(r))
}

fn anonymous(body: Expression) -> ASTNode {
    ASTNode::FunctionNode(Function {
        prototype: Prototype { name: "".to_string(), args: vec![] },
        body: Some(body),
    })
}

fn body_of(src: &str) -> Expression {
    let tokens = tokenize(src).unwrap();
    let (items, rest) = parse(&tokens, &[]).unwrap();
    assert_eq!(rest, vec![]);
    assert_eq!(items.len(), 1);
    match &items[0] {
        ASTNode::FunctionNode(f) => f.body.clone().unwrap(),
        other => panic!("not a function: {:?}", other),
    }
}

#[test]
fn parse_function_definition() {
    let input_str = r#"use kaya();"#;
    let token_stream = tokenize(input_str).unwrap();
    let parse_result = parse(&token_stream, &[]).unwrap();
    let expected_tree = vec![ASTNode::ExternNode(Prototype { name: "kaya".to_string(), args: vec![] })];
    let left_tokens = vec![];
    let expected_result = (expected_tree, left_tokens);
    assert_eq!(parse_result, expected_result)
}

#[test]
fn parse_function_definition_with_leftover_tokens() {
    let input_str = r#"use kaya(); use"#;
    let token_stream = tokenize(input_str).unwrap();
    let parse_result = parse(&token_stream, &[]).unwrap();
    let expected_tree = vec![ASTNode::ExternNode(Prototype { name: "kaya".to_string(), args: vec![] })];
    let left_tokens = vec![Token::Use];
    let expected_result = (expected_tree, left_tokens);
    assert_eq!(parse_result, expected_result)
}

#[test]
fn parse_function_declaration() {
    let input_str = r#"fun kaya() { 5 }"#;
    let token_stream = tokenize(input_str).unwrap();
    let parse_result = parse(&token_stream, &[]).unwrap();
    let expected_tree = vec![ASTNode::FunctionNode(Function {
        prototype: Prototype { name: "kaya".to_string(), args: vec![] },
        body: Some(lit("5")),
    })];
    let left_tokens = vec![];
    assert_eq!(parse_result, (expected_tree, left_tokens))
}

#[test]
fn parse_function_declaration_with_leftover_tokens() {
    let input_str = r#"fun kaya() { 5 } fun"#;
    let token_stream = tokenize(input_str).unwrap();
    let parse_result = parse(&token_stream, &[]).unwrap();
    let expected_tree = vec![ASTNode::FunctionNode(Function {
        prototype: Prototype { name: "kaya".to_string(), args: vec![] },
        body: Some(lit("5")),
    })];
    let left_tokens = vec![Token::Fun];
    assert_eq!(parse_result, (expected_tree, left_tokens))
}

#[test]
fn parse_expr_literal() {
    let token_stream = tokenize(r#"5"#).unwrap();
    let parse_result = parse(&token_stream, &[]).unwrap();
    assert_eq!(parse_result, (vec![anonymous(lit("5"))], vec![]))
}

#[test]
fn parse_expr_literal_with_leftover_tokens() {
    let token_stream = tokenize(r#"5 fun"#).unwrap();
    let parse_result = parse(&token_stream, &[]).unwrap();
    assert_eq!(parse_result, (vec![anonymous(lit("5"))], vec![Token::Fun]))
}

#[test]
fn parse_expr_variable() {
    let token_stream = tokenize(r#"x"#).unwrap();
    let parse_result = parse(&token_stream, &[]).unwrap();
    assert_eq!(parse_result, (vec![anonymous(var("x"))], vec![]))
}

#[test]
fn parse_expr_variable_with_leftover_tokens() {
    let token_stream = tokenize(r#"x fun"#).unwrap();
    let parse_result = parse(&token_stream, &[]).unwrap();
    assert_eq!(parse_result, (vec![anonymous(var("x"))], vec![Token::Fun]))
}

#[test]
fn parse_expr_call() {
    let token_stream = tokenize(r#"x()"#).unwrap();
    let parse_result = parse(&token_stream, &[]).unwrap();
    let call = Expression::Call("x".to_string(), vec![]);
    assert_eq!(parse_result, (vec![anonymous(call)], vec![]))
}

#[test]
fn parse_expr_call_with_leftover_tokens() {
    let token_stream = tokenize(r#"x() use"#).unwrap();
    let parse_result = parse(&token_stream, &[]).unwrap();
    let call = Expression::Call("x".to_string(), vec![]);
    assert_eq!(parse_result, (vec![anonymous(call)], vec![Token::Use]))
}

#[test]
fn parse_expr_literal_binary() {
    let token_stream = tokenize(r#"5 + 4 * 2"#).unwrap();
    let parse_result = parse(&token_stream, &[]).unwrap();
    let body = bin("+", lit("5"), bin("*", lit("4"), lit("2")));
    assert_eq!(parse_result, (vec![anonymous(body)], vec![]))
}

#[test]
fn parse_expr_conditional() {
    let token_stream = tokenize(r#"if 5 { 1 } else {2}"#).unwrap();
    let parse_result = parse(&token_stream, &[]).unwrap();
    let body = Expression::Conditional {
        cond_expr: Box::new(lit("5")),
        if_block_expr: Box::new(lit("1")),
        else_block_expr: Box::new(lit("2")),
    };
    assert_eq!(parse_result, (vec![anonymous(body)], vec![]))
}

#[test]
fn parse_expr_conditional_with_leftover_tokens() {
    let token_stream = tokenize(r#"if 5 {1} else {2} fun"#).unwrap();
    let parse_result = parse(&token_stream, &[]).unwrap();
    let body = Expression::Conditional {
        cond_expr: Box::new(lit("5")),
        if_block_expr: Box::new(lit("1")),
        else_block_expr: Box::new(lit("2")),
    };
    assert_eq!(parse_result, (vec![anonymous(body)], vec![Token::Fun]))
}

#[test]
fn precedence_higher_operator_binds_first() {
    assert_eq!(body_of("a + b * c"), bin("+", var("a"), bin("*", var("b"), var("c"))));
    assert_eq!(body_of("a * b + c"), bin("+", bin("*", var("a"), var("b")), var("c")));
    assert_eq!(body_of("a < b + c"), bin("<", var("a"), bin("+", var("b"), var("c"))));
    assert_eq!(body_of("a / b - c"), bin("-", bin("/", var("a"), var("b")), var("c")));
}

#[test]
fn equal_precedence_groups_left() {
    assert_eq!(body_of("a - b - c"), bin("-", bin("-", var("a"), var("b")), var("c")));
    assert_eq!(body_of("a * b / c"), bin("/", bin("*", var("a"), var("b")), var("c")));
}

#[test]
fn climb_stops_below_current_precedence() {
    // after `b * c` the `<` binds looser than `+`, so it takes the whole sum
    assert_eq!(
        body_of("a + b * c < d"),
        bin("<", bin("+", var("a"), bin("*", var("b"), var("c"))), var("d"))
    );
}

#[test]
fn parenthesis_and_call_arguments() {
    assert_eq!(body_of("(a + b) * c"), bin("*", bin("+", var("a"), var("b")), var("c")));
    assert_eq!(
        body_of("f(1, g(x), y + 2)"),
        Expression::Call(
            "f".to_string(),
            vec![
                lit("1"),
                Expression::Call("g".to_string(), vec![var("x")]),
                bin("+", var("y"), lit("2")),
            ]
        )
    );
}

#[test]
fn prototype_with_parameters() {
    let tokens = tokenize("fun add(a, b) { a + b }").unwrap();
    let (items, rest) = parse(&tokens, &[]).unwrap();
    assert_eq!(rest, vec![]);
    assert_eq!(
        items,
        vec![ASTNode::FunctionNode(Function {
            prototype: Prototype { name: "add".to_string(), args: vec!["a".to_string(), "b".to_string()] },
            body: Some(bin("+", var("a"), var("b"))),
        })]
    );
}

fn parse_error(src: &str) -> String {
    let tokens = tokenize(src).unwrap();
    parse(&tokens, &[]).unwrap_err()
}

#[test]
fn parse_errors_name_what_was_expected() {
    assert_eq!(parse_error("1 % 2"), "unknown operator found");
    assert_eq!(parse_error(")"), "unknown token when expecting an expression");
    assert_eq!(parse_error("use 5()"), "expected function name in prototype");
    assert_eq!(parse_error("use f 5"), "expected '(' in prototype");
    assert_eq!(parse_error("use f(a b)"), "expected ')' in prototype");
    assert_eq!(parse_error("use f(a,)"), "expected ')' in prototype");
    assert_eq!(parse_error("fun f() 5"), "'{' expected");
    assert_eq!(parse_error("fun f() { 5 ;"), "'}' expected");
    assert_eq!(parse_error("(1 ;"), "')' expected");
    assert_eq!(parse_error("f(1 2)"), "expected ',' or ')' in call arguments");
    assert_eq!(parse_error("if 1 2"), "expected `{` after if's condition");
    assert_eq!(parse_error("if 1 { 2 ;"), "expected `}` after if's body");
    assert_eq!(parse_error("if 1 { 2 } 3"), "expected else after if's body");
    assert_eq!(parse_error("if 1 { 2 } else 3"), "expected `{` after else");
    assert_eq!(parse_error("if 1 { 2 } else { 3 ;"), "expected `}` after else's body");
}

#[test]
fn incomplete_item_is_handed_back() {
    let tokens = tokenize("fun f() { 1 } fun g(a,").unwrap();
    let (items, rest) = parse(&tokens, &[]).unwrap();
    assert_eq!(items.len(), 1);
    assert_eq!(rest, tokenize("fun g(a,").unwrap());
    let tokens = tokenize("5 +").unwrap();
    let (items, rest) = parse(&tokens, &[]).unwrap();
    assert_eq!(items, vec![]);
    assert_eq!(rest, tokens);
}

#[test]
fn parsing_again_after_incomplete_input_is_stable() {
    let tokens = tokenize("use f(x); 1 + 2; if 1 { 2 }").unwrap();
    let (items, rest) = parse(&tokens, &[]).unwrap();
    assert_eq!(items.len(), 2);
    let again = parse(&rest, &items).unwrap();
    assert_eq!(again, (items.clone(), rest.clone()));
    // appending the missing tokens completes the item
    let mut more = rest.clone();
    more.extend(tokenize("else { 3 }").unwrap());
    let (all, left) = parse(&more, &items).unwrap();
    assert_eq!(all.len(), 3);
    assert_eq!(left, vec![]);
}

#[test]
fn delimiters_between_items_are_skipped() {
    let tokens = tokenize(";; 1 ; 2 ;").unwrap();
    let (items, rest) = parse(&tokens, &[]).unwrap();
    assert_eq!(items, vec![anonymous(lit("1")), anonymous(lit("2"))]);
    assert_eq!(rest, vec![]);
}

#[test]
fn default_settings_hold_the_operator_table() {
    let settings = ParserSettings::default();
    let get = |op: &str| settings.precedence(&op.to_string());
    assert_eq!(get("<"), Some(10));
    assert_eq!(get("+"), Some(20));
    assert_eq!(get("-"), Some(20));
    assert_eq!(get("*"), Some(40));
    assert_eq!(get("/"), Some(40));
    assert_eq!(get(">"), None);
    assert_eq!(get("="), None);
}
