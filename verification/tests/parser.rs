use q9::lexer::Token;
use q9::number::Number;
use q9::parser::expr::{Expr, ExprValue};
use q9::parser::{Block, Function, Parser, Program, Statement, SyntaxError};

fn lit(text: &str) -> Expr {
    Expr::Lit(ExprValue::Num(Number::parse(text).unwrap()))
}

fn name(text: &str) -> Expr {
    Expr::Ident(text.to_string())
}

fn call(text: &str, args: Vec<Expr>) -> Expr {
    Expr::Fn(text.to_string(), args)
}

fn word(text: &str) -> Token {
    Token::Str(text.to_string())
}

fn number(text: &str) -> Token {
    Token::Num(text.to_string())
}

fn parse(source: &str) -> Result<Program, SyntaxError> {
    Parser::new(source).parse()
}

fn statements(source: &str) -> Vec<Statement> {
    parse(source).unwrap().content
}

fn error(source: &str) -> SyntaxError {
    parse(source).unwrap_err()
}

fn parse_tokens(tokens: Vec<Token>) -> Result<Program, SyntaxError> {
    Parser::from_tokens(tokens).parse()
}

#[test]
fn let_parses_to_a_variable_definition() {
    let stmts = statements("let x = 2");
    assert_eq!(stmts.len(), 1);
    match &stmts[0] {
        Statement::VarDef(var, Expr::Lit(ExprValue::Num(n))) => {
            assert_eq!(var, "x");
            assert_eq!(n.as_str().parse::<f64>().unwrap(), 2.0);
        }
        other => panic!("unexpected statement {:?}", other),
    }
}

#[test]
fn empty_input_is_the_empty_program() {
    assert_eq!(statements(""), Vec::new());
    assert_eq!(statements("  \n\t "), Vec::new());
    assert_eq!(parse_tokens(Vec::new()).unwrap().content, Vec::new());
}

#[test]
fn statement_count_is_the_number_of_top_level_constructs() {
    let source = "let x = 1
        fn f(a, b) { let y = a { y = b } return y }
        x = f(1, 2)
        f(x, x)
        { let z = 3 }";
    let stmts = statements(source);
    assert_eq!(stmts.len(), 5);
    assert!(matches!(stmts[0], Statement::VarDef(_, _)));
    assert!(matches!(stmts[1], Statement::FuncDef(_, _)));
    assert!(matches!(stmts[2], Statement::VarAssign(_, _)));
    assert!(matches!(stmts[3], Statement::FuncCall(_, _)));
    assert!(matches!(stmts[4], Statement::BlockStmt(_)));
}

#[test]
fn every_statement_form_parses_to_its_node() {
    assert_eq!(statements("x = y"), vec![Statement::VarAssign("x".to_string(), name("y"))]);
    assert_eq!(
        statements("f(1, y, g())"),
        vec![Statement::FuncCall(
            "f".to_string(),
            vec![lit("1"), name("y"), call("g", Vec::new())]
        )]
    );
    assert_eq!(statements("f()"), vec![Statement::FuncCall("f".to_string(), Vec::new())]);
    assert_eq!(statements("return f(x)"), vec![Statement::Return(call("f", vec![name("x")]))]);
    assert_eq!(statements("{ }"), vec![Statement::BlockStmt(Block { body: Vec::new() })]);
    assert_eq!(
        statements("{ let a = 1 { a = 2 } }"),
        vec![Statement::BlockStmt(Block {
            body: vec![
                Statement::VarDef("a".to_string(), lit("1")),
                Statement::BlockStmt(Block {
                    body: vec![Statement::VarAssign("a".to_string(), lit("2"))]
                }),
            ]
        })]
    );
}

#[test]
fn function_definition_holds_name_parameters_and_body() {
    assert_eq!(
        statements("fn add(a, b) { return a }"),
        vec![Statement::FuncDef(
            Function {
                name: "add".to_string(),
                body: Block { body: vec![Statement::Return(name("a"))] },
            },
            vec!["a".to_string(), "b".to_string()],
        )]
    );
    assert_eq!(
        statements("fn nothing() { }"),
        vec![Statement::FuncDef(
            Function { name: "nothing".to_string(), body: Block { body: Vec::new() } },
            Vec::new(),
        )]
    );
}

#[test]
fn two_functions_in_a_row_are_both_global() {
    let stmts = statements("fn f() { } fn g() { { } }");
    assert_eq!(stmts.len(), 2);
    assert!(Parser::new("fn f() { } fn g() { }").is_global());
}

#[test]
fn nested_calls_parse_as_a_tree() {
    assert_eq!(
        statements("let r = f(g(1), h(2, k()))"),
        vec![Statement::VarDef(
            "r".to_string(),
            call(
                "f",
                vec![
                    call("g", vec![lit("1")]),
                    call("h", vec![lit("2"), call("k", Vec::new())])
                ]
            )
        )]
    );
}

#[test]
fn identifier_before_a_statement_is_no_call() {
    // `y` is followed by the identifier that starts the next statement.
    assert_eq!(
        statements("x = y f(1)"),
        vec![
            Statement::VarAssign("x".to_string(), name("y")),
            Statement::FuncCall("f".to_string(), vec![lit("1")]),
        ]
    );
}

#[test]
fn function_inside_a_function_is_refused() {
    assert_eq!(error("fn f() { fn g() { } }"), SyntaxError::NestedFunction);
}

#[test]
fn function_inside_a_block_is_refused() {
    assert_eq!(error("{ fn g() { } }"), SyntaxError::NestedFunction);
    assert_eq!(error("{ { fn g() { } } }"), SyntaxError::NestedFunction);
}

#[test]
fn bare_identifier_is_no_statement() {
    assert_eq!(error("x"), SyntaxError::UnexpectedToken { found: word("x") });
    assert_eq!(error("x y"), SyntaxError::UnexpectedToken { found: word("x") });
    assert_eq!(error("5"), SyntaxError::UnexpectedToken { found: number("5") });
    assert_eq!(error(")"), SyntaxError::UnexpectedToken { found: Token::RParen });
    assert_eq!(error("let x = 1 }"), SyntaxError::UnexpectedToken { found: Token::RBrace });
}

#[test]
fn operator_where_an_expression_starts_is_unsupported() {
    for (source, found) in [
        ("let x = + 1", Token::Plus),
        ("let x = - 1", Token::Minus),
        ("let x = / 1", Token::Slash),
        ("let x = * 1", Token::Star),
        ("let x = ;", Token::SemiC),
    ] {
        assert_eq!(error(source), SyntaxError::UnsupportedOperator { found });
    }
}

#[test]
fn operator_after_an_expression_starts_no_statement() {
    assert_eq!(error("let x = 1 + 2"), SyntaxError::UnexpectedToken { found: Token::Plus });
}

#[test]
fn token_that_starts_no_expression_is_refused() {
    assert_eq!(error("let x = )"), SyntaxError::InvalidExpression { found: Token::RParen });
    assert_eq!(error("let x ="), SyntaxError::InvalidExpression { found: Token::EOF });
    assert_eq!(error("return let"), SyntaxError::InvalidExpression { found: Token::Let });
    assert_eq!(error("x = ?"), SyntaxError::InvalidExpression { found: Token::Empty });
}

#[test]
fn unparsable_number_is_refused() {
    assert_eq!(error("let x = 1.2.3"), SyntaxError::InvalidNumber { text: "1.2.3".to_string() });
    assert_eq!(
        parse_tokens(vec![Token::Let, word("x"), Token::Eq, number("12abc")]),
        Err(SyntaxError::InvalidNumber { text: "12abc".to_string() })
    );
}

#[test]
fn number_forms_are_accepted() {
    for text in ["0", "2", "2.", "2.5", "007", "123456789.125"] {
        let source = format!("let x = {text}");
        assert_eq!(statements(&source), vec![Statement::VarDef("x".to_string(), lit(text))]);
    }
    for text in [".5", "1e3", "-2", "inf", "NaN", "+1.5E-7"] {
        let tokens = vec![Token::Let, word("x"), Token::Eq, number(text)];
        assert_eq!(
            parse_tokens(tokens).unwrap().content,
            vec![Statement::VarDef("x".to_string(), lit(text))]
        );
    }
}

#[test]
fn let_needs_a_name_and_an_equals_sign() {
    assert_eq!(error("let 5 = 1"), SyntaxError::ExpectedIdentifier { found: number("5") });
    assert_eq!(error("let"), SyntaxError::ExpectedIdentifier { found: Token::EOF });
    assert_eq!(
        error("let x 5"),
        SyntaxError::Expected { expected: Token::Eq, found: number("5") }
    );
    assert_eq!(
        error("let x ( 5"),
        SyntaxError::Expected { expected: Token::Eq, found: Token::LParen }
    );
}

#[test]
fn call_needs_its_delimiters() {
    assert_eq!(
        error("f(1 2)"),
        SyntaxError::Expected { expected: Token::Comma, found: number("2") }
    );
    assert_eq!(error("f(1"), SyntaxError::Expected { expected: Token::Comma, found: Token::EOF });
    assert_eq!(error("f("), SyntaxError::InvalidExpression { found: Token::EOF });
    assert_eq!(error("f(,)"), SyntaxError::InvalidExpression { found: Token::Comma });
    assert_eq!(error("5(1)"), SyntaxError::ExpectedIdentifier { found: number("5") });
}

#[test]
fn comma_must_be_followed_by_an_item() {
    assert_eq!(error("f(1,)"), SyntaxError::InvalidExpression { found: Token::RParen });
    assert_eq!(error("let x = f(1, 2,)"), SyntaxError::InvalidExpression { found: Token::RParen });
    assert_eq!(error("fn f(a,) { }"), SyntaxError::ExpectedIdentifier { found: Token::RParen });
}

#[test]
fn function_definition_needs_its_parts() {
    assert_eq!(error("fn (a) { }"), SyntaxError::ExpectedFunctionName { found: Token::LParen });
    assert_eq!(error("fn"), SyntaxError::ExpectedFunctionName { found: Token::EOF });
    assert_eq!(
        error("fn f a) { }"),
        SyntaxError::Expected { expected: Token::LParen, found: word("a") }
    );
    assert_eq!(error("fn f(1) { }"), SyntaxError::ExpectedIdentifier { found: number("1") });
    assert_eq!(
        error("fn f(a b) { }"),
        SyntaxError::Expected { expected: Token::Comma, found: word("b") }
    );
    assert_eq!(
        error("fn f(a) return a"),
        SyntaxError::Expected { expected: Token::LBrace, found: Token::Return }
    );
}

#[test]
fn block_must_be_closed() {
    assert_eq!(error("{ let x = 1"), SyntaxError::UnexpectedToken { found: Token::EOF });
    assert_eq!(error("fn f() { return 1"), SyntaxError::UnexpectedToken { found: Token::EOF });
    assert_eq!(error("{"), SyntaxError::UnexpectedToken { found: Token::EOF });
}

#[test]
fn no_partial_program_comes_back() {
    assert!(parse("let x = 1 let y = 2 let").is_err());
}

#[test]
fn parse_stops_at_the_first_end_of_input() {
    let tokens = vec![
        Token::Let,
        word("x"),
        Token::Eq,
        number("1"),
        Token::EOF,
        Token::Let,
        word("y"),
        Token::Eq,
        number("2"),
    ];
    assert_eq!(
        parse_tokens(tokens).unwrap().content,
        vec![Statement::VarDef("x".to_string(), lit("1"))]
    );
}

#[test]
fn keyword_text_in_an_identifier_token_is_a_name() {
    let tokens = vec![Token::Let, word("let"), Token::Eq, number("1")];
    assert_eq!(
        parse_tokens(tokens).unwrap().content,
        vec![Statement::VarDef("let".to_string(), lit("1"))]
    );
}

#[test]
fn parse_expr_reads_one_expression() {
    let mut parser = Parser::new("f(1, x) rest");
    assert_eq!(parser.parse_expr(), Ok(call("f", vec![lit("1"), name("x")])));
    assert_eq!(parser.current(), &word("rest"));
    assert_eq!(parser.parse_expr(), Ok(name("rest")));
    assert_eq!(parser.current(), &Token::EOF);
    assert_eq!(parser.parse_expr(), Err(SyntaxError::InvalidExpression { found: Token::EOF }));
}

#[test]
fn parse_args_reads_up_to_the_closing_parenthesis() {
    let mut parser = Parser::new("1, 2) x");
    assert_eq!(parser.parse_args(), Ok(vec![lit("1"), lit("2")]));
    assert_eq!(parser.current(), &word("x"));
    let mut empty = Parser::new(") x");
    assert_eq!(empty.parse_args(), Ok(Vec::new()));
    assert_eq!(empty.current(), &word("x"));
}

#[test]
fn window_shows_two_tokens() {
    let mut parser = Parser::new("let x");
    assert_eq!(parser.current(), &Token::Let);
    assert_eq!(parser.lookahead(), &word("x"));
    assert_eq!(parser.advance(), Token::Let);
    assert_eq!(parser.current(), &word("x"));
    assert_eq!(parser.lookahead(), &Token::EOF);
    assert_eq!(parser.advance(), word("x"));
    assert_eq!(parser.advance(), Token::EOF);
    assert_eq!(parser.advance(), Token::EOF);
    assert_eq!(parser.current(), &Token::EOF);
}

#[test]
fn check_compares_the_current_token() {
    let parser = Parser::new("( x");
    assert_eq!(parser.check(Token::LParen), Ok(()));
    assert_eq!(
        parser.check(Token::RParen),
        Err(SyntaxError::Expected { expected: Token::RParen, found: Token::LParen })
    );
    assert_eq!(
        parser.check(word("x")),
        Err(SyntaxError::Expected { expected: word("x"), found: Token::LParen })
    );
}

#[test]
fn expect_consumes_then_compares() {
    let mut parser = Parser::new("f ( )");
    assert_eq!(parser.expect(Token::LParen), Ok(()));
    assert_eq!(parser.current(), &Token::LParen);
    assert_eq!(
        parser.expect(Token::LParen),
        Err(SyntaxError::Expected { expected: Token::LParen, found: Token::RParen })
    );
    assert_eq!(parser.current(), &Token::RParen);
}

#[test]
fn parse_ident_consumes_whatever_it_finds() {
    let mut parser = Parser::new("x 5 y");
    assert_eq!(parser.parse_ident(), Ok("x".to_string()));
    assert_eq!(
        parser.parse_ident(),
        Err(SyntaxError::ExpectedIdentifier { found: number("5") })
    );
    assert_eq!(parser.parse_ident(), Ok("y".to_string()));
}

#[test]
fn parse_num_consumes_whatever_it_finds() {
    let mut parser = Parser::new("5 x 1.2.3");
    assert_eq!(parser.parse_num(), Ok("5".to_string()));
    assert_eq!(parser.parse_num(), Err(SyntaxError::ExpectedNumber { found: word("x") }));
    assert_eq!(parser.parse_num(), Ok("1.2.3".to_string()));
}

#[test]
fn messages_name_what_was_found() {
    assert_eq!(
        SyntaxError::Expected { expected: Token::Comma, found: number("2") }.message(),
        "expected ,, found 2"
    );
    assert_eq!(
        SyntaxError::ExpectedFunctionName { found: Token::LParen }.message(),
        "expected function name, found ("
    );
    assert_eq!(
        SyntaxError::ExpectedIdentifier { found: Token::EOF }.message(),
        "expected identifier, found end of input"
    );
    assert_eq!(
        SyntaxError::ExpectedNumber { found: word("x") }.message(),
        "expected number, found x"
    );
    assert_eq!(SyntaxError::NestedFunction.message(), "cannot define functions in functions");
    assert_eq!(
        SyntaxError::UnexpectedToken { found: Token::RBrace }.message(),
        "unexpected token: }"
    );
    assert_eq!(
        SyntaxError::InvalidExpression { found: Token::Let }.message(),
        "invalid expression: let"
    );
    assert_eq!(
        SyntaxError::UnsupportedOperator { found: Token::Star }.message(),
        "unsupported expression: *"
    );
    assert_eq!(
        SyntaxError::InvalidNumber { text: "1.2.3".to_string() }.message(),
        "could not parse 1.2.3 to a number."
    );
}

#[test]
fn copies_equal_what_they_copy() {
    let stmts = statements("fn f(a) { { let b = g(a, 1) } return b } f(2) x = 1");
    let copy: Vec<Statement> = stmts.iter().map(|s| s.clone()).collect();
    assert_eq!(copy, stmts);
    assert_eq!(q9::parser::clone_statements(&stmts), stmts);
    let e = call("f", vec![lit("1"), call("g", vec![name("x")])]);
    assert_eq!(e.clone(), e);
}
