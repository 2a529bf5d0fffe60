use mazgamet::{
    Expression, InfixParseFn, Lexer, Node, Parser, PrefixParseFn, Program, Statement, TokenType,
};

fn check_parser_errors(parser: &Parser) {
    let errors = parser.errors();
    if errors.is_empty() {
        return;
    }
    panic!("Parser errors encountered: {:?}", errors);
}

fn parse(input: &str) -> (Program, Vec<String>) {
    let lexer = Lexer::new(input.as_bytes());
    let mut parser = Parser::new(lexer);
    let program = parser.parse_program();
    let errors = parser.errors().clone();
    (program, errors)
}

#[test]
fn test_let_statements() {
    let input = r#"
            let x = 5;
            let y = 10;
            let foobar = 121212;
            "#;
    let lexer = Lexer::new(input.as_bytes());
    let mut parser = Parser::new(lexer);
    let program = parser.parse_program();

    check_parser_errors(&parser);

    assert_eq!(
        program.statements.len(),
        3,
        "Expected 3 statements, got {}",
        program.statements.len()
    );

    let tests = ["x", "y", "foobar"];

    for (i, &expected_ident) in tests.iter().enumerate() {
        let statement = &program.statements[i];
        test_let_statement(expected_ident, statement.as_ref());
    }
}

fn test_let_statement(expected_ident: &str, statement: &Statement) {
    assert_eq!(statement.token_literal(), "let", "Statement token literal should be 'let'");

    let let_stmt = match statement {
        Statement::Let(s) => s,
        other => panic!("Statement is not a LetStatement. Got: {:?}", other),
    };

    match let_stmt.name {
        Some(ref ident_box) => {
            let ident = ident_box.as_ref();
            assert_eq!(
                ident.value, expected_ident,
                "Identifier value should be '{}', got '{}'",
                expected_ident, ident.value
            );

            assert_eq!(
                ident.token_literal(),
                expected_ident,
                "Identifier token literal should be '{}', got '{}'",
                expected_ident,
                ident.token_literal()
            );
        }
        None => panic!("Let statement's name is None"),
    }
}

#[test]
fn test_return_statement() {
    let input = r#"
            return 5;
            return 10;
            return 888888;
            "#;

    let lexer = Lexer::new(input.as_bytes());
    let mut parser = Parser::new(lexer);
    let program = parser.parse_program();

    check_parser_errors(&parser);

    assert_eq!(
        program.statements.len(),
        3,
        "Expected 3 statements, got {}",
        program.statements.len()
    );

    for statement in &program.statements {
        let return_statement = match statement.as_ref() {
            Statement::Return(s) => s,
            other => panic!("Statement is not a ReturnStatement. Got: {:?}", other),
        };

        assert_eq!(
            return_statement.token_literal(),
            "return",
            "Return statement token literal should be 'return'"
        );
    }
}

#[test]
fn test_identifier_expression() {
    let input = "foobar;";
    let lexer = Lexer::new(input.as_bytes());
    let mut parser = Parser::new(lexer);
    let program = parser.parse_program();

    check_parser_errors(&parser);

    assert_eq!(
        program.statements.len(),
        1,
        "program.statements does not contain 1 statement. got={}",
        program.statements.len()
    );

    let stmt = program.statements.first().unwrap();

    match stmt.as_ref() {
        Statement::Expression(expr_stmt) => {
            assert!(expr_stmt.expression.is_some(), "ExpressionStatement's expression is None");

            let expr = expr_stmt.expression.as_ref().unwrap();
            match expr.as_ref() {
                Expression::Identifier(ident) => {
                    assert_eq!(
                        ident.value, "foobar",
                        "ident.value not {}. got={}",
                        "foobar", ident.value
                    );
                    assert_eq!(
                        ident.token_literal(),
                        "foobar",
                        "ident.token_literal not {}. got={}",
                        "foobar",
                        ident.token_literal()
                    );
                }
            }
        }
        other => panic!(
            "program.statements[0] is not ast::ExpressionStatement. got={:?}",
            other.token_literal()
        ),
    }
}

#[test]
fn let_statement_round_trip() {
    let (program, errors) = parse("let x = 5;");
    assert!(errors.is_empty());
    assert_eq!(program.statements.len(), 1);
    match program.statements[0].as_ref() {
        Statement::Let(stmt) => {
            assert_eq!(stmt.token_literal(), "let");
            assert_eq!(stmt.token.token_type, TokenType::Let);
            let name = stmt.name.as_ref().unwrap();
            assert_eq!(name.as_string(), "x");
            assert_eq!(name.token.token_type, TokenType::Identifier);
            assert!(stmt.value.is_none());
            assert_eq!(stmt.as_string(), "let x = ;");
        }
        other => panic!("not a let statement: {:?}", other),
    }
    assert_eq!(program.as_string(), "let x = ;");
    assert_eq!(program.token_literal(), "let");
}

#[test]
fn missing_assign_is_reported_and_parsing_goes_on() {
    let (program, errors) = parse("let x 5;");
    assert_eq!(program.statements.len(), 0);
    assert_eq!(
        errors,
        vec![
            "expected next token to be Assign, got Integer instead".to_string(),
            "no prefix parse function for token kind Integer".to_string(),
            "no prefix parse function for token kind Semicolon".to_string(),
        ]
    );
    assert!(errors[0].contains("Assign"));
}

#[test]
fn missing_name_is_reported() {
    let (program, errors) = parse("let = 5;");
    assert_eq!(program.statements.len(), 0);
    assert_eq!(errors[0], "expected next token to be Identifier, got Assign instead");
    assert_eq!(errors.len(), 4);
    assert_eq!(errors[1], "no prefix parse function for token kind Assign");
    assert_eq!(errors[2], "no prefix parse function for token kind Integer");
    assert_eq!(errors[3], "no prefix parse function for token kind Semicolon");
}

#[test]
fn let_at_the_end_of_the_input_is_reported_once() {
    let (program, errors) = parse("let");
    assert_eq!(program.statements.len(), 0);
    assert_eq!(errors, vec!["expected next token to be Identifier, got EOF instead".to_string()]);

    let (program, errors) = parse("let x");
    assert_eq!(program.statements.len(), 0);
    assert_eq!(errors, vec!["expected next token to be Assign, got EOF instead".to_string()]);
}

#[test]
fn a_statement_after_a_broken_one_is_still_parsed() {
    let (program, errors) = parse("let x y; let z = 1; return z; w;");
    assert_eq!(
        errors,
        vec!["expected next token to be Assign, got Identifier instead".to_string()]
    );
    assert_eq!(program.statements.len(), 4);
    assert_eq!(program.as_string(), "ylet z = ;return ...;w");
    assert!(matches!(program.statements[0].as_ref(), Statement::Expression(_)));
    assert!(matches!(program.statements[1].as_ref(), Statement::Let(_)));
    assert!(matches!(program.statements[2].as_ref(), Statement::Return(_)));
    assert!(matches!(program.statements[3].as_ref(), Statement::Expression(_)));
}

#[test]
fn a_token_that_begins_no_expression_is_reported() {
    let (program, errors) = parse("5;");
    assert_eq!(program.statements.len(), 0);
    assert_eq!(
        errors,
        vec![
            "no prefix parse function for token kind Integer".to_string(),
            "no prefix parse function for token kind Semicolon".to_string(),
        ]
    );
    let (program, errors) = parse("@");
    assert_eq!(program.statements.len(), 0);
    assert_eq!(errors, vec!["no prefix parse function for token kind Illegal".to_string()]);
}

#[test]
fn whole_statements_give_one_node_each_and_no_error() {
    let (program, errors) = parse("let a = 1; return a; a; let b = a + 2 * (3 - 4); b; return;");
    assert!(errors.is_empty(), "{:?}", errors);
    assert_eq!(program.statements.len(), 6);
    assert_eq!(program.as_string(), "let a = ;return ...;alet b = ;breturn ...;");
    let kinds: Vec<&str> = program
        .statements
        .iter()
        .map(|s| match s.as_ref() {
            Statement::Let(_) => "let",
            Statement::Return(_) => "return",
            Statement::Expression(_) => "expression",
        })
        .collect();
    assert_eq!(kinds, vec!["let", "return", "expression", "let", "expression", "return"]);
}

#[test]
fn empty_input_is_an_empty_program() {
    let (program, errors) = parse("");
    assert!(errors.is_empty());
    assert!(program.statements.is_empty());
    let (program, errors) = parse("  \n\t ");
    assert!(errors.is_empty());
    assert!(program.statements.is_empty());
    assert_eq!(program.as_string(), "");
}

#[test]
fn the_last_semicolon_may_be_missing() {
    let (program, errors) = parse("foobar");
    assert!(errors.is_empty());
    assert_eq!(program.statements.len(), 1);
    assert_eq!(program.as_string(), "foobar");

    let (program, errors) = parse("let x = 5");
    assert!(errors.is_empty());
    assert_eq!(program.statements.len(), 1);
    assert_eq!(program.as_string(), "let x = ;");

    let (program, errors) = parse("return 5");
    assert!(errors.is_empty());
    assert_eq!(program.statements.len(), 1);

    let (program, errors) = parse("a b");
    assert!(errors.is_empty());
    assert_eq!(program.statements.len(), 2);
    assert_eq!(program.as_string(), "ab");
}

#[test]
fn a_semicolon_inside_a_value_ends_the_statement() {
    let (program, errors) = parse("let add = fn(x, y) { x + y; };");
    assert_eq!(program.statements.len(), 1);
    assert_eq!(
        errors,
        vec![
            "no prefix parse function for token kind RightBrace".to_string(),
            "no prefix parse function for token kind Semicolon".to_string(),
        ]
    );
}

#[test]
fn next_token_moves_the_parser_on() {
    let lexer = Lexer::new(b"skipped; let x = 1;");
    let mut parser = Parser::new(lexer);
    parser.next_token();
    parser.next_token();
    let program = parser.parse_program();
    assert!(parser.errors().is_empty());
    assert_eq!(program.statements.len(), 1);
    assert_eq!(program.as_string(), "let x = ;");
    parser.next_token();
    let again = parser.parse_program();
    assert!(again.statements.is_empty());
    assert!(parser.errors().is_empty());
}

#[test]
fn a_parser_takes_over_where_the_lexer_stands() {
    let mut lexer = Lexer::new(b"let a = 1; b;");
    for _ in 0..5 {
        lexer.next_token();
    }
    let mut parser = Parser::new(lexer);
    let program = parser.parse_program();
    assert!(parser.errors().is_empty());
    assert_eq!(program.statements.len(), 1);
    assert_eq!(program.as_string(), "b");
}

#[test]
fn errors_add_up_over_calls() {
    let lexer = Lexer::new(b"1 2");
    let mut parser = Parser::new(lexer);
    assert!(parser.errors().is_empty());
    let program = parser.parse_program();
    assert!(program.statements.is_empty());
    assert_eq!(parser.errors().len(), 2);
    let program = parser.parse_program();
    assert!(program.statements.is_empty());
    assert_eq!(parser.errors().len(), 2);
}

#[test]
fn a_registered_prefix_handler_begins_expressions() {
    let lexer = Lexer::new(b"5; true;");
    let mut parser = Parser::new(lexer);
    parser.register_prefix(TokenType::Integer, PrefixParseFn::Identifier);
    let program = parser.parse_program();
    assert_eq!(
        parser.errors(),
        &vec![
            "no prefix parse function for token kind True".to_string(),
            "no prefix parse function for token kind Semicolon".to_string(),
        ]
    );
    assert_eq!(program.statements.len(), 1);
    match program.statements[0].as_ref() {
        Statement::Expression(stmt) => {
            assert_eq!(stmt.token.token_type, TokenType::Integer);
            match stmt.expression.as_ref().unwrap().as_ref() {
                Expression::Identifier(ident) => {
                    assert_eq!(ident.value, "5");
                    assert_eq!(ident.token.token_type, TokenType::Integer);
                }
            }
        }
        other => panic!("not an expression statement: {:?}", other),
    }
}

#[test]
fn a_registered_infix_handler_changes_no_parse() {
    let input = "a + b; let c = d; f(x);";
    let (plain, plain_errors) = parse(input);
    let lexer = Lexer::new(input.as_bytes());
    let mut parser = Parser::new(lexer);
    parser.register_infix(TokenType::Plus, InfixParseFn::Binary);
    parser.register_infix(TokenType::LeftParen, InfixParseFn::Call);
    parser.register_infix(TokenType::Plus, InfixParseFn::Call);
    let program = parser.parse_program();
    assert_eq!(program.as_string(), plain.as_string());
    assert_eq!(program.statements.len(), plain.statements.len());
    assert_eq!(parser.errors(), &plain_errors);
    assert_eq!(
        plain_errors,
        vec![
            "no prefix parse function for token kind Plus".to_string(),
            "no prefix parse function for token kind LeftParen".to_string(),
            "no prefix parse function for token kind RightParen".to_string(),
            "no prefix parse function for token kind Semicolon".to_string(),
        ]
    );
    assert_eq!(plain.as_string(), "ablet c = ;fx");
    assert_eq!(plain.statements.len(), 5);
}

#[test]
fn a_source_of_statement_texts_has_one_node_for_each() {
    let texts = ["let a = 1;\n", "return a + 1 ;", "a;", "  b ", "let c = (a);", "return"];
    let source: String = texts.concat();
    let (program, errors) = parse(&source);
    assert!(errors.is_empty(), "{:?}", errors);
    assert_eq!(program.statements.len(), texts.len());
    for (i, text) in texts.iter().enumerate() {
        let (alone, alone_errors) = parse(text);
        assert!(alone_errors.is_empty());
        assert_eq!(alone.statements.len(), 1);
        assert_eq!(program.statements[i].as_string(), alone.statements[0].as_string());
        assert_eq!(program.statements[i].token_literal(), alone.statements[0].token_literal());
    }
    assert_eq!(program.as_string(), "let a = ;return ...;ablet c = ;return ...;");
}
