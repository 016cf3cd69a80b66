//! The parser: trees, precedence, the loop behind `for`, and errors.
use gejang::shared::scanner::{scan, Token, TokenType};
use gejang::walker::ast::{Expr, Stmt};
use gejang::walker::parser::{parse, ParserError};

fn tokens_of(source: &str) -> Vec<Token> {
    scan(source).into_iter().map(|t| t.unwrap()).collect()
}

fn parsed(source: &str) -> Vec<Result<Stmt, ParserError>> {
    parse(&tokens_of(source))
}

fn tok(typ: TokenType, lexeme: &str) -> Token {
    Token { typ, lexeme: lexeme.to_string(), line: 0 }
}

fn number(lexeme: &str) -> Box<Expr> {
    Box::new(Expr::Literal { value: tok(TokenType::Number, lexeme) })
}

fn variable(id: usize, name: &str) -> Box<Expr> {
    Box::new(Expr::Variable { id, name: tok(TokenType::Identifier, name) })
}

fn expression(source: &str) -> Result<Expr, ParserError> {
    let mut all = parsed(&format!("{};", source));
    assert_eq!(all.len(), 1);
    match all.remove(0) {
        Ok(Stmt::Expression { expr }) => Ok(*expr),
        Ok(other) => panic!("no expression statement: {:?}", other),
        Err(e) => Err(e),
    }
}

#[test]
fn parses_an_addition() {
    assert_eq!(
        expression("1 + 2"),
        Ok(Expr::Binary { left: number("1"), op: tok(TokenType::Plus, "+"), right: number("2") })
    );
}

#[test]
fn parses_a_grouping() {
    assert_eq!(
        expression("(1 + 2)"),
        Ok(Expr::Grouping {
            expr: Box::new(Expr::Binary {
                left: number("1"),
                op: tok(TokenType::Plus, "+"),
                right: number("2"),
            }),
        })
    );
}

#[test]
fn parses_calls() {
    assert_eq!(expression("clock()"), Ok(Expr::Call { callee: variable(0, "clock"), args: vec![] }));
    assert_eq!(
        expression("tsp2cup(15)"),
        Ok(Expr::Call { callee: variable(0, "tsp2cup"), args: vec![*number("15")] })
    );
    assert_eq!(
        expression("f(1, a)(2)"),
        Ok(Expr::Call {
            callee: Box::new(Expr::Call {
                callee: variable(0, "f"),
                args: vec![*number("1"), *variable(4, "a")],
            }),
            args: vec![*number("2")],
        })
    );
}

#[test]
fn factor_binds_tighter_than_term() {
    assert_eq!(
        expression("1 + 2 * 3"),
        Ok(Expr::Binary {
            left: number("1"),
            op: tok(TokenType::Plus, "+"),
            right: Box::new(Expr::Binary {
                left: number("2"),
                op: tok(TokenType::Star, "*"),
                right: number("3"),
            }),
        })
    );
}

#[test]
fn operators_of_one_level_group_to_the_left() {
    assert_eq!(
        expression("1 - 2 - 3"),
        Ok(Expr::Binary {
            left: Box::new(Expr::Binary {
                left: number("1"),
                op: tok(TokenType::Minus, "-"),
                right: number("2"),
            }),
            op: tok(TokenType::Minus, "-"),
            right: number("3"),
        })
    );
}

#[test]
fn the_levels_nest_in_order() {
    // a = b or c and d == e < f + g * -h
    let expected = Expr::Assign {
        id: 0,
        name: tok(TokenType::Identifier, "a"),
        value: Box::new(Expr::Logical {
            left: variable(2, "b"),
            op: tok(TokenType::Or, "or"),
            right: Box::new(Expr::Logical {
                left: variable(4, "c"),
                op: tok(TokenType::And, "and"),
                right: Box::new(Expr::Binary {
                    left: variable(6, "d"),
                    op: tok(TokenType::EqualEqual, "=="),
                    right: Box::new(Expr::Binary {
                        left: variable(8, "e"),
                        op: tok(TokenType::Less, "<"),
                        right: Box::new(Expr::Binary {
                            left: variable(10, "f"),
                            op: tok(TokenType::Plus, "+"),
                            right: Box::new(Expr::Binary {
                                left: variable(12, "g"),
                                op: tok(TokenType::Star, "*"),
                                right: Box::new(Expr::Unary {
                                    op: tok(TokenType::Minus, "-"),
                                    right: variable(15, "h"),
                                }),
                            }),
                        }),
                    }),
                }),
            }),
        }),
    };
    assert_eq!(expression("a = b or c and d == e < f + g * -h"), Ok(expected));
}

#[test]
fn assignment_groups_to_the_right() {
    assert_eq!(
        expression("a = b = 1"),
        Ok(Expr::Assign {
            id: 0,
            name: tok(TokenType::Identifier, "a"),
            value: Box::new(Expr::Assign {
                id: 2,
                name: tok(TokenType::Identifier, "b"),
                value: number("1"),
            }),
        })
    );
}

#[test]
fn parses_properties_and_this() {
    assert_eq!(
        expression("this.a.b"),
        Ok(Expr::Get {
            object: Box::new(Expr::Get {
                object: Box::new(Expr::This { id: 0, keyword: tok(TokenType::This, "this") }),
                name: tok(TokenType::Identifier, "a"),
            }),
            name: tok(TokenType::Identifier, "b"),
        })
    );
    assert_eq!(
        expression("a.b = 1"),
        Ok(Expr::SetProperty {
            object: variable(0, "a"),
            name: tok(TokenType::Identifier, "b"),
            value: number("1"),
        })
    );
}

#[test]
fn expression_errors() {
    assert_eq!(parsed("(1 + 2"), vec![Err(ParserError::UnexpectedEndOfInput)]);
    assert_eq!(
        parsed("(1 + 2 foo"),
        vec![Err(ParserError::UnexpectedToken {
            expected: TokenType::RightParen,
            token: tok(TokenType::Identifier, "foo"),
        })]
    );
    assert_eq!(expression("1 = 2"), Err(ParserError::InvalidAssignmentTarget));
    assert_eq!(expression("(a) = 2"), Err(ParserError::InvalidAssignmentTarget));
    assert_eq!(
        parsed("a.;"),
        vec![Err(ParserError::UnexpectedToken {
            expected: TokenType::Identifier,
            token: tok(TokenType::Semicolon, ";"),
        })]
    );
}

#[test]
fn parser_errors_have_messages() {
    assert_eq!(ParserError::UnexpectedEndOfInput.to_string(), "Unexpected end of input");
    assert_eq!(ParserError::InvalidAssignmentTarget.to_string(), "Invalid assignment target");
    assert_eq!(
        ParserError::UnexpectedToken {
            expected: TokenType::RightParen,
            token: Token { typ: TokenType::Identifier, lexeme: "foo".to_string(), line: 7 },
        }
        .to_string(),
        "Expected ) on line 7, but got an identifier"
    );
}

#[test]
fn parses_statements() {
    assert_eq!(
        parsed("var a; var b = 1; print b; { a; } break; return; return a;"),
        vec![
            Ok(Stmt::Var { name: tok(TokenType::Identifier, "a"), initializer: None }),
            Ok(Stmt::Var { name: tok(TokenType::Identifier, "b"), initializer: Some(number("1")) }),
            Ok(Stmt::Print { expr: variable(9, "b") }),
            Ok(Stmt::Block { stmts: vec![Stmt::Expression { expr: variable(12, "a") }] }),
            Ok(Stmt::Break),
            Ok(Stmt::Return { value: None }),
            Ok(Stmt::Return { value: Some(variable(20, "a")) }),
        ]
    );
}

#[test]
fn parses_if_and_while() {
    assert_eq!(
        parsed("if (a) b; else c; while (a) b;"),
        vec![
            Ok(Stmt::If {
                condition: variable(2, "a"),
                then_branch: Box::new(Stmt::Expression { expr: variable(4, "b") }),
                els: Some(Box::new(Stmt::Expression { expr: variable(7, "c") })),
            }),
            Ok(Stmt::While {
                condition: variable(11, "a"),
                body: Box::new(Stmt::Expression { expr: variable(13, "b") }),
            }),
        ]
    );
    assert_eq!(
        parsed("if (a) b;"),
        vec![Ok(Stmt::If {
            condition: variable(2, "a"),
            then_branch: Box::new(Stmt::Expression { expr: variable(4, "b") }),
            els: None,
        })]
    );
}

#[test]
fn else_belongs_to_the_nearest_if() {
    let inner = Stmt::If {
        condition: variable(6, "b"),
        then_branch: Box::new(Stmt::Expression { expr: variable(8, "c") }),
        els: Some(Box::new(Stmt::Expression { expr: variable(11, "d") })),
    };
    assert_eq!(
        parsed("if (a) if (b) c; else d;"),
        vec![Ok(Stmt::If { condition: variable(2, "a"), then_branch: Box::new(inner), els: None })]
    );
}

#[test]
fn parses_functions_and_classes() {
    assert_eq!(
        parsed("fun f(a, b) { return a; }"),
        vec![Ok(Stmt::Function {
            id: 1,
            name: tok(TokenType::Identifier, "f"),
            params: vec![tok(TokenType::Identifier, "a"), tok(TokenType::Identifier, "b")],
            body: vec![Stmt::Return { value: Some(variable(9, "a")) }],
        })]
    );
    assert_eq!(
        parsed("class A { m() {} n(x) { x; } }"),
        vec![Ok(Stmt::Class {
            id: 1,
            name: tok(TokenType::Identifier, "A"),
            methods: vec![
                Stmt::Function {
                    id: 3,
                    name: tok(TokenType::Identifier, "m"),
                    params: vec![],
                    body: vec![],
                },
                Stmt::Function {
                    id: 8,
                    name: tok(TokenType::Identifier, "n"),
                    params: vec![tok(TokenType::Identifier, "x")],
                    body: vec![Stmt::Expression { expr: variable(13, "x") }],
                },
            ],
        })]
    );
}

#[test]
fn for_is_read_as_a_while() {
    let body = Stmt::Print { expr: variable(18, "i") };
    let increment = Stmt::Expression {
        expr: Box::new(Expr::Assign {
            id: 11,
            name: tok(TokenType::Identifier, "i"),
            value: Box::new(Expr::Binary {
                left: variable(13, "i"),
                op: tok(TokenType::Plus, "+"),
                right: number("1"),
            }),
        }),
    };
    let repeated = Stmt::While {
        condition: Box::new(Expr::Binary {
            left: variable(7, "i"),
            op: tok(TokenType::Less, "<"),
            right: number("3"),
        }),
        body: Box::new(Stmt::Block { stmts: vec![body, increment] }),
    };
    let initializer = Stmt::Var { name: tok(TokenType::Identifier, "i"), initializer: Some(number("0")) };
    assert_eq!(
        parsed("for (var i = 0; i < 3; i = i + 1) print i;"),
        vec![Ok(Stmt::Block { stmts: vec![initializer, repeated] })]
    );
}

#[test]
fn an_empty_for_runs_while_true() {
    assert_eq!(
        parsed("for (;;) break;"),
        vec![Ok(Stmt::While {
            condition: Box::new(Expr::Literal { value: tok(TokenType::True, "true") }),
            body: Box::new(Stmt::Break),
        })]
    );
}

#[test]
fn goes_on_behind_a_failed_statement() {
    let all = parsed("print 1 + print; print 2; var = 3; print 4;");
    assert_eq!(all.len(), 4);
    assert_eq!(
        all[0],
        Err(ParserError::UnexpectedToken { expected: TokenType::Identifier, token: tok(TokenType::Print, "print") })
    );
    assert_eq!(all[1], Ok(Stmt::Print { expr: number("2") }));
    assert_eq!(
        all[2],
        Err(ParserError::UnexpectedToken { expected: TokenType::Identifier, token: tok(TokenType::Equal, "=") })
    );
    assert_eq!(all[3], Ok(Stmt::Print { expr: number("4") }));
}

#[test]
fn goes_on_before_a_statement_keyword() {
    let all = parsed("1 2 print 3;");
    assert_eq!(all.len(), 2);
    assert!(all[0].is_err());
    assert_eq!(all[1], Ok(Stmt::Print { expr: number("3") }));
}

#[test]
fn comments_are_no_statements() {
    let all = parsed("// note\n; print 1;");
    assert_eq!(all.len(), 2);
    assert_eq!(
        all[0],
        Err(ParserError::UnexpectedToken {
            expected: TokenType::Identifier,
            token: tok(TokenType::Comment, "// note"),
        })
    );
    assert_eq!(all[1].is_ok(), true);
}

#[test]
fn nothing_parses_to_nothing() {
    assert_eq!(parsed(""), vec![]);
}
