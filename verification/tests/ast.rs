//! Trees written out.
use gejang::shared::scanner::{scan, Token, TokenType};
use gejang::walker::ast::{format_ast, Expr, Stmt};
use gejang::walker::parser::parse;

fn statements(source: &str) -> Vec<Stmt> {
    let tokens: Vec<Token> = scan(source).into_iter().map(|t| t.unwrap()).collect();
    parse(&tokens).into_iter().map(|s| s.unwrap()).collect()
}

fn written(source: &str) -> String {
    let all: Vec<String> = statements(source).iter().map(|s| s.to_string()).collect();
    all.join("\n")
}

fn number(lexeme: &str) -> Box<Expr> {
    Box::new(Expr::Literal { value: Token { typ: TokenType::Number, lexeme: lexeme.to_string(), line: 0 } })
}

fn operator(typ: TokenType, lexeme: &str) -> Token {
    Token { typ, lexeme: lexeme.to_string(), line: 0 }
}

#[test]
fn test_printer() {
    let sum = Expr::Binary { left: number("1"), op: operator(TokenType::Plus, "+"), right: number("2") };
    assert_eq!(sum.to_string(), "(+ 1 2)");
    assert_eq!(format_ast(&sum), "(+ 1 2)");
    let product = Expr::Binary {
        left: Box::new(Expr::Unary { op: operator(TokenType::Minus, "-"), right: number("1") }),
        op: operator(TokenType::Star, "*"),
        right: Box::new(Expr::Grouping { expr: number("2") }),
    };
    assert_eq!(product.to_string(), "(* (- 1) (grouping 2))");
    assert_eq!(format_ast(&product), "(* (- 1) (grouping 2))");
}

#[test]
fn writes_expressions() {
    assert_eq!(written("a = b or c and !d;"), "(expression (assign a (or b (and c (! d)))))");
    assert_eq!(written("f();"), "(expression (f ))");
    assert_eq!(written("f(1);"), "(expression (f 1))");
    assert_eq!(written("f(1, \"two\", g(3));"), "(expression (f 1, \"two\", (g 3)))");
    assert_eq!(written("this.a.b = c.d;"), "(expression (set (get this a) b (get c d)))");
    assert_eq!(written("nil == true;"), "(expression (== nil true))");
}

#[test]
fn writes_statements() {
    assert_eq!(written("print 1;"), "(print 1)");
    assert_eq!(written("var a;"), "(var a)");
    assert_eq!(written("var a = 1;"), "(var a 1)");
    assert_eq!(written("{}"), "(block )");
    assert_eq!(written("{ a; break; }"), "(block (expression a) (break))");
    assert_eq!(written("if (a) b;"), "(if a then (expression b))");
    assert_eq!(written("if (a) b; else c;"), "(if a then (expression b) else (expression c))");
    assert_eq!(written("while (a) b;"), "(while a (expression b))");
    assert_eq!(
        written("fun f(a, b) { return; return a; }"),
        "(function f (a b) ((return) (return a)))"
    );
    assert_eq!(written("fun f() {}"), "(function f () ())");
    assert_eq!(written("class A { m() {} n(x) {} }"), "(class A (m) (n))");
    assert_eq!(written("class A {}"), "(class A )");
    assert_eq!(
        written("for (var i = 0; i < 3; i = i + 1) print i;"),
        "(block (var i 0) (while (< i 3) (block (print i) (expression (assign i (+ i 1))))))"
    );
}
