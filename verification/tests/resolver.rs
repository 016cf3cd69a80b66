//! The resolver: depths, and the programs that it refuses.
use gejang::shared::scanner::{scan, Token};
use gejang::walker::ast::Stmt;
use gejang::walker::parser::parse;
use gejang::walker::resolver::{resolve, Locals, ResolutionError, ScopeStack};

fn statements(source: &str) -> Vec<Stmt> {
    let tokens: Vec<Token> = scan(source).into_iter().map(|t| t.unwrap()).collect();
    parse(&tokens).into_iter().map(|s| s.unwrap()).collect()
}

fn depths(source: &str) -> Vec<(usize, usize)> {
    let locals: Locals = resolve(&statements(source)).unwrap();
    let mut all: Vec<(usize, usize)> = locals.into_iter().collect();
    all.sort();
    all
}

fn refusal(source: &str) -> String {
    resolve(&statements(source)).unwrap_err().to_string()
}

#[test]
fn references_to_globals_get_no_depth() {
    assert_eq!(depths("var a = 1; print a;"), vec![]);
    assert_eq!(depths("var a; print a; { print a; { a; } }"), vec![]);
    assert_eq!(depths("var a; fun f() { a = a + 1; return a; }"), vec![]);
    assert_eq!(depths("fun f() { f(); } { f(); }"), vec![]);
    assert_eq!(depths("class A {} { A(); }"), vec![]);
}

#[test]
fn names_that_no_scope_declares_get_no_depth() {
    assert_eq!(depths("print clock; { print missing; }"), vec![]);
}

#[test]
fn the_nearest_declaration_wins() {
    // var(0) a(1) ;(2) {(3) var(4) a(5) ;(6) a(7) ;(8) {(9) a(10) ;(11) }(12) }(13) a(14) ;(15)
    assert_eq!(depths("var a; { var a; a; { a; } } a;"), vec![(7, 0), (10, 1)]);
}

#[test]
fn assignments_are_resolved_like_reads() {
    // {(0) var(1) a(2) ;(3) {(4) a(5) =(6) a(7) ;(8) }(9) }(10)
    assert_eq!(depths("{ var a; { a = a; } }"), vec![(5, 1), (7, 1)]);
    assert_eq!(depths("var a; { a = a; }"), vec![]);
}

#[test]
fn a_function_body_lies_in_the_scope_of_its_parameters() {
    // var(0) g(1) ;(2) fun(3) f(4) ((5) x(6) )(7) {(8) x(9) ;(10) g(11) ;(12) f(13) ;(14) {(15) x(16) ;(17) }(18) }(19)
    assert_eq!(depths("var g; fun f(x) { x; g; f; { x; } }"), vec![(9, 0), (16, 1)]);
}

#[test]
fn a_function_in_a_block_is_found_from_its_own_body() {
    // {(0) fun(1) f(2) ((3) x(4) )(5) {(6) f(7) ((8) x(9) )(10) ;(11) }(12) }(13)
    assert_eq!(depths("{ fun f(x) { f(x); } }"), vec![(7, 1), (9, 0)]);
}

#[test]
fn a_closure_is_resolved_where_it_is_declared() {
    let source = "var a = 1; { fun show() { print a; } show(); var a = 2; show(); }";
    // var(0) a(1) =(2) 1(3) ;(4) {(5) fun(6) show(7) ((8) )(9) {(10) print(11) a(12) ;(13) }(14)
    // show(15) ((16) )(17) ;(18) var(19) a(20) =(21) 2(22) ;(23) show(24) ((25) )(26) ;(27) }(28)
    assert_eq!(depths(source), vec![(15, 0), (24, 0)]);
    let inner = "{ var a = 1; { fun show() { print a; } show(); var a = 2; show(); } }";
    assert_eq!(depths(inner), vec![(13, 2), (16, 0), (25, 0)]);
}

#[test]
fn methods_find_this_one_scope_out() {
    // class(0) A(1) {(2) m(3) ((4) x(5) )(6) {(7) this(8) ;(9) x(10) ;(11) {(12) this(13) ;(14) }(15) }(16) }(17)
    assert_eq!(depths("class A { m(x) { this; x; { this; } } }"), vec![(8, 1), (10, 0), (13, 2)]);
}

#[test]
fn this_outside_a_class_gets_no_depth() {
    assert_eq!(depths("fun f() { this; }"), vec![]);
}

#[test]
fn properties_resolve_their_objects() {
    // {(0) var(1) a(2) ;(3) a(4) .(5) b(6) =(7) a(8) .(9) c(10) ;(11) }(12)
    assert_eq!(depths("{ var a; a.b = a.c; }"), vec![(4, 0), (8, 0)]);
    assert_eq!(depths("var a; { a.b = a.c; }"), vec![]);
}

#[test]
fn refuses_a_read_in_the_own_initializer() {
    assert_eq!(refusal("var a = a;"), "Cannot read local variable in its own initializer");
    assert_eq!(refusal("{ var a = a; }"), "Cannot read local variable in its own initializer");
    assert_eq!(refusal("var a; { var a = a + 1; }"), "Cannot read local variable in its own initializer");
    assert_eq!(refusal("fun f() { var a = (1 + a); }"), "Cannot read local variable in its own initializer");
}

#[test]
fn allows_a_read_of_the_variable_in_a_function_in_the_initializer() {
    assert_eq!(resolve(&statements("var a = 1; { fun f() { return a; } var b = f(); }")).is_ok(), true);
}

#[test]
fn refuses_a_second_declaration_in_one_scope() {
    assert_eq!(refusal("{ var a; var a; }"), "Variable a was already defined in this scope");
    assert_eq!(refusal("fun f(a) { var a; }"), "Variable a was already defined in this scope");
    assert_eq!(refusal("fun f(a, a) {}"), "Variable a was already defined in this scope");
    assert_eq!(refusal("{ fun f() {} var f; }"), "Variable f was already defined in this scope");
    assert_eq!(refusal("{ class A {} fun A() {} }"), "Variable A was already defined in this scope");
}

#[test]
fn allows_a_second_declaration_in_the_global_scope() {
    assert_eq!(depths("var a = 1; var a = 2;"), vec![]);
    assert_eq!(depths("var a; var a; print a;"), vec![]);
    assert_eq!(depths("fun f() {} var f;"), vec![]);
    assert_eq!(depths("class A {} fun A() {}"), vec![]);
}

#[test]
fn allows_shadowing_across_scopes() {
    assert_eq!(resolve(&statements("var a; { var a; { var a; } } fun f(a) { { var a; } }")).is_ok(), true);
}

#[test]
fn refuses_return_outside_a_function() {
    assert_eq!(refusal("return;"), "Cannot return from global scope");
    assert_eq!(refusal("{ return 1; }"), "Cannot return from global scope");
    assert_eq!(refusal("fun f() { return; } return;"), "Cannot return from global scope");
}

#[test]
fn allows_return_in_functions_and_methods() {
    assert_eq!(resolve(&statements("fun f() { if (true) { return 1; } } class A { m() { return; } }")).is_ok(), true);
}

#[test]
fn the_first_error_ends_the_pass() {
    assert_eq!(refusal("{ var a; var a; } return;"), "Variable a was already defined in this scope");
}

#[test]
fn an_error_is_its_message() {
    let e = ResolutionError::Error { msg: "text".to_string() };
    assert_eq!(e.to_string(), "text");
}

#[test]
fn scope_stack_by_hand() {
    let mut scopes = ScopeStack::new();
    assert_eq!(scopes.len(), 0);
    assert_eq!(scopes.depth_of("a"), None);
    assert_eq!(scopes.innermost("a"), None);
    scopes.mark("a".to_string(), true);
    assert_eq!(scopes.innermost("a"), None);
    scopes.pop();
    assert_eq!(scopes.len(), 0);
    scopes.push();
    scopes.mark("a".to_string(), false);
    assert_eq!(scopes.innermost("a"), Some(false));
    scopes.mark("a".to_string(), true);
    assert_eq!(scopes.innermost("a"), Some(true));
    scopes.push();
    scopes.push();
    scopes.mark("b".to_string(), true);
    assert_eq!(scopes.len(), 3);
    assert_eq!(scopes.depth_of("b"), Some(0));
    assert_eq!(scopes.depth_of("a"), Some(2));
    assert_eq!(scopes.depth_of("c"), None);
    assert_eq!(scopes.innermost("a"), None);
    scopes.pop();
    assert_eq!(scopes.depth_of("b"), None);
    assert_eq!(scopes.depth_of("a"), Some(1));
}
