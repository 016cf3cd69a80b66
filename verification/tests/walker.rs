//! Whole programs, from source text to output, run by a host that does the
//! arithmetic and keeps what is printed.
use gejang::shared::streams::Streams;
use gejang::walker::interpreter::{Event, Interpreter, Request};
use gejang::walker::machine::{Arithmetic, Comparison};
use gejang::walker::{load, report, InterpreterError};
use std::time::{SystemTime, UNIX_EPOCH};

fn answer(request: &Request, streams: &mut Streams) -> Event {
    match request {
        Request::Parse { lexeme } => match lexeme.parse::<f64>() {
            Ok(x) => Event::Number(x.to_bits()),
            Err(_) => Event::Refused,
        },
        Request::Negate { value } => Event::Number((-f64::from_bits(*value)).to_bits()),
        Request::Calculate { op, left, right } => {
            let (l, r) = (f64::from_bits(*left), f64::from_bits(*right));
            let x = match op {
                Arithmetic::Add => l + r,
                Arithmetic::Subtract => l - r,
                Arithmetic::Multiply => l * r,
                Arithmetic::Divide => l / r,
            };
            Event::Number(x.to_bits())
        }
        Request::Compare { op, left, right } => {
            let (l, r) = (f64::from_bits(*left), f64::from_bits(*right));
            Event::Boolean(match op {
                Comparison::Greater => l > r,
                Comparison::GreaterEqual => l >= r,
                Comparison::Less => l < r,
                Comparison::LessEqual => l <= r,
                Comparison::Equal => l == r,
                Comparison::NotEqual => l != r,
            })
        }
        Request::Format { value } => Event::Text(f64::from_bits(*value).to_string()),
        Request::Clock => {
            let now = SystemTime::now().duration_since(UNIX_EPOCH).unwrap();
            Event::Number(now.as_secs_f64().to_bits())
        }
        Request::Print { text } => {
            streams.write_output(text);
            Event::Written
        }
        Request::Continue | Request::Done | Request::Failed(_) => Event::Resume,
    }
}

fn interpret(source: &str, streams: &mut Streams) -> Result<(), InterpreterError> {
    let program = load(source, streams)?;
    let mut interpreter = Interpreter::new(program.locals);
    interpreter.interpret(&program.statements);
    let mut event = Event::Resume;
    loop {
        let request = interpreter.run_on(streams, event, 1_000_000);
        match request {
            Request::Done => return Ok(()),
            Request::Failed(e) => return Err(report(&e, streams)),
            other => event = answer(&other, streams),
        }
    }
}

/// As `interpret`, with every line that the program prints written by the
/// host.
fn interpret_by_host(source: &str, streams: &mut Streams) -> Result<(), InterpreterError> {
    let program = load(source, streams)?;
    let mut interpreter = Interpreter::new(program.locals);
    interpreter.interpret(&program.statements);
    let mut event = Event::Resume;
    loop {
        let request = interpreter.run(event, 1_000_000);
        match request {
            Request::Done => return Ok(()),
            Request::Failed(e) => return Err(report(&e, streams)),
            other => event = answer(&other, streams),
        }
    }
}

fn output_of(source: &str) -> String {
    println!("source:\n{}", source);
    let mut streams = Streams::test();
    let r = interpret(source, &mut streams);
    println!("stdout:\n{}", streams.get_output().unwrap());
    println!("stderr:\n{}", streams.get_error().unwrap());
    r.unwrap();
    streams.get_output().unwrap()
}

fn failure_of(source: &str) -> (InterpreterError, String, String) {
    let mut streams = Streams::test();
    let r = interpret(source, &mut streams);
    (r.unwrap_err(), streams.get_output().unwrap(), streams.get_error().unwrap())
}

#[test]
fn test_clock() {
    let source = "print clock();";
    println!("source:\n{}", source);
    let mut streams = Streams::test();
    let r = interpret(source, &mut streams);
    println!("stdout:\n{}", streams.get_output().unwrap());
    println!("stderr:\n{}", streams.get_error().unwrap());
    r.unwrap();
    let printed = streams.get_output().unwrap();
    assert!(printed.ends_with('\n'));
    assert!(printed.trim_end().parse::<f64>().unwrap() > 0.0);
}

#[test]
fn prints_arithmetic() {
    assert_eq!(output_of("print 1 + 2;"), "3\n");
    assert_eq!(output_of("print 2 * 4 + 3;"), "11\n");
    assert_eq!(output_of("print 1 - 2;"), "-1\n");
    assert_eq!(output_of("print 1 / 2;"), "0.5\n");
    assert_eq!(output_of("print 1 / 0;"), "inf\n");
    assert_eq!(output_of("print -(1 + 2) * 3;"), "-9\n");
    assert_eq!(output_of("print 123.5;"), "123.5\n");
}

#[test]
fn prints_literals() {
    assert_eq!(output_of("print true;"), "true\n");
    assert_eq!(output_of("print false;"), "false\n");
    assert_eq!(output_of("print nil;"), "nil\n");
    assert_eq!(output_of("print \"one\";"), "one\n");
    assert_eq!(output_of("print \"\";"), "\n");
}

#[test]
fn joins_strings() {
    assert_eq!(output_of("print \"foo\" + \"bar\";"), "foobar\n");
}

#[test]
fn string_plus_number_names_the_kinds() {
    let (stage, out, err) = failure_of("print \"foo\" + 1;");
    assert_eq!(stage, InterpreterError::Evaluation);
    assert_eq!(out, "");
    assert_eq!(err, "Binary operation not implemented: String + Number\n");
}

#[test]
fn mismatched_operands_fail() {
    let cases = [
        ("print 1 + \"foo\";", "Binary operation not implemented: Number + String\n"),
        ("print 1 + true;", "Binary operation not implemented: Number + Boolean\n"),
        ("print 1 + nil;", "Binary operation not implemented: Number + Nil\n"),
        ("print \"foo\" > true;", "Binary operation not implemented: String > Boolean\n"),
        ("print \"foo\" > \"bar\";", "Binary operation not implemented: String > String\n"),
        ("print \"foo\" > nil;", "Binary operation not implemented: String > Nil\n"),
        ("print -\"foo\";", "Cannot negate non-number\n"),
    ];
    for (source, message) in cases {
        let (stage, _, err) = failure_of(source);
        assert_eq!(stage, InterpreterError::Evaluation);
        assert_eq!(err, message);
    }
}

#[test]
fn compares_numbers() {
    assert_eq!(output_of("print 1 <= 2; print 2 <= 2; print 3 <= 2;"), "true\ntrue\nfalse\n");
    assert_eq!(output_of("print 1 < 2; print 2 < 2; print 3 < 2;"), "true\nfalse\nfalse\n");
    assert_eq!(output_of("print 1 >= 2; print 2 >= 2; print 3 >= 2;"), "false\ntrue\ntrue\n");
    assert_eq!(output_of("print 1 > 2; print 2 > 2; print 3 > 2;"), "false\nfalse\ntrue\n");
    assert_eq!(output_of("print 2 == 2; print 2 != 2; print 1 == 2; print 1 != 2;"),
        "true\nfalse\nfalse\ntrue\n");
}

#[test]
fn compares_across_kinds() {
    assert_eq!(output_of("print 1 == \"1\";"), "false\n");
    assert_eq!(output_of("print nil == nil;"), "true\n");
    assert_eq!(output_of("print nil != false;"), "true\n");
    assert_eq!(output_of("print \"a\" + \"b\" == \"ab\";"), "true\n");
    assert_eq!(output_of("print true == true;"), "true\n");
    assert_eq!(output_of("print clock == clock;"), "true\n");
    assert_eq!(output_of("print clock == tsp2cup;"), "false\n");
    assert_eq!(output_of("fun f() {} fun g() {} print f == f; print f == g;"), "true\nfalse\n");
}

#[test]
fn negation_uses_truthiness() {
    assert_eq!(output_of("print !true; print !false; print !nil;"), "false\ntrue\ntrue\n");
    assert_eq!(output_of("print !1; print !0; print !\"foo\"; print !\"\";"),
        "false\nfalse\nfalse\nfalse\n");
}

#[test]
fn variables() {
    assert_eq!(output_of("var foo = \"bar\"; print foo;"), "bar\n");
    assert_eq!(output_of("var foo = 1 + 2 * 6; print foo;"), "13\n");
    assert_eq!(output_of("var foo; print foo;"), "nil\n");
    assert_eq!(output_of("var foo; print foo = 2;"), "2\n");
    assert_eq!(output_of("var a; print a;"), "nil\n");
    assert_eq!(output_of("var a; print a = 2;"), "2\n");
    assert_eq!(output_of("var a = 1; a = a + 1; print a;"), "2\n");
}

#[test]
fn undefined_variable_fails() {
    let (stage, _, err) = failure_of("print missing;");
    assert_eq!(stage, InterpreterError::Evaluation);
    assert_eq!(err, "Undefined variable missing\n");
    let (stage, _, err) = failure_of("missing = 1;");
    assert_eq!(stage, InterpreterError::Evaluation);
    assert_eq!(err, "Undefined variable missing\n");
}

#[test]
fn nested_scopes() {
    let source = r#"
var a = "global a";
var b = "global b";
var c = "global c";
{
  var a = "outer a";
  var b = "outer b";
  {
    var a = "inner a";
    print a;
    print b;
    print c;
  }
  print a;
  print b;
  print c;
}
print a;
print b;
print c;"#;
    assert_eq!(
        output_of(source),
        "inner a\nouter b\nglobal c\nouter a\nouter b\nglobal c\nglobal a\nglobal b\nglobal c\n"
    );
}

#[test]
fn shadowing_in_a_block() {
    assert_eq!(output_of("var a = 1; { var b = a + 2; print b; }"), "3\n");
    assert_eq!(output_of("var a = 1; { var a = 2; print a; } print a;"), "2\n1\n");
    assert_eq!(output_of("var a = 1; { a = a + 2; print a; } print a;"), "3\n3\n");
}

#[test]
fn own_initializer_in_a_block_is_refused() {
    let (stage, out, err) = failure_of("var a = 1; { var a = a + 2; print a; }");
    assert_eq!(stage, InterpreterError::Resolver);
    assert_eq!(out, "");
    assert_eq!(err, "Cannot read local variable in its own initializer\n");
}

#[test]
fn own_initializer_is_refused() {
    let (stage, out, err) = failure_of("var a = a;");
    assert_eq!(stage, InterpreterError::Resolver);
    assert_eq!(out, "");
    assert_eq!(err, "Cannot read local variable in its own initializer\n");
}

#[test]
fn second_declaration_in_a_scope_is_refused() {
    let (stage, _, err) = failure_of("{ var a = 1; var a = 2; }");
    assert_eq!(stage, InterpreterError::Resolver);
    assert_eq!(err, "Variable a was already defined in this scope\n");
    let (stage, _, err) = failure_of("fun f(x, x) {}");
    assert_eq!(stage, InterpreterError::Resolver);
    assert_eq!(err, "Variable x was already defined in this scope\n");
}

#[test]
fn return_outside_a_function_is_refused() {
    let (stage, out, err) = failure_of("print 1; return 2;");
    assert_eq!(stage, InterpreterError::Resolver);
    assert_eq!(out, "");
    assert_eq!(err, "Cannot return from global scope\n");
}

#[test]
fn conditionals() {
    assert_eq!(output_of("if (true) print 1;"), "1\n");
    assert_eq!(output_of("if (false) print 1;"), "");
    assert_eq!(output_of("if (true) print 1; else print 0;"), "1\n");
    assert_eq!(output_of("if (false) print 1; else print 0;"), "0\n");
    assert_eq!(output_of("if (0) print 1; else print 0;"), "1\n");
    assert_eq!(output_of("if (nil) print 1; else print 0;"), "0\n");
}

#[test]
fn logical_operators_give_the_deciding_value() {
    assert_eq!(output_of("print \"hi\" or 2;"), "hi\n");
    assert_eq!(output_of("print nil or \"yes\";"), "yes\n");
    assert_eq!(output_of("print false or \"yes\";"), "yes\n");
    assert_eq!(output_of("print \"hi\" and 2;"), "2\n");
    assert_eq!(output_of("print nil and \"yes\";"), "nil\n");
    assert_eq!(output_of("print false and \"yes\";"), "false\n");
}

#[test]
fn logical_operators_short_circuit() {
    assert_eq!(output_of("var a = 1; true or (a = 2); print a;"), "1\n");
    assert_eq!(output_of("var a = 1; false and (a = 2); print a;"), "1\n");
    assert_eq!(output_of("var a = 1; false or (a = 2); print a;"), "2\n");
    assert_eq!(output_of("var a = 1; true and (a = 2); print a;"), "2\n");
}

#[test]
fn while_loops() {
    assert_eq!(output_of("var i = 0; while (i < 3) {print i; i = i + 1;}"), "0\n1\n2\n");
    assert_eq!(output_of("var i = 0; while (i < 3) {print i; i = i + 1; break;}"), "0\n");
}

#[test]
fn for_loops() {
    assert_eq!(output_of("for (var i = 0; i < 3; i = i + 1) print i;"), "0\n1\n2\n");
    assert_eq!(output_of("for (var i = 0; i < 3; i = i + 1) {print i;}"), "0\n1\n2\n");
    assert_eq!(output_of("for (var i = 0; i < 3; i = i + 1) {print i; break;}"), "0\n");
    assert_eq!(
        output_of("for (var i = 0; i < 3; i = i + 1) {print i; if (i >= 1) break;}"),
        "0\n1\n"
    );
    assert_eq!(output_of("var i = 0; for (; i < 3; i = i + 1) print i;"), "0\n1\n2\n");
    assert_eq!(output_of("for (var i = 0; i < 3;) {print i; i = i + 1;}"), "0\n1\n2\n");
    assert_eq!(output_of("var i = 0; for (; i < 3;) {print i; i = i + 1;}"), "0\n1\n2\n");
    assert_eq!(output_of("for (var i = 0;; i = i + 1) {if (i >= 2) break; print i;}"), "0\n1\n");
}

#[test]
fn for_is_the_loop_it_stands_for() {
    let a = output_of("for (var i=0;i<3;i=i+1) print i;");
    let b = output_of("var i=0; while(i<3){print i; i=i+1;}");
    assert_eq!(a, "0\n1\n2\n");
    assert_eq!(a, b);
}

#[test]
fn break_ends_the_innermost_loop_only() {
    let nested_for = "for (var i=0;i<2;i=i+1) { for (var j=0;j<5;j=j+1) { if (j>=1) break; print j; } print i; }";
    assert_eq!(output_of(nested_for), "0\n0\n0\n1\n");
    let nested_while =
        "var i=0; while(i<2){ var j=0; while(j<5){ if (j>=1) break; print j; j=j+1; } print i; i=i+1; }";
    assert_eq!(output_of(nested_while), "0\n0\n0\n1\n");
}

#[test]
fn break_keeps_the_frames_in_step() {
    let source = "var a = 1; while (true) { var a = 2; { var a = 3; break; } } print a; { var b = 4; print b; }";
    assert_eq!(output_of(source), "1\n4\n");
}

#[test]
fn break_without_a_loop_fails() {
    let (stage, _, err) = failure_of("break;");
    assert_eq!(stage, InterpreterError::Evaluation);
    assert_eq!(err, "Breaking loop\n");
}

#[test]
fn natives() {
    assert_eq!(output_of("print clock;"), "<native fun clock/0>\n");
    assert_eq!(output_of("print tsp2cup;"), "<native fun tsp2cup/1>\n");
    assert_eq!(output_of("print tsp2cup(15);"), "0.3125\n");
    assert_eq!(output_of("print tsp2cup(48);"), "1\n");
}

#[test]
fn native_with_a_wrong_argument_fails() {
    let (stage, _, err) = failure_of("tsp2cup(\"x\");");
    assert_eq!(stage, InterpreterError::Evaluation);
    assert_eq!(err, "Native function expects a number: tsp2cup\n");
}

#[test]
fn recursion() {
    let source = r#"
fun count(n) {
  if (n > 1) count(n - 1);
  print n;
}

count(3);"#;
    assert_eq!(output_of(source), "1\n2\n3\n");
    let source = r#"
fun count(n) {
  if (n > 1) count(n - 1);
  print n;
}

print count;"#;
    assert_eq!(output_of(source), "<fun count/1>\n");
}

#[test]
fn fibonacci() {
    let source = r#"
fun fib(n) {
  if (n <= 1) return n;
  return fib(n - 2) + fib(n - 1);
}

print(fib(10));"#;
    assert_eq!(output_of(source), "55\n");
}

#[test]
fn functions_return_nil_without_return() {
    assert_eq!(output_of("fun f() {} print f();"), "nil\n");
    assert_eq!(output_of("fun f() { return; } print f();"), "nil\n");
    assert_eq!(output_of("fun f() { while (true) { { return 7; } } } print f() + 1;"), "8\n");
}

#[test]
fn several_parameters_are_bound_by_position() {
    assert_eq!(output_of("fun f(a, b, c) { print a; print b; print c; } f(1, \"two\", nil);"),
        "1\ntwo\nnil\n");
    assert_eq!(output_of("fun sub(a, b) { return a - b; } print sub(5, 2);"), "3\n");
}

#[test]
fn closures_share_what_they_capture() {
    let source = r#"
fun makeCounter() {
  var i = 0;
  fun count() {
    i = i + 1;
    print i;
  }

  return count;
}

var counter = makeCounter();
counter();
counter();
counter();"#;
    assert_eq!(output_of(source), "1\n2\n3\n");
}

#[test]
fn two_counters_do_not_share() {
    let source = r#"
fun makeCounter() {
  var i = 0;
  fun count() { i = i + 1; print i; }
  return count;
}
var a = makeCounter();
var b = makeCounter();
a(); a(); b(); a();"#;
    assert_eq!(output_of(source), "1\n2\n1\n3\n");
}

#[test]
fn closure_sees_the_binding_it_was_resolved_to() {
    let source = r#"
var a = "global";
{
  fun showA() {
    print a;
  }

  showA();
  var a = "block";
  showA();
}"#;
    assert_eq!(output_of(source), "global\nglobal\n");
}

#[test]
fn wrong_number_of_arguments_fails() {
    let (stage, _, err) = failure_of("fun f(a) {} f();");
    assert_eq!(stage, InterpreterError::Evaluation);
    assert_eq!(err, "Wrong number of arguments: expected 1, got 0\n");
    let (_, _, err) = failure_of("fun f(a) {} f(1, 2);");
    assert_eq!(err, "Wrong number of arguments: expected 1, got 2\n");
    let (_, _, err) = failure_of("clock(1);");
    assert_eq!(err, "Wrong number of arguments: expected 0, got 1\n");
    let (_, _, err) = failure_of("class A { init(x) {} } A();");
    assert_eq!(err, "Wrong number of arguments: expected 1, got 0\n");
    let (_, _, err) = failure_of("class A {} A(1);");
    assert_eq!(err, "Wrong number of arguments: expected 0, got 1\n");
}

#[test]
fn calling_what_is_no_function_fails() {
    let (stage, _, err) = failure_of("\"text\"();");
    assert_eq!(stage, InterpreterError::Evaluation);
    assert_eq!(err, "Value of type text is not callable\n");
    let (_, _, err) = failure_of("nil();");
    assert_eq!(err, "Value of type nil is not callable\n");
    let (_, _, err) = failure_of("3();");
    assert_eq!(err, "Value of type 3 is not callable\n");
}

#[test]
fn classes_and_instances() {
    let source = r#"
class Foo {
  method() {
    print("hello");
  }
}

var foo = Foo();
print(foo);

foo.field = "goodbye";
print(foo.field);
"#;
    assert_eq!(output_of(source), "<instance of <cls Foo>>\ngoodbye\n");
    assert_eq!(output_of("class Foo {} print Foo;"), "<cls Foo>\n");
}

#[test]
fn a_field_reads_back_as_it_was_set() {
    let source = r#"
class Foo { field() { return "method"; } }
var foo = Foo();
print foo.field();
foo.field = 12;
print foo.field;
var other = Foo();
print other.field();
print (foo.extra = "x");
"#;
    assert_eq!(output_of(source), "method\n12\nmethod\nx\n");
}

#[test]
fn instances_are_shared_not_copied() {
    let source = r#"
class Box {}
var a = Box();
var b = a;
b.value = 1;
print a.value;
print a == b;
print a == Box();
"#;
    assert_eq!(output_of(source), "1\ntrue\nfalse\n");
}

#[test]
fn methods_see_this() {
    let source = r#"
class Counter {
  init(start) { this.count = start; }
  next() { this.count = this.count + 1; return this.count; }
  add(n) { var i = 0; while (i < n) { this.next(); i = i + 1; } return this.count; }
}
var c = Counter(5);
print c.count;
print c.next();
var step = c.next;
print step();
print c.add(3);
"#;
    assert_eq!(output_of(source), "5\n6\n7\n10\n");
}

#[test]
fn initializer_gives_the_instance() {
    let source = r#"
class A { init() { this.x = 1; return 5; } }
var a = A();
print a.x;
print a;
"#;
    assert_eq!(output_of(source), "1\n<instance of <cls A>>\n");
}

#[test]
fn only_instances_have_attributes() {
    let (stage, _, err) = failure_of("var a = 1; print a.field;");
    assert_eq!(stage, InterpreterError::Evaluation);
    assert_eq!(err, "Only instances have attributes\n");
    let (_, out, err) = failure_of("var a = \"s\"; a.field = (print 1);");
    assert_eq!(err.len() > 0, true);
    assert_eq!(out, "");
    let (_, _, err) = failure_of("class A {} var a = A(); print a.missing;");
    assert_eq!(err, "Undefined variable missing\n");
}

#[test]
fn scan_errors_come_first_and_all_together() {
    let (stage, out, err) = failure_of("print 1; @ # \"open");
    assert_eq!(stage, InterpreterError::Scanner);
    assert_eq!(out, "");
    assert_eq!(
        err,
        "Unexpected character on line 0: @\nUnexpected character on line 0: #\nUnterminated string on line 0\n"
    );
}

#[test]
fn parse_errors_are_reported_per_statement() {
    let (stage, out, err) = failure_of("print 1 +; print 2; var = 3; print (4;");
    assert_eq!(stage, InterpreterError::Parser);
    assert_eq!(out, "");
    assert_eq!(
        err,
        "Expected an identifier on line 0, but got ;\nExpected an identifier on line 0, but got =\nExpected ) on line 0, but got ;\n"
    );
    let (stage, _, err) = failure_of("print (1 + 2");
    assert_eq!(stage, InterpreterError::Parser);
    assert_eq!(err, "Unexpected end of input\n");
    let (stage, _, err) = failure_of("1 = 2;");
    assert_eq!(stage, InterpreterError::Parser);
    assert_eq!(err, "Invalid assignment target\n");
}

#[test]
fn a_function_in_a_property_keeps_its_own_scopes() {
    let source = r#"
var x = 1;
{
  var y = 2;
  fun g(z) { print x; print y; print z; }
  class A { m() { return this; } }
  var a = A();
  a.f = g;
  a.f(3);
  var m = a.m;
  a.g = m;
  print a.g() == a;
  print a.g == m;
  print a.f == g;
}
"#;
    assert_eq!(output_of(source), "1\n2\n3\ntrue\ntrue\ntrue\n");
}

#[test]
fn a_method_is_bound_anew_at_each_read() {
    let source = r#"
class A { m() { return this; } }
var a = A();
var b = A();
print a.m() == a;
print b.m() == b;
print a.m() == b;
print a.m == a.m;
"#;
    assert_eq!(output_of(source), "true\ntrue\nfalse\nfalse\n");
}

#[test]
fn the_machine_prints_as_its_host_would() {
    let source = r#"
fun fib(n) { if (n <= 1) return n; return fib(n - 2) + fib(n - 1); }
for (var i = 0; i < 8; i = i + 1) print fib(i);
print "done"; print nil; print fib;
"#;
    let mut by_machine = Streams::test();
    interpret(source, &mut by_machine).unwrap();
    let mut by_host = Streams::test();
    interpret_by_host(source, &mut by_host).unwrap();
    assert_eq!(by_machine.get_output().unwrap(), "0\n1\n1\n2\n3\n5\n8\n13\ndone\nnil\n<fun fib/1>\n");
    assert_eq!(by_machine.get_output().unwrap(), by_host.get_output().unwrap());
}

#[test]
fn a_long_loop_runs_through_many_turns() {
    let source = "var i = 0; var s = 0; while (i < 2000) { s = s + i; i = i + 1; } print s;";
    let program_output = output_of(source);
    assert_eq!(program_output, "1999000\n");
}

#[test]
fn break_in_a_called_function_ends_the_loop_that_runs() {
    let source = "fun stop() { break; } var i = 0; while (true) { i = i + 1; if (i > 2) stop(); } print i; { var j = 9; print j; }";
    assert_eq!(output_of(source), "3\n9\n");
}

#[test]
fn each_round_of_a_loop_has_a_frame_of_its_own() {
    let source = r#"
var first;
var second;
for (var i = 0; i < 2; i = i + 1) {
  var captured = i * 10;
  fun show() { print captured; }
  if (i == 0) first = show; else second = show;
}
first();
second();
"#;
    assert_eq!(output_of(source), "0\n10\n");
}

#[test]
fn deep_recursion_needs_no_deep_stack() {
    let source = "fun down(n) { if (n > 0) return down(n - 1); return \"bottom\"; } print down(20000);";
    assert_eq!(output_of(source), "bottom\n");
}

#[test]
fn a_conditional_declaration_may_leave_a_name_unbound() {
    let (stage, out, err) =
        failure_of("fun f() { print \"global\"; } { if (false) fun f() { print \"local\"; } f(); }");
    assert_eq!(stage, InterpreterError::Evaluation);
    assert_eq!(out, "");
    assert_eq!(err, "Undefined variable f\n");
}

#[test]
fn methods_close_over_the_scope_of_the_class() {
    let source = r#"
var greeting = "hello";
{
  var name = "world";
  class Greeter {
    init(mark) { this.mark = mark; }
    greet() { print greeting; print name; print this.mark; }
  }
  var g = Greeter("!");
  g.greet();
  var bound = g.greet;
  name = "there";
  bound();
}
"#;
    assert_eq!(output_of(source), "hello\nworld\n!\nhello\nthere\n!\n");
}

#[test]
fn a_class_is_a_value() {
    let source = r#"
class A { who() { return "a"; } }
var B = A;
print B == A;
print B().who();
class C {}
print C == A;
"#;
    assert_eq!(output_of(source), "true\na\nfalse\n");
}

#[test]
fn a_global_can_be_declared_again() {
    assert_eq!(output_of("var a = 1; print a; var a = 2; print a;"), "1\n2\n");
    assert_eq!(output_of("fun f() { return 1; } print f(); fun f() { return 2; } print f();"), "1\n2\n");
}

#[test]
fn a_global_is_found_from_every_scope() {
    let source = r#"
var a = "global";
fun read() { return a; }
fun write(v) { a = v; }
{
  var b = "block";
  {
    print a;
    write("written");
    print read();
    print b;
  }
}
print a;
"#;
    assert_eq!(output_of(source), "global\nwritten\nblock\nwritten\n");
}

#[test]
fn a_global_that_is_declared_later_is_found_when_it_is_read() {
    let source = "fun show() { print later; } var later = 5; show();";
    assert_eq!(output_of(source), "5\n");
}

#[test]
fn a_field_reads_back_after_other_work() {
    let source = r#"
class Box { value() { return "method"; } }
var a = Box();
var b = Box();
a.value = 1;
b.value = 2;
a.other = 3;
fun work(n) { if (n > 0) work(n - 1); }
work(5);
print a.value;
print b.value;
print a.other;
"#;
    assert_eq!(output_of(source), "1\n2\n3\n");
}

#[test]
fn a_failed_program_reports_and_ends() {
    let (stage, out, err) = failure_of("print 1; { var a = 2; { print a; -\"x\"; } } print 3;");
    assert_eq!(stage, InterpreterError::Evaluation);
    assert_eq!(out, "1\n2\n");
    assert_eq!(err, "Cannot negate non-number\n");
}
