//! The machine by hand: the environments, the values, and what the machine
//! asks of its host and makes of the replies.
use gejang::shared::scanner::{scan, Token};
use gejang::shared::streams::Streams;
use gejang::shared::table::Table;
use gejang::walker::ast::Stmt;
use gejang::walker::environment::EnvironmentStack;
use gejang::walker::errors::RuntimeError;
use gejang::walker::interpreter::{Event, Interpreter, Request};
use gejang::walker::machine::{Arithmetic, Comparison, TEASPOONS_PER_CUP};
use gejang::walker::parser::parse;
use gejang::walker::resolver::{resolve, Locals};
use gejang::walker::values::{Native, Value};
use gejang::walker::{report, InterpreterError};

fn statements(source: &str) -> Vec<Stmt> {
    let tokens: Vec<Token> = scan(source).into_iter().map(|t| t.unwrap()).collect();
    parse(&tokens).into_iter().map(|s| s.unwrap()).collect()
}

fn bits(x: f64) -> u64 {
    x.to_bits()
}

/// Runs the machine until it asks something of the host.
fn next_request<'a>(machine: &mut Interpreter<'a>, event: Event) -> Request<'a> {
    machine.run(event, 1_000_000)
}

fn message(request: Request) -> String {
    match request {
        Request::Failed(e) => e.to_string(),
        other => panic!("no failure: {:?}", other),
    }
}

#[test]
fn a_new_machine_has_nothing_to_do() {
    let mut machine = Interpreter::new(Locals::new());
    assert!(matches!(machine.step(Event::Resume), Request::Done));
    assert!(matches!(machine.step(Event::Number(1)), Request::Done));
    assert!(machine.result().is_none());
}

#[test]
fn a_literal_number_is_asked_of_the_host() {
    let program = statements("print 12.5;");
    let mut machine = Interpreter::new(resolve(&program).unwrap());
    machine.interpret(&program);
    match next_request(&mut machine, Event::Resume) {
        Request::Parse { lexeme } => assert_eq!(lexeme, "12.5"),
        other => panic!("{:?}", other),
    }
    match next_request(&mut machine, Event::Number(bits(12.5))) {
        Request::Format { value } => assert_eq!(value, bits(12.5)),
        other => panic!("{:?}", other),
    }
    match next_request(&mut machine, Event::Text("12.5".to_string())) {
        Request::Print { text } => assert_eq!(text, "12.5\n"),
        other => panic!("{:?}", other),
    }
    assert!(matches!(next_request(&mut machine, Event::Written), Request::Done));
}

#[test]
fn a_literal_that_is_no_number_fails() {
    let program = statements("1;");
    let mut machine = Interpreter::new(Locals::new());
    machine.interpret(&program);
    assert!(matches!(next_request(&mut machine, Event::Resume), Request::Parse { .. }));
    assert_eq!(message(next_request(&mut machine, Event::Refused)), "Invalid number");
    assert!(matches!(machine.step(Event::Resume), Request::Done));
}

#[test]
fn a_print_that_the_host_refuses_fails() {
    let program = statements("print \"x\"; print \"y\";");
    let mut machine = Interpreter::new(Locals::new());
    machine.interpret(&program);
    match next_request(&mut machine, Event::Resume) {
        Request::Print { text } => assert_eq!(text, "x\n"),
        other => panic!("{:?}", other),
    }
    let failed = next_request(&mut machine, Event::Refused);
    assert!(matches!(failed, Request::Failed(RuntimeError::PrintFailed)));
    assert_eq!(message(failed), "Print failed");
    assert!(matches!(machine.step(Event::Resume), Request::Done));
}

#[test]
fn a_reply_of_the_wrong_kind_fails() {
    let program = statements("print \"x\";");
    let mut machine = Interpreter::new(Locals::new());
    machine.interpret(&program);
    assert!(matches!(next_request(&mut machine, Event::Resume), Request::Print { .. }));
    let failed = next_request(&mut machine, Event::Number(0));
    assert!(matches!(failed, Request::Failed(RuntimeError::Internal { .. })));
    assert_eq!(message(failed), "Unexpected reply");
}

#[test]
fn arithmetic_and_comparisons_are_asked_of_the_host() {
    let cases = [
        ("+", Some(Arithmetic::Add), None),
        ("-", Some(Arithmetic::Subtract), None),
        ("*", Some(Arithmetic::Multiply), None),
        ("/", Some(Arithmetic::Divide), None),
        (">", None, Some(Comparison::Greater)),
        (">=", None, Some(Comparison::GreaterEqual)),
        ("<", None, Some(Comparison::Less)),
        ("<=", None, Some(Comparison::LessEqual)),
        ("==", None, Some(Comparison::Equal)),
        ("!=", None, Some(Comparison::NotEqual)),
    ];
    for (op, arithmetic, comparison) in cases {
        let program = statements(&format!("1 {} 2;", op));
        let mut machine = Interpreter::new(Locals::new());
        machine.interpret(&program);
        assert!(matches!(next_request(&mut machine, Event::Resume), Request::Parse { .. }));
        assert!(matches!(next_request(&mut machine, Event::Number(bits(1.0))), Request::Parse { .. }));
        match next_request(&mut machine, Event::Number(bits(2.0))) {
            Request::Calculate { op, left, right } => {
                assert_eq!(Some(op), arithmetic);
                assert_eq!((left, right), (bits(1.0), bits(2.0)));
                assert!(matches!(next_request(&mut machine, Event::Number(bits(3.0))), Request::Done));
            }
            Request::Compare { op, left, right } => {
                assert_eq!(Some(op), comparison);
                assert_eq!((left, right), (bits(1.0), bits(2.0)));
                assert!(matches!(next_request(&mut machine, Event::Boolean(true)), Request::Done));
            }
            other => panic!("{:?}", other),
        }
    }
}

#[test]
fn negation_is_asked_of_the_host() {
    let program = statements("-1;");
    let mut machine = Interpreter::new(Locals::new());
    machine.interpret(&program);
    assert!(matches!(next_request(&mut machine, Event::Resume), Request::Parse { .. }));
    match next_request(&mut machine, Event::Number(bits(1.0))) {
        Request::Negate { value } => assert_eq!(value, bits(1.0)),
        other => panic!("{:?}", other),
    }
}

#[test]
fn the_natives_ask_the_host() {
    let program = statements("clock(); tsp2cup(96);");
    let mut machine = Interpreter::new(Locals::new());
    machine.interpret(&program);
    assert!(matches!(next_request(&mut machine, Event::Resume), Request::Clock));
    assert!(matches!(next_request(&mut machine, Event::Number(bits(5.0))), Request::Parse { .. }));
    match next_request(&mut machine, Event::Number(bits(96.0))) {
        Request::Calculate { op, left, right } => {
            assert_eq!(op, Arithmetic::Divide);
            assert_eq!(left, bits(96.0));
            assert_eq!(right, TEASPOONS_PER_CUP);
            assert_eq!(f64::from_bits(right), 48.0);
        }
        other => panic!("{:?}", other),
    }
}

#[test]
fn an_expression_leaves_its_value() {
    let program = statements("\"a\" + \"b\";");
    let expr = match &program[0] {
        Stmt::Expression { expr } => &**expr,
        _ => panic!(),
    };
    let mut machine = Interpreter::new(Locals::new());
    machine.evaluate(expr);
    assert!(matches!(next_request(&mut machine, Event::Resume), Request::Done));
    let value = machine.result().unwrap();
    assert_eq!(value.as_ref(), "String");
    assert_eq!(machine.show(value), "ab");
    match value {
        Value::String(handle) => assert_eq!(machine.text(handle), "ab"),
        other => panic!("{:?}", other),
    }
    assert_eq!(machine.text(1_000), "");
}

#[test]
fn a_statement_alone_can_be_executed() {
    let program = statements("print nil;");
    let mut machine = Interpreter::new(Locals::new());
    machine.execute(&program[0]);
    match next_request(&mut machine, Event::Resume) {
        Request::Print { text } => assert_eq!(text, "nil\n"),
        other => panic!("{:?}", other),
    }
}

#[test]
fn one_step_does_one_task() {
    let program = statements("print nil;");
    let mut machine = Interpreter::new(Locals::new());
    machine.interpret(&program);
    // the list, the statement, the expression, the print
    assert!(matches!(machine.step(Event::Resume), Request::Continue));
    assert!(matches!(machine.step(Event::Resume), Request::Continue));
    assert!(matches!(machine.step(Event::Resume), Request::Continue));
    assert!(matches!(machine.step(Event::Resume), Request::Print { .. }));
}

#[test]
fn run_stops_at_its_limit() {
    let program = statements("while (true) {}");
    let mut machine = Interpreter::new(Locals::new());
    machine.interpret(&program);
    assert!(matches!(machine.run(Event::Resume, 10_000), Request::Continue));
    assert!(matches!(machine.run(Event::Resume, 0), Request::Continue));
}

#[test]
fn the_evaluator_goes_by_the_depths_it_is_given() {
    // var(0) a(1) =(2) 1(3) ;(4) {(5) var(6) a(7) =(8) a(9) +(10) 2(11) ;(12) print(13) a(14) ;(15) }(16)
    let program = statements("var a=1; { var a=a+2; print a; }");
    let mut locals = Locals::new();
    locals.insert(9, 1);
    locals.insert(14, 0);
    let mut machine = Interpreter::new(locals);
    machine.interpret(&program);
    let mut event = Event::Resume;
    let mut printed = String::new();
    loop {
        match next_request(&mut machine, event) {
            Request::Parse { lexeme } => event = Event::Number(bits(lexeme.parse().unwrap())),
            Request::Calculate { op: Arithmetic::Add, left, right } => {
                event = Event::Number(bits(f64::from_bits(left) + f64::from_bits(right)))
            }
            Request::Format { value } => event = Event::Text(f64::from_bits(value).to_string()),
            Request::Print { text } => {
                printed.push_str(&text);
                event = Event::Written
            }
            Request::Done => break,
            other => panic!("{:?}", other),
        }
    }
    assert_eq!(printed, "3\n");
}

#[test]
fn a_depth_that_leads_nowhere_fails() {
    // print(0) a(1) ;(2)
    let program = statements("print a;");
    let mut locals = Locals::new();
    locals.insert(1, 5);
    let mut machine = Interpreter::new(locals);
    machine.interpret(&program);
    let failed = next_request(&mut machine, Event::Resume);
    assert!(matches!(failed, Request::Failed(RuntimeError::Internal { .. })));
    assert_eq!(message(failed), "No frame at the depth resolved for a");
}

#[test]
fn a_return_without_a_call_fails() {
    let program = statements("return;");
    let mut machine = Interpreter::new(Locals::new());
    machine.interpret(&program);
    let failed = next_request(&mut machine, Event::Resume);
    assert!(matches!(failed, Request::Failed(RuntimeError::Return { value: Value::Nil })));
    assert_eq!(message(failed), "Returning");
}

#[test]
fn a_failure_is_reported_on_a_line() {
    let mut streams = Streams::test();
    let stage = report(&RuntimeError::UndefinedVariable { name: "x".to_string() }, &mut streams);
    assert_eq!(stage, InterpreterError::Evaluation);
    assert_eq!(streams.get_error().unwrap(), "Undefined variable x\n");
    assert_eq!(streams.get_output().unwrap(), "");
}

#[test]
fn runtime_errors_have_messages() {
    let all: Vec<(RuntimeError, &str)> = vec![
        (RuntimeError::Unimplemented { msg: "m".to_string() }, "m"),
        (RuntimeError::PrintFailed, "Print failed"),
        (RuntimeError::UndefinedVariable { name: "n".to_string() }, "Undefined variable n"),
        (RuntimeError::NotCallable { typ: "t".to_string() }, "Value of type t is not callable"),
        (
            RuntimeError::WrongNumberOfArgs { arity: 10, got: 205 },
            "Wrong number of arguments: expected 10, got 205",
        ),
        (RuntimeError::OnlyInstancesHaveAttributes, "Only instances have attributes"),
        (RuntimeError::Return { value: Value::Nil }, "Returning"),
        (RuntimeError::Break, "Breaking loop"),
        (RuntimeError::Internal { msg: "i".to_string() }, "i"),
    ];
    for (error, text) in all {
        assert_eq!(error.to_string(), text);
    }
}

#[test]
fn stages_have_names() {
    assert_eq!(InterpreterError::Scanner.to_string(), "Scanner error");
    assert_eq!(InterpreterError::Parser.to_string(), "Parser error");
    assert_eq!(InterpreterError::Resolver.to_string(), "Resolver error");
    assert_eq!(InterpreterError::Evaluation.to_string(), "Evaluation error");
    assert_eq!(InterpreterError::Internal.to_string(), "Internal error");
}

#[test]
fn truthiness() {
    assert!(!Value::Nil.is_truthy());
    assert!(!Value::Boolean(false).is_truthy());
    assert!(Value::Boolean(true).is_truthy());
    assert!(Value::Number(0).is_truthy());
    assert!(Value::String(0).is_truthy());
    assert!(Value::NativeFunction { native: Native::Clock }.is_truthy());
    assert!(Value::Instance { handle: 0 }.is_truthy());
}

#[test]
fn kinds_and_natives_have_names() {
    assert_eq!(Value::Number(0).as_ref(), "Number");
    assert_eq!(Value::String(0).as_ref(), "String");
    assert_eq!(Value::Boolean(true).as_ref(), "Boolean");
    assert_eq!(Value::Nil.as_ref(), "Nil");
    assert_eq!(Value::NativeFunction { native: Native::Clock }.as_ref(), "NativeFunction");
    assert_eq!(Value::Instance { handle: 3 }.as_ref(), "Instance");
    assert_eq!(Native::Clock.as_str(), "clock");
    assert_eq!(Native::Clock.expects(), 0);
    assert_eq!(Native::Tsp2Cup.as_str(), "tsp2cup");
    assert_eq!(Native::Tsp2Cup.expects(), 1);
}

#[test]
fn values_are_compared_and_shown_by_the_machine() {
    let machine = Interpreter::new(Locals::new());
    assert!(machine.equal(Value::Nil, Value::Nil));
    assert!(!machine.equal(Value::Nil, Value::Boolean(false)));
    assert!(machine.equal(Value::Instance { handle: 1 }, Value::Instance { handle: 1 }));
    assert!(!machine.equal(Value::Instance { handle: 1 }, Value::Instance { handle: 2 }));
    assert_eq!(machine.show(Value::Boolean(true)), "true");
    assert_eq!(machine.show(Value::NativeFunction { native: Native::Tsp2Cup }), "<native fun tsp2cup/1>");
    assert_eq!(machine.show(Value::Instance { handle: 9 }), "<instance of >");
}

#[test]
fn environments_by_hand() {
    let mut env = EnvironmentStack::global();
    assert_eq!(env.len(), 1);
    assert_eq!(env.current(), 0);
    assert!(matches!(env.get("clock", None), Ok(Value::NativeFunction { native: Native::Clock })));
    assert!(matches!(env.get("tsp2cup", Some(0)), Ok(Value::NativeFunction { native: Native::Tsp2Cup })));
    assert!(matches!(env.get("a", None), Err(RuntimeError::UndefinedVariable { .. })));

    env.define("a".to_string(), Value::Number(1));
    env.push();
    assert_eq!(env.current(), 1);
    env.define("a".to_string(), Value::Number(2));
    env.define("a".to_string(), Value::Number(3));
    assert!(matches!(env.get("a", Some(0)), Ok(Value::Number(3))));
    assert!(matches!(env.get("a", Some(1)), Ok(Value::Number(1))));
    assert!(matches!(env.get("a", None), Ok(Value::Number(1))));
    assert!(matches!(env.get("a", Some(2)), Err(RuntimeError::Internal { .. })));

    assert!(matches!(env.assign("a", Value::Nil, Some(1)), Ok(Value::Nil)));
    assert!(matches!(env.get("a", None), Ok(Value::Nil)));
    assert!(matches!(env.get("a", Some(0)), Ok(Value::Number(3))));
    assert!(matches!(env.assign("b", Value::Nil, Some(0)), Err(RuntimeError::UndefinedVariable { .. })));
    assert!(matches!(env.get("b", Some(0)), Err(RuntimeError::UndefinedVariable { .. })));
    assert!(matches!(env.assign("a", Value::Nil, Some(7)), Err(RuntimeError::Internal { .. })));

    env.pop();
    assert_eq!(env.current(), 0);
    env.pop();
    assert_eq!(env.current(), 0);
    assert_eq!(env.len(), 2);
    assert!(matches!(env.get("a", Some(0)), Ok(Value::Nil)));
}

#[test]
fn a_captured_frame_is_shared() {
    let mut env = EnvironmentStack::global();
    env.push();
    let captured = env.current();
    env.define("i".to_string(), Value::Number(0));
    env.pop();
    let first = env.extend(captured);
    let second = env.extend(captured);
    env.enter(first);
    assert!(matches!(env.assign("i", Value::Number(1), Some(1)), Ok(_)));
    env.enter(second);
    assert!(matches!(env.get("i", Some(1)), Ok(Value::Number(1))));
    env.store(captured, "j".to_string(), Value::Nil);
    env.store(1_000, "k".to_string(), Value::Nil);
    assert!(matches!(env.get("j", Some(1)), Ok(Value::Nil)));
    env.enter(1_000);
    assert!(matches!(env.get("j", Some(0)), Err(RuntimeError::Internal { .. })));
    env.pop();
    assert_eq!(env.current(), 1_000);
}

#[test]
fn tables_by_hand() {
    let mut table: Table<u8> = Table::new();
    assert_eq!(table.get("a"), None);
    assert!(!table.contains_key("a"));
    table.insert("a".to_string(), 1);
    table.insert("b".to_string(), 2);
    table.insert("a".to_string(), 3);
    assert_eq!(table.get("a"), Some(3));
    assert_eq!(table.get("b"), Some(2));
    assert_eq!(table.get("ab"), None);
    assert_eq!(table.get(""), None);
    assert!(table.contains_key("b"));
}

#[test]
fn streams_keep_what_is_written() {
    let mut streams = Streams::test();
    assert_eq!(streams.get_output().unwrap(), "");
    assert_eq!(streams.get_error().unwrap(), "");
    streams.write_output("one λ\n");
    streams.write_output("two\n");
    streams.write_error("bad\n");
    assert_eq!(streams.get_output().unwrap(), "one λ\ntwo\n");
    assert_eq!(streams.get_error().unwrap(), "bad\n");
    assert_eq!(streams.input.len(), 0);
    streams.output.push(0xff);
    assert!(streams.get_output().is_err());
    assert_eq!(streams.get_error().unwrap(), "bad\n");
}

/// Runs what is on the machine to its end, and gives what it printed and the
/// message of the failure, if it failed.
fn outcome<'a>(machine: &mut Interpreter<'a>) -> (String, Option<String>) {
    let mut event = Event::Resume;
    let mut printed = String::new();
    loop {
        match next_request(machine, event) {
            Request::Parse { lexeme } => event = Event::Number(bits(lexeme.parse().unwrap())),
            Request::Format { value } => event = Event::Text(f64::from_bits(value).to_string()),
            Request::Print { text } => {
                printed.push_str(&text);
                event = Event::Written
            }
            Request::Done => return (printed, None),
            Request::Failed(e) => return (printed, Some(e.to_string())),
            other => panic!("{:?}", other),
        }
    }
}

#[test]
fn a_failure_in_a_block_leaves_the_block() {
    let failing = statements("{ var a = 1; { var b = 2; -\"x\"; } }");
    let after = statements("var c = 3; print c;");
    let mut machine = Interpreter::new(Locals::new());
    machine.interpret(&failing);
    let (printed, failure) = outcome(&mut machine);
    assert_eq!(printed, "");
    assert_eq!(failure, Some("Cannot negate non-number".to_string()));
    assert!(machine.result().is_none());
    assert!(matches!(machine.step(Event::Resume), Request::Done));
    // `c` is defined in the innermost frame and read in the global frame:
    // they are the same frame again
    machine.interpret(&after);
    assert_eq!(outcome(&mut machine), ("3\n".to_string(), None));
}

#[test]
fn a_failure_in_a_call_gives_the_callers_frames_back() {
    let failing = statements("fun f() { var inner = 1; { -\"x\"; } } print 1; f(); print 2;");
    let after = statements("var c = 3; print c;");
    let mut machine = Interpreter::new(Locals::new());
    machine.interpret(&failing);
    let (printed, failure) = outcome(&mut machine);
    assert_eq!(printed, "1\n");
    assert_eq!(failure, Some("Cannot negate non-number".to_string()));
    machine.interpret(&after);
    assert_eq!(outcome(&mut machine), ("3\n".to_string(), None));
}

#[test]
fn a_break_that_no_loop_takes_up_leaves_the_block() {
    let failing = statements("{ var a = 1; break; }");
    let after = statements("var a = 2; print a;");
    let mut machine = Interpreter::new(Locals::new());
    machine.interpret(&failing);
    let (_, failure) = outcome(&mut machine);
    assert!(failure.is_some());
    machine.interpret(&after);
    assert_eq!(outcome(&mut machine), ("2\n".to_string(), None));
}

#[test]
fn a_failure_keeps_what_the_frames_hold() {
    let failing = statements("var kept = 7; { kept = 8; missing; }");
    let after = statements("print kept;");
    let mut machine = Interpreter::new(Locals::new());
    machine.interpret(&failing);
    let (_, failure) = outcome(&mut machine);
    assert_eq!(failure, Some("Undefined variable missing".to_string()));
    machine.interpret(&after);
    assert_eq!(outcome(&mut machine), ("8\n".to_string(), None));
}

#[test]
fn a_statement_that_fails_in_a_block_ends_where_it_began() {
    let program = statements("{ -\"x\"; } var c = 3; print c;");
    let mut machine = Interpreter::new(resolve(&program).unwrap());
    machine.execute(&program[0]);
    let (_, failure) = outcome(&mut machine);
    assert!(failure.is_some());
    machine.execute(&program[1]);
    assert_eq!(outcome(&mut machine), ("".to_string(), None));
    machine.execute(&program[2]);
    assert_eq!(outcome(&mut machine), ("3\n".to_string(), None));
}
