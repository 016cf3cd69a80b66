//! The bytecode interpreter: chunks, the compiler, and the virtual machine
//! run by a host that does the arithmetic.
use gejang::bytecode::compiler::{compile, CompilerError};
use gejang::bytecode::ops::{Chunk, ChunkError, OpCode};
use gejang::bytecode::virtual_machine::{Request, RuntimeError, VirtualMachine};
use gejang::bytecode::{load, report};
use gejang::shared::scanner::{scan, Token, TokenType};
use gejang::shared::streams::Streams;
use gejang::walker::interpreter::Event;
use gejang::walker::machine::Arithmetic;
use gejang::walker::InterpreterError;

fn tokens_of(source: &str) -> Vec<Token> {
    scan(source).into_iter().map(|t| t.unwrap()).collect()
}

fn compiled(source: &str) -> Chunk {
    compile(&tokens_of(source)).unwrap()
}

fn value_of(source: &str) -> Result<f64, RuntimeError> {
    let mut streams = Streams::test();
    let chunk = load(source, &mut streams).unwrap();
    let mut vm = VirtualMachine::new();
    let mut event = Event::Resume;
    loop {
        event = match vm.interpret(&chunk, event, 1_000) {
            Request::Continue => Event::Resume,
            Request::Parse { lexeme } => Event::Number(lexeme.parse::<f64>().unwrap().to_bits()),
            Request::Negate { value } => Event::Number((-f64::from_bits(value)).to_bits()),
            Request::Calculate { op, left, right } => {
                let (l, r) = (f64::from_bits(left), f64::from_bits(right));
                Event::Number(
                    match op {
                        Arithmetic::Add => l + r,
                        Arithmetic::Subtract => l - r,
                        Arithmetic::Multiply => l * r,
                        Arithmetic::Divide => l / r,
                    }
                    .to_bits(),
                )
            }
            Request::Returned { value } => return Ok(f64::from_bits(value)),
            Request::Failed(e) => return Err(e),
        };
    }
}

#[test]
fn compiles_a_number() {
    let chunk = compiled("12");
    assert_eq!(chunk.code, vec![OpCode::Constant { index: 0 }]);
    assert_eq!(chunk.constants, vec!["12".to_string()]);
    assert_eq!(chunk.lines, vec![0]);
}

#[test]
fn compiles_operands_before_operators() {
    let chunk = compiled("1 + 2 * 3");
    assert_eq!(
        chunk.code,
        vec![
            OpCode::Constant { index: 0 },
            OpCode::Constant { index: 1 },
            OpCode::Constant { index: 2 },
            OpCode::Multiply,
            OpCode::Add,
        ]
    );
    assert_eq!(chunk.constants, vec!["1".to_string(), "2".to_string(), "3".to_string()]);
    let chunk = compiled("1 * 2 + 3");
    assert_eq!(
        chunk.code,
        vec![
            OpCode::Constant { index: 0 },
            OpCode::Constant { index: 1 },
            OpCode::Multiply,
            OpCode::Constant { index: 2 },
            OpCode::Add,
        ]
    );
    let chunk = compiled("1 - 2 - 3");
    assert_eq!(
        chunk.code,
        vec![
            OpCode::Constant { index: 0 },
            OpCode::Constant { index: 1 },
            OpCode::Subtract,
            OpCode::Constant { index: 2 },
            OpCode::Subtract,
        ]
    );
}

#[test]
fn compiles_negation_and_parentheses() {
    let chunk = compiled("-(1 + 2) / -3");
    assert_eq!(
        chunk.code,
        vec![
            OpCode::Constant { index: 0 },
            OpCode::Constant { index: 1 },
            OpCode::Add,
            OpCode::Negate,
            OpCode::Constant { index: 2 },
            OpCode::Negate,
            OpCode::Divide,
        ]
    );
}

#[test]
fn keeps_the_lines() {
    let chunk = compiled("1\n+\n2");
    assert_eq!(chunk.lines, vec![0, 2, 1]);
}

#[test]
fn leaves_what_follows_the_expression() {
    let chunk = compiled("1 2 3");
    assert_eq!(chunk.code, vec![OpCode::Constant { index: 0 }]);
    let chunk = compiled("");
    assert_eq!(chunk.code, vec![]);
}

#[test]
fn compile_errors() {
    assert_eq!(
        compile(&tokens_of("(1 + 2")).unwrap_err(),
        CompilerError::UnexpectedEndOfInput
    );
    assert_eq!(
        compile(&tokens_of("(1 2")).unwrap_err(),
        CompilerError::UnexpectedToken {
            expected: TokenType::RightParen,
            token: Token { typ: TokenType::Number, lexeme: "2".to_string(), line: 0 },
        }
    );
    assert_eq!(
        compile(&tokens_of("1 + a")).unwrap_err(),
        CompilerError::UnexpectedToken {
            expected: TokenType::Number,
            token: Token { typ: TokenType::Identifier, lexeme: "a".to_string(), line: 0 },
        }
    );
    assert_eq!(CompilerError::UnexpectedEndOfInput.to_string(), "Unexpected end of input");
    assert_eq!(
        compile(&tokens_of("\n\n;")).unwrap_err().to_string(),
        "Expected a number on line 2, but got ;"
    );
}

#[test]
fn chunks_by_hand() {
    assert_eq!(
        Chunk::new(vec![OpCode::Add], vec![], vec![]).unwrap_err(),
        ChunkError::Lengths { code: 1, lines: 0 }
    );
    let mut chunk = Chunk::new(vec![OpCode::Add], vec![], vec![7]).unwrap();
    chunk.add_constant("1.5".to_string(), 12345);
    chunk.write(OpCode::Return, 3);
    assert_eq!(chunk.code, vec![OpCode::Add, OpCode::Constant { index: 0 }, OpCode::Return]);
    assert_eq!(chunk.lines, vec![7, 12345, 3]);
    assert_eq!(chunk.fmt_instruction(0).unwrap(), "0000 0007 ADD");
    assert_eq!(chunk.fmt_instruction(1).unwrap(), "0001 12345 CONSTANT Number(1.5)");
    assert_eq!(chunk.fmt_instruction(2).unwrap(), "0002 0003 RETURN");
    assert_eq!(chunk.fmt_instruction(3), None);
    assert_eq!(chunk.to_string(), "0000 0007 ADD\n0001 12345 CONSTANT Number(1.5)\n0002 0003 RETURN");
    assert_eq!(Chunk::default().to_string(), "");
    chunk.code.push(OpCode::Constant { index: 9 });
    chunk.lines.push(0);
    assert_eq!(chunk.fmt_instruction(3).unwrap(), "0003 0000 CONSTANT ?");
}

#[test]
fn instructions_have_names() {
    assert_eq!(OpCode::Constant { index: 0 }.as_ref(), "Constant");
    assert_eq!(OpCode::Add.as_ref(), "Add");
    assert_eq!(OpCode::Subtract.as_ref(), "Subtract");
    assert_eq!(OpCode::Multiply.as_ref(), "Multiply");
    assert_eq!(OpCode::Divide.as_ref(), "Divide");
    assert_eq!(OpCode::Negate.as_ref(), "Negate");
    assert_eq!(OpCode::Return.as_ref(), "Return");
}

#[test]
fn runs_arithmetic() {
    assert_eq!(value_of("1 + 2"), Ok(3.0));
    assert_eq!(value_of("2 * 4 + 3"), Ok(11.0));
    assert_eq!(value_of("2 * (4 + 3)"), Ok(14.0));
    assert_eq!(value_of("1 - 2 - 3"), Ok(-4.0));
    assert_eq!(value_of("-1.5"), Ok(-1.5));
    assert_eq!(value_of("8 / 2 / 2"), Ok(2.0));
    assert_eq!(value_of("1 / 0"), Ok(f64::INFINITY));
}

#[test]
fn an_empty_expression_has_no_value() {
    assert_eq!(
        value_of(""),
        Err(RuntimeError::Unimplemented { msg: "Popped from empty stack".to_string() })
    );
}

#[test]
fn the_machine_by_hand() {
    let chunk = Chunk::new(
        vec![OpCode::Constant { index: 0 }, OpCode::Negate, OpCode::Constant { index: 5 }],
        vec!["2".to_string()],
        vec![0, 0, 0],
    )
    .unwrap();
    let mut vm = VirtualMachine::new();
    assert_eq!(vm.ip(), 0);
    assert_eq!(vm.step(&chunk, Event::Resume), Request::Parse { lexeme: "2".to_string() });
    assert_eq!(vm.step(&chunk, Event::Number(40)), Request::Continue);
    assert_eq!(vm.stack(), &vec![40]);
    assert_eq!(vm.ip(), 1);
    assert_eq!(vm.step(&chunk, Event::Resume), Request::Negate { value: 40 });
    assert_eq!(
        vm.step(&chunk, Event::Written),
        Request::Failed(RuntimeError::Unimplemented { msg: "Unexpected reply".to_string() })
    );
    assert_eq!(
        vm.step(&chunk, Event::Resume),
        Request::Failed(RuntimeError::Unimplemented { msg: "No such constant".to_string() })
    );

    let mut vm = VirtualMachine::new();
    assert_eq!(vm.step(&chunk, Event::Resume), Request::Parse { lexeme: "2".to_string() });
    assert_eq!(
        vm.step(&chunk, Event::Refused),
        Request::Failed(RuntimeError::Unimplemented { msg: "Invalid number".to_string() })
    );

    let empty = Chunk::default();
    let mut vm = VirtualMachine::new();
    let failed = vm.step(&empty, Event::Resume);
    assert_eq!(failed, Request::Failed(RuntimeError::InvalidInstructionPointer { ip: 0 }));
    match failed {
        Request::Failed(e) => assert_eq!(e.to_string(), "Invalid instruction pointer: 0"),
        _ => unreachable!(),
    }
}

#[test]
fn loading_reports_errors() {
    let mut streams = Streams::test();
    assert_eq!(load("1 + @", &mut streams).unwrap_err(), InterpreterError::Scanner);
    assert_eq!(streams.get_error().unwrap(), "Unexpected character on line 0: @\n");

    let mut streams = Streams::test();
    assert_eq!(load("1 + )", &mut streams).unwrap_err(), InterpreterError::Evaluation);
    assert_eq!(streams.get_error().unwrap(), "Expected a number on line 0, but got )\n");

    let mut streams = Streams::test();
    let chunk = load("1", &mut streams).unwrap();
    assert_eq!(chunk.code, vec![OpCode::Constant { index: 0 }, OpCode::Return]);
    assert_eq!(chunk.lines, vec![0, 0]);
    assert_eq!(streams.get_error().unwrap(), "");

    let mut streams = Streams::test();
    let stage = report(&RuntimeError::InvalidInstructionPointer { ip: 12 }, &mut streams);
    assert_eq!(stage, InterpreterError::Evaluation);
    assert_eq!(streams.get_error().unwrap(), "Invalid instruction pointer: 12\n");
}
