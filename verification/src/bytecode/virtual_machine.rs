//! The virtual machine: it runs a chunk on a stack of numbers, one
//! instruction at a step. The numbers are bits of doubles; the arithmetic on
//! them, and the reading of a constant, is asked of the host, as the tree
//! walker's machine asks it.
use crate::bytecode::ops::{Chunk, Listing, OpCode};
use crate::walker::interpreter::Event;
use crate::walker::machine::{Arithmetic, Reply};
use vstd::prelude::*;

verus! {

/// Why the machine stopped.
#[derive(Clone, Debug, PartialEq, Eq)]
pub enum RuntimeError {
    /// Something that the machine has no rule for.
    Unimplemented { msg: String },
    /// The chunk has no instruction at `ip`.
    InvalidInstructionPointer { ip: usize },
}

/// A `RuntimeError` with its text as a sequence of characters.
pub enum Fault {
    Unimplemented { msg: Seq<char> },
    InvalidInstructionPointer { ip: usize },
}

impl View for RuntimeError {
    type V = Fault;

    open spec fn view(&self) -> Fault {
        match *self {
            RuntimeError::Unimplemented { msg } => Fault::Unimplemented { msg: msg@ },
            RuntimeError::InvalidInstructionPointer { ip } => Fault::InvalidInstructionPointer {
                ip,
            },
        }
    }
}

impl Fault {
    /// The message that reports the fault.
    pub open spec fn text(self) -> Seq<char> {
        match self {
            Fault::Unimplemented { msg } => msg,
            Fault::InvalidInstructionPointer { ip } => "Invalid instruction pointer: "@
                + crate::shared::text::decimal(ip as nat),
        }
    }
}

impl RuntimeError {
    /// The message that reports the error.
    pub fn to_string(&self) -> (r: String)
        ensures
            r@ == self@.text(),
    {
        match self {
            RuntimeError::Unimplemented { msg } => msg.clone(),
            RuntimeError::InvalidInstructionPointer { ip } => {
                let mut out = String::from_str("Invalid instruction pointer: ");
                crate::shared::text::push_decimal(&mut out, *ip);
                out
            },
        }
    }
}

/// What a step asks of the host.
#[derive(Clone, Debug, PartialEq, Eq)]
#[allow(inconsistent_fields)]
pub enum Request {
    /// Nothing: the host calls the next step.
    Continue,
    /// The number that the literal `lexeme` stands for.
    Parse { lexeme: String },
    /// The number `value` with its sign turned.
    Negate { value: u64 },
    /// The number that `op` gives of `left` and `right`.
    Calculate { op: Arithmetic, left: u64, right: u64 },
    /// The chunk returned `value`: the run is over.
    Returned { value: u64 },
    /// The run failed.
    Failed(RuntimeError),
}

/// A `Request` with its texts as sequences of characters.
#[allow(inconsistent_fields)]
pub enum Wanted {
    Continue,
    Parse { lexeme: Seq<char> },
    Negate { value: u64 },
    Calculate { op: Arithmetic, left: u64, right: u64 },
    Returned { value: u64 },
    Failed(Fault),
}

impl View for Request {
    type V = Wanted;

    open spec fn view(&self) -> Wanted {
        match *self {
            Request::Continue => Wanted::Continue,
            Request::Parse { lexeme } => Wanted::Parse { lexeme: lexeme@ },
            Request::Negate { value } => Wanted::Negate { value },
            Request::Calculate { op, left, right } => Wanted::Calculate { op, left, right },
            Request::Returned { value } => Wanted::Returned { value },
            Request::Failed(e) => Wanted::Failed(e@),
        }
    }
}

/// The machine: its stack, the place of the next instruction, and whether it
/// awaits a number from the host.
pub struct VirtualMachine {
    stack: Vec<u64>,
    ip: usize,
    waiting: bool,
}

/// The state of the machine.
pub struct Registers {
    pub stack: Seq<u64>,
    pub ip: usize,
    pub waiting: bool,
}

impl View for VirtualMachine {
    type V = Registers;

    closed spec fn view(&self) -> Registers {
        Registers { stack: self.stack@, ip: self.ip, waiting: self.waiting }
    }
}

/// The message where an instruction finds too few numbers on the stack.
pub open spec fn empty_stack() -> Seq<char> {
    "Popped from empty stack"@
}

/// The message where an instruction loads a constant that the chunk lacks.
pub open spec fn no_constant() -> Seq<char> {
    "No such constant"@
}

/// The message where the host does not take a constant for a number.
pub open spec fn no_number() -> Seq<char> {
    "Invalid number"@
}

/// The message where the host's reply is not the number that was asked for.
pub open spec fn no_reply() -> Seq<char> {
    "Unexpected reply"@
}

/// The machine fails; it awaits nothing.
pub open spec fn halt(s: Registers, msg: Seq<char>) -> (Registers, Wanted) {
    (Registers { waiting: false, ..s }, Wanted::Failed(Fault::Unimplemented { msg }))
}

/// The arithmetic that an instruction does on the two topmost numbers.
pub open spec fn arithmetic(op: OpCode) -> Option<Arithmetic> {
    match op {
        OpCode::Add => Some(Arithmetic::Add),
        OpCode::Subtract => Some(Arithmetic::Subtract),
        OpCode::Multiply => Some(Arithmetic::Multiply),
        OpCode::Divide => Some(Arithmetic::Divide),
        _ => None,
    }
}

/// One step of the machine on the chunk.
///
/// Where the machine awaits a number, the host's reply is pushed. Else the
/// instruction at `ip` is done: a constant is sent to the host to be read;
/// arithmetic takes its operands off the stack and sends them to the host,
/// whose reply is the result; `Return` takes the topmost number off and
/// ends the run with it.
pub open spec fn step(chunk: Listing, s: Registers, reply: Reply) -> (Registers, Wanted) {
    if s.waiting {
        match reply {
            Reply::Number(x) => (
                Registers { stack: s.stack.push(x), waiting: false, ..s },
                Wanted::Continue,
            ),
            Reply::Refused => halt(s, no_number()),
            _ => halt(s, no_reply()),
        }
    } else if s.ip >= chunk.code.len() {
        (s, Wanted::Failed(Fault::InvalidInstructionPointer { ip: s.ip }))
    } else {
        let next = (s.ip + 1) as usize;
        match chunk.code[s.ip as int] {
            OpCode::Return => if s.stack.len() >= 1 {
                (Registers { stack: s.stack.drop_last(), ..s }, Wanted::Returned { value: s.stack.last() })
            } else {
                halt(s, empty_stack())
            },
            OpCode::Negate => if s.stack.len() >= 1 {
                (
                    Registers { stack: s.stack.drop_last(), ip: next, waiting: true },
                    Wanted::Negate { value: s.stack.last() },
                )
            } else {
                halt(s, empty_stack())
            },
            OpCode::Constant { index } => if index < chunk.constants.len() {
                (
                    Registers { ip: next, waiting: true, ..s },
                    Wanted::Parse { lexeme: chunk.constants[index as int] },
                )
            } else {
                halt(s, no_constant())
            },
            op => if s.stack.len() >= 2 {
                (
                    Registers { stack: s.stack.take(s.stack.len() - 2), ip: next, waiting: true },
                    Wanted::Calculate {
                        op: arithmetic(op)->0,
                        left: s.stack[s.stack.len() - 2],
                        right: s.stack[s.stack.len() - 1],
                    },
                )
            } else {
                halt(s, empty_stack())
            },
        }
    }
}

/// Steps in a row: one step with the host's reply, and after it up to `more`
/// steps, for as long as the machine asks nothing of the host.
pub open spec fn run(chunk: Listing, s: Registers, reply: Reply, more: nat) -> (Registers, Wanted)
    decreases more,
{
    let next = step(chunk, s, reply);
    if next.1 is Continue && more > 0 {
        run(chunk, next.0, Reply::Resume, (more - 1) as nat)
    } else {
        next
    }
}

fn arithmetic_of(op: OpCode) -> (r: Arithmetic)
    requires
        arithmetic(op) is Some,
    ensures
        Some(r) == arithmetic(op),
{
    match op {
        OpCode::Add => Arithmetic::Add,
        OpCode::Subtract => Arithmetic::Subtract,
        OpCode::Multiply => Arithmetic::Multiply,
        _ => Arithmetic::Divide,
    }
}

impl VirtualMachine {
    /// A machine at the start of a chunk, with an empty stack.
    pub fn new() -> (r: Self)
        ensures
            r@ == (Registers { stack: Seq::empty(), ip: 0, waiting: false }),
    {
        VirtualMachine { stack: Vec::new(), ip: 0, waiting: false }
    }

    /// The place of the next instruction.
    pub fn ip(&self) -> (r: usize)
        ensures
            r == self@.ip,
    {
        self.ip
    }

    /// The numbers on the stack, the topmost last.
    pub fn stack(&self) -> (r: &Vec<u64>)
        ensures
            r@ == self@.stack,
    {
        &self.stack
    }

    fn halt(&mut self, msg: &str) -> (r: Request)
        ensures
            (final(self)@, r@) == halt(old(self)@, msg@),
    {
        self.waiting = false;
        Request::Failed(RuntimeError::Unimplemented { msg: String::from_str(msg) })
    }

    /// One step of the machine on the chunk.
    pub fn step(&mut self, chunk: &Chunk, event: Event) -> (r: Request)
        ensures
            (final(self)@, r@) == step(chunk@, old(self)@, event@),
    {
        if self.waiting {
            return match event {
                Event::Number(x) => {
                    self.stack.push(x);
                    self.waiting = false;
                    Request::Continue
                },
                Event::Refused => self.halt("Invalid number"),
                _ => self.halt("Unexpected reply"),
            };
        }
        if self.ip >= chunk.code.len() {
            return Request::Failed(RuntimeError::InvalidInstructionPointer { ip: self.ip });
        }
        let n = self.stack.len();
        match chunk.code[self.ip] {
            OpCode::Return => {
                if n >= 1 {
                    let value = self.stack[n - 1];
                    self.stack.truncate(n - 1);
                    Request::Returned { value }
                } else {
                    self.halt("Popped from empty stack")
                }
            },
            OpCode::Negate => {
                if n >= 1 {
                    let value = self.stack[n - 1];
                    self.stack.truncate(n - 1);
                    self.ip = self.ip + 1;
                    self.waiting = true;
                    Request::Negate { value }
                } else {
                    self.halt("Popped from empty stack")
                }
            },
            OpCode::Constant { index } => {
                if index < chunk.constants.len() {
                    self.ip = self.ip + 1;
                    self.waiting = true;
                    Request::Parse { lexeme: chunk.constants[index].clone() }
                } else {
                    self.halt("No such constant")
                }
            },
            op => {
                if n >= 2 {
                    let left = self.stack[n - 2];
                    let right = self.stack[n - 1];
                    self.stack.truncate(n - 2);
                    self.ip = self.ip + 1;
                    self.waiting = true;
                    Request::Calculate { op: arithmetic_of(op), left, right }
                } else {
                    self.halt("Popped from empty stack")
                }
            },
        }
    }

    /// Runs the chunk: one step with the host's reply, and after it up to
    /// `more` steps, for as long as the machine asks nothing of the host.
    pub fn interpret(&mut self, chunk: &Chunk, event: Event, more: usize) -> (r: Request)
        ensures
            (final(self)@, r@) == run(chunk@, old(self)@, event@, more as nat),
    {
        let mut request = self.step(chunk, event);
        let mut left: usize = more;
        let mut going: bool = left > 0 && matches!(request, Request::Continue);
        while going
            invariant
                going == (left > 0 && request@ is Continue),
                run(chunk@, old(self)@, event@, more as nat) == (if going {
                    run(chunk@, self@, Reply::Resume, (left - 1) as nat)
                } else {
                    (self@, request@)
                }),
            decreases left,
        {
            request = self.step(chunk, Event::Resume);
            left -= 1;
            going = left > 0 && matches!(request, Request::Continue);
        }
        request
    }
}

} // verus!
