//! Instructions, and chunks of them.
use crate::shared::text::{join, joined, padded, push_padded};
use vstd::prelude::*;

verus! {

/// An instruction of the virtual machine.
#[derive(Clone, Copy, Debug, PartialEq, Eq, Structural)]
pub enum OpCode {
    /// Load the constant at `index`.
    Constant { index: usize },
    Add,
    Subtract,
    Multiply,
    Divide,
    Negate,
    Return,
}

impl OpCode {
    /// The name of the instruction.
    pub open spec fn name(self) -> Seq<char> {
        match self {
            OpCode::Constant { .. } => "Constant"@,
            OpCode::Add => "Add"@,
            OpCode::Subtract => "Subtract"@,
            OpCode::Multiply => "Multiply"@,
            OpCode::Divide => "Divide"@,
            OpCode::Negate => "Negate"@,
            OpCode::Return => "Return"@,
        }
    }

    /// The name of the instruction in capitals, as a listing shows it.
    pub open spec fn mnemonic(self) -> Seq<char> {
        match self {
            OpCode::Constant { .. } => "CONSTANT"@,
            OpCode::Add => "ADD"@,
            OpCode::Subtract => "SUBTRACT"@,
            OpCode::Multiply => "MULTIPLY"@,
            OpCode::Divide => "DIVIDE"@,
            OpCode::Negate => "NEGATE"@,
            OpCode::Return => "RETURN"@,
        }
    }

    /// The name of the instruction.
    pub fn as_ref(&self) -> (r: &'static str)
        ensures
            r@ == self.name(),
    {
        match self {
            OpCode::Constant { .. } => "Constant",
            OpCode::Add => "Add",
            OpCode::Subtract => "Subtract",
            OpCode::Multiply => "Multiply",
            OpCode::Divide => "Divide",
            OpCode::Negate => "Negate",
            OpCode::Return => "Return",
        }
    }

    fn capitals(&self) -> (r: &'static str)
        ensures
            r@ == self.mnemonic(),
    {
        match self {
            OpCode::Constant { .. } => "CONSTANT",
            OpCode::Add => "ADD",
            OpCode::Subtract => "SUBTRACT",
            OpCode::Multiply => "MULTIPLY",
            OpCode::Divide => "DIVIDE",
            OpCode::Negate => "NEGATE",
            OpCode::Return => "RETURN",
        }
    }
}

/// A chunk of code: the instructions, the constants that they load, and for
/// each instruction the line of the source that it comes from. A constant is
/// kept as the number literal that was written; the host of the machine
/// reads it as a number when the constant is loaded.
#[derive(Debug)]
pub struct Chunk {
    pub code: Vec<OpCode>,
    pub constants: Vec<String>,
    pub lines: Vec<usize>,
}

/// Why instructions and lines make no chunk.
#[derive(Clone, Copy, Debug, PartialEq, Eq, Structural)]
pub enum ChunkError {
    /// There are not as many lines as instructions.
    Lengths { code: usize, lines: usize },
}

/// The code of a chunk as what it is made of: sequences.
pub struct Listing {
    pub code: Seq<OpCode>,
    pub constants: Seq<Seq<char>>,
    pub lines: Seq<usize>,
}

impl View for Chunk {
    type V = Listing;

    open spec fn view(&self) -> Listing {
        Listing {
            code: self.code@,
            constants: Seq::new(self.constants@.len(), |i: int| self.constants@[i]@),
            lines: self.lines@,
        }
    }
}

impl Listing {
    /// The listing with the instruction `op` from the line `line` at its end.
    pub open spec fn with(self, op: OpCode, line: usize) -> Listing {
        Listing { code: self.code.push(op), lines: self.lines.push(line), ..self }
    }

    /// The listing with the constant `value` as a new constant and, at its
    /// end, the instruction that loads it.
    pub open spec fn with_constant(self, value: Seq<char>, line: usize) -> Listing {
        Listing {
            code: self.code.push(OpCode::Constant { index: self.constants.len() as usize }),
            constants: self.constants.push(value),
            lines: self.lines.push(line),
        }
    }

    /// The line of a listing for the instruction at `offset`: its place, the
    /// line of the source, its name, and for a load the constant; nothing
    /// where the chunk has no instruction or no line at that place.
    pub open spec fn instruction(self, offset: int) -> Option<Seq<char>> {
        if 0 <= offset < self.code.len() && offset < self.lines.len() {
            let head = padded(offset as nat, 4) + " "@ + padded(self.lines[offset] as nat, 4)
                + " "@ + self.code[offset].mnemonic();
            match self.code[offset] {
                OpCode::Constant { index } => if index < self.constants.len() {
                    Some(head + " Number("@ + self.constants[index as int] + ")"@)
                } else {
                    Some(head + " ?"@)
                },
                _ => Some(head),
            }
        } else {
            None
        }
    }

    /// The lines of the listing for the instructions before `upto`.
    pub open spec fn instructions(self, upto: int) -> Seq<Seq<char>>
        decreases upto,
    {
        if upto <= 0 {
            Seq::empty()
        } else {
            self.instructions(upto - 1).push(
                match self.instruction(upto - 1) {
                    Some(text) => text,
                    None => Seq::empty(),
                },
            )
        }
    }
}

impl Chunk {
    /// A chunk of the parts; they are refused unless there is a line for
    /// every instruction.
    pub fn new(code: Vec<OpCode>, constants: Vec<String>, lines: Vec<usize>) -> (r: Result<
        Chunk,
        ChunkError,
    >)
        ensures
            match r {
                Ok(chunk) => code@.len() == lines@.len() && chunk.code == code && chunk.constants
                    == constants && chunk.lines == lines,
                Err(e) => code@.len() != lines@.len() && e == (ChunkError::Lengths {
                    code: code@.len() as usize,
                    lines: lines@.len() as usize,
                }),
            },
    {
        if code.len() != lines.len() {
            Err(ChunkError::Lengths { code: code.len(), lines: lines.len() })
        } else {
            Ok(Chunk { code, constants, lines })
        }
    }

    /// The empty chunk.
    pub fn default() -> (r: Chunk)
        ensures
            r@ == (Listing { code: Seq::empty(), constants: Seq::empty(), lines: Seq::empty() }),
    {
        let r = Chunk { code: Vec::new(), constants: Vec::new(), lines: Vec::new() };
        assert(r@.constants =~= Seq::empty());
        r
    }

    /// Adds a constant, and the instruction that loads it.
    pub fn add_constant(&mut self, value: String, line: usize)
        ensures
            final(self)@ == old(self)@.with_constant(value@, line),
    {
        let index = self.constants.len();
        self.constants.push(value);
        self.code.push(OpCode::Constant { index });
        self.lines.push(line);
        assert(self@.constants =~= old(self)@.constants.push(value@));
    }

    /// Adds an instruction.
    pub fn write(&mut self, op: OpCode, line: usize)
        ensures
            final(self)@ == old(self)@.with(op, line),
    {
        self.code.push(op);
        self.lines.push(line);
    }

    /// The line of a listing for the instruction at `offset`.
    pub fn fmt_instruction(&self, offset: usize) -> (r: Option<String>)
        ensures
            match r {
                Some(text) => self@.instruction(offset as int) == Some(text@),
                None => self@.instruction(offset as int) is None,
            },
    {
        if offset >= self.code.len() || offset >= self.lines.len() {
            return None;
        }
        let op = self.code[offset];
        let mut out = String::new();
        push_padded(&mut out, offset, 4);
        out.append(" ");
        push_padded(&mut out, self.lines[offset], 4);
        out.append(" ");
        out.append(op.capitals());
        assert(out@ =~= padded(offset as nat, 4) + " "@ + padded(self.lines[offset as int] as nat, 4)
            + " "@ + op.mnemonic());
        match op {
            OpCode::Constant { index } => {
                if index < self.constants.len() {
                    out.append(" Number(");
                    out.append(self.constants[index].as_str());
                    out.append(")");
                } else {
                    out.append(" ?");
                }
            },
            _ => {},
        }
        Some(out)
    }

    /// The listing of the chunk: the line of each instruction, in order.
    pub fn to_string(&self) -> (r: String)
        ensures
            r@ == joined(self@.instructions(self@.code.len() as int), "\n"@),
    {
        let mut parts: Vec<String> = Vec::new();
        let mut offset: usize = 0;
        while offset < self.code.len()
            invariant
                offset <= self.code.len(),
                crate::shared::text::texts_of(parts@) == self@.instructions(offset as int),
            decreases self.code.len() - offset,
        {
            let ghost before = crate::shared::text::texts_of(parts@);
            let text = match self.fmt_instruction(offset) {
                Some(text) => text,
                None => String::new(),
            };
            parts.push(text);
            offset += 1;
            assert(crate::shared::text::texts_of(parts@) =~= before.push(text@));
        }
        join(&parts, "\n")
    }
}

} // verus!
