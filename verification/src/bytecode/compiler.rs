//! The compiler: from the tokens of an arithmetic expression to the chunk of
//! instructions that computes it on a stack.
use crate::bytecode::ops::{Chunk, Listing, OpCode};
use crate::shared::scanner::{Precedence, Token, TokenType};
use crate::shared::text::{decimal, push_decimal};
use vstd::prelude::*;

verus! {

/// Why a run of tokens is no expression.
#[derive(Clone, Debug, PartialEq, Eq)]
pub enum CompilerError {
    /// Another token stands where one of the kind `expected` should.
    UnexpectedToken { expected: TokenType, token: Token },
    /// The tokens end in the middle of an expression.
    UnexpectedEndOfInput,
}

impl CompilerError {
    /// The message that reports the error.
    pub open spec fn text(self) -> Seq<char> {
        match self {
            CompilerError::UnexpectedToken { expected, token } => "Expected "@ + expected.text()
                + " on line "@ + decimal(token.line as nat) + ", but got "@ + token.typ.text(),
            CompilerError::UnexpectedEndOfInput => "Unexpected end of input"@,
        }
    }

    /// The message that reports the error.
    pub fn to_string(&self) -> (r: String)
        ensures
            r@ == self.text(),
    {
        match self {
            CompilerError::UnexpectedToken { expected, token } => {
                let mut out = String::from_str("Expected ");
                out.append(expected.as_str());
                out.append(" on line ");
                push_decimal(&mut out, token.line);
                out.append(", but got ");
                out.append(token.typ.as_str());
                out
            },
            CompilerError::UnexpectedEndOfInput => String::from_str("Unexpected end of input"),
        }
    }
}

/// What the compiler made of the tokens from some place on: whether it
/// failed, the place at which it ended, and the chunk as it then was.
pub struct Compiled {
    pub result: Result<(), CompilerError>,
    pub end: int,
    pub chunk: Listing,
}

/// The instruction of an infix operator.
pub open spec fn operation(typ: TokenType) -> OpCode {
    match typ {
        TokenType::Plus => OpCode::Add,
        TokenType::Minus => OpCode::Subtract,
        TokenType::Star => OpCode::Multiply,
        _ => OpCode::Divide,
    }
}

/// Whether the token kind is an infix operator of arithmetic.
pub open spec fn is_operator(typ: TokenType) -> bool {
    typ == TokenType::Plus || typ == TokenType::Minus || typ == TokenType::Star || typ
        == TokenType::Slash
}

/// The strength with which the token kind binds as an infix operator.
pub open spec fn binding(typ: TokenType) -> Precedence {
    match typ {
        TokenType::Plus | TokenType::Minus => Precedence::Term,
        TokenType::Star | TokenType::Slash => Precedence::Factor,
        _ => Precedence::Lowest,
    }
}

/// The next stronger strength; `Primary` is the strongest.
pub open spec fn stronger(p: Precedence) -> Precedence {
    match p {
        Precedence::Lowest => Precedence::Assignment,
        Precedence::Assignment => Precedence::Or,
        Precedence::Or => Precedence::And,
        Precedence::And => Precedence::Equality,
        Precedence::Equality => Precedence::Comparison,
        Precedence::Comparison => Precedence::Term,
        Precedence::Term => Precedence::Factor,
        Precedence::Factor => Precedence::Unary,
        Precedence::Unary => Precedence::Call,
        _ => Precedence::Primary,
    }
}

/// What stands before an operator: a number, which is loaded; a negation,
/// which negates what its operand leaves; or an expression in parentheses.
/// At the end of the tokens there is nothing, and nothing is compiled.
pub open spec fn prefix(tokens: Seq<Token>, pos: int, chunk: Listing) -> Compiled
    decreases tokens.len() - pos, 0nat,
{
    if pos < 0 || pos >= tokens.len() {
        Compiled { result: Ok(()), end: pos, chunk }
    } else {
        let token = tokens[pos];
        match token.typ {
            TokenType::LeftParen => {
                let e = expression(tokens, pos + 1, chunk);
                match e.result {
                    Ok(()) => if 0 <= e.end < tokens.len() {
                        if tokens[e.end].typ == TokenType::RightParen {
                            Compiled { result: Ok(()), end: e.end + 1, chunk: e.chunk }
                        } else {
                            Compiled {
                                result: Err(
                                    CompilerError::UnexpectedToken {
                                        expected: TokenType::RightParen,
                                        token: tokens[e.end],
                                    },
                                ),
                                end: e.end + 1,
                                chunk: e.chunk,
                            }
                        }
                    } else {
                        Compiled {
                            result: Err(CompilerError::UnexpectedEndOfInput),
                            end: e.end,
                            chunk: e.chunk,
                        }
                    },
                    Err(_) => e,
                }
            },
            TokenType::Minus => {
                let r = parse(tokens, pos + 1, Precedence::Unary, chunk);
                match r.result {
                    Ok(()) => Compiled {
                        result: Ok(()),
                        end: r.end,
                        chunk: r.chunk.with(OpCode::Negate, token.line),
                    },
                    Err(_) => r,
                }
            },
            TokenType::Number => Compiled {
                result: Ok(()),
                end: pos + 1,
                chunk: chunk.with_constant(token.lexeme@, token.line),
            },
            _ => Compiled {
                result: Err(
                    CompilerError::UnexpectedToken { expected: TokenType::Number, token },
                ),
                end: pos + 1,
                chunk,
            },
        }
    }
}

/// An operator and its right side: the right side is compiled as far as it
/// binds more strongly than the operator, and then the operator's
/// instruction.
pub open spec fn infix(tokens: Seq<Token>, pos: int, chunk: Listing) -> Compiled
    decreases tokens.len() - pos, 2nat,
{
    if pos < 0 || pos >= tokens.len() {
        Compiled { result: Ok(()), end: pos, chunk }
    } else {
        let token = tokens[pos];
        if is_operator(token.typ) {
            let r = parse(tokens, pos + 1, stronger(binding(token.typ)), chunk);
            match r.result {
                Ok(()) => Compiled {
                    result: Ok(()),
                    end: r.end,
                    chunk: r.chunk.with(operation(token.typ), token.line),
                },
                Err(_) => r,
            }
        } else {
            Compiled {
                result: Err(
                    CompilerError::UnexpectedToken { expected: TokenType::Number, token },
                ),
                end: pos + 1,
                chunk,
            }
        }
    }
}

/// The operators from `pos` on that bind at least as strongly as
/// `precedence`, each with its right side.
pub open spec fn rest(tokens: Seq<Token>, pos: int, precedence: Precedence, chunk: Listing) -> Compiled
    decreases tokens.len() - pos, 3nat,
{
    if 0 <= pos < tokens.len() && precedence.rank() <= binding(tokens[pos].typ).rank() {
        let i = infix(tokens, pos, chunk);
        match i.result {
            Ok(()) => if pos < i.end <= tokens.len() {
                rest(tokens, i.end, precedence, i.chunk)
            } else {
                i
            },
            Err(_) => i,
        }
    } else {
        Compiled { result: Ok(()), end: pos, chunk }
    }
}

/// An expression of operators that bind at least as strongly as
/// `precedence`.
pub open spec fn parse(tokens: Seq<Token>, pos: int, precedence: Precedence, chunk: Listing) -> Compiled
    decreases tokens.len() - pos, 4nat,
{
    let p = prefix(tokens, pos, chunk);
    match p.result {
        Ok(()) => if pos <= p.end <= tokens.len() {
            rest(tokens, p.end, precedence, p.chunk)
        } else {
            p
        },
        Err(_) => p,
    }
}

/// An expression.
pub open spec fn expression(tokens: Seq<Token>, pos: int, chunk: Listing) -> Compiled
    decreases tokens.len() - pos, 5nat,
{
    parse(tokens, pos, Precedence::Assignment, chunk)
}

/// The empty listing.
pub open spec fn nothing() -> Listing {
    Listing { code: Seq::empty(), constants: Seq::empty(), lines: Seq::empty() }
}

struct Compiler<'t> {
    tokens: &'t Vec<Token>,
    current: usize,
    chunk: Chunk,
}

fn operation_of(typ: TokenType) -> (r: OpCode)
    ensures
        r == operation(typ),
{
    match typ {
        TokenType::Plus => OpCode::Add,
        TokenType::Minus => OpCode::Subtract,
        TokenType::Star => OpCode::Multiply,
        _ => OpCode::Divide,
    }
}

impl<'t> Compiler<'t> {
    spec fn wf(&self) -> bool {
        self.current <= self.tokens@.len()
    }

    spec fn left(&self) -> int {
        self.tokens@.len() - self.current
    }

    spec fn after(&self, before: &Self) -> bool {
        self.wf() && self.tokens == before.tokens && self.current >= before.current
    }

    /// Whether the compiler, having returned `r`, stands where `expected`
    /// says, with the chunk that `expected` says.
    spec fn did(&self, r: Result<(), CompilerError>, expected: Compiled) -> bool {
        self.current == expected.end && self.chunk@ == expected.chunk && r == expected.result
    }

    fn from(tokens: &'t Vec<Token>) -> (r: Self)
        ensures
            r.wf(),
            r.tokens == tokens,
            r.current == 0,
            r.chunk@ == nothing(),
    {
        Compiler { tokens, current: 0, chunk: Chunk::default() }
    }

    fn next(&mut self) -> (r: Option<&'t Token>)
        requires
            old(self).wf(),
        ensures
            final(self).after(old(self)),
            final(self).chunk == old(self).chunk,
            r == (if old(self).current < old(self).tokens@.len() {
                Some(&old(self).tokens@[old(self).current as int])
            } else {
                None
            }),
            final(self).current == old(self).current + (if r is Some {
                1int
            } else {
                0int
            }),
    {
        if self.current < self.tokens.len() {
            let token = &self.tokens[self.current];
            self.current = self.current + 1;
            Some(token)
        } else {
            None
        }
    }

    fn prefix(&mut self) -> (r: Result<(), CompilerError>)
        requires
            old(self).wf(),
        ensures
            final(self).after(old(self)),
            final(self).did(r, prefix(old(self).tokens@, old(self).current as int, old(self).chunk@)),
        decreases old(self).left(), 0nat,
    {
        match self.next() {
            None => Ok(()),
            Some(token) => match token.typ {
                TokenType::LeftParen => {
                    self.expression()?;
                    match self.next() {
                        Some(closing) => {
                            if closing.typ != TokenType::RightParen {
                                return Err(
                                    CompilerError::UnexpectedToken {
                                        expected: TokenType::RightParen,
                                        token: closing.copy(),
                                    },
                                );
                            }
                            Ok(())
                        },
                        None => Err(CompilerError::UnexpectedEndOfInput),
                    }
                },
                TokenType::Minus => {
                    self.parse(Precedence::Unary)?;
                    self.chunk.write(OpCode::Negate, token.line);
                    Ok(())
                },
                TokenType::Number => {
                    self.chunk.add_constant(token.lexeme.clone(), token.line);
                    Ok(())
                },
                _ => Err(
                    CompilerError::UnexpectedToken {
                        expected: TokenType::Number,
                        token: token.copy(),
                    },
                ),
            },
        }
    }

    fn infix(&mut self) -> (r: Result<(), CompilerError>)
        requires
            old(self).wf(),
        ensures
            final(self).after(old(self)),
            old(self).current < old(self).tokens@.len() ==> final(self).current > old(
                self,
            ).current,
            final(self).did(r, infix(old(self).tokens@, old(self).current as int, old(self).chunk@)),
        decreases old(self).left(), 2nat,
    {
        match self.next() {
            None => Ok(()),
            Some(token) => match token.typ {
                TokenType::Plus | TokenType::Minus | TokenType::Star | TokenType::Slash => {
                    self.parse(token.typ.precedence().next())?;
                    self.chunk.write(operation_of(token.typ), token.line);
                    Ok(())
                },
                _ => Err(
                    CompilerError::UnexpectedToken {
                        expected: TokenType::Number,
                        token: token.copy(),
                    },
                ),
            },
        }
    }

    fn parse(&mut self, precedence: Precedence) -> (r: Result<(), CompilerError>)
        requires
            old(self).wf(),
        ensures
            final(self).after(old(self)),
            final(self).did(
                r,
                parse(old(self).tokens@, old(self).current as int, precedence, old(self).chunk@),
            ),
        decreases old(self).left(), 4nat,
    {
        self.prefix()?;
        loop
            invariant_except_break
                parse(old(self).tokens@, old(self).current as int, precedence, old(self).chunk@)
                    == rest(self.tokens@, self.current as int, precedence, self.chunk@),
            invariant
                self.after(old(self)),
            ensures
                self.after(old(self)),
                self.did(
                    Ok(()),
                    parse(
                        old(self).tokens@,
                        old(self).current as int,
                        precedence,
                        old(self).chunk@,
                    ),
                ),
            decreases self.left(),
        {
            let more = if self.current < self.tokens.len() {
                precedence.level() <= self.tokens[self.current].typ.precedence().level()
            } else {
                false
            };
            if !more {
                break ;
            }
            self.infix()?;
        }
        Ok(())
    }

    fn expression(&mut self) -> (r: Result<(), CompilerError>)
        requires
            old(self).wf(),
        ensures
            final(self).after(old(self)),
            final(self).did(
                r,
                expression(old(self).tokens@, old(self).current as int, old(self).chunk@),
            ),
        decreases old(self).left(), 5nat,
    {
        self.parse(Precedence::Assignment)
    }
}

/// Compiles the expression at the start of the tokens. What follows the
/// expression is left unread.
pub fn compile(tokens: &Vec<Token>) -> (r: Result<Chunk, CompilerError>)
    ensures
        match r {
            Ok(chunk) => expression(tokens@, 0, nothing()).result is Ok && chunk@ == expression(
                tokens@,
                0,
                nothing(),
            ).chunk,
            Err(e) => expression(tokens@, 0, nothing()).result == Err::<(), CompilerError>(e),
        },
{
    let mut compiler = Compiler::from(tokens);
    compiler.expression()?;
    Ok(compiler.chunk)
}

} // verus!
