//! The parser: from tokens to the syntax tree, by recursive descent.
use crate::shared::results::successes;
use crate::shared::scanner::{Token, TokenType};
use crate::shared::text::{decimal, push_decimal};
use crate::walker::ast::{
    expressions_of, lemma_block_view, lemma_call_view, lemma_class_view, lemma_function_view,
    lexemes_of, statements_of, Expr, Expression, Statement, Stmt,
};
use crate::walker::fitting::{
    expr_ids, expr_within, exprs_ids, exprs_within, lemma_call_within, lemma_exprs_push_within,
    lemma_method_within, lemma_methods_push_within, lemma_pair_within, lemma_ranges_apart,
    lemma_stmts_push_within, lemma_two_within, lemma_within_wider, methods_within, stmt_ids,
    stmt_within, stmts_distinct, stmts_ids, stmts_within,
};
use crate::walker::grammar::{
    arguments, assignment, block, braced, call, call_rest, class, closed_by_semicolon, condition,
    declaration, declarations, desugared, done, expression, expression_statement, failed, fault,
    for_condition, for_increment, for_initializer, for_statement, function, further, if_statement,
    infix, infix_rest, is_at, joins, methods, operand, parameters, primary, print_statement,
    program, return_statement, statement, unary, variable_declaration, while_statement, Parsed,
};
use vstd::prelude::*;

verus! {

/// Why a run of tokens is no statement.
#[derive(Clone, Debug, PartialEq, Eq)]
pub enum ParserError {
    /// Another token stands where one of the kind `expected` should.
    UnexpectedToken { expected: TokenType, token: Token },
    /// The tokens end in the middle of a statement.
    UnexpectedEndOfInput,
    /// The left side of an assignment is neither a variable nor a property.
    InvalidAssignmentTarget,
}

impl ParserError {
    /// The message that reports the error.
    pub open spec fn text(self) -> Seq<char> {
        match self {
            ParserError::UnexpectedToken { expected, token } => "Expected "@ + expected.text()
                + " on line "@ + decimal(token.line as nat) + ", but got "@ + token.typ.text(),
            ParserError::UnexpectedEndOfInput => "Unexpected end of input"@,
            ParserError::InvalidAssignmentTarget => "Invalid assignment target"@,
        }
    }

    /// The message that reports the error.
    pub fn to_string(&self) -> (r: String)
        ensures
            r@ == self.text(),
    {
        match self {
            ParserError::UnexpectedToken { expected, token } => {
                let mut out = String::from_str("Expected ");
                out.append(expected.as_str());
                out.append(" on line ");
                push_decimal(&mut out, token.line);
                out.append(", but got ");
                out.append(token.typ.as_str());
                out
            },
            ParserError::UnexpectedEndOfInput => String::from_str("Unexpected end of input"),
            ParserError::InvalidAssignmentTarget => String::from_str("Invalid assignment target"),
        }
    }
}

/// Whether a statement can begin with a token of the kind: the parser goes
/// on from such a token after an error.
pub open spec fn begins_statement(typ: TokenType) -> bool {
    typ == TokenType::Class || typ == TokenType::Fun || typ == TokenType::Var || typ
        == TokenType::For || typ == TokenType::If || typ == TokenType::While || typ
        == TokenType::Print || typ == TokenType::Return
}

/// The place at which the parser goes on after an error at `from`: behind the
/// next semicolon, or before the next token, after the one at `from`, with
/// which a statement can begin; the end where there is neither.
pub open spec fn resume_at(tokens: Seq<Token>, from: int) -> int
    decreases tokens.len() - from,
{
    if from < 0 || from >= tokens.len() {
        from
    } else if tokens[from].typ == TokenType::Semicolon {
        from + 1
    } else if from + 1 < tokens.len() && begins_statement(tokens[from + 1].typ) {
        from + 1
    } else {
        resume_at(tokens, from + 1)
    }
}

struct Parser<'t> {
    tokens: &'t Vec<Token>,
    current: usize,
}

impl<'t> Parser<'t> {
    spec fn wf(&self) -> bool {
        self.current <= self.tokens@.len()
    }

    spec fn left(&self) -> int {
        self.tokens@.len() - self.current
    }

    /// The parser is further on than `before`, or where it was, on the same
    /// tokens.
    spec fn after(&self, before: &Self) -> bool {
        self.wf() && self.tokens == before.tokens && self.current >= before.current
    }

    fn from(tokens: &'t Vec<Token>) -> (r: Self)
        ensures
            r.wf(),
            r.tokens == tokens,
            r.current == 0,
    {
        Parser { tokens, current: 0 }
    }

    fn peek(&self) -> (r: Option<&'t Token>)
        requires
            self.wf(),
        ensures
            r == (if self.current < self.tokens@.len() {
                Some(&self.tokens@[self.current as int])
            } else {
                None
            }),
    {
        if self.current < self.tokens.len() {
            Some(&self.tokens[self.current])
        } else {
            None
        }
    }

    fn next(&mut self) -> (r: Option<&'t Token>)
        requires
            old(self).wf(),
        ensures
            final(self).after(old(self)),
            r == (if old(self).current < old(self).tokens@.len() {
                Some(&old(self).tokens@[old(self).current as int])
            } else {
                None
            }),
            final(self).current == old(self).current + (if r is Some {
                1int
            } else {
                0int
            }),
    {
        if self.current < self.tokens.len() {
            let token = &self.tokens[self.current];
            self.current = self.current + 1;
            Some(token)
        } else {
            None
        }
    }

    /// Whether the next token is of the kind `typ`.
    fn check(&self, typ: TokenType) -> (r: bool)
        requires
            self.wf(),
        ensures
            r == (self.current < self.tokens@.len() && self.tokens@[self.current as int].typ
                == typ),
    {
        match self.peek() {
            Some(token) => token.typ == typ,
            None => false,
        }
    }

    /// Takes the next token if it is of the kind `typ`.
    fn next_if(&mut self, typ: TokenType) -> (r: Option<&'t Token>)
        requires
            old(self).wf(),
        ensures
            final(self).after(old(self)),
            r == (if old(self).current < old(self).tokens@.len() && old(self).tokens@[old(
                self,
            ).current as int].typ == typ {
                Some(&old(self).tokens@[old(self).current as int])
            } else {
                None
            }),
            final(self).current == old(self).current + (if r is Some {
                1int
            } else {
                0int
            }),
    {
        if self.check(typ) {
            self.next()
        } else {
            None
        }
    }

    /// The error for the next token standing where `expected` should.
    fn unexpected(&self, expected: TokenType) -> (r: ParserError)
        requires
            self.wf(),
        ensures
            r == fault(self.tokens@, self.current as int, expected),
    {
        match self.peek() {
            Some(token) => ParserError::UnexpectedToken { expected, token: token.copy() },
            None => ParserError::UnexpectedEndOfInput,
        }
    }

    fn require_token(&mut self, typ: TokenType) -> (r: Result<&'t Token, ParserError>)
        requires
            old(self).wf(),
        ensures
            final(self).after(old(self)),
            match r {
                Ok(token) => is_at(old(self).tokens@, old(self).current as int, typ) && *token
                    == old(self).tokens@[old(self).current as int] && final(self).current == old(
                    self,
                ).current + 1,
                Err(e) => !is_at(old(self).tokens@, old(self).current as int, typ) && e == fault(
                    old(self).tokens@,
                    old(self).current as int,
                    typ,
                ) && final(self).current == old(self).current,
            },
    {
        match self.next_if(typ) {
            Some(token) => Ok(token),
            None => Err(self.unexpected(typ)),
        }
    }

    fn synchronize(&mut self)
        requires
            old(self).wf(),
        ensures
            final(self).after(old(self)),
            final(self).current == resume_at(old(self).tokens@, old(self).current as int),
            old(self).current < old(self).tokens@.len() ==> final(self).current > old(self).current,
    {
        loop
            invariant_except_break
                resume_at(old(self).tokens@, old(self).current as int) == resume_at(
                    self.tokens@,
                    self.current as int,
                ),
                self.current == old(self).current ==> self.current < self.tokens@.len() || old(
                    self,
                ).current >= old(self).tokens@.len(),
            invariant
                self.after(old(self)),
            ensures
                self.after(old(self)),
                self.current == resume_at(old(self).tokens@, old(self).current as int),
                old(self).current < old(self).tokens@.len() ==> self.current > old(self).current,
            decreases self.left(),
        {
            match self.next() {
                None => {
                    break ;
                },
                Some(token) => {
                    if token.typ == TokenType::Semicolon {
                        break ;
                    }
                    match self.peek() {
                        Some(next) => {
                            if next.typ == TokenType::Class || next.typ == TokenType::Fun
                                || next.typ == TokenType::Var || next.typ == TokenType::For
                                || next.typ == TokenType::If || next.typ == TokenType::While
                                || next.typ == TokenType::Print || next.typ
                                == TokenType::Return {
                                break ;
                            }
                        },
                        None => {},
                    }
                },
            }
        }
    }
}

/// Whether the parser, having read `r` and standing at `end`, did what
/// `expected` says: it read the same tree, or failed with the same error, and
/// ended at the same place.
pub open spec fn read_expression(
    r: Result<Expr, ParserError>,
    end: int,
    expected: Parsed<Expression>,
) -> bool {
    end == expected.end && match r {
        Ok(e) => expected.result == Ok::<Expression, ParserError>(e@),
        Err(x) => expected.result == Err::<Expression, ParserError>(x),
    }
}

/// As `read_expression`, for a list of expressions.
pub open spec fn read_expressions(
    r: Result<Vec<Expr>, ParserError>,
    end: int,
    expected: Parsed<Seq<Expression>>,
) -> bool {
    end == expected.end && match r {
        Ok(es) => expected.result == Ok::<Seq<Expression>, ParserError>(expressions_of(es@)),
        Err(x) => expected.result == Err::<Seq<Expression>, ParserError>(x),
    }
}

fn joins_at(level: u8, typ: TokenType) -> (r: bool)
    ensures
        r == joins(level as nat, typ),
{
    if level == 0 {
        typ == TokenType::Slash || typ == TokenType::Star
    } else if level == 1 {
        typ == TokenType::Minus || typ == TokenType::Plus
    } else if level == 2 {
        typ == TokenType::Greater || typ == TokenType::GreaterEqual || typ == TokenType::Less
            || typ == TokenType::LessEqual
    } else if level == 3 {
        typ == TokenType::BangEqual || typ == TokenType::EqualEqual
    } else if level == 4 {
        typ == TokenType::And
    } else if level == 5 {
        typ == TokenType::Or
    } else {
        false
    }
}

impl<'t> Parser<'t> {
    fn primary(&mut self) -> (r: Result<Expr, ParserError>)
        requires
            old(self).wf(),
        ensures
            final(self).after(old(self)),
            r is Ok ==> final(self).current > old(self).current,
            read_expression(
                r,
                final(self).current as int,
                primary(old(self).tokens@, old(self).current as int),
            ),
            r matches Ok(e) ==> expr_within(e, old(self).current as int, final(self).current as int),
        decreases old(self).left(), 0nat,
    {
        let at = self.current;
        match self.next() {
            None => Err(ParserError::UnexpectedEndOfInput),
            Some(token) => match token.typ {
                TokenType::False | TokenType::True | TokenType::Nil | TokenType::Number
                | TokenType::String => Ok(Expr::Literal { value: token.copy() }),
                TokenType::LeftParen => {
                    let expr = self.expression()?;
                    match self.next_if(TokenType::RightParen) {
                        Some(_) => Ok(Expr::Grouping { expr: Box::new(expr) }),
                        None => Err(self.unexpected(TokenType::RightParen)),
                    }
                },
                TokenType::Identifier => Ok(Expr::Variable { id: at, name: token.copy() }),
                TokenType::This => Ok(Expr::This { id: at, keyword: token.copy() }),
                _ => Err(
                    ParserError::UnexpectedToken {
                        expected: TokenType::Identifier,
                        token: token.copy(),
                    },
                ),
            },
        }
    }

    fn arguments(&mut self) -> (r: Result<Vec<Expr>, ParserError>)
        requires
            old(self).wf(),
        ensures
            final(self).after(old(self)),
            read_expressions(
                r,
                final(self).current as int,
                arguments(old(self).tokens@, old(self).current as int, Seq::empty()),
            ),
            r matches Ok(es) ==> exprs_within(
                es@,
                0,
                old(self).current as int,
                final(self).current as int,
            ),
        decreases old(self).left(), 19nat,
    {
        let mut args: Vec<Expr> = Vec::new();
        assert(expressions_of(args@) =~= Seq::<Expression>::empty());
        loop
            invariant_except_break
                arguments(old(self).tokens@, old(self).current as int, Seq::empty()) == arguments(
                    self.tokens@,
                    self.current as int,
                    expressions_of(args@),
                ),
            invariant
                self.after(old(self)),
                exprs_within(args@, 0, old(self).current as int, self.current as int),
            ensures
                arguments(old(self).tokens@, old(self).current as int, Seq::empty()) == done(
                    expressions_of(args@),
                    self.current as int,
                ),
                exprs_within(args@, 0, old(self).current as int, self.current as int),
            decreases self.left(),
        {
            let more = match self.peek() {
                Some(token) => token.typ != TokenType::RightParen,
                None => false,
            };
            if !more {
                break ;
            }
            let ghost before = expressions_of(args@);
            let ghost list = args@;
            let ghost from = self.current as int;
            let e = self.expression()?;
            let ghost x = e@;
            let ghost end = self.current as int;
            proof {
                lemma_exprs_push_within(list, 0, e, old(self).current as int, from, from, end);
            }
            args.push(e);
            assert(expressions_of(args@) =~= before.push(x));
            if self.next_if(TokenType::Comma).is_none() {
                break ;
            }
            proof {
                lemma_within_wider(
                    exprs_ids(args@, 0),
                    old(self).current as int,
                    end,
                    old(self).current as int,
                    self.current as int,
                );
            }
        }
        Ok(args)
    }

    fn call(&mut self) -> (r: Result<Expr, ParserError>)
        requires
            old(self).wf(),
        ensures
            final(self).after(old(self)),
            r is Ok ==> final(self).current > old(self).current,
            read_expression(
                r,
                final(self).current as int,
                call(old(self).tokens@, old(self).current as int),
            ),
            r matches Ok(e) ==> expr_within(e, old(self).current as int, final(self).current as int),
        decreases old(self).left(), 2nat,
    {
        let mut expr = self.primary()?;
        loop
            invariant_except_break
                call(old(self).tokens@, old(self).current as int) == call_rest(
                    self.tokens@,
                    expr@,
                    self.current as int,
                ),
            invariant
                self.after(old(self)),
                self.current > old(self).current,
                expr_within(expr, old(self).current as int, self.current as int),
            ensures
                call(old(self).tokens@, old(self).current as int) == done(
                    expr@,
                    self.current as int,
                ),
                expr_within(expr, old(self).current as int, self.current as int),
            decreases self.left(),
        {
            let ghost mid = self.current as int;
            if self.next_if(TokenType::LeftParen).is_some() {
                let args = self.arguments()?;
                let ghost hi = self.current as int;
                self.require_token(TokenType::RightParen)?;
                proof {
                    lemma_call_view(Box::new(expr), args);
                    lemma_call_within(
                        Box::new(expr),
                        args,
                        old(self).current as int,
                        mid,
                        mid + 1,
                        hi,
                        self.current as int,
                    );
                }
                expr = Expr::Call { callee: Box::new(expr), args };
            } else if self.next_if(TokenType::Dot).is_some() {
                let name = self.require_token(TokenType::Identifier)?;
                proof {
                    lemma_within_wider(
                        expr_ids(expr),
                        old(self).current as int,
                        mid,
                        old(self).current as int,
                        self.current as int,
                    );
                }
                expr = Expr::Get { object: Box::new(expr), name: name.copy() };
            } else {
                break ;
            }
        }
        Ok(expr)
    }

    fn unary(&mut self) -> (r: Result<Expr, ParserError>)
        requires
            old(self).wf(),
        ensures
            final(self).after(old(self)),
            r is Ok ==> final(self).current > old(self).current,
            read_expression(
                r,
                final(self).current as int,
                unary(old(self).tokens@, old(self).current as int),
            ),
            r matches Ok(e) ==> expr_within(e, old(self).current as int, final(self).current as int),
        decreases old(self).left(), 3nat,
    {
        let op = match self.peek() {
            Some(token) => if token.typ == TokenType::Bang || token.typ == TokenType::Minus {
                Some(token)
            } else {
                None
            },
            None => None,
        };
        match op {
            Some(token) => {
                self.next();
                let right = self.unary()?;
                Ok(Expr::Unary { op: token.copy(), right: Box::new(right) })
            },
            None => self.call(),
        }
    }

    fn operand(&mut self, level: u8) -> (r: Result<Expr, ParserError>)
        requires
            old(self).wf(),
            level <= 5,
        ensures
            final(self).after(old(self)),
            r is Ok ==> final(self).current > old(self).current,
            read_expression(
                r,
                final(self).current as int,
                operand(old(self).tokens@, old(self).current as int, level as nat),
            ),
            r matches Ok(e) ==> expr_within(e, old(self).current as int, final(self).current as int),
        decreases old(self).left(), 4 + 2 * level,
    {
        if level == 0 {
            self.unary()
        } else {
            self.infix(level - 1)
        }
    }

    fn infix(&mut self, level: u8) -> (r: Result<Expr, ParserError>)
        requires
            old(self).wf(),
            level <= 5,
        ensures
            final(self).after(old(self)),
            r is Ok ==> final(self).current > old(self).current,
            read_expression(
                r,
                final(self).current as int,
                infix(old(self).tokens@, old(self).current as int, level as nat),
            ),
            r matches Ok(e) ==> expr_within(e, old(self).current as int, final(self).current as int),
        decreases old(self).left(), 5 + 2 * level,
    {
        let mut expr = self.operand(level)?;
        loop
            invariant_except_break
                infix(old(self).tokens@, old(self).current as int, level as nat) == infix_rest(
                    self.tokens@,
                    expr@,
                    self.current as int,
                    level as nat,
                ),
            invariant
                level <= 5,
                self.after(old(self)),
                self.current > old(self).current,
                expr_within(expr, old(self).current as int, self.current as int),
            ensures
                infix(old(self).tokens@, old(self).current as int, level as nat) == done(
                    expr@,
                    self.current as int,
                ),
                expr_within(expr, old(self).current as int, self.current as int),
            decreases self.left(),
        {
            let ghost mid = self.current as int;
            let op = match self.peek() {
                Some(token) => if joins_at(level, token.typ) {
                    Some(token)
                } else {
                    None
                },
                None => None,
            };
            match op {
                Some(token) => {
                    self.next();
                    let right = self.operand(level)?;
                    proof {
                        lemma_two_within(
                            expr,
                            right,
                            old(self).current as int,
                            mid,
                            mid + 1,
                            self.current as int,
                        );
                    }
                    expr = if level >= 4 {
                        Expr::Logical { left: Box::new(expr), op: token.copy(), right: Box::new(right) }
                    } else {
                        Expr::Binary { left: Box::new(expr), op: token.copy(), right: Box::new(right) }
                    };
                },
                None => {
                    break ;
                },
            }
        }
        Ok(expr)
    }

    fn factor(&mut self) -> (r: Result<Expr, ParserError>)
        requires
            old(self).wf(),
        ensures
            final(self).after(old(self)),
            r is Ok ==> final(self).current > old(self).current,
            read_expression(
                r,
                final(self).current as int,
                infix(old(self).tokens@, old(self).current as int, 0),
            ),
            r matches Ok(e) ==> expr_within(e, old(self).current as int, final(self).current as int),
        decreases old(self).left(), 6nat,
    {
        self.infix(0)
    }

    fn term(&mut self) -> (r: Result<Expr, ParserError>)
        requires
            old(self).wf(),
        ensures
            final(self).after(old(self)),
            r is Ok ==> final(self).current > old(self).current,
            read_expression(
                r,
                final(self).current as int,
                infix(old(self).tokens@, old(self).current as int, 1),
            ),
            r matches Ok(e) ==> expr_within(e, old(self).current as int, final(self).current as int),
        decreases old(self).left(), 8nat,
    {
        self.infix(1)
    }

    fn comparison(&mut self) -> (r: Result<Expr, ParserError>)
        requires
            old(self).wf(),
        ensures
            final(self).after(old(self)),
            r is Ok ==> final(self).current > old(self).current,
            read_expression(
                r,
                final(self).current as int,
                infix(old(self).tokens@, old(self).current as int, 2),
            ),
            r matches Ok(e) ==> expr_within(e, old(self).current as int, final(self).current as int),
        decreases old(self).left(), 10nat,
    {
        self.infix(2)
    }

    fn equality(&mut self) -> (r: Result<Expr, ParserError>)
        requires
            old(self).wf(),
        ensures
            final(self).after(old(self)),
            r is Ok ==> final(self).current > old(self).current,
            read_expression(
                r,
                final(self).current as int,
                infix(old(self).tokens@, old(self).current as int, 3),
            ),
            r matches Ok(e) ==> expr_within(e, old(self).current as int, final(self).current as int),
        decreases old(self).left(), 12nat,
    {
        self.infix(3)
    }

    fn and(&mut self) -> (r: Result<Expr, ParserError>)
        requires
            old(self).wf(),
        ensures
            final(self).after(old(self)),
            r is Ok ==> final(self).current > old(self).current,
            read_expression(
                r,
                final(self).current as int,
                infix(old(self).tokens@, old(self).current as int, 4),
            ),
            r matches Ok(e) ==> expr_within(e, old(self).current as int, final(self).current as int),
        decreases old(self).left(), 14nat,
    {
        self.infix(4)
    }

    fn or(&mut self) -> (r: Result<Expr, ParserError>)
        requires
            old(self).wf(),
        ensures
            final(self).after(old(self)),
            r is Ok ==> final(self).current > old(self).current,
            read_expression(
                r,
                final(self).current as int,
                infix(old(self).tokens@, old(self).current as int, 5),
            ),
            r matches Ok(e) ==> expr_within(e, old(self).current as int, final(self).current as int),
        decreases old(self).left(), 16nat,
    {
        self.infix(5)
    }

    fn assignment(&mut self) -> (r: Result<Expr, ParserError>)
        requires
            old(self).wf(),
        ensures
            final(self).after(old(self)),
            r is Ok ==> final(self).current > old(self).current,
            read_expression(
                r,
                final(self).current as int,
                assignment(old(self).tokens@, old(self).current as int),
            ),
            r matches Ok(e) ==> expr_within(e, old(self).current as int, final(self).current as int),
        decreases old(self).left(), 17nat,
    {
        let expr = self.or()?;
        let ghost mid = self.current as int;
        if self.next_if(TokenType::Equal).is_some() {
            let value = self.assignment()?;
            proof {
                lemma_two_within(
                    expr,
                    value,
                    old(self).current as int,
                    mid,
                    mid + 1,
                    self.current as int,
                );
                match expr {
                    Expr::Variable { id, .. } => {
                        assert(expr_ids(expr).contains(id));
                        assert(expr_ids(value).insert(id) =~= expr_ids(expr).union(expr_ids(value)));
                    },
                    _ => {},
                }
            }
            match expr {
                Expr::Variable { id, name } => Ok(Expr::Assign { id, name, value: Box::new(value) }),
                Expr::Get { object, name } => Ok(
                    Expr::SetProperty { object, name, value: Box::new(value) },
                ),
                _ => Err(ParserError::InvalidAssignmentTarget),
            }
        } else {
            Ok(expr)
        }
    }

    fn expression(&mut self) -> (r: Result<Expr, ParserError>)
        requires
            old(self).wf(),
        ensures
            final(self).after(old(self)),
            r is Ok ==> final(self).current > old(self).current,
            read_expression(
                r,
                final(self).current as int,
                expression(old(self).tokens@, old(self).current as int),
            ),
            r matches Ok(e) ==> expr_within(e, old(self).current as int, final(self).current as int),
        decreases old(self).left(), 18nat,
    {
        self.assignment()
    }
}

/// As `read_expression`, for a statement.
pub open spec fn read_statement(
    r: Result<Stmt, ParserError>,
    end: int,
    expected: Parsed<Statement>,
) -> bool {
    end == expected.end && match r {
        Ok(s) => expected.result == Ok::<Statement, ParserError>(s@),
        Err(x) => expected.result == Err::<Statement, ParserError>(x),
    }
}

/// As `read_expression`, for a list of statements.
pub open spec fn read_statements(
    r: Result<Vec<Stmt>, ParserError>,
    end: int,
    expected: Parsed<Seq<Statement>>,
) -> bool {
    end == expected.end && match r {
        Ok(ss) => expected.result == Ok::<Seq<Statement>, ParserError>(statements_of(ss@)),
        Err(x) => expected.result == Err::<Seq<Statement>, ParserError>(x),
    }
}

/// The statement, if there is one, as a tree of values.
pub open spec fn optional_statement(s: Option<Stmt>) -> Option<Statement> {
    match s {
        Some(s) => Some(s@),
        None => None,
    }
}

/// The expression, if there is one, as a tree of values.
pub open spec fn optional_tree(e: Option<Expr>) -> Option<Expression> {
    match e {
        Some(e) => Some(e@),
        None => None,
    }
}

/// Whether the statement, if there is one, has `id`s of its own, all from
/// `lo` up to `hi`.
pub open spec fn optional_stmt_within(s: Option<Stmt>, lo: int, hi: int) -> bool {
    match s {
        Some(s) => stmt_within(s, lo, hi),
        None => true,
    }
}

/// Whether the expression, if there is one, has `id`s of its own, all from
/// `lo` up to `hi`.
pub open spec fn optional_expr_within(e: Option<Expr>, lo: int, hi: int) -> bool {
    match e {
        Some(e) => expr_within(e, lo, hi),
        None => true,
    }
}

fn desugar(
    initializer: Option<Stmt>,
    condition: Expr,
    increment: Option<Expr>,
    body: Stmt,
    Ghost(lo): Ghost<int>,
    Ghost(a): Ghost<int>,
    Ghost(b): Ghost<int>,
    Ghost(c): Ghost<int>,
    Ghost(hi): Ghost<int>,
) -> (r: Stmt)
    requires
        lo <= a <= b <= c <= hi,
        optional_stmt_within(initializer, lo, a),
        expr_within(condition, a, b),
        optional_expr_within(increment, b, c),
        stmt_within(body, c, hi),
    ensures
        r@ == desugared(
            optional_statement(initializer),
            condition@,
            optional_tree(increment),
            body@,
        ),
        stmt_within(r, lo, hi),
{
    let ghost plain = body@;
    let ghost body_ids = stmt_ids(body);
    let ghost condition_ids = expr_ids(condition);
    proof {
        lemma_within_wider(body_ids, c, hi, b, hi);
        lemma_within_wider(condition_ids, a, b, a, hi);
    }
    let inner = match increment {
        Some(i) => {
            let mut stmts: Vec<Stmt> = Vec::new();
            let after = Stmt::Expression { expr: Box::new(i) };
            let ghost second = after@;
            proof {
                lemma_ranges_apart(stmt_ids(after), body_ids, b, c, c, hi);
                lemma_within_wider(stmt_ids(after), b, c, b, hi);
            }
            stmts.push(body);
            stmts.push(after);
            proof {
                lemma_block_view(stmts);
                assert(statements_of(stmts@) =~= seq![plain, second]);
                lemma_pair_within(stmts@, b, hi);
            }
            Stmt::Block { stmts }
        },
        None => body,
    };
    assert(stmt_within(inner, b, hi));
    proof {
        lemma_ranges_apart(condition_ids, stmt_ids(inner), a, b, b, hi);
    }
    let repeated = Stmt::While { condition: Box::new(condition), body: Box::new(inner) };
    assert(stmt_within(repeated, a, hi));
    match initializer {
        Some(i) => {
            let mut stmts: Vec<Stmt> = Vec::new();
            let ghost first = i@;
            let ghost second = repeated@;
            proof {
                lemma_ranges_apart(stmt_ids(i), stmt_ids(repeated), lo, a, a, hi);
                lemma_within_wider(stmt_ids(i), lo, a, lo, hi);
                lemma_within_wider(stmt_ids(repeated), a, hi, lo, hi);
            }
            stmts.push(i);
            stmts.push(repeated);
            proof {
                lemma_block_view(stmts);
                assert(statements_of(stmts@) =~= seq![first, second]);
                lemma_pair_within(stmts@, lo, hi);
            }
            Stmt::Block { stmts }
        },
        None => {
            proof {
                lemma_within_wider(stmt_ids(repeated), a, hi, lo, hi);
            }
            repeated
        },
    }
}

impl<'t> Parser<'t> {
    fn end_statement(&mut self, made: Stmt) -> (r: Result<Stmt, ParserError>)
        requires
            old(self).wf(),
        ensures
            final(self).after(old(self)),
            r is Ok ==> final(self).current > old(self).current,
            read_statement(
                r,
                final(self).current as int,
                closed_by_semicolon(old(self).tokens@, old(self).current as int, made@),
            ),
            r matches Ok(s) ==> s == made,
    {
        self.require_token(TokenType::Semicolon)?;
        Ok(made)
    }

    fn expression_statement(&mut self) -> (r: Result<Stmt, ParserError>)
        requires
            old(self).wf(),
        ensures
            final(self).after(old(self)),
            r is Ok ==> final(self).current > old(self).current,
            read_statement(
                r,
                final(self).current as int,
                expression_statement(old(self).tokens@, old(self).current as int),
            ),
            r matches Ok(s) ==> stmt_within(s, old(self).current as int, final(self).current as int),
        decreases old(self).left(), 19nat,
    {
        let expr = self.expression()?;
        self.end_statement(Stmt::Expression { expr: Box::new(expr) })
    }

    fn print_statement(&mut self) -> (r: Result<Stmt, ParserError>)
        requires
            old(self).wf(),
        ensures
            final(self).after(old(self)),
            r is Ok ==> final(self).current > old(self).current,
            read_statement(
                r,
                final(self).current as int,
                print_statement(old(self).tokens@, old(self).current as int),
            ),
            r matches Ok(s) ==> stmt_within(s, old(self).current as int, final(self).current as int),
        decreases old(self).left(), 19nat,
    {
        let expr = self.expression()?;
        self.end_statement(Stmt::Print { expr: Box::new(expr) })
    }

    fn return_statement(&mut self) -> (r: Result<Stmt, ParserError>)
        requires
            old(self).wf(),
        ensures
            final(self).after(old(self)),
            r is Ok ==> final(self).current > old(self).current,
            read_statement(
                r,
                final(self).current as int,
                return_statement(old(self).tokens@, old(self).current as int),
            ),
            r matches Ok(s) ==> stmt_within(s, old(self).current as int, final(self).current as int),
        decreases old(self).left(), 19nat,
    {
        let more = match self.peek() {
            Some(token) => token.typ != TokenType::Semicolon,
            None => false,
        };
        if more {
            let expr = self.expression()?;
            self.end_statement(Stmt::Return { value: Some(Box::new(expr)) })
        } else {
            self.end_statement(Stmt::Return { value: None })
        }
    }

    fn variable_declaration(&mut self) -> (r: Result<Stmt, ParserError>)
        requires
            old(self).wf(),
        ensures
            final(self).after(old(self)),
            r is Ok ==> final(self).current > old(self).current,
            read_statement(
                r,
                final(self).current as int,
                variable_declaration(old(self).tokens@, old(self).current as int),
            ),
            r matches Ok(s) ==> stmt_within(s, old(self).current as int, final(self).current as int),
        decreases old(self).left(), 19nat,
    {
        match self.next_if(TokenType::Identifier) {
            Some(name) => {
                if self.next_if(TokenType::Equal).is_some() {
                    let expr = self.expression()?;
                    self.end_statement(
                        Stmt::Var { name: name.copy(), initializer: Some(Box::new(expr)) },
                    )
                } else {
                    self.end_statement(Stmt::Var { name: name.copy(), initializer: None })
                }
            },
            None => Err(self.unexpected(TokenType::Identifier)),
        }
    }

    fn parameters(&mut self) -> (r: Result<Vec<Token>, ParserError>)
        requires
            old(self).wf(),
        ensures
            final(self).after(old(self)),
            final(self).current == parameters(
                old(self).tokens@,
                old(self).current as int,
                Seq::empty(),
            ).end,
            match r {
                Ok(ps) => parameters(
                    old(self).tokens@,
                    old(self).current as int,
                    Seq::empty(),
                ).result == Ok::<Seq<crate::shared::scanner::Lexeme>, ParserError>(lexemes_of(ps@)),
                Err(x) => parameters(
                    old(self).tokens@,
                    old(self).current as int,
                    Seq::empty(),
                ).result == Err::<Seq<crate::shared::scanner::Lexeme>, ParserError>(x),
            },
    {
        let mut params: Vec<Token> = Vec::new();
        assert(lexemes_of(params@) =~= Seq::empty());
        loop
            invariant_except_break
                parameters(old(self).tokens@, old(self).current as int, Seq::empty())
                    == parameters(self.tokens@, self.current as int, lexemes_of(params@)),
            invariant
                self.after(old(self)),
            ensures
                parameters(old(self).tokens@, old(self).current as int, Seq::empty()) == done(
                    lexemes_of(params@),
                    self.current as int,
                ),
            decreases self.left(),
        {
            let more = match self.peek() {
                Some(token) => token.typ != TokenType::RightParen,
                None => false,
            };
            if !more {
                break ;
            }
            let ghost before = lexemes_of(params@);
            let name = self.require_token(TokenType::Identifier)?;
            params.push(name.copy());
            assert(lexemes_of(params@) =~= before.push(name@));
            if self.next_if(TokenType::Comma).is_none() {
                break ;
            }
        }
        Ok(params)
    }

    fn for_initializer(&mut self) -> (r: Result<Option<Stmt>, ParserError>)
        requires
            old(self).wf(),
        ensures
            final(self).after(old(self)),
            r is Ok ==> final(self).current > old(self).current,
            final(self).current == for_initializer(
                old(self).tokens@,
                old(self).current as int,
            ).end,
            match r {
                Ok(s) => for_initializer(old(self).tokens@, old(self).current as int).result
                    == Ok::<Option<Statement>, ParserError>(optional_statement(s)),
                Err(x) => for_initializer(old(self).tokens@, old(self).current as int).result
                    == Err::<Option<Statement>, ParserError>(x),
            },
            r matches Ok(s) ==> optional_stmt_within(
                s,
                old(self).current as int,
                final(self).current as int,
            ),
        decreases old(self).left(), 20nat,
    {
        if self.next_if(TokenType::Semicolon).is_some() {
            Ok(None)
        } else if self.next_if(TokenType::Var).is_some() {
            Ok(Some(self.variable_declaration()?))
        } else {
            Ok(Some(self.expression_statement()?))
        }
    }

    fn for_condition(&mut self) -> (r: Result<Expr, ParserError>)
        requires
            old(self).wf(),
        ensures
            final(self).after(old(self)),
            r is Ok ==> final(self).current > old(self).current,
            read_expression(
                r,
                final(self).current as int,
                for_condition(old(self).tokens@, old(self).current as int),
            ),
            r matches Ok(e) ==> expr_within(e, old(self).current as int, final(self).current as int),
        decreases old(self).left(), 20nat,
    {
        let more = match self.peek() {
            Some(token) => token.typ != TokenType::Semicolon,
            None => false,
        };
        let condition = if more {
            self.expression()?
        } else {
            Expr::Literal { value: Token::new(TokenType::True, "true", 0) }
        };
        self.require_token(TokenType::Semicolon)?;
        Ok(condition)
    }

    fn for_increment(&mut self) -> (r: Result<Option<Expr>, ParserError>)
        requires
            old(self).wf(),
        ensures
            final(self).after(old(self)),
            r is Ok ==> final(self).current > old(self).current,
            final(self).current == for_increment(old(self).tokens@, old(self).current as int).end,
            match r {
                Ok(e) => for_increment(old(self).tokens@, old(self).current as int).result == Ok::<
                    Option<Expression>,
                    ParserError,
                >(optional_tree(e)),
                Err(x) => for_increment(old(self).tokens@, old(self).current as int).result
                    == Err::<Option<Expression>, ParserError>(x),
            },
            r matches Ok(e) ==> optional_expr_within(
                e,
                old(self).current as int,
                final(self).current as int,
            ),
        decreases old(self).left(), 20nat,
    {
        let more = match self.peek() {
            Some(token) => token.typ != TokenType::RightParen,
            None => false,
        };
        let increment = if more {
            Some(self.expression()?)
        } else {
            None
        };
        self.require_token(TokenType::RightParen)?;
        Ok(increment)
    }

    fn for_statement(&mut self) -> (r: Result<Stmt, ParserError>)
        requires
            old(self).wf(),
        ensures
            final(self).after(old(self)),
            r is Ok ==> final(self).current > old(self).current,
            read_statement(
                r,
                final(self).current as int,
                for_statement(old(self).tokens@, old(self).current as int),
            ),
            r matches Ok(s) ==> stmt_within(s, old(self).current as int, final(self).current as int),
        decreases old(self).left(), 21nat,
    {
        self.require_token(TokenType::LeftParen)?;
        let ghost lo = self.current as int;
        let initializer = self.for_initializer()?;
        let ghost a = self.current as int;
        let condition = self.for_condition()?;
        let ghost b = self.current as int;
        let increment = self.for_increment()?;
        let ghost c = self.current as int;
        let body = self.statement()?;
        let ghost hi = self.current as int;
        let made = desugar(
            initializer,
            condition,
            increment,
            body,
            Ghost(lo),
            Ghost(a),
            Ghost(b),
            Ghost(c),
            Ghost(hi),
        );
        proof {
            lemma_within_wider(stmt_ids(made), lo, hi, old(self).current as int, hi);
        }
        Ok(made)
    }

    fn condition(&mut self) -> (r: Result<Expr, ParserError>)
        requires
            old(self).wf(),
        ensures
            final(self).after(old(self)),
            r is Ok ==> final(self).current > old(self).current,
            read_expression(
                r,
                final(self).current as int,
                condition(old(self).tokens@, old(self).current as int),
            ),
            r matches Ok(e) ==> expr_within(e, old(self).current as int, final(self).current as int),
        decreases old(self).left(), 20nat,
    {
        self.require_token(TokenType::LeftParen)?;
        let condition = self.expression()?;
        self.require_token(TokenType::RightParen)?;
        Ok(condition)
    }

    fn if_statement(&mut self) -> (r: Result<Stmt, ParserError>)
        requires
            old(self).wf(),
        ensures
            final(self).after(old(self)),
            r is Ok ==> final(self).current > old(self).current,
            read_statement(
                r,
                final(self).current as int,
                if_statement(old(self).tokens@, old(self).current as int),
            ),
            r matches Ok(s) ==> stmt_within(s, old(self).current as int, final(self).current as int),
        decreases old(self).left(), 21nat,
    {
        let condition = Box::new(self.condition()?);
        let then_branch = Box::new(self.statement()?);
        let els = if self.next_if(TokenType::Else).is_some() {
            Some(Box::new(self.statement()?))
        } else {
            None
        };
        Ok(Stmt::If { condition, then_branch, els })
    }

    fn while_statement(&mut self) -> (r: Result<Stmt, ParserError>)
        requires
            old(self).wf(),
        ensures
            final(self).after(old(self)),
            r is Ok ==> final(self).current > old(self).current,
            read_statement(
                r,
                final(self).current as int,
                while_statement(old(self).tokens@, old(self).current as int),
            ),
            r matches Ok(s) ==> stmt_within(s, old(self).current as int, final(self).current as int),
        decreases old(self).left(), 21nat,
    {
        let condition = Box::new(self.condition()?);
        let body = Box::new(self.statement()?);
        Ok(Stmt::While { condition, body })
    }

    fn braced(&mut self) -> (r: Result<Vec<Stmt>, ParserError>)
        requires
            old(self).wf(),
        ensures
            final(self).after(old(self)),
            r is Ok ==> final(self).current > old(self).current,
            read_statements(
                r,
                final(self).current as int,
                braced(old(self).tokens@, old(self).current as int),
            ),
            r matches Ok(ss) ==> stmts_within(
                ss@,
                0,
                old(self).current as int,
                final(self).current as int,
            ),
        decreases old(self).left(), 53nat,
    {
        let mut stmts: Vec<Stmt> = Vec::new();
        assert(statements_of(stmts@) =~= Seq::<Statement>::empty());
        loop
            invariant_except_break
                declarations(old(self).tokens@, old(self).current as int, Seq::empty())
                    == declarations(self.tokens@, self.current as int, statements_of(stmts@)),
            invariant
                self.after(old(self)),
                stmts_within(stmts@, 0, old(self).current as int, self.current as int),
            ensures
                self.after(old(self)),
                declarations(old(self).tokens@, old(self).current as int, Seq::empty()) == done(
                    statements_of(stmts@),
                    self.current as int,
                ),
                stmts_within(stmts@, 0, old(self).current as int, self.current as int),
            decreases self.left(),
        {
            let more = match self.peek() {
                Some(token) => token.typ != TokenType::RightBrace,
                None => false,
            };
            if !more {
                break ;
            }
            let ghost before = statements_of(stmts@);
            let ghost list = stmts@;
            let ghost from = self.current as int;
            let s = self.declaration()?;
            let ghost x = s@;
            proof {
                lemma_stmts_push_within(
                    list,
                    0,
                    s,
                    old(self).current as int,
                    from,
                    from,
                    self.current as int,
                );
            }
            stmts.push(s);
            assert(statements_of(stmts@) =~= before.push(x));
        }
        let ghost end = self.current as int;
        self.require_token(TokenType::RightBrace)?;
        proof {
            lemma_within_wider(
                stmts_ids(stmts@, 0),
                old(self).current as int,
                end,
                old(self).current as int,
                self.current as int,
            );
        }
        Ok(stmts)
    }

    fn block(&mut self) -> (r: Result<Stmt, ParserError>)
        requires
            old(self).wf(),
        ensures
            final(self).after(old(self)),
            r is Ok ==> final(self).current > old(self).current,
            read_statement(
                r,
                final(self).current as int,
                block(old(self).tokens@, old(self).current as int),
            ),
            r matches Ok(s) ==> stmt_within(s, old(self).current as int, final(self).current as int),
        decreases old(self).left(), 54nat,
    {
        let stmts = self.braced()?;
        proof {
            lemma_block_view(stmts);
        }
        Ok(Stmt::Block { stmts })
    }

    fn function(&mut self) -> (r: Result<Stmt, ParserError>)
        requires
            old(self).wf(),
        ensures
            final(self).after(old(self)),
            r is Ok ==> final(self).current > old(self).current,
            read_statement(
                r,
                final(self).current as int,
                function(old(self).tokens@, old(self).current as int),
            ),
            r matches Ok(s) ==> stmt_within(s, old(self).current as int, final(self).current as int),
        decreases old(self).left(), 55nat,
    {
        let id = self.current;
        let name = self.require_token(TokenType::Identifier)?.copy();
        self.require_token(TokenType::LeftParen)?;
        let params = self.parameters()?;
        self.require_token(TokenType::RightParen)?;
        self.require_token(TokenType::LeftBrace)?;
        let body = self.braced()?;
        proof {
            lemma_function_view(id, name, params, body);
        }
        Ok(Stmt::Function { id, name, params, body })
    }

    fn class(&mut self) -> (r: Result<Stmt, ParserError>)
        requires
            old(self).wf(),
        ensures
            final(self).after(old(self)),
            r is Ok ==> final(self).current > old(self).current,
            read_statement(
                r,
                final(self).current as int,
                class(old(self).tokens@, old(self).current as int),
            ),
            r matches Ok(s) ==> stmt_within(s, old(self).current as int, final(self).current as int),
        decreases old(self).left(), 57nat,
    {
        let id = self.current;
        let name = self.require_token(TokenType::Identifier)?.copy();
        self.require_token(TokenType::LeftBrace)?;
        let ghost start = self.current as int;
        let mut members: Vec<Stmt> = Vec::new();
        assert(statements_of(members@) =~= Seq::<Statement>::empty());
        loop
            invariant_except_break
                methods(self.tokens@, start, Seq::empty()) == methods(
                    self.tokens@,
                    self.current as int,
                    statements_of(members@),
                ),
            invariant
                self.after(old(self)),
                self.current > old(self).current,
                start == old(self).current + 2,
                is_at(old(self).tokens@, old(self).current as int, TokenType::Identifier),
                is_at(old(self).tokens@, old(self).current + 1, TokenType::LeftBrace),
                name == old(self).tokens@[old(self).current as int],
                id == old(self).current,
                start <= self.current,
                methods_within(members@, 0, start, self.current as int),
            ensures
                self.after(old(self)),
                self.current > old(self).current,
                methods(self.tokens@, start, Seq::empty()) == done(
                    statements_of(members@),
                    self.current as int,
                ),
                start <= self.current,
                methods_within(members@, 0, start, self.current as int),
            decreases self.left(),
        {
            let more = match self.peek() {
                Some(token) => token.typ != TokenType::RightBrace,
                None => false,
            };
            if !more {
                break ;
            }
            let ghost before = statements_of(members@);
            let ghost list = members@;
            let ghost from = self.current as int;
            let m = self.function()?;
            let ghost x = m@;
            proof {
                lemma_method_within(m, from, self.current as int);
                lemma_methods_push_within(list, 0, m, start, from, from, self.current as int);
            }
            members.push(m);
            assert(statements_of(members@) =~= before.push(x));
        }
        let ghost end = self.current as int;
        self.require_token(TokenType::RightBrace)?;
        proof {
            lemma_class_view(id, name, members);
            lemma_within_wider(
                crate::walker::fitting::methods_ids(members@, 0),
                start,
                end,
                old(self).current as int,
                self.current as int,
            );
        }
        Ok(Stmt::Class { id, name, methods: members })
    }

    fn statement(&mut self) -> (r: Result<Stmt, ParserError>)
        requires
            old(self).wf(),
        ensures
            final(self).after(old(self)),
            r is Ok ==> final(self).current > old(self).current,
            read_statement(
                r,
                final(self).current as int,
                statement(old(self).tokens@, old(self).current as int),
            ),
            r matches Ok(s) ==> stmt_within(s, old(self).current as int, final(self).current as int),
        decreases old(self).left(), 40nat,
    {
        let typ = match self.peek() {
            Some(token) => token.typ,
            None => {
                return self.expression_statement();
            },
        };
        match typ {
            TokenType::For => {
                self.next();
                self.for_statement()
            },
            TokenType::Print => {
                self.next();
                self.print_statement()
            },
            TokenType::LeftBrace => {
                self.next();
                self.block()
            },
            TokenType::If => {
                self.next();
                self.if_statement()
            },
            TokenType::While => {
                self.next();
                self.while_statement()
            },
            TokenType::Fun => {
                self.next();
                self.function()
            },
            TokenType::Class => {
                self.next();
                self.class()
            },
            TokenType::Return => {
                self.next();
                self.return_statement()
            },
            TokenType::Break => {
                self.next();
                self.end_statement(Stmt::Break)
            },
            _ => self.expression_statement(),
        }
    }

    fn declaration(&mut self) -> (r: Result<Stmt, ParserError>)
        requires
            old(self).wf(),
        ensures
            final(self).after(old(self)),
            old(self).current < old(self).tokens@.len() ==> final(self).current > old(
                self,
            ).current,
            read_statement(
                r,
                final(self).current as int,
                declaration(old(self).tokens@, old(self).current as int),
            ),
            r matches Ok(s) ==> stmt_within(s, old(self).current as int, final(self).current as int),
        decreases old(self).left(), 41nat,
    {
        let read = if self.next_if(TokenType::Var).is_some() {
            self.variable_declaration()
        } else {
            self.statement()
        };
        match read {
            Ok(s) => Ok(s),
            Err(e) => {
                self.synchronize();
                Err(e)
            },
        }
    }
}

/// Whether `r` is what `expected` says: the same tree, or the same error.
pub open spec fn read_one(r: Result<Stmt, ParserError>, expected: Result<Statement, ParserError>) -> bool {
    match r {
        Ok(s) => expected == Ok::<Statement, ParserError>(s@),
        Err(x) => expected == Err::<Statement, ParserError>(x),
    }
}

/// Whether the results `r` are, one by one, what `expected` says.
pub open spec fn read_program(
    r: Seq<Result<Stmt, ParserError>>,
    expected: Seq<Result<Statement, ParserError>>,
) -> bool {
    r.len() == expected.len() && forall|i: int|
        0 <= i < r.len() ==> read_one(#[trigger] r[i], expected[i])
}

impl<'t> Parser<'t> {
    fn parse(&mut self) -> (r: Vec<Result<Stmt, ParserError>>)
        requires
            old(self).wf(),
        ensures
            read_program(r@, program(old(self).tokens@, old(self).current as int)),
            stmts_distinct(successes(r@), 0),
    {
        let mut statements: Vec<Result<Stmt, ParserError>> = Vec::new();
        let ghost mut read: Seq<Result<Statement, ParserError>> = Seq::empty();
        assert(stmts_within(successes(statements@), 0, old(self).current as int, self.current as int))
            by {
            assert(stmts_ids(successes(statements@), 0) =~= Set::<usize>::empty());
        }
        while self.current < self.tokens.len()
            invariant
                self.after(old(self)),
                stmts_within(
                    successes(statements@),
                    0,
                    old(self).current as int,
                    self.current as int,
                ),
                statements@.len() == read.len(),
                forall|i: int|
                    0 <= i < statements@.len() ==> read_one(#[trigger] statements@[i], read[i]),
                program(old(self).tokens@, old(self).current as int) == read + program(
                    self.tokens@,
                    self.current as int,
                ),
            decreases self.left(),
        {
            let ghost from = self.current as int;
            let ghost list = statements@;
            let d = self.declaration();
            proof {
                assert(list.push(d).drop_last() =~= list);
                match &d {
                    Ok(s) => {
                        lemma_stmts_push_within(
                            successes(list),
                            0,
                            *s,
                            old(self).current as int,
                            from,
                            from,
                            self.current as int,
                        );
                    },
                    Err(_) => {
                        lemma_within_wider(
                            stmts_ids(successes(list), 0),
                            old(self).current as int,
                            from,
                            old(self).current as int,
                            self.current as int,
                        );
                    },
                }
                let expected = declaration(self.tokens@, from);
                assert(program(self.tokens@, from) == seq![expected.result] + program(
                    self.tokens@,
                    expected.end,
                ));
                assert(read + (seq![expected.result] + program(self.tokens@, expected.end))
                    =~= read.push(expected.result) + program(self.tokens@, expected.end));
                read = read.push(expected.result);
            }
            statements.push(d);
        }
        assert(program(self.tokens@, self.current as int) =~= Seq::empty());
        assert(read + Seq::<Result<Statement, ParserError>>::empty() =~= read);
        statements
    }
}

/// Parses a program: its declarations in order, each as its tree or as the
/// error that it failed with. After an error the parser goes on behind the
/// failed statement, so that one pass reports the errors of several
/// statements. No two references in the statements that were read share an
/// `id`.
pub fn parse(tokens: &Vec<Token>) -> (r: Vec<Result<Stmt, ParserError>>)
    ensures
        read_program(r@, program(tokens@, 0)),
        stmts_distinct(successes(r@), 0),
{
    let mut parser = Parser::from(tokens);
    parser.parse()
}

} // verus!
