//! The grammar: what the parser makes of a sequence of tokens.
//!
//! Each function takes the tokens and a place among them, and gives what is
//! read from that place on, a tree or an error, and the place at which the
//! reading ended. An expression that refers to a variable, and a declaration
//! of a function or a class, gets as its `id` the place of its name among the
//! tokens.
//!
//! From the weakest binding to the strongest: assignment, `or`, `and`,
//! equality, comparison, term, factor, unary, call, primary.
use crate::shared::scanner::{Lexeme, Token, TokenType};
use crate::walker::ast::{Expression, Statement};
use crate::walker::parser::{resume_at, ParserError};
use vstd::prelude::*;

verus! {

/// What was read, and the place at which the reading ended.
pub struct Parsed<T> {
    pub result: Result<T, ParserError>,
    pub end: int,
}

/// `value` was read, up to `end`.
pub open spec fn done<T>(value: T, end: int) -> Parsed<T> {
    Parsed { result: Ok(value), end }
}

/// The reading failed at `end`.
pub open spec fn failed<T>(error: ParserError, end: int) -> Parsed<T> {
    Parsed { result: Err(error), end }
}

/// Whether the token at `pos` is of the kind `typ`.
pub open spec fn is_at(tokens: Seq<Token>, pos: int, typ: TokenType) -> bool {
    0 <= pos < tokens.len() && tokens[pos].typ == typ
}

/// Whether a token stands at `pos`, and not one of the kind `typ`.
pub open spec fn other_at(tokens: Seq<Token>, pos: int, typ: TokenType) -> bool {
    0 <= pos < tokens.len() && tokens[pos].typ != typ
}

/// Whether `end` lies behind `pos` and within the tokens.
pub open spec fn further(tokens: Seq<Token>, pos: int, end: int) -> bool {
    pos < end <= tokens.len()
}

/// Whether `end` lies at or behind `pos` and within the tokens.
pub open spec fn onward(tokens: Seq<Token>, pos: int, end: int) -> bool {
    pos <= end <= tokens.len()
}

/// The error for what stands at `pos` where a token of the kind `expected`
/// should.
pub open spec fn fault(tokens: Seq<Token>, pos: int, expected: TokenType) -> ParserError {
    if 0 <= pos < tokens.len() {
        ParserError::UnexpectedToken { expected, token: tokens[pos] }
    } else {
        ParserError::UnexpectedEndOfInput
    }
}

/// The literal `true` that stands for the condition that a `for` leaves out.
pub open spec fn always() -> Expression {
    Expression::Literal { value: Lexeme { typ: TokenType::True, text: "true"@, line: 0 } }
}

/// A primary expression: a literal, a variable, `this`, or an expression in
/// parentheses.
pub open spec fn primary(tokens: Seq<Token>, pos: int) -> Parsed<Expression>
    decreases tokens.len() - pos, 0nat,
{
    if pos < 0 || pos >= tokens.len() {
        failed(ParserError::UnexpectedEndOfInput, pos)
    } else {
        let token = tokens[pos];
        match token.typ {
            TokenType::False | TokenType::True | TokenType::Nil | TokenType::Number
            | TokenType::String => done(Expression::Literal { value: token@ }, pos + 1),
            TokenType::LeftParen => {
                let inner = expression(tokens, pos + 1);
                match inner.result {
                    Ok(e) => if is_at(tokens, inner.end, TokenType::RightParen) {
                        done(Expression::Grouping { expr: Box::new(e) }, inner.end + 1)
                    } else {
                        failed(fault(tokens, inner.end, TokenType::RightParen), inner.end)
                    },
                    Err(e) => failed(e, inner.end),
                }
            },
            TokenType::Identifier => done(
                Expression::Variable { id: pos as usize, name: token@ },
                pos + 1,
            ),
            TokenType::This => done(
                Expression::This { id: pos as usize, keyword: token@ },
                pos + 1,
            ),
            _ => failed(
                ParserError::UnexpectedToken { expected: TokenType::Identifier, token },
                pos + 1,
            ),
        }
    }
}

/// The arguments of a call, from `pos` on, after those in `sofar`: expressions
/// with commas between them, up to the closing parenthesis.
pub open spec fn arguments(tokens: Seq<Token>, pos: int, sofar: Seq<Expression>) -> Parsed<
    Seq<Expression>,
>
    decreases tokens.len() - pos, 19nat,
{
    if other_at(tokens, pos, TokenType::RightParen) {
        let e = expression(tokens, pos);
        match e.result {
            Ok(x) => if is_at(tokens, e.end, TokenType::Comma) && e.end >= pos {
                arguments(tokens, e.end + 1, sofar.push(x))
            } else {
                done(sofar.push(x), e.end)
            },
            Err(x) => failed(x, e.end),
        }
    } else {
        done(sofar, pos)
    }
}

/// What follows a callee from `pos` on: calls and property reads, in a row.
pub open spec fn call_rest(tokens: Seq<Token>, callee: Expression, pos: int) -> Parsed<Expression>
    decreases tokens.len() - pos, 1nat,
{
    if is_at(tokens, pos, TokenType::LeftParen) {
        let a = arguments(tokens, pos + 1, Seq::empty());
        match a.result {
            Ok(args) => if is_at(tokens, a.end, TokenType::RightParen) && a.end > pos {
                call_rest(tokens, Expression::Call { callee: Box::new(callee), args }, a.end + 1)
            } else {
                failed(fault(tokens, a.end, TokenType::RightParen), a.end)
            },
            Err(e) => failed(e, a.end),
        }
    } else if is_at(tokens, pos, TokenType::Dot) {
        if is_at(tokens, pos + 1, TokenType::Identifier) {
            call_rest(
                tokens,
                Expression::Get { object: Box::new(callee), name: tokens[pos + 1]@ },
                pos + 2,
            )
        } else {
            failed(fault(tokens, pos + 1, TokenType::Identifier), pos + 1)
        }
    } else {
        done(callee, pos)
    }
}

/// A call: a primary expression and what follows it.
pub open spec fn call(tokens: Seq<Token>, pos: int) -> Parsed<Expression>
    decreases tokens.len() - pos, 2nat,
{
    let p = primary(tokens, pos);
    match p.result {
        Ok(e) => if onward(tokens, pos, p.end) {
            call_rest(tokens, e, p.end)
        } else {
            p
        },
        Err(_) => p,
    }
}

/// A unary expression: `!` or `-` before a unary expression, or a call.
pub open spec fn unary(tokens: Seq<Token>, pos: int) -> Parsed<Expression>
    decreases tokens.len() - pos, 3nat,
{
    if is_at(tokens, pos, TokenType::Bang) || is_at(tokens, pos, TokenType::Minus) {
        let r = unary(tokens, pos + 1);
        match r.result {
            Ok(right) => done(
                Expression::Unary { op: tokens[pos]@, right: Box::new(right) },
                r.end,
            ),
            Err(_) => r,
        }
    } else {
        call(tokens, pos)
    }
}

/// The levels of infix operators, from the strongest binding, 0, to the
/// weakest, 5: factor, term, comparison, equality, `and`, `or`.
pub open spec fn joins(level: nat, typ: TokenType) -> bool {
    if level == 0 {
        typ == TokenType::Slash || typ == TokenType::Star
    } else if level == 1 {
        typ == TokenType::Minus || typ == TokenType::Plus
    } else if level == 2 {
        typ == TokenType::Greater || typ == TokenType::GreaterEqual || typ == TokenType::Less
            || typ == TokenType::LessEqual
    } else if level == 3 {
        typ == TokenType::BangEqual || typ == TokenType::EqualEqual
    } else if level == 4 {
        typ == TokenType::And
    } else if level == 5 {
        typ == TokenType::Or
    } else {
        false
    }
}

/// The expression that an operator of the level makes of its two sides.
pub open spec fn joined(level: nat, left: Expression, op: Lexeme, right: Expression) -> Expression {
    if level >= 4 {
        Expression::Logical { left: Box::new(left), op, right: Box::new(right) }
    } else {
        Expression::Binary { left: Box::new(left), op, right: Box::new(right) }
    }
}

/// One side of an operator of the level: an expression of the next stronger
/// level, a unary expression for the strongest.
pub open spec fn operand(tokens: Seq<Token>, pos: int, level: nat) -> Parsed<Expression>
    decreases tokens.len() - pos, 4 + 2 * level,
{
    if level == 0 {
        unary(tokens, pos)
    } else {
        infix(tokens, pos, (level - 1) as nat)
    }
}

/// What follows the left side `left` from `pos` on: operators of the level
/// with their right sides, in a row. The row groups to the left.
pub open spec fn infix_rest(tokens: Seq<Token>, left: Expression, pos: int, level: nat) -> Parsed<
    Expression,
>
    decreases tokens.len() - pos, 4 + 2 * level,
{
    if 0 <= pos < tokens.len() && joins(level, tokens[pos].typ) {
        let r = operand(tokens, pos + 1, level);
        match r.result {
            Ok(right) => if further(tokens, pos, r.end) {
                infix_rest(tokens, joined(level, left, tokens[pos]@, right), r.end, level)
            } else {
                r
            },
            Err(_) => r,
        }
    } else {
        done(left, pos)
    }
}

/// An expression of the level: operands with operators of the level between
/// them.
pub open spec fn infix(tokens: Seq<Token>, pos: int, level: nat) -> Parsed<Expression>
    decreases tokens.len() - pos, 5 + 2 * level,
{
    let l = operand(tokens, pos, level);
    match l.result {
        Ok(left) => if onward(tokens, pos, l.end) {
            infix_rest(tokens, left, l.end, level)
        } else {
            l
        },
        Err(_) => l,
    }
}

/// An assignment, or an expression of the next stronger level. The left side
/// of `=` is a variable or a property.
pub open spec fn assignment(tokens: Seq<Token>, pos: int) -> Parsed<Expression>
    decreases tokens.len() - pos, 17nat,
{
    let l = infix(tokens, pos, 5);
    match l.result {
        Ok(target) => if is_at(tokens, l.end, TokenType::Equal) && l.end >= pos {
            let v = assignment(tokens, l.end + 1);
            match v.result {
                Ok(value) => match target {
                    Expression::Variable { id, name } => done(
                        Expression::Assign { id, name, value: Box::new(value) },
                        v.end,
                    ),
                    Expression::Get { object, name } => done(
                        Expression::SetProperty { object, name, value: Box::new(value) },
                        v.end,
                    ),
                    _ => failed(ParserError::InvalidAssignmentTarget, v.end),
                },
                Err(_) => v,
            }
        } else {
            l
        },
        Err(_) => l,
    }
}

/// An expression.
pub open spec fn expression(tokens: Seq<Token>, pos: int) -> Parsed<Expression>
    decreases tokens.len() - pos, 18nat,
{
    assignment(tokens, pos)
}

/// What is read once an expression is read up to `end`, where a semicolon
/// must follow: the statement `made`, up to behind the semicolon.
pub open spec fn closed_by_semicolon(tokens: Seq<Token>, end: int, made: Statement) -> Parsed<
    Statement,
> {
    if is_at(tokens, end, TokenType::Semicolon) {
        done(made, end + 1)
    } else {
        failed(fault(tokens, end, TokenType::Semicolon), end)
    }
}

/// An expression statement.
pub open spec fn expression_statement(tokens: Seq<Token>, pos: int) -> Parsed<Statement>
    decreases tokens.len() - pos, 19nat,
{
    let e = expression(tokens, pos);
    match e.result {
        Ok(expr) => closed_by_semicolon(tokens, e.end, Statement::Expression { expr }),
        Err(x) => failed(x, e.end),
    }
}

/// A `print` statement, after its keyword.
pub open spec fn print_statement(tokens: Seq<Token>, pos: int) -> Parsed<Statement>
    decreases tokens.len() - pos, 19nat,
{
    let e = expression(tokens, pos);
    match e.result {
        Ok(expr) => closed_by_semicolon(tokens, e.end, Statement::Print { expr }),
        Err(x) => failed(x, e.end),
    }
}

/// A `return` statement, after its keyword.
pub open spec fn return_statement(tokens: Seq<Token>, pos: int) -> Parsed<Statement>
    decreases tokens.len() - pos, 19nat,
{
    if other_at(tokens, pos, TokenType::Semicolon) {
        let e = expression(tokens, pos);
        match e.result {
            Ok(expr) => closed_by_semicolon(tokens, e.end, Statement::Return { value: Some(expr) }),
            Err(x) => failed(x, e.end),
        }
    } else {
        closed_by_semicolon(tokens, pos, Statement::Return { value: None })
    }
}

/// A variable declaration, after `var`.
pub open spec fn variable_declaration(tokens: Seq<Token>, pos: int) -> Parsed<Statement>
    decreases tokens.len() - pos, 19nat,
{
    if is_at(tokens, pos, TokenType::Identifier) {
        let name = tokens[pos]@;
        if is_at(tokens, pos + 1, TokenType::Equal) {
            let e = expression(tokens, pos + 2);
            match e.result {
                Ok(expr) => closed_by_semicolon(
                    tokens,
                    e.end,
                    Statement::Var { name, initializer: Some(expr) },
                ),
                Err(x) => failed(x, e.end),
            }
        } else {
            closed_by_semicolon(tokens, pos + 1, Statement::Var { name, initializer: None })
        }
    } else {
        failed(fault(tokens, pos, TokenType::Identifier), pos)
    }
}

/// The parameters of a function, from `pos` on, after those in `sofar`:
/// names with commas between them, up to the closing parenthesis.
pub open spec fn parameters(tokens: Seq<Token>, pos: int, sofar: Seq<Lexeme>) -> Parsed<Seq<Lexeme>>
    decreases tokens.len() - pos,
{
    if other_at(tokens, pos, TokenType::RightParen) {
        if tokens[pos].typ == TokenType::Identifier {
            if is_at(tokens, pos + 1, TokenType::Comma) {
                parameters(tokens, pos + 2, sofar.push(tokens[pos]@))
            } else {
                done(sofar.push(tokens[pos]@), pos + 1)
            }
        } else {
            failed(fault(tokens, pos, TokenType::Identifier), pos)
        }
    } else {
        done(sofar, pos)
    }
}

/// The loop that a `for` stands for. The increment, if there is one, runs
/// after the body in a block of the two; the loop runs while the condition
/// holds; and the initializer, if there is one, runs before the loop in a
/// block of the two.
pub open spec fn desugared(
    initializer: Option<Statement>,
    condition: Expression,
    increment: Option<Expression>,
    body: Statement,
) -> Statement {
    let inner = match increment {
        Some(i) => Statement::Block { stmts: seq![body, Statement::Expression { expr: i }] },
        None => body,
    };
    let repeated = Statement::While { condition, body: Box::new(inner) };
    match initializer {
        Some(i) => Statement::Block { stmts: seq![i, repeated] },
        None => repeated,
    }
}

/// The first clause of a `for`, after its opening parenthesis: nothing but a
/// semicolon, a variable declaration, or an expression statement.
pub open spec fn for_initializer(tokens: Seq<Token>, pos: int) -> Parsed<Option<Statement>>
    decreases tokens.len() - pos, 20nat,
{
    if is_at(tokens, pos, TokenType::Semicolon) {
        done(None, pos + 1)
    } else {
        let s = if is_at(tokens, pos, TokenType::Var) {
            variable_declaration(tokens, pos + 1)
        } else {
            expression_statement(tokens, pos)
        };
        match s.result {
            Ok(stmt) => done(Some(stmt), s.end),
            Err(x) => failed(x, s.end),
        }
    }
}

/// The second clause of a `for`: a condition, or nothing, which stands for
/// `true`; and its semicolon.
pub open spec fn for_condition(tokens: Seq<Token>, pos: int) -> Parsed<Expression>
    decreases tokens.len() - pos, 20nat,
{
    let c = if other_at(tokens, pos, TokenType::Semicolon) {
        expression(tokens, pos)
    } else {
        done(always(), pos)
    };
    match c.result {
        Ok(e) => if is_at(tokens, c.end, TokenType::Semicolon) {
            done(e, c.end + 1)
        } else {
            failed(fault(tokens, c.end, TokenType::Semicolon), c.end)
        },
        Err(_) => c,
    }
}

/// The third clause of a `for`: an increment, or nothing; and the closing
/// parenthesis.
pub open spec fn for_increment(tokens: Seq<Token>, pos: int) -> Parsed<Option<Expression>>
    decreases tokens.len() - pos, 20nat,
{
    let i = if other_at(tokens, pos, TokenType::RightParen) {
        let e = expression(tokens, pos);
        match e.result {
            Ok(x) => done(Some(x), e.end),
            Err(x) => failed(x, e.end),
        }
    } else {
        done(None, pos)
    };
    match i.result {
        Ok(e) => if is_at(tokens, i.end, TokenType::RightParen) {
            done(e, i.end + 1)
        } else {
            failed(fault(tokens, i.end, TokenType::RightParen), i.end)
        },
        Err(_) => i,
    }
}

/// A `for` statement, after its keyword. It is read as the loop that it
/// stands for.
pub open spec fn for_statement(tokens: Seq<Token>, pos: int) -> Parsed<Statement>
    decreases tokens.len() - pos, 21nat,
{
    if !is_at(tokens, pos, TokenType::LeftParen) {
        failed(fault(tokens, pos, TokenType::LeftParen), pos)
    } else {
        let i = for_initializer(tokens, pos + 1);
        match i.result {
            Ok(initializer) => {
                let c = for_condition(tokens, i.end);
                match c.result {
                    Ok(condition) => {
                        let n = for_increment(tokens, c.end);
                        match n.result {
                            Ok(increment) => if further(tokens, pos, n.end) {
                                let b = statement(tokens, n.end);
                                match b.result {
                                    Ok(body) => done(
                                        desugared(initializer, condition, increment, body),
                                        b.end,
                                    ),
                                    Err(_) => b,
                                }
                            } else {
                                failed(ParserError::UnexpectedEndOfInput, n.end)
                            },
                            Err(x) => failed(x, n.end),
                        }
                    },
                    Err(x) => failed(x, c.end),
                }
            },
            Err(x) => failed(x, i.end),
        }
    }
}

/// The condition of an `if` or a `while`, in its parentheses.
pub open spec fn condition(tokens: Seq<Token>, pos: int) -> Parsed<Expression>
    decreases tokens.len() - pos, 20nat,
{
    if !is_at(tokens, pos, TokenType::LeftParen) {
        failed(fault(tokens, pos, TokenType::LeftParen), pos)
    } else {
        let c = expression(tokens, pos + 1);
        match c.result {
            Ok(e) => if is_at(tokens, c.end, TokenType::RightParen) {
                done(e, c.end + 1)
            } else {
                failed(fault(tokens, c.end, TokenType::RightParen), c.end)
            },
            Err(_) => c,
        }
    }
}

/// An `if` statement, after its keyword.
pub open spec fn if_statement(tokens: Seq<Token>, pos: int) -> Parsed<Statement>
    decreases tokens.len() - pos, 21nat,
{
    let c = condition(tokens, pos);
    match c.result {
        Ok(condition) => if further(tokens, pos, c.end) {
            let t = statement(tokens, c.end);
            match t.result {
                Ok(then_branch) => if is_at(tokens, t.end, TokenType::Else) && t.end > pos {
                    let e = statement(tokens, t.end + 1);
                    match e.result {
                        Ok(els) => done(
                            Statement::If {
                                condition,
                                then_branch: Box::new(then_branch),
                                els: Some(Box::new(els)),
                            },
                            e.end,
                        ),
                        Err(_) => e,
                    }
                } else {
                    done(
                        Statement::If { condition, then_branch: Box::new(then_branch), els: None },
                        t.end,
                    )
                },
                Err(_) => t,
            }
        } else {
            failed(ParserError::UnexpectedEndOfInput, c.end)
        },
        Err(x) => failed(x, c.end),
    }
}

/// A `while` statement, after its keyword.
pub open spec fn while_statement(tokens: Seq<Token>, pos: int) -> Parsed<Statement>
    decreases tokens.len() - pos, 21nat,
{
    let c = condition(tokens, pos);
    match c.result {
        Ok(condition) => if further(tokens, pos, c.end) {
            let b = statement(tokens, c.end);
            match b.result {
                Ok(body) => done(Statement::While { condition, body: Box::new(body) }, b.end),
                Err(_) => b,
            }
        } else {
            failed(ParserError::UnexpectedEndOfInput, c.end)
        },
        Err(x) => failed(x, c.end),
    }
}

/// The declarations from `pos` on, after those in `sofar`, up to a closing
/// brace or the end.
pub open spec fn declarations(tokens: Seq<Token>, pos: int, sofar: Seq<Statement>) -> Parsed<
    Seq<Statement>,
>
    decreases tokens.len() - pos, 52nat,
{
    if other_at(tokens, pos, TokenType::RightBrace) {
        let d = declaration(tokens, pos);
        match d.result {
            Ok(s) => if further(tokens, pos, d.end) {
                declarations(tokens, d.end, sofar.push(s))
            } else {
                failed(ParserError::UnexpectedEndOfInput, d.end)
            },
            Err(x) => failed(x, d.end),
        }
    } else {
        done(sofar, pos)
    }
}

/// Declarations in braces, after the opening brace.
pub open spec fn braced(tokens: Seq<Token>, pos: int) -> Parsed<Seq<Statement>>
    decreases tokens.len() - pos, 53nat,
{
    let d = declarations(tokens, pos, Seq::empty());
    match d.result {
        Ok(stmts) => if is_at(tokens, d.end, TokenType::RightBrace) {
            done(stmts, d.end + 1)
        } else {
            failed(fault(tokens, d.end, TokenType::RightBrace), d.end)
        },
        Err(_) => d,
    }
}

/// A block, after its opening brace.
pub open spec fn block(tokens: Seq<Token>, pos: int) -> Parsed<Statement>
    decreases tokens.len() - pos, 54nat,
{
    let b = braced(tokens, pos);
    match b.result {
        Ok(stmts) => done(Statement::Block { stmts }, b.end),
        Err(x) => failed(x, b.end),
    }
}

/// A function, from its name on: the name, the parameters in parentheses,
/// the body in braces.
pub open spec fn function(tokens: Seq<Token>, pos: int) -> Parsed<Statement>
    decreases tokens.len() - pos, 55nat,
{
    if !is_at(tokens, pos, TokenType::Identifier) {
        failed(fault(tokens, pos, TokenType::Identifier), pos)
    } else if !is_at(tokens, pos + 1, TokenType::LeftParen) {
        failed(fault(tokens, pos + 1, TokenType::LeftParen), pos + 1)
    } else {
        let p = parameters(tokens, pos + 2, Seq::empty());
        match p.result {
            Ok(params) => if !is_at(tokens, p.end, TokenType::RightParen) {
                failed(fault(tokens, p.end, TokenType::RightParen), p.end)
            } else if !is_at(tokens, p.end + 1, TokenType::LeftBrace) {
                failed(fault(tokens, p.end + 1, TokenType::LeftBrace), p.end + 1)
            } else if p.end > pos {
                let b = braced(tokens, p.end + 2);
                match b.result {
                    Ok(body) => done(
                        Statement::Function { id: pos as usize, name: tokens[pos]@, params, body },
                        b.end,
                    ),
                    Err(x) => failed(x, b.end),
                }
            } else {
                failed(ParserError::UnexpectedEndOfInput, p.end)
            },
            Err(x) => failed(x, p.end),
        }
    }
}

/// The methods of a class from `pos` on, after those in `sofar`, up to a
/// closing brace or the end. A method is written as a function without `fun`.
pub open spec fn methods(tokens: Seq<Token>, pos: int, sofar: Seq<Statement>) -> Parsed<
    Seq<Statement>,
>
    decreases tokens.len() - pos, 56nat,
{
    if other_at(tokens, pos, TokenType::RightBrace) {
        let f = function(tokens, pos);
        match f.result {
            Ok(s) => if further(tokens, pos, f.end) {
                methods(tokens, f.end, sofar.push(s))
            } else {
                failed(ParserError::UnexpectedEndOfInput, f.end)
            },
            Err(x) => failed(x, f.end),
        }
    } else {
        done(sofar, pos)
    }
}

/// A class, from its name on: the name, and the methods in braces.
pub open spec fn class(tokens: Seq<Token>, pos: int) -> Parsed<Statement>
    decreases tokens.len() - pos, 57nat,
{
    if !is_at(tokens, pos, TokenType::Identifier) {
        failed(fault(tokens, pos, TokenType::Identifier), pos)
    } else if !is_at(tokens, pos + 1, TokenType::LeftBrace) {
        failed(fault(tokens, pos + 1, TokenType::LeftBrace), pos + 1)
    } else {
        let m = methods(tokens, pos + 2, Seq::empty());
        match m.result {
            Ok(ms) => if is_at(tokens, m.end, TokenType::RightBrace) {
                done(Statement::Class { id: pos as usize, name: tokens[pos]@, methods: ms }, m.end + 1)
            } else {
                failed(fault(tokens, m.end, TokenType::RightBrace), m.end)
            },
            Err(x) => failed(x, m.end),
        }
    }
}

/// A statement.
pub open spec fn statement(tokens: Seq<Token>, pos: int) -> Parsed<Statement>
    decreases tokens.len() - pos, 40nat,
{
    if is_at(tokens, pos, TokenType::For) {
        for_statement(tokens, pos + 1)
    } else if is_at(tokens, pos, TokenType::Print) {
        print_statement(tokens, pos + 1)
    } else if is_at(tokens, pos, TokenType::LeftBrace) {
        block(tokens, pos + 1)
    } else if is_at(tokens, pos, TokenType::If) {
        if_statement(tokens, pos + 1)
    } else if is_at(tokens, pos, TokenType::While) {
        while_statement(tokens, pos + 1)
    } else if is_at(tokens, pos, TokenType::Fun) {
        function(tokens, pos + 1)
    } else if is_at(tokens, pos, TokenType::Class) {
        class(tokens, pos + 1)
    } else if is_at(tokens, pos, TokenType::Return) {
        return_statement(tokens, pos + 1)
    } else if is_at(tokens, pos, TokenType::Break) {
        closed_by_semicolon(tokens, pos + 1, Statement::Break)
    } else {
        expression_statement(tokens, pos)
    }
}

/// A declaration: a variable declaration or a statement. After an error the
/// reading ends where the parser goes on: behind the statement in which the
/// error lies, as far as that can be told.
pub open spec fn declaration(tokens: Seq<Token>, pos: int) -> Parsed<Statement>
    decreases tokens.len() - pos, 41nat,
{
    let d = if is_at(tokens, pos, TokenType::Var) {
        variable_declaration(tokens, pos + 1)
    } else {
        statement(tokens, pos)
    };
    match d.result {
        Ok(_) => d,
        Err(x) => failed(x, resume_at(tokens, d.end)),
    }
}

/// The declarations from `pos` to the end of the tokens, each read or failed.
pub open spec fn program(tokens: Seq<Token>, pos: int) -> Seq<Result<Statement, ParserError>>
    decreases tokens.len() - pos, 60nat,
{
    if 0 <= pos < tokens.len() {
        let d = declaration(tokens, pos);
        if further(tokens, pos, d.end) {
            seq![d.result] + program(tokens, d.end)
        } else {
            seq![d.result]
        }
    } else {
        Seq::empty()
    }
}

} // verus!
