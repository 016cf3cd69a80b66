//! The evaluator as a machine.
//!
//! A program runs in steps. The machine keeps the work that is still to do on
//! a stack of tasks and the values that were computed and not yet used on a
//! stack of operands. One step takes the topmost task and does it: it pushes
//! the tasks that the task breaks down into, or uses operands and pushes a
//! result. What the machine cannot do itself, arithmetic on numbers, the
//! clock, writing a line, it asks of its host: the step returns the request,
//! and the host hands the reply to the next step.
//!
//! This file says what one step does, as a function from the state before and
//! the host's reply to the state after and the request.
use crate::shared::scanner::{Token, TokenType};
use crate::shared::text::decimal;
use crate::walker::ast::{Expr, Stmt};
use crate::walker::environment::{
    lemma_assigned_is_read, assigned, closed, defined, entered, extended, lookup, opened, stored,
    Chain,
};
use crate::walker::errors::Failure;
use crate::walker::values::{Native, Value};
use vstd::prelude::*;

verus! {

/// The arithmetic that the host does on two numbers.
#[derive(Clone, Copy, Debug, PartialEq, Eq, Structural)]
pub enum Arithmetic {
    Add,
    Subtract,
    Multiply,
    Divide,
}

/// The comparisons that the host makes between two numbers.
#[derive(Clone, Copy, Debug, PartialEq, Eq, Structural)]
pub enum Comparison {
    Greater,
    GreaterEqual,
    Less,
    LessEqual,
    Equal,
    NotEqual,
}

/// What a step asks of the host, with texts as sequences of characters.
#[allow(inconsistent_fields)]
pub enum Asked<'a> {
    /// Nothing: the host calls the next step.
    Continue,
    /// Nothing is left to do.
    Done,
    /// The program failed: nothing more of it runs.
    Failed(Failure<'a>),
    /// The number that the literal `lexeme` stands for.
    Parse { lexeme: Seq<char> },
    /// The number `value` with its sign turned.
    Negate { value: u64 },
    /// The number that `op` gives of `left` and `right`.
    Calculate { op: Arithmetic, left: u64, right: u64 },
    /// Whether `left` stands to `right` as `op` says.
    Compare { op: Comparison, left: u64, right: u64 },
    /// The number `value` as text.
    Format { value: u64 },
    /// The time: the seconds since the epoch, as a number.
    Clock,
    /// To write `text` to the program's output.
    Print { text: Seq<char> },
}

/// What the host answers, with texts as sequences of characters.
pub enum Reply {
    /// Nothing was asked.
    Resume,
    /// The number that was asked for.
    Number(u64),
    /// The truth value that was asked for.
    Boolean(bool),
    /// The text that was asked for.
    Text(Seq<char>),
    /// The line was written.
    Written,
    /// The host could not do what was asked.
    Refused,
}

/// The request for which the machine awaits the host's reply.
#[derive(Clone, Copy, Debug, PartialEq, Eq, Structural)]
pub enum Pending {
    /// No request is open.
    Nothing,
    /// The number of a literal: it becomes an operand.
    Parsed,
    /// A number: it becomes an operand.
    Number,
    /// A truth value: it becomes an operand.
    Truth,
    /// The text of a number that is to be printed.
    Shown,
    /// The writing of a line.
    Written,
    /// The text of a number that was called as if it were a function.
    Uncallable,
}

/// A piece of work that is still to do.
#[derive(Clone, Copy, Debug)]
#[allow(inconsistent_fields)]
pub enum Task<'a> {
    /// Execute the statement.
    Execute(&'a Stmt),
    /// Execute the statements `stmts[next..]`, in order.
    Sequence { stmts: &'a Vec<Stmt>, next: usize },
    /// Leave the innermost frame, at the end of a block.
    EndBlock,
    /// Evaluate the expression: its value becomes the topmost operand.
    Evaluate(&'a Expr),
    /// Evaluate the expressions `args[next..]`, in order.
    Arguments { args: &'a Vec<Expr>, next: usize },
    /// Drop the topmost operand.
    Discard,
    /// Execute one branch of an `if`, as the topmost operand decides.
    Branch { then_branch: &'a Stmt, els: &'a Option<Box<Stmt>> },
    /// Print the topmost operand.
    Print,
    /// Define the variable with the topmost operand as its value.
    Define(&'a Token),
    /// Go round the loop once more if the topmost operand, the value of the
    /// condition, counts as true.
    LoopTest { condition: &'a Expr, body: &'a Stmt },
    /// The body of a loop has run: evaluate the condition again. A `break`
    /// unwinds the tasks down to this one, to the frame `scope` and to
    /// `height` operands.
    LoopNext { condition: &'a Expr, body: &'a Stmt, scope: usize, height: usize },
    /// Return the topmost operand from the innermost call.
    Return,
    /// The body of a function has run to its end: the call gives `nil`. A
    /// `return` unwinds the tasks down to this one, to the caller's frame
    /// `scope` and to `height` operands.
    CallEnd { scope: usize, height: usize },
    /// The initializer of a new instance is done, by its end or by a
    /// `return`: the call of the class gives the instance.
    InitEnd { scope: usize, height: usize, instance: usize },
    /// Apply the unary operator to the topmost operand.
    Unary(&'a Token),
    /// Apply the binary operator to the two topmost operands.
    Binary(&'a Token),
    /// The left side of `and` or `or` is the topmost operand: it is the
    /// result, or the right side is evaluated.
    Logical { op: &'a Token, right: &'a Expr },
    /// Assign the topmost operand to the variable.
    Assign { id: usize, name: &'a Token },
    /// Fail unless the topmost operand is an instance.
    RequireInstance,
    /// Set the property of the instance below the topmost operand to it.
    SetField(&'a Token),
    /// Read the property of the instance that is the topmost operand.
    GetField(&'a Token),
    /// Call the operand that lies below the `count` topmost with these as
    /// arguments.
    Invoke { count: usize },
}

/// An instance: its class and its own table of properties.
pub struct Object<'a> {
    pub class: Value<'a>,
    pub fields: Map<Seq<char>, Value<'a>>,
}

/// The state of the machine between two steps.
pub struct State<'a> {
    /// The depth table of the program.
    pub locals: Map<usize, usize>,
    /// All environment frames, and the innermost frame in use.
    pub chain: Chain<'a>,
    /// The frame that was the innermost when the work was put on the
    /// machine: where the work fails, it is the innermost again.
    pub home: usize,
    /// The strings that values stand for, by handle.
    pub texts: Seq<Seq<char>>,
    /// The instances, by handle.
    pub objects: Seq<Object<'a>>,
    /// The work still to do; the last task is the next.
    pub tasks: Seq<Task<'a>>,
    /// The operands; the last is the topmost.
    pub values: Seq<Value<'a>>,
    /// The request that is open.
    pub pending: Pending,
}

/// The bits of the number of teaspoons in a cup, 48.
pub const TEASPOONS_PER_CUP: u64 = 0x4048_0000_0000_0000;

/// The message where a task finds fewer operands than it uses.
pub open spec fn underflow() -> Seq<char> {
    "Too few operands"@
}

/// The message where the host's reply is not of the kind that was asked for.
pub open spec fn unexpected_reply() -> Seq<char> {
    "Unexpected reply"@
}

/// The message where a handle leads to nothing.
pub open spec fn dangling() -> Seq<char> {
    "Handle without a value"@
}

/// The program fails: no work and no operand is left, and every frame that
/// the work had opened or entered is left, so that the innermost frame is the
/// one in which the work began. What the frames hold stays.
pub open spec fn stop<'a>(s: State<'a>, why: Failure<'a>) -> (State<'a>, Asked<'a>) {
    (
        State {
            tasks: Seq::empty(),
            values: Seq::empty(),
            pending: Pending::Nothing,
            chain: entered(s.chain, s.home),
            ..s
        },
        Asked::Failed(why),
    )
}

/// The step is done and asks nothing.
pub open spec fn proceed<'a>(s: State<'a>) -> (State<'a>, Asked<'a>) {
    (s, Asked::Continue)
}

/// The step asks the host for `what` and awaits the reply.
pub open spec fn ask<'a>(s: State<'a>, pending: Pending, what: Asked<'a>) -> (State<'a>, Asked<'a>) {
    (State { pending, ..s }, what)
}

/// The state with `v` as topmost operand.
pub open spec fn push<'a>(s: State<'a>, v: Value<'a>) -> State<'a> {
    State { values: s.values.push(v), ..s }
}

/// The state without its topmost operand.
pub open spec fn drop<'a>(s: State<'a>) -> State<'a> {
    State { values: s.values.drop_last(), ..s }
}

/// The state with `t` as next task.
pub open spec fn plan<'a>(s: State<'a>, t: Task<'a>) -> State<'a> {
    State { tasks: s.tasks.push(t), ..s }
}

/// The state with `t` put on the machine as new work: it is the next task,
/// and the frame that is the innermost now is the one in which the work
/// begins.
pub open spec fn begin<'a>(s: State<'a>, t: Task<'a>) -> State<'a> {
    plan(State { home: s.chain.current, ..s }, t)
}

/// The depth that the table gives for the expression `id`.
pub open spec fn depth_for<'a>(s: State<'a>, id: usize) -> Option<usize> {
    if s.locals.contains_key(id) {
        Some(s.locals[id])
    } else {
        None
    }
}

/// The string behind the handle; the empty string where there is none.
pub open spec fn text_at<'a>(s: State<'a>, handle: usize) -> Seq<char> {
    if handle < s.texts.len() {
        s.texts[handle as int]
    } else {
        Seq::empty()
    }
}

/// How a value is shown that is known by itself: a truth value, `nil`, a
/// function, a class.
pub open spec fn label<'a>(v: Value<'a>) -> Seq<char> {
    match v {
        Value::Boolean(b) => if b {
            "true"@
        } else {
            "false"@
        },
        Value::Nil => "nil"@,
        Value::NativeFunction { native } => "<native fun "@ + native.name() + "/"@ + decimal(
            native.arity() as nat,
        ) + ">"@,
        Value::Function { name, params, .. } => "<fun "@ + name.lexeme@ + "/"@ + decimal(
            params@.len(),
        ) + ">"@,
        Value::Class { name, .. } => "<cls "@ + name.lexeme@ + ">"@,
        _ => Seq::empty(),
    }
}

/// How a value other than a number is shown. A string is shown as it is, an
/// instance by its class.
pub open spec fn display<'a>(s: State<'a>, v: Value<'a>) -> Seq<char> {
    match v {
        Value::String(h) => text_at(s, h),
        Value::Instance { handle } => "<instance of "@ + (if handle < s.objects.len() {
            label(s.objects[handle as int].class)
        } else {
            Seq::empty()
        }) + ">"@,
        _ => label(v),
    }
}

/// Whether two values that are not both numbers are equal: they are of one
/// kind, and the same string, truth value, function with the same closure,
/// class or instance.
pub open spec fn same<'a>(s: State<'a>, l: Value<'a>, r: Value<'a>) -> bool {
    match (l, r) {
        (Value::String(a), Value::String(b)) => text_at(s, a) == text_at(s, b),
        (Value::Boolean(a), Value::Boolean(b)) => a == b,
        (Value::Nil, Value::Nil) => true,
        (Value::NativeFunction { native: a }, Value::NativeFunction { native: b }) => a == b,
        (Value::Function { id: a, closure: c, .. }, Value::Function { id: b, closure: d, .. }) => a
            == b && c == d,
        (Value::Class { id: a, closure: c, .. }, Value::Class { id: b, closure: d, .. }) => a == b
            && c == d,
        (Value::Instance { handle: a }, Value::Instance { handle: b }) => a == b,
        _ => false,
    }
}

/// The text between the quotes of a string literal.
pub open spec fn unquoted(lexeme: Seq<char>) -> Seq<char> {
    if lexeme.len() >= 2 {
        lexeme.subrange(1, lexeme.len() - 1)
    } else {
        lexeme
    }
}

/// The message for a token that is no literal.
pub open spec fn no_literal(lexeme: Seq<char>) -> Seq<char> {
    "Cannot get a literal value from token "@ + lexeme
}

/// The message for a literal that the host does not take for a number.
pub open spec fn no_number() -> Seq<char> {
    "Invalid number"@
}

/// The message for the negation of what is no number.
pub open spec fn no_negation() -> Seq<char> {
    "Cannot negate non-number"@
}

/// The message for a unary operator that is none.
pub open spec fn no_unary(lexeme: Seq<char>) -> Seq<char> {
    "Unary operator not implemented: "@ + lexeme
}

/// The message for a logical operator that is none.
pub open spec fn no_logical(lexeme: Seq<char>) -> Seq<char> {
    "Logical operator not implemented: "@ + lexeme
}

/// The message for a binary operator that has no rule for its operands: it
/// names their kinds, not their values.
pub open spec fn no_binary<'a>(l: Value<'a>, op: TokenType, r: Value<'a>) -> Seq<char> {
    "Binary operation not implemented: "@ + l.kind() + " "@ + op.text() + " "@ + r.kind()
}

/// The message for a native function called with an argument of the wrong
/// kind.
pub open spec fn no_native(native: Native) -> Seq<char> {
    "Native function expects a number: "@ + native.name()
}

/// The value of a literal.
pub open spec fn literal<'a>(s: State<'a>, token: &'a Token) -> (State<'a>, Asked<'a>) {
    match token.typ {
        TokenType::Number => ask(s, Pending::Parsed, Asked::Parse { lexeme: token.lexeme@ }),
        TokenType::String => proceed(
            State {
                texts: s.texts.push(unquoted(token.lexeme@)),
                values: s.values.push(Value::String(s.texts.len() as usize)),
                ..s
            },
        ),
        TokenType::True => proceed(push(s, Value::Boolean(true))),
        TokenType::False => proceed(push(s, Value::Boolean(false))),
        TokenType::Nil => proceed(push(s, Value::Nil)),
        _ => stop(s, Failure::Unimplemented { msg: no_literal(token.lexeme@) }),
    }
}

/// The value of the variable `name`, read at the depth that the table gives
/// for the expression `id`.
pub open spec fn read<'a>(s: State<'a>, id: usize, name: &'a Token) -> (State<'a>, Asked<'a>) {
    match lookup(s.chain, name.lexeme@, depth_for(s, id)) {
        Ok(v) => proceed(push(s, v)),
        Err(e) => stop(s, e),
    }
}

/// The start of the evaluation of an expression.
pub open spec fn evaluate<'a>(s: State<'a>, expr: &'a Expr) -> (State<'a>, Asked<'a>) {
    match expr {
        Expr::Literal { value } => literal(s, value),
        Expr::Grouping { expr } => proceed(plan(s, Task::Evaluate(&**expr))),
        Expr::Unary { op, right } => proceed(
            plan(plan(s, Task::Unary(op)), Task::Evaluate(&**right)),
        ),
        Expr::Binary { left, op, right } => proceed(
            plan(
                plan(plan(s, Task::Binary(op)), Task::Evaluate(&**right)),
                Task::Evaluate(&**left),
            ),
        ),
        Expr::Logical { left, op, right } => proceed(
            plan(plan(s, Task::Logical { op, right: &**right }), Task::Evaluate(&**left)),
        ),
        Expr::Variable { id, name } => read(s, *id, name),
        Expr::This { id, keyword } => read(s, *id, keyword),
        Expr::Assign { id, name, value } => proceed(
            plan(plan(s, Task::Assign { id: *id, name }), Task::Evaluate(&**value)),
        ),
        Expr::SetProperty { object, name, value } => proceed(
            plan(
                plan(
                    plan(plan(s, Task::SetField(name)), Task::Evaluate(&**value)),
                    Task::RequireInstance,
                ),
                Task::Evaluate(&**object),
            ),
        ),
        Expr::Call { callee, args } => proceed(
            plan(
                plan(
                    plan(s, Task::Invoke { count: args@.len() as usize }),
                    Task::Arguments { args, next: 0 },
                ),
                Task::Evaluate(&**callee),
            ),
        ),
        Expr::Get { object, name } => proceed(
            plan(plan(s, Task::GetField(name)), Task::Evaluate(&**object)),
        ),
    }
}

/// The place of the innermost loop among the tasks.
pub open spec fn innermost_loop<'a>(tasks: Seq<Task<'a>>) -> Option<int>
    decreases tasks.len(),
{
    if tasks.len() == 0 {
        None
    } else if tasks.last() is LoopNext {
        Some(tasks.len() - 1)
    } else {
        innermost_loop(tasks.drop_last())
    }
}

/// The place of the innermost call among the tasks.
pub open spec fn innermost_call<'a>(tasks: Seq<Task<'a>>) -> Option<int>
    decreases tasks.len(),
{
    if tasks.len() == 0 {
        None
    } else if tasks.last() is CallEnd || tasks.last() is InitEnd {
        Some(tasks.len() - 1)
    } else {
        innermost_call(tasks.drop_last())
    }
}

/// The lowest `height` operands, or all where there are fewer.
pub open spec fn cut<'a>(values: Seq<Value<'a>>, height: usize) -> Seq<Value<'a>> {
    if height <= values.len() {
        values.take(height as int)
    } else {
        values
    }
}

/// A `break`: the innermost loop ends. All tasks down to the loop's are given
/// up, and the frames and operands are those the loop began with. Without a
/// loop the program fails.
pub open spec fn break_out<'a>(s: State<'a>) -> (State<'a>, Asked<'a>) {
    match innermost_loop(s.tasks) {
        Some(i) => match s.tasks[i] {
            Task::LoopNext { scope, height, .. } => proceed(
                State {
                    tasks: s.tasks.take(i),
                    chain: entered(s.chain, scope),
                    values: cut(s.values, height),
                    ..s
                },
            ),
            _ => stop(s, Failure::Break),
        },
        None => stop(s, Failure::Break),
    }
}

/// A `return` of `v`: the innermost call ends. All tasks down to the call's
/// are given up, the frames and operands are the caller's, and the call's
/// value, `v` or the new instance, is the topmost operand. Without a call the
/// program fails.
pub open spec fn return_from<'a>(s: State<'a>, v: Value<'a>) -> (State<'a>, Asked<'a>) {
    match innermost_call(s.tasks) {
        Some(i) => match s.tasks[i] {
            Task::CallEnd { scope, height } => proceed(
                State {
                    tasks: s.tasks.take(i),
                    chain: entered(s.chain, scope),
                    values: cut(s.values, height).push(v),
                    ..s
                },
            ),
            Task::InitEnd { scope, height, instance } => proceed(
                State {
                    tasks: s.tasks.take(i),
                    chain: entered(s.chain, scope),
                    values: cut(s.values, height).push(Value::Instance { handle: instance }),
                    ..s
                },
            ),
            _ => stop(s, Failure::Return { value: v }),
        },
        None => stop(s, Failure::Return { value: v }),
    }
}

/// The start of the execution of a statement.
pub open spec fn execute<'a>(s: State<'a>, stmt: &'a Stmt) -> (State<'a>, Asked<'a>) {
    match stmt {
        Stmt::Block { stmts } => proceed(
            plan(
                plan(State { chain: opened(s.chain), ..s }, Task::EndBlock),
                Task::Sequence { stmts, next: 0 },
            ),
        ),
        Stmt::Break => break_out(s),
        Stmt::Class { id, name, methods } => proceed(
            State {
                chain: defined(
                    s.chain,
                    name.lexeme@,
                    Value::Class { id: *id, name, methods, closure: s.chain.current },
                ),
                ..s
            },
        ),
        Stmt::Expression { expr } => proceed(plan(plan(s, Task::Discard), Task::Evaluate(&**expr))),
        Stmt::Function { id, name, params, body } => proceed(
            State {
                chain: defined(
                    s.chain,
                    name.lexeme@,
                    Value::Function {
                        id: *id,
                        name,
                        params,
                        body,
                        closure: s.chain.current,
                        method: false,
                    },
                ),
                ..s
            },
        ),
        Stmt::If { condition, then_branch, els } => proceed(
            plan(
                plan(s, Task::Branch { then_branch: &**then_branch, els }),
                Task::Evaluate(&**condition),
            ),
        ),
        Stmt::Print { expr } => proceed(plan(plan(s, Task::Print), Task::Evaluate(&**expr))),
        Stmt::Return { value } => match value {
            Some(e) => proceed(plan(plan(s, Task::Return), Task::Evaluate(&**e))),
            None => proceed(plan(push(s, Value::Nil), Task::Return)),
        },
        Stmt::Var { name, initializer } => match initializer {
            Some(e) => proceed(plan(plan(s, Task::Define(name)), Task::Evaluate(&**e))),
            None => proceed(plan(push(s, Value::Nil), Task::Define(name))),
        },
        Stmt::While { condition, body } => proceed(
            plan(
                plan(s, Task::LoopTest { condition: &**condition, body: &**body }),
                Task::Evaluate(&**condition),
            ),
        ),
    }
}

/// One branch of an `if`, chosen by the topmost operand.
pub open spec fn branch<'a>(s: State<'a>, then_branch: &'a Stmt, els: &'a Option<Box<Stmt>>) -> (
    State<'a>,
    Asked<'a>,
) {
    if s.values.last().truthy() {
        proceed(plan(drop(s), Task::Execute(then_branch)))
    } else {
        match els {
            Some(e) => proceed(plan(drop(s), Task::Execute(&**e))),
            None => proceed(drop(s)),
        }
    }
}

/// The topmost operand is printed: a number is first sent to the host to be
/// made into text, any other value is written as the line that shows it.
pub open spec fn print<'a>(s: State<'a>) -> (State<'a>, Asked<'a>) {
    match s.values.last() {
        Value::Number(x) => ask(drop(s), Pending::Shown, Asked::Format { value: x }),
        v => ask(drop(s), Pending::Written, Asked::Print { text: display(s, v).push('\n') }),
    }
}

/// The loop goes round once more, or ends, as the topmost operand decides.
pub open spec fn loop_test<'a>(s: State<'a>, condition: &'a Expr, body: &'a Stmt) -> (
    State<'a>,
    Asked<'a>,
) {
    if s.values.last().truthy() {
        proceed(
            plan(
                plan(
                    drop(s),
                    Task::LoopNext {
                        condition,
                        body,
                        scope: s.chain.current,
                        height: (s.values.len() - 1) as usize,
                    },
                ),
                Task::Execute(body),
            ),
        )
    } else {
        proceed(drop(s))
    }
}

/// A unary operator applied to the topmost operand. The host turns the sign
/// of a number; `!` gives whether the operand counts as false.
pub open spec fn unary<'a>(s: State<'a>, op: &'a Token) -> (State<'a>, Asked<'a>) {
    match op.typ {
        TokenType::Minus => match s.values.last() {
            Value::Number(x) => ask(drop(s), Pending::Number, Asked::Negate { value: x }),
            _ => stop(s, Failure::Unimplemented { msg: no_negation() }),
        },
        TokenType::Bang => proceed(push(drop(s), Value::Boolean(!s.values.last().truthy()))),
        _ => stop(s, Failure::Unimplemented { msg: no_unary(op.lexeme@) }),
    }
}

/// The arithmetic that an operator stands for.
pub open spec fn arithmetic_of(op: TokenType) -> Option<Arithmetic> {
    match op {
        TokenType::Plus => Some(Arithmetic::Add),
        TokenType::Minus => Some(Arithmetic::Subtract),
        TokenType::Star => Some(Arithmetic::Multiply),
        TokenType::Slash => Some(Arithmetic::Divide),
        _ => None,
    }
}

/// The comparison that an operator stands for.
pub open spec fn comparison_of(op: TokenType) -> Option<Comparison> {
    match op {
        TokenType::Greater => Some(Comparison::Greater),
        TokenType::GreaterEqual => Some(Comparison::GreaterEqual),
        TokenType::Less => Some(Comparison::Less),
        TokenType::LessEqual => Some(Comparison::LessEqual),
        TokenType::EqualEqual => Some(Comparison::Equal),
        TokenType::BangEqual => Some(Comparison::NotEqual),
        _ => None,
    }
}

/// A binary operator applied to the two topmost operands, the right one on
/// top. Two numbers go to the host, for arithmetic or for a comparison. `+`
/// joins two strings. `==` and `!=` compare any two values. Nothing is
/// converted: every other pairing fails.
pub open spec fn binary<'a>(s: State<'a>, op: &'a Token) -> (State<'a>, Asked<'a>) {
    let r = s.values[s.values.len() - 1];
    let l = s.values[s.values.len() - 2];
    let rest = drop(drop(s));
    match (l, r) {
        (Value::Number(a), Value::Number(b)) => match arithmetic_of(op.typ) {
            Some(o) => ask(rest, Pending::Number, Asked::Calculate { op: o, left: a, right: b }),
            None => match comparison_of(op.typ) {
                Some(o) => ask(rest, Pending::Truth, Asked::Compare { op: o, left: a, right: b }),
                None => stop(s, Failure::Unimplemented { msg: no_binary(l, op.typ, r) }),
            },
        },
        _ => if op.typ == TokenType::Plus && l is String && r is String {
            proceed(
                State {
                    texts: s.texts.push(text_at(s, l->String_0) + text_at(s, r->String_0)),
                    values: rest.values.push(Value::String(s.texts.len() as usize)),
                    ..rest
                },
            )
        } else if op.typ == TokenType::EqualEqual {
            proceed(push(rest, Value::Boolean(same(s, l, r))))
        } else if op.typ == TokenType::BangEqual {
            proceed(push(rest, Value::Boolean(!same(s, l, r))))
        } else {
            stop(s, Failure::Unimplemented { msg: no_binary(l, op.typ, r) })
        },
    }
}

/// `and` and `or`, with the value of the left side as topmost operand. The
/// left value is the result where it decides; else the right side is
/// evaluated and its value is the result.
pub open spec fn logical<'a>(s: State<'a>, op: &'a Token, right: &'a Expr) -> (State<'a>, Asked<'a>) {
    match op.typ {
        TokenType::Or => if s.values.last().truthy() {
            proceed(s)
        } else {
            proceed(plan(drop(s), Task::Evaluate(right)))
        },
        TokenType::And => if s.values.last().truthy() {
            proceed(plan(drop(s), Task::Evaluate(right)))
        } else {
            proceed(s)
        },
        _ => stop(s, Failure::Unimplemented { msg: no_logical(op.lexeme@) }),
    }
}

/// The topmost operand is assigned to the variable `name`, at the depth that
/// the table gives for the expression `id`. It stays as the value of the
/// assignment.
pub open spec fn assign<'a>(s: State<'a>, id: usize, name: &'a Token) -> (State<'a>, Asked<'a>) {
    match assigned(s.chain, name.lexeme@, s.values.last(), depth_for(s, id)) {
        Ok(chain) => proceed(State { chain, ..s }),
        Err(e) => stop(s, e),
    }
}

/// The program fails unless the topmost operand is an instance.
pub open spec fn require_instance<'a>(s: State<'a>) -> (State<'a>, Asked<'a>) {
    if s.values.last() is Instance {
        proceed(s)
    } else {
        stop(s, Failure::OnlyInstancesHaveAttributes)
    }
}

/// The property `name` of the instance below the topmost operand is set to
/// that operand, which stays as the value of the expression.
pub open spec fn set_field<'a>(s: State<'a>, name: &'a Token) -> (State<'a>, Asked<'a>) {
    let v = s.values[s.values.len() - 1];
    match s.values[s.values.len() - 2] {
        Value::Instance { handle } => if handle < s.objects.len() {
            proceed(
                State {
                    objects: s.objects.update(
                        handle as int,
                        Object {
                            fields: s.objects[handle as int].fields.insert(name.lexeme@, v),
                            ..s.objects[handle as int]
                        },
                    ),
                    values: s.values.drop_last().drop_last().push(v),
                    ..s
                },
            )
        } else {
            stop(s, Failure::Internal { msg: dangling() })
        },
        _ => stop(s, Failure::OnlyInstancesHaveAttributes),
    }
}

/// The property `name` of the instance that is the topmost operand. A
/// method of the class comes bound: its closure is a new frame, inside the
/// method's own, that holds the instance as `this`. Every other value,
/// a function that was stored in the property too, comes as it is.
pub open spec fn get_field<'a>(s: State<'a>, name: &'a Token) -> (State<'a>, Asked<'a>) {
    match s.values.last() {
        Value::Instance { handle } => if handle < s.objects.len() {
            let fields = s.objects[handle as int].fields;
            if fields.contains_key(name.lexeme@) {
                let found = fields[name.lexeme@];
                match found {
                    Value::Function { id, name, params, body, closure, method } => if method {
                        proceed(
                            State {
                                chain: stored(
                                    extended(s.chain, closure),
                                    s.chain.frames.len() as usize,
                                    "this"@,
                                    s.values.last(),
                                ),
                                values: s.values.drop_last().push(
                                    Value::Function {
                                        id,
                                        name,
                                        params,
                                        body,
                                        closure: s.chain.frames.len() as usize,
                                        method: false,
                                    },
                                ),
                                ..s
                            },
                        )
                    } else {
                        proceed(push(drop(s), found))
                    },
                    v => proceed(push(drop(s), v)),
                }
            } else {
                stop(s, Failure::UndefinedVariable { name: name.lexeme@ })
            }
        } else {
            stop(s, Failure::Internal { msg: dangling() })
        },
        _ => stop(s, Failure::OnlyInstancesHaveAttributes),
    }
}

/// The methods `methods[..upto]` of a class as a table of functions with the
/// closure `closure`, not yet bound to an instance. Of two methods of one
/// name the later stays.
pub open spec fn method_table<'a>(methods: &'a Vec<Stmt>, closure: usize, upto: int) -> Map<
    Seq<char>,
    Value<'a>,
>
    decreases upto,
{
    if upto <= 0 || upto > methods@.len() {
        Map::empty()
    } else {
        let before = method_table(methods, closure, upto - 1);
        match &methods@[upto - 1] {
            Stmt::Function { id, name, params, body } => before.insert(
                name.lexeme@,
                Value::Function { id: *id, name, params, body, closure, method: true },
            ),
            _ => before,
        }
    }
}

/// The frame `handle` with the parameters `params[..upto]` set to the
/// arguments, each to the one at its place.
pub open spec fn bind<'a>(
    chain: Chain<'a>,
    handle: usize,
    params: Seq<Token>,
    args: Seq<Value<'a>>,
    upto: int,
) -> Chain<'a>
    decreases upto,
{
    if upto <= 0 || upto > params.len() || upto > args.len() {
        chain
    } else {
        stored(
            bind(chain, handle, params, args, upto - 1),
            handle,
            params[upto - 1].lexeme@,
            args[upto - 1],
        )
    }
}

/// The call of a function: a new frame inside the function's closure holds
/// the arguments under the parameters' names and becomes the innermost; the
/// body is the next work, and after it the end of the call.
pub open spec fn call_function<'a>(
    s: State<'a>,
    params: &'a Vec<Token>,
    body: &'a Vec<Stmt>,
    closure: usize,
    args: Seq<Value<'a>>,
    end: Task<'a>,
) -> State<'a> {
    let handle = s.chain.frames.len() as usize;
    State {
        chain: entered(
            bind(extended(s.chain, closure), handle, params@, args, params@.len() as int),
            handle,
        ),
        tasks: s.tasks.push(end).push(Task::Sequence { stmts: body, next: 0 }),
        ..s
    }
}

/// The call of a class without an initializer: it takes no arguments and
/// gives the new instance.
pub open spec fn created<'a>(s: State<'a>, made: State<'a>, instance: Value<'a>, count: usize) -> (
    State<'a>,
    Asked<'a>,
) {
    if count != 0 {
        stop(s, Failure::WrongNumberOfArgs { arity: 0, got: count })
    } else {
        proceed(push(made, instance))
    }
}

/// The call of the operand that lies below the `count` topmost operands, with
/// these as arguments. A native function asks the host for its result. A
/// function runs its body. A class makes an instance whose properties are
/// its methods, and runs the initializer, the method `init`, if it has one.
/// Every call takes as many arguments as the callee has parameters.
pub open spec fn invoke<'a>(s: State<'a>, count: usize) -> (State<'a>, Asked<'a>) {
    let base = s.values.len() - count - 1;
    let callee = s.values[base];
    let args = s.values.subrange(base + 1, s.values.len() as int);
    let rest = State { values: s.values.take(base), ..s };
    match callee {
        Value::NativeFunction { native } => if count != native.arity() {
            stop(s, Failure::WrongNumberOfArgs { arity: native.arity(), got: count })
        } else {
            match native {
                Native::Clock => ask(rest, Pending::Number, Asked::Clock),
                Native::Tsp2Cup => match args[0] {
                    Value::Number(x) => ask(
                        rest,
                        Pending::Number,
                        Asked::Calculate {
                            op: Arithmetic::Divide,
                            left: x,
                            right: TEASPOONS_PER_CUP,
                        },
                    ),
                    _ => stop(s, Failure::Unimplemented { msg: no_native(native) }),
                },
            }
        },
        Value::Function { params, body, closure, .. } => if count != params@.len() {
            stop(s, Failure::WrongNumberOfArgs { arity: params@.len() as usize, got: count })
        } else {
            proceed(
                call_function(
                    rest,
                    params,
                    body,
                    closure,
                    args,
                    Task::CallEnd { scope: s.chain.current, height: base as usize },
                ),
            )
        },
        Value::Class { methods, closure, .. } => {
            let fields = method_table(methods, closure, methods@.len() as int);
            let handle = s.objects.len() as usize;
            let instance = Value::Instance { handle };
            let made = State { objects: s.objects.push(Object { class: callee, fields }), ..rest };
            if fields.contains_key("init"@) {
                match fields["init"@] {
                    Value::Function { params, body, closure: outer, .. } => if count
                        != params@.len() {
                        stop(
                            s,
                            Failure::WrongNumberOfArgs {
                                arity: params@.len() as usize,
                                got: count,
                            },
                        )
                    } else {
                        let this_frame = s.chain.frames.len() as usize;
                        proceed(
                            call_function(
                                State {
                                    chain: stored(
                                        extended(s.chain, outer),
                                        this_frame,
                                        "this"@,
                                        instance,
                                    ),
                                    ..made
                                },
                                params,
                                body,
                                this_frame,
                                args,
                                Task::InitEnd {
                                    scope: s.chain.current,
                                    height: base as usize,
                                    instance: handle,
                                },
                            ),
                        )
                    },
                    _ => created(s, made, instance, count),
                }
            } else {
                created(s, made, instance, count)
            }
        },
        Value::Number(x) => ask(rest, Pending::Uncallable, Asked::Format { value: x }),
        _ => stop(s, Failure::NotCallable { typ: display(s, callee) }),
    }
}

/// The number of operands that a task uses.
pub open spec fn needs<'a>(task: Task<'a>) -> nat {
    match task {
        Task::Discard => 1,
        Task::Branch { .. } => 1,
        Task::Print => 1,
        Task::Define(_) => 1,
        Task::LoopTest { .. } => 1,
        Task::Return => 1,
        Task::Unary(_) => 1,
        Task::Binary(_) => 2,
        Task::Logical { .. } => 1,
        Task::Assign { .. } => 1,
        Task::RequireInstance => 1,
        Task::SetField(_) => 2,
        Task::GetField(_) => 1,
        Task::Invoke { count } => count as nat + 1,
        _ => 0,
    }
}

/// What doing the task `task` makes of the state `s`, from which the task is
/// already taken off.
pub open spec fn perform<'a>(s: State<'a>, task: Task<'a>) -> (State<'a>, Asked<'a>) {
    match task {
        Task::Execute(stmt) => execute(s, stmt),
        Task::Sequence { stmts, next } => if next < stmts@.len() {
            proceed(
                plan(
                    plan(s, Task::Sequence { stmts, next: (next + 1) as usize }),
                    Task::Execute(&stmts@[next as int]),
                ),
            )
        } else {
            proceed(s)
        },
        Task::EndBlock => proceed(State { chain: closed(s.chain), ..s }),
        Task::Evaluate(expr) => evaluate(s, expr),
        Task::Arguments { args, next } => if next < args@.len() {
            proceed(
                plan(
                    plan(s, Task::Arguments { args, next: (next + 1) as usize }),
                    Task::Evaluate(&args@[next as int]),
                ),
            )
        } else {
            proceed(s)
        },
        Task::Discard => proceed(drop(s)),
        Task::Branch { then_branch, els } => branch(s, then_branch, els),
        Task::Print => print(s),
        Task::Define(name) => proceed(
            State { chain: defined(s.chain, name.lexeme@, s.values.last()), ..drop(s) },
        ),
        Task::LoopTest { condition, body } => loop_test(s, condition, body),
        Task::LoopNext { condition, body, .. } => proceed(
            plan(plan(s, Task::LoopTest { condition, body }), Task::Evaluate(condition)),
        ),
        Task::Return => return_from(drop(s), s.values.last()),
        Task::CallEnd { scope, .. } => proceed(
            push(State { chain: entered(s.chain, scope), ..s }, Value::Nil),
        ),
        Task::InitEnd { scope, instance, .. } => proceed(
            push(
                State { chain: entered(s.chain, scope), ..s },
                Value::Instance { handle: instance },
            ),
        ),
        Task::Unary(op) => unary(s, op),
        Task::Binary(op) => binary(s, op),
        Task::Logical { op, right } => logical(s, op, right),
        Task::Assign { id, name } => assign(s, id, name),
        Task::RequireInstance => require_instance(s),
        Task::SetField(name) => set_field(s, name),
        Task::GetField(name) => get_field(s, name),
        Task::Invoke { count } => invoke(s, count),
    }
}

/// What the host's reply to the open request makes of the state.
pub open spec fn resume<'a>(s: State<'a>, reply: Reply) -> (State<'a>, Asked<'a>) {
    let ready = State { pending: Pending::Nothing, ..s };
    match (s.pending, reply) {
        (Pending::Parsed, Reply::Number(x)) => proceed(push(ready, Value::Number(x))),
        (Pending::Parsed, Reply::Refused) => stop(s, Failure::Unimplemented { msg: no_number() }),
        (Pending::Number, Reply::Number(x)) => proceed(push(ready, Value::Number(x))),
        (Pending::Truth, Reply::Boolean(b)) => proceed(push(ready, Value::Boolean(b))),
        (Pending::Shown, Reply::Text(t)) => ask(
            s,
            Pending::Written,
            Asked::Print { text: t.push('\n') },
        ),
        (Pending::Written, Reply::Written) => proceed(ready),
        (Pending::Written, Reply::Refused) => stop(s, Failure::PrintFailed),
        (Pending::Uncallable, Reply::Text(t)) => stop(s, Failure::NotCallable { typ: t }),
        _ => stop(s, Failure::Internal { msg: unexpected_reply() }),
    }
}

/// One step of the machine.
///
/// Where a request is open, the step takes the host's reply. Else it takes
/// the next task and does it; a task that finds too few operands fails the
/// program. With no request open and no task left the program is done.
pub open spec fn step<'a>(s: State<'a>, reply: Reply) -> (State<'a>, Asked<'a>) {
    if s.pending != Pending::Nothing {
        resume(s, reply)
    } else if s.tasks.len() == 0 {
        (s, Asked::Done)
    } else {
        let rest = State { tasks: s.tasks.drop_last(), ..s };
        if rest.values.len() < needs(s.tasks.last()) {
            stop(rest, Failure::Internal { msg: underflow() })
        } else {
            perform(rest, s.tasks.last())
        }
    }
}

/// The state in which a machine begins: the global frame alone, no string,
/// no instance, no work, no operand.
pub open spec fn initial<'a>(locals: Map<usize, usize>) -> State<'a> {
    State {
        locals,
        chain: crate::walker::environment::global_chain(),
        home: 0,
        texts: Seq::empty(),
        objects: Seq::empty(),
        tasks: Seq::empty(),
        values: Seq::empty(),
        pending: Pending::Nothing,
    }
}

/// Steps in a row: one step with the host's reply, and after it up to `more`
/// steps, for as long as the machine asks nothing of the host.
pub open spec fn run<'a>(s: State<'a>, reply: Reply, more: nat) -> (State<'a>, Asked<'a>)
    decreases more,
{
    let next = step(s, reply);
    if next.1 is Continue && more > 0 {
        run(next.0, Reply::Resume, (more - 1) as nat)
    } else {
        next
    }
}

/// An assignment is an expression: the value assigned stays the topmost
/// operand, as the value of the expression, and a read of the variable from
/// the same expression's depth gives it afterwards.
pub proof fn lemma_assignment_yields_value<'a>(s: State<'a>, id: usize, name: &'a Token)
    requires
        s.values.len() >= 1,
        assign(s, id, name).1 is Continue,
    ensures
        assign(s, id, name).0.values == s.values,
        lookup(assign(s, id, name).0.chain, name.lexeme@, depth_for(s, id)) == Ok::<
            Value<'a>,
            Failure<'a>,
        >(s.values.last()),
{
    lemma_assigned_is_read(s.chain, name.lexeme@, s.values.last(), depth_for(s, id));
}

/// `or` and `and` decide by truthiness and stop as soon as the left side has
/// decided. Where it has, the left value itself is the value of the
/// expression and the right side is never evaluated; where it has not, the
/// left value is dropped and the right side is evaluated in its place.
pub proof fn lemma_logical_short_circuits<'a>(s: State<'a>, op: &'a Token, right: &'a Expr)
    requires
        s.values.len() >= 1,
        op.typ == TokenType::Or || op.typ == TokenType::And,
    ensures
        logical(s, op, right).1 is Continue,
        (op.typ == TokenType::Or) == s.values.last().truthy() ==> logical(s, op, right).0 == s,
        (op.typ == TokenType::Or) != s.values.last().truthy() ==> logical(s, op, right).0 == plan(
            drop(s),
            Task::Evaluate(right),
        ),
{
}

/// Only `false` and `nil` count as false.
pub proof fn lemma_truthiness<'a>(v: Value<'a>)
    ensures
        !v.truthy() <==> (v is Nil || v == Value::<'a>::Boolean(false)),
{
}

/// A property of an instance reads back as it was set: after the property
/// `name` is set to a value, reading `name` from the same instance gives
/// exactly that value, whatever the class declares under the name. (Only a
/// method that is not yet bound, which no program can hold as a value, would
/// come back bound.)
pub proof fn lemma_field_reads_back<'a>(s: State<'a>, name: &'a Token, reader: &'a Token)
    requires
        s.values.len() >= 2,
        reader.lexeme@ == name.lexeme@,
        s.values[s.values.len() - 2] is Instance,
        s.values[s.values.len() - 2]->handle < s.objects.len(),
        !(s.values.last() matches Value::Function { method, .. } && method),
    ensures
        set_field(s, name).1 is Continue,
        ({
            let instance = s.values[s.values.len() - 2];
            let written = set_field(s, name).0;
            let reading = State { values: written.values.drop_last().push(instance), ..written };
            get_field(reading, reader) == proceed(push(drop(reading), s.values.last()))
        }),
{
    let instance = s.values[s.values.len() - 2];
    let handle = instance->handle;
    let written = set_field(s, name).0;
    assert(written.objects[handle as int].fields.contains_key(name.lexeme@));
    assert(written.objects[handle as int].fields[name.lexeme@] == s.values.last());
    let reading = State { values: written.values.drop_last().push(instance), ..written };
    assert(reading.values.last() == instance);
    match s.values.last() {
        Value::Function { method, .. } => {
            assert(!method);
        },
        _ => {},
    }
}

/// One step, and with it the writing of what the step prints: where the
/// step asks to print a text, the text is added to `out` and the machine is
/// told that it is written.
pub open spec fn turn<'a>(s: State<'a>, out: Seq<u8>, reply: Reply) -> (State<'a>, Seq<u8>, Asked<'a>) {
    let next = step(s, reply);
    match next.1 {
        Asked::Print { text } => {
            let written = step(next.0, Reply::Written);
            (written.0, out + vstd::utf8::encode_utf8(text), written.1)
        },
        _ => (next.0, out, next.1),
    }
}

/// Turns in a row: one turn with the host's reply, and after it up to `more`
/// turns, for as long as the machine asks nothing of the host but to print.
pub open spec fn run_on<'a>(s: State<'a>, out: Seq<u8>, reply: Reply, more: nat) -> (
    State<'a>,
    Seq<u8>,
    Asked<'a>,
)
    decreases more,
{
    let next = turn(s, out, reply);
    if next.2 is Continue && more > 0 {
        run_on(next.0, next.1, Reply::Resume, (more - 1) as nat)
    } else {
        next
    }
}

} // verus!
