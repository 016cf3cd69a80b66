//! The evaluator: the machine of `machine`, in executable form.
use crate::shared::scanner::{Token, TokenType};
use crate::shared::streams::Streams;
use crate::shared::table::Table;
use crate::shared::text::{chars_of, push_decimal, string_of};
use crate::walker::ast::{Expr, Stmt};
use crate::walker::environment::extended;
pub use crate::walker::environment::EnvironmentStack;
pub use crate::walker::errors::RuntimeError;
use crate::walker::errors::Failure;
use crate::walker::machine::{
    Arithmetic, Asked, Comparison, Object, Pending, Reply, State, Task, TEASPOONS_PER_CUP,
    arithmetic_of, assign, binary, bind, branch, break_out, call_function, comparison_of, depth_for,
    display, drop, evaluate, execute, get_field, initial, innermost_call, innermost_loop, invoke,
    label, literal, logical, loop_test, method_table, needs, no_binary, perform, plan, print, push,
    begin, read, require_instance, resume, return_from, run, run_on, same, set_field, step, stop, text_at, turn, unary,
};
use crate::walker::resolver::Locals;
use crate::walker::values::{Native, Value};
use vstd::prelude::*;

verus! {

broadcast use vstd::std_specs::hash::group_hash_axioms;

/// What a step asks of the host.
#[derive(Clone, Debug)]
#[allow(inconsistent_fields)]
pub enum Request<'a> {
    /// Nothing: the host calls the next step.
    Continue,
    /// Nothing is left to do.
    Done,
    /// The program failed: nothing more of it runs.
    Failed(RuntimeError<'a>),
    /// The number that the literal `lexeme` stands for.
    Parse { lexeme: String },
    /// The number `value` with its sign turned.
    Negate { value: u64 },
    /// The number that `op` gives of `left` and `right`.
    Calculate { op: Arithmetic, left: u64, right: u64 },
    /// Whether `left` stands to `right` as `op` says.
    Compare { op: Comparison, left: u64, right: u64 },
    /// The number `value` as text.
    Format { value: u64 },
    /// The time: the seconds since the epoch, as a number.
    Clock,
    /// To write `text` to the program's output.
    Print { text: String },
}

impl<'a> View for Request<'a> {
    type V = Asked<'a>;

    open spec fn view(&self) -> Asked<'a> {
        match *self {
            Request::Continue => Asked::Continue,
            Request::Done => Asked::Done,
            Request::Failed(e) => Asked::Failed(e@),
            Request::Parse { lexeme } => Asked::Parse { lexeme: lexeme@ },
            Request::Negate { value } => Asked::Negate { value },
            Request::Calculate { op, left, right } => Asked::Calculate { op, left, right },
            Request::Compare { op, left, right } => Asked::Compare { op, left, right },
            Request::Format { value } => Asked::Format { value },
            Request::Clock => Asked::Clock,
            Request::Print { text } => Asked::Print { text: text@ },
        }
    }
}

/// What the host answers.
#[derive(Clone, Debug)]
pub enum Event {
    /// Nothing was asked.
    Resume,
    /// The number that was asked for.
    Number(u64),
    /// The truth value that was asked for.
    Boolean(bool),
    /// The text that was asked for.
    Text(String),
    /// The line was written.
    Written,
    /// The host could not do what was asked.
    Refused,
}

impl View for Event {
    type V = Reply;

    open spec fn view(&self) -> Reply {
        match *self {
            Event::Resume => Reply::Resume,
            Event::Number(x) => Reply::Number(x),
            Event::Boolean(b) => Reply::Boolean(b),
            Event::Text(t) => Reply::Text(t@),
            Event::Written => Reply::Written,
            Event::Refused => Reply::Refused,
        }
    }
}

/// An instance: its class and its own table of properties.
pub struct Instance<'a> {
    class: Value<'a>,
    fields: Table<Value<'a>>,
}

impl<'a> View for Instance<'a> {
    type V = Object<'a>;

    closed spec fn view(&self) -> Object<'a> {
        Object { class: self.class, fields: self.fields@ }
    }
}

/// The evaluator. Its view is the state of the machine.
pub struct Interpreter<'a> {
    locals: Locals,
    environments: EnvironmentStack<'a>,
    home: usize,
    texts: Vec<String>,
    instances: Vec<Instance<'a>>,
    tasks: Vec<Task<'a>>,
    values: Vec<Value<'a>>,
    pending: Pending,
}

impl<'a> View for Interpreter<'a> {
    type V = State<'a>;

    closed spec fn view(&self) -> State<'a> {
        State {
            locals: self.locals@,
            chain: self.environments@,
            home: self.home,
            texts: Seq::new(self.texts.len() as nat, |i: int| self.texts[i]@),
            objects: Seq::new(self.instances.len() as nat, |i: int| self.instances[i]@),
            tasks: self.tasks@,
            values: self.values@,
            pending: self.pending,
        }
    }
}

/// Whether a step that left the machine in the state `after` and asked for
/// `asked` did what `expected` says.
pub open spec fn did<'a>(after: State<'a>, asked: Asked<'a>, expected: (State<'a>, Asked<'a>)) -> bool {
    after == expected.0 && asked == expected.1
}

fn label_of<'a>(v: Value<'a>) -> (r: String)
    ensures
        r@ == label(v),
{
    match v {
        Value::Boolean(b) => if b {
            String::from_str("true")
        } else {
            String::from_str("false")
        },
        Value::Nil => String::from_str("nil"),
        Value::NativeFunction { native } => {
            let mut out = String::from_str("<native fun ");
            out.append(native.as_str());
            out.append("/");
            push_decimal(&mut out, native.expects());
            out.append(">");
            out
        },
        Value::Function { name, params, .. } => {
            let mut out = String::from_str("<fun ");
            out.append(name.lexeme.as_str());
            out.append("/");
            push_decimal(&mut out, params.len());
            out.append(">");
            out
        },
        Value::Class { name, .. } => {
            let mut out = String::from_str("<cls ");
            out.append(name.lexeme.as_str());
            out.append(">");
            out
        },
        _ => String::new(),
    }
}

fn internal<'a>(msg: &str) -> (r: RuntimeError<'a>)
    ensures
        r@ == (Failure::Internal { msg: msg@ }),
{
    RuntimeError::Internal { msg: String::from_str(msg) }
}

fn unimplemented<'a>(msg: String) -> (r: RuntimeError<'a>)
    ensures
        r@ == (Failure::Unimplemented { msg: msg@ }),
{
    RuntimeError::Unimplemented { msg }
}

fn both(a: &str, b: &str) -> (r: String)
    ensures
        r@ == a@ + b@,
{
    let mut out = String::from_str(a);
    out.append(b);
    out
}

impl<'a> Interpreter<'a> {
    /// A machine for a program with the depth table `locals`: the global
    /// frame holds the native functions, and nothing is to do yet.
    pub fn new(locals: Locals) -> (r: Self)
        ensures
            r@ == initial::<'a>(locals@),
    {
        let r = Interpreter {
            locals,
            environments: EnvironmentStack::global(),
            home: 0,
            texts: Vec::new(),
            instances: Vec::new(),
            tasks: Vec::new(),
            values: Vec::new(),
            pending: Pending::Nothing,
        };
        assert(r@.texts =~= Seq::empty());
        assert(r@.objects =~= Seq::empty());
        r
    }

    fn fail(&mut self, why: RuntimeError<'a>) -> (r: Request<'a>)
        ensures
            did(final(self)@, r@, stop(old(self)@, why@)),
    {
        self.tasks.clear();
        self.values.clear();
        self.pending = Pending::Nothing;
        self.environments.enter(self.home);
        Request::Failed(why)
    }

    fn depth(&self, id: usize) -> (r: Option<usize>)
        ensures
            r == depth_for(self@, id),
    {
        match self.locals.get(&id) {
            Some(d) => Some(*d),
            None => None,
        }
    }

    fn intern(&mut self, text: String) -> (r: usize)
        ensures
            final(self)@ == (State { texts: old(self)@.texts.push(text@), ..old(self)@ }),
            r == old(self)@.texts.len(),
    {
        let handle = self.texts.len();
        self.texts.push(text);
        assert(self@.texts =~= old(self)@.texts.push(text@));
        handle
    }

    fn allocate(&mut self, class: Value<'a>, fields: Table<Value<'a>>) -> (r: usize)
        ensures
            final(self)@ == (State {
                objects: old(self)@.objects.push(Object { class, fields: fields@ }),
                ..old(self)@
            }),
            r == old(self)@.objects.len(),
    {
        let handle = self.instances.len();
        self.instances.push(Instance { class, fields });
        assert(self@.objects =~= old(self)@.objects.push(Object { class, fields: fields@ }));
        handle
    }

    /// The string behind the handle; the empty string where there is none.
    pub fn text(&self, handle: usize) -> (r: String)
        ensures
            r@ == text_at(self@, handle),
    {
        if handle < self.texts.len() {
            self.texts[handle].clone()
        } else {
            String::new()
        }
    }

    /// How a value other than a number is shown.
    pub fn show(&self, v: Value<'a>) -> (r: String)
        ensures
            r@ == display(self@, v),
    {
        match v {
            Value::String(h) => self.text(h),
            Value::Instance { handle } => {
                let mut out = String::from_str("<instance of ");
                if handle < self.instances.len() {
                    let class = label_of(self.instances[handle].class);
                    out.append(class.as_str());
                } else {
                    assert(out@ + Seq::<char>::empty() == out@);
                }
                out.append(">");
                out
            },
            _ => label_of(v),
        }
    }

    /// Whether two values that are not both numbers are equal.
    pub fn equal(&self, l: Value<'a>, r: Value<'a>) -> (b: bool)
        ensures
            b == same(self@, l, r),
    {
        match (l, r) {
            (Value::String(a), Value::String(b)) => self.text(a) == self.text(b),
            (Value::Boolean(a), Value::Boolean(b)) => a == b,
            (Value::Nil, Value::Nil) => true,
            (Value::NativeFunction { native: a }, Value::NativeFunction { native: b }) => a == b,
            (
                Value::Function { id: a, closure: c, .. },
                Value::Function { id: b, closure: d, .. },
            ) => a == b && c == d,
            (Value::Class { id: a, closure: c, .. }, Value::Class { id: b, closure: d, .. }) => a
                == b && c == d,
            (Value::Instance { handle: a }, Value::Instance { handle: b }) => a == b,
            _ => false,
        }
    }
}

impl<'a> Interpreter<'a> {
    fn literal(&mut self, token: &'a Token) -> (r: Request<'a>)
        ensures
            did(final(self)@, r@, literal(old(self)@, token)),
    {
        match token.typ {
            TokenType::Number => {
                self.pending = Pending::Parsed;
                Request::Parse { lexeme: token.lexeme.clone() }
            },
            TokenType::String => {
                let chars = chars_of(token.lexeme.as_str());
                let text = if chars.len() >= 2 {
                    string_of(&chars, 1, chars.len() - 1)
                } else {
                    token.lexeme.clone()
                };
                let handle = self.intern(text);
                self.values.push(Value::String(handle));
                Request::Continue
            },
            TokenType::True => {
                self.values.push(Value::Boolean(true));
                Request::Continue
            },
            TokenType::False => {
                self.values.push(Value::Boolean(false));
                Request::Continue
            },
            TokenType::Nil => {
                self.values.push(Value::Nil);
                Request::Continue
            },
            _ => self.fail(
                unimplemented(
                    both("Cannot get a literal value from token ", token.lexeme.as_str()),
                ),
            ),
        }
    }

    fn read(&mut self, id: usize, name: &'a Token) -> (r: Request<'a>)
        ensures
            did(final(self)@, r@, read(old(self)@, id, name)),
    {
        match self.environments.get(name.lexeme.as_str(), self.depth(id)) {
            Ok(v) => {
                self.values.push(v);
                Request::Continue
            },
            Err(e) => self.fail(e),
        }
    }

    fn start_evaluation(&mut self, expr: &'a Expr) -> (r: Request<'a>)
        ensures
            did(final(self)@, r@, evaluate(old(self)@, expr)),
    {
        match expr {
            Expr::Literal { value } => self.literal(value),
            Expr::Grouping { expr } => {
                self.tasks.push(Task::Evaluate(&**expr));
                Request::Continue
            },
            Expr::Unary { op, right } => {
                self.tasks.push(Task::Unary(op));
                self.tasks.push(Task::Evaluate(&**right));
                Request::Continue
            },
            Expr::Binary { left, op, right } => {
                self.tasks.push(Task::Binary(op));
                self.tasks.push(Task::Evaluate(&**right));
                self.tasks.push(Task::Evaluate(&**left));
                Request::Continue
            },
            Expr::Logical { left, op, right } => {
                self.tasks.push(Task::Logical { op, right: &**right });
                self.tasks.push(Task::Evaluate(&**left));
                Request::Continue
            },
            Expr::Variable { id, name } => self.read(*id, name),
            Expr::This { id, keyword } => self.read(*id, keyword),
            Expr::Assign { id, name, value } => {
                self.tasks.push(Task::Assign { id: *id, name });
                self.tasks.push(Task::Evaluate(&**value));
                Request::Continue
            },
            Expr::SetProperty { object, name, value } => {
                self.tasks.push(Task::SetField(name));
                self.tasks.push(Task::Evaluate(&**value));
                self.tasks.push(Task::RequireInstance);
                self.tasks.push(Task::Evaluate(&**object));
                Request::Continue
            },
            Expr::Call { callee, args } => {
                self.tasks.push(Task::Invoke { count: args.len() });
                self.tasks.push(Task::Arguments { args, next: 0 });
                self.tasks.push(Task::Evaluate(&**callee));
                Request::Continue
            },
            Expr::Get { object, name } => {
                self.tasks.push(Task::GetField(name));
                self.tasks.push(Task::Evaluate(&**object));
                Request::Continue
            },
        }
    }

    fn break_out(&mut self) -> (r: Request<'a>)
        ensures
            did(final(self)@, r@, break_out(old(self)@)),
    {
        let ghost start = self@;
        assert(start.tasks.take(start.tasks.len() as int) =~= start.tasks);
        loop
            invariant
                start == old(self)@,
                self@ == (State { tasks: self@.tasks, ..start }),
                self@.tasks == start.tasks.take(self@.tasks.len() as int),
                self@.tasks.len() <= start.tasks.len(),
                innermost_loop(start.tasks) == innermost_loop(self@.tasks),
            decreases self.tasks.len(),
        {
            let ghost before = self@.tasks;
            match self.tasks.pop() {
                None => {
                    return self.fail(RuntimeError::Break);
                },
                Some(Task::LoopNext { scope, height, .. }) => {
                    self.environments.enter(scope);
                    self.values.truncate(height);
                    assert(self@.tasks =~= start.tasks.take(before.len() - 1));
                    assert(start.tasks[before.len() - 1] == before.last());
                    return Request::Continue;
                },
                Some(_) => {
                    assert(self@.tasks =~= before.drop_last());
                    assert(self@.tasks =~= start.tasks.take(self@.tasks.len() as int));
                },
            }
        }
    }

    fn return_from(&mut self, v: Value<'a>) -> (r: Request<'a>)
        ensures
            did(final(self)@, r@, return_from(old(self)@, v)),
    {
        let ghost start = self@;
        assert(start.tasks.take(start.tasks.len() as int) =~= start.tasks);
        loop
            invariant
                start == old(self)@,
                self@ == (State { tasks: self@.tasks, ..start }),
                self@.tasks == start.tasks.take(self@.tasks.len() as int),
                self@.tasks.len() <= start.tasks.len(),
                innermost_call(start.tasks) == innermost_call(self@.tasks),
            decreases self.tasks.len(),
        {
            let ghost before = self@.tasks;
            match self.tasks.pop() {
                None => {
                    return self.fail(RuntimeError::Return { value: v });
                },
                Some(Task::CallEnd { scope, height }) => {
                    self.environments.enter(scope);
                    self.values.truncate(height);
                    self.values.push(v);
                    assert(self@.tasks =~= start.tasks.take(before.len() - 1));
                    assert(start.tasks[before.len() - 1] == before.last());
                    return Request::Continue;
                },
                Some(Task::InitEnd { scope, height, instance }) => {
                    self.environments.enter(scope);
                    self.values.truncate(height);
                    self.values.push(Value::Instance { handle: instance });
                    assert(self@.tasks =~= start.tasks.take(before.len() - 1));
                    assert(start.tasks[before.len() - 1] == before.last());
                    return Request::Continue;
                },
                Some(_) => {
                    assert(self@.tasks =~= before.drop_last());
                    assert(self@.tasks =~= start.tasks.take(self@.tasks.len() as int));
                },
            }
        }
    }

    fn start_execution(&mut self, stmt: &'a Stmt) -> (r: Request<'a>)
        ensures
            did(final(self)@, r@, execute(old(self)@, stmt)),
    {
        match stmt {
            Stmt::Block { stmts } => {
                self.environments.push();
                self.tasks.push(Task::EndBlock);
                self.tasks.push(Task::Sequence { stmts, next: 0 });
                Request::Continue
            },
            Stmt::Break => self.break_out(),
            Stmt::Class { id, name, methods } => {
                let closure = self.environments.current();
                self.environments.define(
                    name.lexeme.clone(),
                    Value::Class { id: *id, name, methods, closure },
                );
                Request::Continue
            },
            Stmt::Expression { expr } => {
                self.tasks.push(Task::Discard);
                self.tasks.push(Task::Evaluate(&**expr));
                Request::Continue
            },
            Stmt::Function { id, name, params, body } => {
                let closure = self.environments.current();
                self.environments.define(
                    name.lexeme.clone(),
                    Value::Function { id: *id, name, params, body, closure, method: false },
                );
                Request::Continue
            },
            Stmt::If { condition, then_branch, els } => {
                self.tasks.push(Task::Branch { then_branch: &**then_branch, els });
                self.tasks.push(Task::Evaluate(&**condition));
                Request::Continue
            },
            Stmt::Print { expr } => {
                self.tasks.push(Task::Print);
                self.tasks.push(Task::Evaluate(&**expr));
                Request::Continue
            },
            Stmt::Return { value } => {
                match value {
                    Some(e) => {
                        self.tasks.push(Task::Return);
                        self.tasks.push(Task::Evaluate(&**e));
                    },
                    None => {
                        self.values.push(Value::Nil);
                        self.tasks.push(Task::Return);
                    },
                }
                Request::Continue
            },
            Stmt::Var { name, initializer } => {
                match initializer {
                    Some(e) => {
                        self.tasks.push(Task::Define(name));
                        self.tasks.push(Task::Evaluate(&**e));
                    },
                    None => {
                        self.values.push(Value::Nil);
                        self.tasks.push(Task::Define(name));
                    },
                }
                Request::Continue
            },
            Stmt::While { condition, body } => {
                self.tasks.push(Task::LoopTest { condition: &**condition, body: &**body });
                self.tasks.push(Task::Evaluate(&**condition));
                Request::Continue
            },
        }
    }
}

fn arithmetic_for(op: TokenType) -> (r: Option<Arithmetic>)
    ensures
        r == arithmetic_of(op),
{
    match op {
        TokenType::Plus => Some(Arithmetic::Add),
        TokenType::Minus => Some(Arithmetic::Subtract),
        TokenType::Star => Some(Arithmetic::Multiply),
        TokenType::Slash => Some(Arithmetic::Divide),
        _ => None,
    }
}

fn comparison_for(op: TokenType) -> (r: Option<Comparison>)
    ensures
        r == comparison_of(op),
{
    match op {
        TokenType::Greater => Some(Comparison::Greater),
        TokenType::GreaterEqual => Some(Comparison::GreaterEqual),
        TokenType::Less => Some(Comparison::Less),
        TokenType::LessEqual => Some(Comparison::LessEqual),
        TokenType::EqualEqual => Some(Comparison::Equal),
        TokenType::BangEqual => Some(Comparison::NotEqual),
        _ => None,
    }
}

fn no_rule<'a>(l: Value<'a>, op: TokenType, r: Value<'a>) -> (e: RuntimeError<'a>)
    ensures
        e@ == (Failure::Unimplemented { msg: no_binary(l, op, r) }),
{
    let mut msg = String::from_str("Binary operation not implemented: ");
    msg.append(l.as_ref());
    msg.append(" ");
    msg.append(op.as_str());
    msg.append(" ");
    msg.append(r.as_ref());
    RuntimeError::Unimplemented { msg }
}

impl<'a> Interpreter<'a> {
    fn take(&mut self) -> (v: Value<'a>)
        requires
            old(self)@.values.len() >= 1,
        ensures
            final(self)@ == drop(old(self)@),
            v == old(self)@.values.last(),
    {
        let v = self.values.pop().unwrap();
        assert(self@.values =~= old(self)@.values.drop_last());
        v
    }

    fn top(&self) -> (v: Value<'a>)
        requires
            self@.values.len() >= 1,
        ensures
            v == self@.values.last(),
    {
        self.values[self.values.len() - 1]
    }

    fn branch(&mut self, then_branch: &'a Stmt, els: &'a Option<Box<Stmt>>) -> (r: Request<'a>)
        requires
            old(self)@.values.len() >= 1,
        ensures
            did(final(self)@, r@, branch(old(self)@, then_branch, els)),
    {
        let v = self.take();
        if v.is_truthy() {
            self.tasks.push(Task::Execute(then_branch));
        } else {
            match els {
                Some(e) => {
                    self.tasks.push(Task::Execute(&**e));
                },
                None => {},
            }
        }
        Request::Continue
    }

    fn print(&mut self) -> (r: Request<'a>)
        requires
            old(self)@.values.len() >= 1,
        ensures
            did(final(self)@, r@, print(old(self)@)),
    {
        match self.top() {
            Value::Number(x) => {
                self.take();
                self.pending = Pending::Shown;
                Request::Format { value: x }
            },
            v => {
                let mut text = self.show(v);
                text.push('\n');
                self.take();
                self.pending = Pending::Written;
                Request::Print { text }
            },
        }
    }

    fn loop_test(&mut self, condition: &'a Expr, body: &'a Stmt) -> (r: Request<'a>)
        requires
            old(self)@.values.len() >= 1,
        ensures
            did(final(self)@, r@, loop_test(old(self)@, condition, body)),
    {
        let v = self.take();
        if v.is_truthy() {
            self.tasks.push(
                Task::LoopNext {
                    condition,
                    body,
                    scope: self.environments.current(),
                    height: self.values.len(),
                },
            );
            self.tasks.push(Task::Execute(body));
        }
        Request::Continue
    }

    fn unary(&mut self, op: &'a Token) -> (r: Request<'a>)
        requires
            old(self)@.values.len() >= 1,
        ensures
            did(final(self)@, r@, unary(old(self)@, op)),
    {
        let v = self.top();
        match op.typ {
            TokenType::Minus => match v {
                Value::Number(x) => {
                    self.take();
                    self.pending = Pending::Number;
                    Request::Negate { value: x }
                },
                _ => self.fail(unimplemented(String::from_str("Cannot negate non-number"))),
            },
            TokenType::Bang => {
                self.take();
                self.values.push(Value::Boolean(!v.is_truthy()));
                Request::Continue
            },
            _ => self.fail(
                unimplemented(both("Unary operator not implemented: ", op.lexeme.as_str())),
            ),
        }
    }

    fn binary(&mut self, op: &'a Token) -> (r: Request<'a>)
        requires
            old(self)@.values.len() >= 2,
        ensures
            did(final(self)@, r@, binary(old(self)@, op)),
    {
        let n = self.values.len();
        let right = self.values[n - 1];
        let left = self.values[n - 2];
        match (left, right) {
            (Value::Number(a), Value::Number(b)) => match arithmetic_for(op.typ) {
                Some(o) => {
                    self.take();
                    self.take();
                    self.pending = Pending::Number;
                    Request::Calculate { op: o, left: a, right: b }
                },
                None => match comparison_for(op.typ) {
                    Some(o) => {
                        self.take();
                        self.take();
                        self.pending = Pending::Truth;
                        Request::Compare { op: o, left: a, right: b }
                    },
                    None => self.fail(no_rule(left, op.typ, right)),
                },
            },
            (Value::String(a), Value::String(b)) if op.typ == TokenType::Plus => {
                let mut text = self.text(a);
                let second = self.text(b);
                text.append(second.as_str());
                self.take();
                self.take();
                let handle = self.intern(text);
                self.values.push(Value::String(handle));
                Request::Continue
            },
            _ => {
                if op.typ == TokenType::EqualEqual {
                    let b = self.equal(left, right);
                    self.take();
                    self.take();
                    self.values.push(Value::Boolean(b));
                    Request::Continue
                } else if op.typ == TokenType::BangEqual {
                    let b = self.equal(left, right);
                    self.take();
                    self.take();
                    self.values.push(Value::Boolean(!b));
                    Request::Continue
                } else {
                    self.fail(no_rule(left, op.typ, right))
                }
            },
        }
    }

    fn logical(&mut self, op: &'a Token, right: &'a Expr) -> (r: Request<'a>)
        requires
            old(self)@.values.len() >= 1,
        ensures
            did(final(self)@, r@, logical(old(self)@, op, right)),
    {
        let decided = match op.typ {
            TokenType::Or => self.top().is_truthy(),
            TokenType::And => !self.top().is_truthy(),
            _ => {
                return self.fail(
                    unimplemented(
                        both("Logical operator not implemented: ", op.lexeme.as_str()),
                    ),
                );
            },
        };
        if !decided {
            self.take();
            self.tasks.push(Task::Evaluate(right));
        }
        Request::Continue
    }

    fn assign(&mut self, id: usize, name: &'a Token) -> (r: Request<'a>)
        requires
            old(self)@.values.len() >= 1,
        ensures
            did(final(self)@, r@, assign(old(self)@, id, name)),
    {
        let v = self.top();
        let depth = self.depth(id);
        match self.environments.assign(name.lexeme.as_str(), v, depth) {
            Ok(_) => Request::Continue,
            Err(e) => self.fail(e),
        }
    }

    fn require_instance(&mut self) -> (r: Request<'a>)
        requires
            old(self)@.values.len() >= 1,
        ensures
            did(final(self)@, r@, require_instance(old(self)@)),
    {
        match self.top() {
            Value::Instance { .. } => Request::Continue,
            _ => self.fail(RuntimeError::OnlyInstancesHaveAttributes),
        }
    }

    fn set_field(&mut self, name: &'a Token) -> (r: Request<'a>)
        requires
            old(self)@.values.len() >= 2,
        ensures
            did(final(self)@, r@, set_field(old(self)@, name)),
    {
        let n = self.values.len();
        let v = self.values[n - 1];
        match self.values[n - 2] {
            Value::Instance { handle } => {
                if handle < self.instances.len() {
                    self.instances[handle].fields.insert(name.lexeme.clone(), v);
                    assert(self@.objects =~= old(self)@.objects.update(
                        handle as int,
                        Object {
                            fields: old(self)@.objects[handle as int].fields.insert(name.lexeme@, v),
                            ..old(self)@.objects[handle as int]
                        },
                    ));
                    self.take();
                    self.take();
                    self.values.push(v);
                    Request::Continue
                } else {
                    self.fail(internal("Handle without a value"))
                }
            },
            _ => self.fail(RuntimeError::OnlyInstancesHaveAttributes),
        }
    }

    fn get_field(&mut self, name: &'a Token) -> (r: Request<'a>)
        requires
            old(self)@.values.len() >= 1,
        ensures
            did(final(self)@, r@, get_field(old(self)@, name)),
    {
        let receiver = self.top();
        match receiver {
            Value::Instance { handle } => {
                if handle < self.instances.len() {
                    match self.instances[handle].fields.get(name.lexeme.as_str()) {
                        Some(
                            Value::Function { id, name: declared, params, body, closure, method },
                        ) => {
                            if method {
                                let frame = self.environments.extend(closure);
                                self.environments.store(frame, String::from_str("this"), receiver);
                                self.take();
                                self.values.push(
                                    Value::Function {
                                        id,
                                        name: declared,
                                        params,
                                        body,
                                        closure: frame,
                                        method: false,
                                    },
                                );
                            } else {
                                self.take();
                                self.values.push(
                                    Value::Function {
                                        id,
                                        name: declared,
                                        params,
                                        body,
                                        closure,
                                        method,
                                    },
                                );
                            }
                            Request::Continue
                        },
                        Some(v) => {
                            self.take();
                            self.values.push(v);
                            Request::Continue
                        },
                        None => self.fail(
                            RuntimeError::UndefinedVariable { name: name.lexeme.clone() },
                        ),
                    }
                } else {
                    self.fail(internal("Handle without a value"))
                }
            },
            _ => self.fail(RuntimeError::OnlyInstancesHaveAttributes),
        }
    }
}

fn methods_of<'a>(methods: &'a Vec<Stmt>, closure: usize) -> (r: Table<Value<'a>>)
    ensures
        r@ == method_table(methods, closure, methods@.len() as int),
{
    let mut table: Table<Value<'a>> = Table::new();
    let mut i: usize = 0;
    while i < methods.len()
        invariant
            i <= methods.len(),
            table@ == method_table(methods, closure, i as int),
        decreases methods.len() - i,
    {
        match &methods[i] {
            Stmt::Function { id, name, params, body } => {
                table.insert(
                    name.lexeme.clone(),
                    Value::Function { id: *id, name, params, body, closure, method: true },
                );
            },
            _ => {},
        }
        i += 1;
    }
    table
}

impl<'a> Interpreter<'a> {
    fn call(
        &mut self,
        params: &'a Vec<Token>,
        body: &'a Vec<Stmt>,
        closure: usize,
        base: usize,
        end: Task<'a>,
    )
        requires
            old(self)@.values.len() == base + 1 + params@.len(),
        ensures
            final(self)@ == call_function(
                State { values: old(self)@.values.take(base as int), ..old(self)@ },
                params,
                body,
                closure,
                old(self)@.values.subrange(base + 1, old(self)@.values.len() as int),
                end,
            ),
    {
        let ghost start = self@;
        let ghost args = start.values.subrange(base + 1, start.values.len() as int);
        let frame = self.environments.extend(closure);
        let mut i: usize = 0;
        while i < params.len()
            invariant
                i <= params.len(),
                start.values.len() == base + 1 + params@.len(),
                self.values@ == start.values,
                self.values.len() == base + 1 + params.len(),
                args == start.values.subrange(base + 1, start.values.len() as int),
                self@ == (State { chain: self@.chain, ..start }),
                self@.chain == bind(
                    extended(start.chain, closure),
                    frame,
                    params@,
                    args,
                    i as int,
                ),
            decreases params.len() - i,
        {
            self.environments.store(frame, params[i].lexeme.clone(), self.values[base + 1 + i]);
            i += 1;
        }
        self.environments.enter(frame);
        self.values.truncate(base);
        self.tasks.push(end);
        self.tasks.push(Task::Sequence { stmts: body, next: 0 });
    }

    fn invoke(&mut self, count: usize) -> (r: Request<'a>)
        requires
            old(self)@.values.len() >= count + 1,
        ensures
            did(final(self)@, r@, invoke(old(self)@, count)),
    {
        let n = self.values.len();
        let base = n - count - 1;
        let callee = self.values[base];
        match callee {
            Value::NativeFunction { native } => {
                if count != native.expects() {
                    return self.fail(
                        RuntimeError::WrongNumberOfArgs { arity: native.expects(), got: count },
                    );
                }
                match native {
                    Native::Clock => {
                        self.values.truncate(base);
                        self.pending = Pending::Number;
                        Request::Clock
                    },
                    Native::Tsp2Cup => match self.values[base + 1] {
                        Value::Number(x) => {
                            self.values.truncate(base);
                            self.pending = Pending::Number;
                            Request::Calculate {
                                op: Arithmetic::Divide,
                                left: x,
                                right: TEASPOONS_PER_CUP,
                            }
                        },
                        _ => self.fail(
                            unimplemented(
                                both("Native function expects a number: ", native.as_str()),
                            ),
                        ),
                    },
                }
            },
            Value::Function { params, body, closure, .. } => {
                if count != params.len() {
                    self.fail(RuntimeError::WrongNumberOfArgs { arity: params.len(), got: count })
                } else {
                    let scope = self.environments.current();
                    self.call(params, body, closure, base, Task::CallEnd { scope, height: base });
                    Request::Continue
                }
            },
            Value::Class { methods, closure, .. } => {
                let fields = methods_of(methods, closure);
                match fields.get("init") {
                    Some(Value::Function { params, body, closure: outer, .. }) => {
                        if count != params.len() {
                            self.fail(
                                RuntimeError::WrongNumberOfArgs { arity: params.len(), got: count },
                            )
                        } else {
                            let scope = self.environments.current();
                            let handle = self.allocate(callee, fields);
                            let this_frame = self.environments.extend(outer);
                            self.environments.store(
                                this_frame,
                                String::from_str("this"),
                                Value::Instance { handle },
                            );
                            self.call(
                                params,
                                body,
                                this_frame,
                                base,
                                Task::InitEnd { scope, height: base, instance: handle },
                            );
                            Request::Continue
                        }
                    },
                    _ => {
                        if count != 0 {
                            self.fail(RuntimeError::WrongNumberOfArgs { arity: 0, got: count })
                        } else {
                            let handle = self.allocate(callee, fields);
                            self.values.truncate(base);
                            self.values.push(Value::Instance { handle });
                            Request::Continue
                        }
                    },
                }
            },
            Value::Number(x) => {
                self.values.truncate(base);
                self.pending = Pending::Uncallable;
                Request::Format { value: x }
            },
            _ => {
                let typ = self.show(callee);
                self.fail(RuntimeError::NotCallable { typ })
            },
        }
    }

    fn resume(&mut self, event: Event) -> (r: Request<'a>)
        ensures
            did(final(self)@, r@, resume(old(self)@, event@)),
    {
        match (self.pending, event) {
            (Pending::Parsed, Event::Number(x)) => {
                self.pending = Pending::Nothing;
                self.values.push(Value::Number(x));
                Request::Continue
            },
            (Pending::Parsed, Event::Refused) => self.fail(
                unimplemented(String::from_str("Invalid number")),
            ),
            (Pending::Number, Event::Number(x)) => {
                self.pending = Pending::Nothing;
                self.values.push(Value::Number(x));
                Request::Continue
            },
            (Pending::Truth, Event::Boolean(b)) => {
                self.pending = Pending::Nothing;
                self.values.push(Value::Boolean(b));
                Request::Continue
            },
            (Pending::Shown, Event::Text(t)) => {
                let mut text = t;
                text.push('\n');
                self.pending = Pending::Written;
                Request::Print { text }
            },
            (Pending::Written, Event::Written) => {
                self.pending = Pending::Nothing;
                Request::Continue
            },
            (Pending::Written, Event::Refused) => self.fail(RuntimeError::PrintFailed),
            (Pending::Uncallable, Event::Text(t)) => self.fail(RuntimeError::NotCallable { typ: t }),
            _ => self.fail(internal("Unexpected reply")),
        }
    }

    fn enough(&self, task: &Task<'a>) -> (r: bool)
        ensures
            r == (self@.values.len() >= needs(*task)),
    {
        let n = self.values.len();
        match task {
            Task::Discard => n >= 1,
            Task::Branch { .. } => n >= 1,
            Task::Print => n >= 1,
            Task::Define(_) => n >= 1,
            Task::LoopTest { .. } => n >= 1,
            Task::Return => n >= 1,
            Task::Unary(_) => n >= 1,
            Task::Binary(_) => n >= 2,
            Task::Logical { .. } => n >= 1,
            Task::Assign { .. } => n >= 1,
            Task::RequireInstance => n >= 1,
            Task::SetField(_) => n >= 2,
            Task::GetField(_) => n >= 1,
            Task::Invoke { count } => n > *count,
            _ => true,
        }
    }

    fn perform(&mut self, task: Task<'a>) -> (r: Request<'a>)
        requires
            old(self)@.values.len() >= needs(task),
        ensures
            did(final(self)@, r@, perform(old(self)@, task)),
    {
        match task {
            Task::Execute(stmt) => self.start_execution(stmt),
            Task::Sequence { stmts, next } => {
                if next < stmts.len() {
                    self.tasks.push(Task::Sequence { stmts, next: next + 1 });
                    self.tasks.push(Task::Execute(&stmts[next]));
                }
                Request::Continue
            },
            Task::EndBlock => {
                self.environments.pop();
                Request::Continue
            },
            Task::Evaluate(expr) => self.start_evaluation(expr),
            Task::Arguments { args, next } => {
                if next < args.len() {
                    self.tasks.push(Task::Arguments { args, next: next + 1 });
                    self.tasks.push(Task::Evaluate(&args[next]));
                }
                Request::Continue
            },
            Task::Discard => {
                self.take();
                Request::Continue
            },
            Task::Branch { then_branch, els } => self.branch(then_branch, els),
            Task::Print => self.print(),
            Task::Define(name) => {
                let v = self.take();
                self.environments.define(name.lexeme.clone(), v);
                Request::Continue
            },
            Task::LoopTest { condition, body } => self.loop_test(condition, body),
            Task::LoopNext { condition, body, .. } => {
                self.tasks.push(Task::LoopTest { condition, body });
                self.tasks.push(Task::Evaluate(condition));
                Request::Continue
            },
            Task::Return => {
                let v = self.take();
                self.return_from(v)
            },
            Task::CallEnd { scope, .. } => {
                self.environments.enter(scope);
                self.values.push(Value::Nil);
                Request::Continue
            },
            Task::InitEnd { scope, instance, .. } => {
                self.environments.enter(scope);
                self.values.push(Value::Instance { handle: instance });
                Request::Continue
            },
            Task::Unary(op) => self.unary(op),
            Task::Binary(op) => self.binary(op),
            Task::Logical { op, right } => self.logical(op, right),
            Task::Assign { id, name } => self.assign(id, name),
            Task::RequireInstance => self.require_instance(),
            Task::SetField(name) => self.set_field(name),
            Task::GetField(name) => self.get_field(name),
            Task::Invoke { count } => self.invoke(count),
        }
    }

    /// One step of the machine: what `event` answers is taken in, or the next
    /// task is done. The result is what the host is to do before the next
    /// step.
    pub fn step(&mut self, event: Event) -> (r: Request<'a>)
        ensures
            did(final(self)@, r@, step(old(self)@, event@)),
    {
        if self.pending != Pending::Nothing {
            return self.resume(event);
        }
        match self.tasks.pop() {
            None => Request::Done,
            Some(task) => {
                assert(self@.tasks =~= old(self)@.tasks.drop_last());
                if self.enough(&task) {
                    self.perform(task)
                } else {
                    self.fail(internal("Too few operands"))
                }
            },
        }
    }

    /// Puts a program on the machine: its statements are the next work. Where
    /// that work fails, the frame that is the innermost now is the innermost
    /// again.
    pub fn interpret(&mut self, statements: &'a Vec<Stmt>)
        ensures
            final(self)@ == begin(old(self)@, Task::Sequence { stmts: statements, next: 0 }),
    {
        self.home = self.environments.current();
        self.tasks.push(Task::Sequence { stmts: statements, next: 0 });
    }

    /// Puts a statement on the machine as the next work. Where that work
    /// fails, the frame that is the innermost now is the innermost again.
    pub fn execute(&mut self, stmt: &'a Stmt)
        ensures
            final(self)@ == begin(old(self)@, Task::Execute(stmt)),
    {
        self.home = self.environments.current();
        self.tasks.push(Task::Execute(stmt));
    }

    /// Puts an expression on the machine as the next work. When that work is
    /// done, the value of the expression is the topmost operand. Where it
    /// fails, the frame that is the innermost now is the innermost again.
    pub fn evaluate(&mut self, expr: &'a Expr)
        ensures
            final(self)@ == begin(old(self)@, Task::Evaluate(expr)),
    {
        self.home = self.environments.current();
        self.tasks.push(Task::Evaluate(expr));
    }

    /// The topmost operand, if there is one.
    pub fn result(&self) -> (r: Option<Value<'a>>)
        ensures
            r == (if self@.values.len() > 0 {
                Some(self@.values.last())
            } else {
                None
            }),
    {
        if self.values.len() > 0 {
            Some(self.top())
        } else {
            None
        }
    }
}

impl<'a> Interpreter<'a> {
    /// Steps in a row: one step with the host's reply, and after it up to
    /// `more` steps, for as long as the machine asks nothing of the host.
    pub fn run(&mut self, event: Event, more: usize) -> (r: Request<'a>)
        ensures
            did(final(self)@, r@, run(old(self)@, event@, more as nat)),
    {
        let mut request = self.step(event);
        let mut left: usize = more;
        let mut going: bool = left > 0 && matches!(request, Request::Continue);
        while going
            invariant
                going == (left > 0 && request@ is Continue),
                run(old(self)@, event@, more as nat) == (if going {
                    run(self@, Reply::Resume, (left - 1) as nat)
                } else {
                    (self@, request@)
                }),
            decreases left,
        {
            request = self.step(Event::Resume);
            left -= 1;
            going = left > 0 && matches!(request, Request::Continue);
        }
        request
    }
}

impl<'a> Interpreter<'a> {
    fn turn(&mut self, streams: &mut Streams, event: Event) -> (r: Request<'a>)
        ensures
            (final(self)@, final(streams).output@, r@) == turn(
                old(self)@,
                old(streams).output@,
                event@,
            ),
            final(streams).input@ == old(streams).input@,
            final(streams).error@ == old(streams).error@,
    {
        match self.step(event) {
            Request::Print { text } => {
                streams.write_output(text.as_str());
                self.step(Event::Written)
            },
            other => other,
        }
    }

    /// Runs the machine as `run` does, and writes what the program prints
    /// to the output of `streams` itself. Only what the machine cannot do,
    /// numbers and the clock, comes back as a request.
    pub fn run_on(&mut self, streams: &mut Streams, event: Event, more: usize) -> (r: Request<'a>)
        ensures
            (final(self)@, final(streams).output@, r@) == run_on(
                old(self)@,
                old(streams).output@,
                event@,
                more as nat,
            ),
            final(streams).input@ == old(streams).input@,
            final(streams).error@ == old(streams).error@,
    {
        let mut request = self.turn(streams, event);
        let mut left: usize = more;
        let mut going: bool = left > 0 && matches!(request, Request::Continue);
        while going
            invariant
                going == (left > 0 && request@ is Continue),
                streams.input@ == old(streams).input@,
                streams.error@ == old(streams).error@,
                run_on(old(self)@, old(streams).output@, event@, more as nat) == (if going {
                    run_on(self@, streams.output@, Reply::Resume, (left - 1) as nat)
                } else {
                    (self@, streams.output@, request@)
                }),
            decreases left,
        {
            request = self.turn(streams, Event::Resume);
            left -= 1;
            going = left > 0 && matches!(request, Request::Continue);
        }
        request
    }
}

} // verus!
