//! What no step of the machine undoes: frames, strings and instances are
//! made and never discarded, a frame keeps the frame around it, and the depth
//! table is never written. And what a failure undoes: the frames that the
//! work had opened or entered are left, whatever they hold.
use crate::shared::scanner::Token;
use crate::walker::ast::{Expr, Stmt};
use crate::walker::environment::{ancestor, entered, extended, stored, Chain};
use crate::walker::machine::{
    assign, binary, bind, branch, break_out, call_function, evaluate, execute, get_field, invoke,
    begin, literal, logical, loop_test, perform, print, read, require_instance, resume, return_from,
    proceed, push, run, run_on, turn,
    set_field, step, unary, Asked, Pending, Reply, State, Task,
};
use crate::walker::values::Value;
use vstd::prelude::*;

verus! {

/// Every frame of `before` is still there in `after`, inside the same frame.
pub open spec fn frames_kept<'a>(before: Chain<'a>, after: Chain<'a>) -> bool {
    &&& before.frames.len() <= after.frames.len()
    &&& forall|i: int|
        0 <= i < before.frames.len() ==> (#[trigger] after.frames[i]).enclosing
            == before.frames[i].enclosing
}

/// The state `after` has kept what `before` had: the depth table as it was,
/// the frame in which the work began, every frame inside the frame it was
/// in, every string as it was, and every instance with its class.
pub open spec fn kept<'a>(before: State<'a>, after: State<'a>) -> bool {
    &&& after.locals == before.locals
    &&& after.home == before.home
    &&& frames_kept(before.chain, after.chain)
    &&& before.texts.len() <= after.texts.len()
    &&& forall|i: int| 0 <= i < before.texts.len() ==> #[trigger] after.texts[i] == before.texts[i]
    &&& before.objects.len() <= after.objects.len()
    &&& forall|i: int|
        0 <= i < before.objects.len() ==> (#[trigger] after.objects[i]).class
            == before.objects[i].class
}

/// Every instance of `before` is in `after` what it was.
pub open spec fn objects_kept<'a>(before: State<'a>, after: State<'a>) -> bool {
    &&& before.objects.len() <= after.objects.len()
    &&& forall|i: int| 0 <= i < before.objects.len() ==> #[trigger] after.objects[i] == before.objects[i]
}

/// Whether a step from the state `before`, if it failed, has left every frame
/// that the work had opened or entered: the innermost frame is the one in
/// which the work began, the frames are as they were before the step, and no
/// work, no operand and no request is left.
pub open spec fn unwound<'a>(before: State<'a>, after: (State<'a>, Asked<'a>)) -> bool {
    after.1 is Failed ==> {
        &&& after.0.chain == entered(before.chain, before.home)
        &&& after.0.tasks.len() == 0
        &&& after.0.values.len() == 0
        &&& after.0.pending == Pending::Nothing
    }
}

/// Binding parameters writes into one frame and moves none.
pub proof fn lemma_bind_keeps_frames<'a>(
    chain: Chain<'a>,
    handle: usize,
    params: Seq<Token>,
    args: Seq<Value<'a>>,
    upto: int,
)
    ensures
        frames_kept(chain, bind(chain, handle, params, args, upto)),
        bind(chain, handle, params, args, upto).frames.len() == chain.frames.len(),
        bind(chain, handle, params, args, upto).current == chain.current,
    decreases upto,
{
    if !(upto <= 0 || upto > params.len() || upto > args.len()) {
        lemma_bind_keeps_frames(chain, handle, params, args, upto - 1);
    }
}

/// A call makes one frame and keeps all others.
pub proof fn lemma_call_keeps<'a>(
    s: State<'a>,
    params: &'a Vec<Token>,
    body: &'a Vec<Stmt>,
    closure: usize,
    args: Seq<Value<'a>>,
    end: Task<'a>,
)
    ensures
        kept(s, call_function(s, params, body, closure, args, end)),
{
    let handle = s.chain.frames.len() as usize;
    lemma_bind_keeps_frames(extended(s.chain, closure), handle, params@, args, params@.len() as int);
}

/// A call runs the body in a new frame that lies directly inside the frame
/// in which the function was declared: the closure's frames themselves, not
/// copies of them, are what the body reads and writes.
pub proof fn lemma_call_shares_the_closure<'a>(
    s: State<'a>,
    params: &'a Vec<Token>,
    body: &'a Vec<Stmt>,
    closure: usize,
    args: Seq<Value<'a>>,
    end: Task<'a>,
)
    requires
        s.chain.frames.len() < usize::MAX,
    ensures
        ({
            let called = call_function(s, params, body, closure, args, end).chain;
            &&& called.current == s.chain.frames.len()
            &&& called.frames.len() == s.chain.frames.len() + 1
            &&& called.frames[called.current as int].enclosing == Some(closure)
        }),
{
    let handle = s.chain.frames.len() as usize;
    let made = extended(s.chain, closure);
    lemma_bind_keeps_frames(made, handle, params@, args, params@.len() as int);
    assert(made.frames[handle as int].enclosing == Some(closure));
}

/// The way outward from a frame is settled when the frame is made: the frame
/// that lies `depth` frames out from a frame is the same ever after.
pub proof fn lemma_ancestors_stay<'a>(before: Chain<'a>, after: Chain<'a>, from: usize, depth: nat)
    requires
        frames_kept(before, after),
        ancestor(before.frames, from, depth) is Some,
    ensures
        ancestor(after.frames, from, depth) == ancestor(before.frames, from, depth),
    decreases depth,
{
    if depth > 0 {
        match before.frames[from as int].enclosing {
            Some(outer) => {
                assert(after.frames[from as int].enclosing == Some(outer));
                lemma_ancestors_stay(before, after, outer, (depth - 1) as nat);
            },
            None => {},
        }
    }
}

/// Every call of a function reaches the same frames. A reference in the body
/// that lies `depth` scopes inside the scope of its variable is read, at
/// every call, in the frame that lies that far out from the frame of the
/// call, which is the frame `depth - 1` frames out from the one in which the
/// function was declared. That frame is the same at a call in the state `s`
/// and at a call in any later state `t`, whatever was declared in between,
/// in whatever frame, and from whatever frame the call is made.
pub proof fn lemma_every_call_reaches_the_same_frames<'a>(
    s: State<'a>,
    t: State<'a>,
    params: &'a Vec<Token>,
    body: &'a Vec<Stmt>,
    closure: usize,
    first: (Seq<Value<'a>>, Task<'a>),
    second: (Seq<Value<'a>>, Task<'a>),
    depth: nat,
)
    requires
        kept(s, t),
        t.chain.frames.len() < usize::MAX,
        depth >= 1,
        ancestor(s.chain.frames, closure, (depth - 1) as nat) is Some,
    ensures
        ({
            let early = call_function(s, params, body, closure, first.0, first.1).chain;
            let late = call_function(t, params, body, closure, second.0, second.1).chain;
            let found = ancestor(s.chain.frames, closure, (depth - 1) as nat);
            &&& ancestor(early.frames, early.current, depth) == found
            &&& ancestor(late.frames, late.current, depth) == found
        }),
{
    let early = call_function(s, params, body, closure, first.0, first.1).chain;
    let late = call_function(t, params, body, closure, second.0, second.1).chain;
    let above = (depth - 1) as nat;
    lemma_call_shares_the_closure(s, params, body, closure, first.0, first.1);
    lemma_call_shares_the_closure(t, params, body, closure, second.0, second.1);
    lemma_call_keeps(s, params, body, closure, first.0, first.1);
    lemma_call_keeps(t, params, body, closure, second.0, second.1);
    lemma_ancestors_stay(s.chain, early, closure, above);
    lemma_ancestors_stay(s.chain, t.chain, closure, above);
    lemma_ancestors_stay(t.chain, late, closure, above);
}

/// `break` keeps the store.
pub proof fn lemma_break_keeps<'a>(s: State<'a>)
    ensures
        kept(s, break_out(s).0),
        unwound(s, break_out(s)),
        objects_kept(s, break_out(s).0),
{
}

/// `return` keeps the store.
pub proof fn lemma_return_keeps<'a>(s: State<'a>, v: Value<'a>)
    ensures
        kept(s, return_from(s, v).0),
        unwound(s, return_from(s, v)),
        objects_kept(s, return_from(s, v).0),
{
}

/// The start of an expression keeps the store.
pub proof fn lemma_evaluate_keeps<'a>(s: State<'a>, expr: &'a Expr)
    ensures
        kept(s, evaluate(s, expr).0),
        unwound(s, evaluate(s, expr)),
        objects_kept(s, evaluate(s, expr).0),
{
    match expr {
        Expr::Literal { value } => {
            assert(kept(s, literal(s, value).0));
        },
        Expr::Variable { id, name } => {
            assert(kept(s, read(s, *id, name).0));
        },
        Expr::This { id, keyword } => {
            assert(kept(s, read(s, *id, keyword).0));
        },
        _ => {},
    }
}

/// The start of a statement keeps the store.
pub proof fn lemma_execute_keeps<'a>(s: State<'a>, stmt: &'a Stmt)
    ensures
        kept(s, execute(s, stmt).0),
        unwound(s, execute(s, stmt)),
        objects_kept(s, execute(s, stmt).0),
{
    match stmt {
        Stmt::Break => {
            lemma_break_keeps(s);
        },
        _ => {},
    }
}

/// A binary operator keeps the store.
pub proof fn lemma_binary_keeps<'a>(s: State<'a>, op: &'a Token)
    requires
        s.values.len() >= 2,
    ensures
        kept(s, binary(s, op).0),
        unwound(s, binary(s, op)),
        objects_kept(s, binary(s, op).0),
{
}

/// Setting a property keeps the store.
pub proof fn lemma_set_field_keeps<'a>(s: State<'a>, name: &'a Token)
    requires
        s.values.len() >= 2,
    ensures
        kept(s, set_field(s, name).0),
        unwound(s, set_field(s, name)),
{
}

/// Reading a property keeps the store.
pub proof fn lemma_get_field_keeps<'a>(s: State<'a>, name: &'a Token)
    requires
        s.values.len() >= 1,
    ensures
        kept(s, get_field(s, name).0),
        unwound(s, get_field(s, name)),
        objects_kept(s, get_field(s, name).0),
{
}

/// A call keeps the store.
pub proof fn lemma_invoke_keeps<'a>(s: State<'a>, count: usize)
    requires
        s.values.len() >= count + 1,
    ensures
        kept(s, invoke(s, count).0),
        unwound(s, invoke(s, count)),
        objects_kept(s, invoke(s, count).0),
{
    let base = s.values.len() - count - 1;
    let callee = s.values[base];
    let args = s.values.subrange(base + 1, s.values.len() as int);
    let rest = State { values: s.values.take(base), ..s };
    match callee {
        Value::Function { params, body, closure, .. } => {
            lemma_call_keeps(
                rest,
                params,
                body,
                closure,
                args,
                Task::CallEnd { scope: s.chain.current, height: base as usize },
            );
        },
        Value::Class { methods, closure, .. } => {
            let fields = crate::walker::machine::method_table(
                methods,
                closure,
                methods@.len() as int,
            );
            if fields.contains_key("init"@) {
                match fields["init"@] {
                    Value::Function { params, body, closure: outer, .. } => {
                        let handle = s.objects.len() as usize;
                        let instance = Value::Instance { handle };
                        let made = State {
                            objects: s.objects.push(
                                crate::walker::machine::Object { class: callee, fields },
                            ),
                            ..rest
                        };
                        let this_frame = s.chain.frames.len() as usize;
                        let bound = State {
                            chain: stored(extended(s.chain, outer), this_frame, "this"@, instance),
                            ..made
                        };
                        lemma_call_keeps(
                            bound,
                            params,
                            body,
                            this_frame,
                            args,
                            Task::InitEnd {
                                scope: s.chain.current,
                                height: base as usize,
                                instance: handle,
                            },
                        );
                        assert(kept(s, bound));
                    },
                    _ => {},
                }
            }
        },
        _ => {},
    }
}

/// Doing a task keeps the store.
pub proof fn lemma_perform_keeps<'a>(s: State<'a>, task: Task<'a>)
    requires
        s.values.len() >= crate::walker::machine::needs(task),
    ensures
        kept(s, perform(s, task).0),
        unwound(s, perform(s, task)),
        !(task is SetField) ==> objects_kept(s, perform(s, task).0),
{
    match task {
        Task::Execute(stmt) => {
            lemma_execute_keeps(s, stmt);
        },
        Task::Evaluate(expr) => {
            lemma_evaluate_keeps(s, expr);
        },
        Task::Branch { then_branch, els } => {
            assert(kept(s, branch(s, then_branch, els).0));
        },
        Task::Print => {
            assert(kept(s, print(s).0));
        },
        Task::LoopTest { condition, body } => {
            assert(kept(s, loop_test(s, condition, body).0));
        },
        Task::Return => {
            lemma_return_keeps(crate::walker::machine::drop(s), s.values.last());
        },
        Task::Unary(op) => {
            assert(kept(s, unary(s, op).0));
        },
        Task::Binary(op) => {
            lemma_binary_keeps(s, op);
        },
        Task::Logical { op, right } => {
            assert(kept(s, logical(s, op, right).0));
        },
        Task::Assign { id, name } => {
            assert(kept(s, assign(s, id, name).0));
        },
        Task::RequireInstance => {
            assert(kept(s, require_instance(s).0));
        },
        Task::SetField(name) => {
            lemma_set_field_keeps(s, name);
        },
        Task::GetField(name) => {
            lemma_get_field_keeps(s, name);
        },
        Task::Invoke { count } => {
            lemma_invoke_keeps(s, count);
        },
        _ => {},
    }
}

/// No step undoes anything: after a step the depth table is as it was, every
/// frame still lies inside the frame that it lay in, every string is as it
/// was, and every instance has the class that it had. A step that fails
/// leaves the frames as they were and the frame in which the work began as
/// the innermost: a block's frame is left, and a caller's frames are back in
/// use, on the way out through a failure as on every other.
pub proof fn lemma_step_keeps<'a>(s: State<'a>, reply: Reply)
    ensures
        kept(s, step(s, reply).0),
        unwound(s, step(s, reply)),
{
    if s.pending != crate::walker::machine::Pending::Nothing {
        assert(kept(s, resume(s, reply).0));
    } else if s.tasks.len() > 0 {
        let rest = State { tasks: s.tasks.drop_last(), ..s };
        if rest.values.len() >= crate::walker::machine::needs(s.tasks.last()) {
            lemma_perform_keeps(rest, s.tasks.last());
        }
    }
}

/// As `lemma_step_keeps`, for steps in a row. Where the last of them failed,
/// the innermost frame is the one in which the work began, and no work and
/// no operand is left.
pub proof fn lemma_run_keeps<'a>(s: State<'a>, reply: Reply, more: nat)
    ensures
        kept(s, run(s, reply, more).0),
        run(s, reply, more).1 is Failed ==> {
            &&& run(s, reply, more).0.chain.current == s.home
            &&& run(s, reply, more).0.tasks.len() == 0
            &&& run(s, reply, more).0.values.len() == 0
        },
    decreases more,
{
    let next = step(s, reply);
    lemma_step_keeps(s, reply);
    if next.1 is Continue && more > 0 {
        lemma_run_keeps(next.0, Reply::Resume, (more - 1) as nat);
    }
}

/// Work that fails ends in the frame in which it began. Whatever was put on
/// the machine, a program, a statement or an expression, and however many
/// blocks and calls the work had entered when it failed, by an error or by a
/// `return` or a `break` that nothing takes up: the frame that was the
/// innermost when the work was put on the machine is the innermost again,
/// and the frames around it are those that were around it.
pub proof fn lemma_failed_work_ends_where_it_began<'a>(
    s: State<'a>,
    task: Task<'a>,
    reply: Reply,
    more: nat,
)
    ensures
        run(begin(s, task), reply, more).1 is Failed ==> run(
            begin(s, task),
            reply,
            more,
        ).0.chain.current == s.chain.current,
        run(begin(s, task), reply, more).1 is Failed ==> forall|depth: nat|
            ancestor(s.chain.frames, s.chain.current, depth) is Some ==> #[trigger] ancestor(
                run(begin(s, task), reply, more).0.chain.frames,
                s.chain.current,
                depth,
            ) == ancestor(s.chain.frames, s.chain.current, depth),
{
    let after = run(begin(s, task), reply, more).0;
    lemma_run_keeps(begin(s, task), reply, more);
    assert forall|depth: nat|
        ancestor(s.chain.frames, s.chain.current, depth) is Some implies #[trigger] ancestor(
        after.chain.frames,
        s.chain.current,
        depth,
    ) == ancestor(s.chain.frames, s.chain.current, depth) by {
        lemma_ancestors_stay(s.chain, after.chain, s.chain.current, depth);
    }
}

/// As `lemma_every_call_reaches_the_same_frames`, for a call before and a
/// call after any number of steps of the machine.
pub proof fn lemma_calls_reach_the_same_frames_after_a_run<'a>(
    s: State<'a>,
    reply: Reply,
    more: nat,
    params: &'a Vec<Token>,
    body: &'a Vec<Stmt>,
    closure: usize,
    first: (Seq<Value<'a>>, Task<'a>),
    second: (Seq<Value<'a>>, Task<'a>),
    depth: nat,
)
    requires
        run(s, reply, more).0.chain.frames.len() < usize::MAX,
        depth >= 1,
        ancestor(s.chain.frames, closure, (depth - 1) as nat) is Some,
    ensures
        ({
            let t = run(s, reply, more).0;
            let early = call_function(s, params, body, closure, first.0, first.1).chain;
            let late = call_function(t, params, body, closure, second.0, second.1).chain;
            ancestor(late.frames, late.current, depth) == ancestor(early.frames, early.current, depth)
        }),
{
    lemma_run_keeps(s, reply, more);
    lemma_every_call_reaches_the_same_frames(
        s,
        run(s, reply, more).0,
        params,
        body,
        closure,
        first,
        second,
        depth,
    );
}

/// One turn keeps the store, and where it fails the innermost frame is the
/// one in which the work began.
pub proof fn lemma_turn_keeps<'a>(s: State<'a>, out: Seq<u8>, reply: Reply)
    ensures
        kept(s, turn(s, out, reply).0),
        turn(s, out, reply).2 is Failed ==> turn(s, out, reply).0.chain.current == s.home,
{
    let next = step(s, reply);
    lemma_step_keeps(s, reply);
    if next.1 is Print {
        lemma_step_keeps(next.0, Reply::Written);
    }
}

/// As `lemma_failed_work_ends_where_it_began`, where the machine writes what
/// the program prints by itself.
pub proof fn lemma_run_on_keeps<'a>(s: State<'a>, out: Seq<u8>, reply: Reply, more: nat)
    ensures
        kept(s, run_on(s, out, reply, more).0),
        run_on(s, out, reply, more).2 is Failed ==> run_on(s, out, reply, more).0.chain.current
            == s.home,
    decreases more,
{
    let next = turn(s, out, reply);
    lemma_turn_keeps(s, out, reply);
    if next.2 is Continue && more > 0 {
        lemma_run_on_keeps(next.0, next.1, Reply::Resume, (more - 1) as nat);
    }
}

/// Whether the next step sets the property `name` of the instance `handle`.
pub open spec fn sets_field<'a>(s: State<'a>, handle: usize, name: Seq<char>) -> bool {
    &&& s.pending == Pending::Nothing
    &&& s.tasks.len() > 0
    &&& s.tasks.last() matches Task::SetField(n) && n.lexeme@ == name
    &&& s.values.len() >= 2
    &&& s.values[s.values.len() - 2] matches Value::Instance { handle: h } && h == handle
}

/// Whether the instance `handle` has under `name` in `after` what it had in
/// `before`: the same value, or nothing as before.
pub open spec fn field_kept<'a>(before: State<'a>, after: State<'a>, handle: usize, name: Seq<char>) -> bool {
    &&& handle < after.objects.len()
    &&& after.objects[handle as int].fields.contains_key(name)
        == before.objects[handle as int].fields.contains_key(name)
    &&& after.objects[handle as int].fields[name] == before.objects[handle as int].fields[name]
}

/// A property changes only where it is set: every step but the one that
/// sets the property `name` of the instance `handle` leaves that property as
/// it is, a step that fails and a step that sets another property, or the
/// property of another instance, too.
pub proof fn lemma_step_keeps_fields<'a>(s: State<'a>, reply: Reply, handle: usize, name: Seq<char>)
    requires
        handle < s.objects.len(),
        !sets_field(s, handle, name),
    ensures
        field_kept(s, step(s, reply).0, handle, name),
{
    if s.pending != Pending::Nothing {
        assert(objects_kept(s, resume(s, reply).0));
    } else if s.tasks.len() > 0 {
        let rest = State { tasks: s.tasks.drop_last(), ..s };
        let task = s.tasks.last();
        if rest.values.len() >= crate::walker::machine::needs(task) {
            lemma_perform_keeps(rest, task);
            match task {
                Task::SetField(n) => {
                    assert(field_kept(s, set_field(rest, n).0, handle, name));
                },
                _ => {},
            }
        }
    }
}

/// Whether none of the steps of `run(s, reply, more)` sets the property
/// `name` of the instance `handle`.
pub open spec fn never_sets<'a>(s: State<'a>, reply: Reply, more: nat, handle: usize, name: Seq<char>) -> bool
    decreases more,
{
    &&& !sets_field(s, handle, name)
    &&& step(s, reply).1 is Continue && more > 0 ==> never_sets(
        step(s, reply).0,
        Reply::Resume,
        (more - 1) as nat,
        handle,
        name,
    )
}

/// As `lemma_step_keeps_fields`, for steps in a row.
pub proof fn lemma_run_keeps_fields<'a>(
    s: State<'a>,
    reply: Reply,
    more: nat,
    handle: usize,
    name: Seq<char>,
)
    requires
        handle < s.objects.len(),
        never_sets(s, reply, more, handle, name),
    ensures
        field_kept(s, run(s, reply, more).0, handle, name),
    decreases more,
{
    let next = step(s, reply);
    lemma_step_keeps_fields(s, reply, handle, name);
    if next.1 is Continue && more > 0 {
        lemma_run_keeps_fields(next.0, Reply::Resume, (more - 1) as nat, handle, name);
    }
}

/// A property of an instance reads back as it was set, however much later.
/// After the property `name` of an instance is set to a value, and after any
/// number of steps of which none sets that property of that instance again,
/// a read of the property from that instance gives exactly that value,
/// whatever the class declares under the name and whatever else the steps
/// did. (Only a method that is not yet bound, which no program can hold as
/// a value, would come back bound.)
pub proof fn lemma_field_reads_back_later<'a>(
    s: State<'a>,
    name: &'a Token,
    reply: Reply,
    more: nat,
    reader: &'a Token,
)
    requires
        s.values.len() >= 2,
        reader.lexeme@ == name.lexeme@,
        s.values[s.values.len() - 2] is Instance,
        s.values[s.values.len() - 2]->handle < s.objects.len(),
        !(s.values.last() matches Value::Function { method, .. } && method),
        never_sets(
            set_field(s, name).0,
            reply,
            more,
            s.values[s.values.len() - 2]->handle,
            name.lexeme@,
        ),
    ensures
        set_field(s, name).1 is Continue,
        ({
            let instance = s.values[s.values.len() - 2];
            let later = run(set_field(s, name).0, reply, more).0;
            let reading = push(later, instance);
            get_field(reading, reader) == proceed(push(later, s.values.last()))
        }),
{
    let instance = s.values[s.values.len() - 2];
    let handle = instance->handle;
    let written = set_field(s, name).0;
    assert(written.objects[handle as int].fields.contains_key(name.lexeme@));
    assert(written.objects[handle as int].fields[name.lexeme@] == s.values.last());
    lemma_run_keeps_fields(written, reply, more, handle, name.lexeme@);
    let later = run(written, reply, more).0;
    let reading = push(later, instance);
    assert(reading.values.last() == instance);
    assert(reading.values.drop_last() =~= later.values);
    assert(crate::walker::machine::drop(reading) == later);
    match s.values.last() {
        Value::Function { method, .. } => {
            assert(!method);
        },
        _ => {},
    }
}

/// The global frame is there from the start and stays: it is the first frame
/// before every step and after it, and it lies inside no frame.
pub proof fn lemma_global_frame_stays<'a>(s: State<'a>, reply: Reply)
    requires
        s.chain.frames.len() > 0,
        s.chain.frames[0].enclosing is None,
    ensures
        step(s, reply).0.chain.frames.len() > 0,
        step(s, reply).0.chain.frames[0].enclosing is None,
{
    lemma_step_keeps(s, reply);
}

/// To define a variable is to write into the innermost frame only: every
/// other frame holds after it what it held before, and the innermost frame
/// holds the new value under the name and, under every other name, what it
/// held.
pub proof fn lemma_define_writes_one_frame<'a>(chain: Chain<'a>, name: Seq<char>, value: Value<'a>)
    requires
        chain.current < chain.frames.len(),
    ensures
        crate::walker::environment::defined(chain, name, value).frames.len() == chain.frames.len(),
        forall|i: int|
            0 <= i < chain.frames.len() && i != chain.current
                ==> #[trigger] crate::walker::environment::defined(chain, name, value).frames[i]
                == chain.frames[i],
        crate::walker::environment::defined(
            chain,
            name,
            value,
        ).frames[chain.current as int].values == chain.frames[chain.current as int].values.insert(
            name,
            value,
        ),
{
}

/// The properties of an instance are its own: to set a property of one
/// instance changes no other instance, and not the class.
pub proof fn lemma_set_field_writes_one_instance<'a>(s: State<'a>, name: &'a Token)
    requires
        s.values.len() >= 2,
    ensures
        set_field(s, name).0.objects.len() == s.objects.len(),
        forall|i: int|
            0 <= i < s.objects.len() && !(s.values[s.values.len() - 2] matches Value::Instance {
                handle,
            } && handle == i) ==> #[trigger] set_field(s, name).0.objects[i] == s.objects[i],
        forall|i: int|
            0 <= i < s.objects.len() ==> (#[trigger] set_field(s, name).0.objects[i]).class
                == s.objects[i].class,
{
}

} // verus!
