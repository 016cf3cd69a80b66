//! The depth table and the frames at run time: where every depth of the
//! table is less than the number of scopes around its reference, the
//! evaluator finds a frame at every depth that it is given.
use crate::walker::ast::{Expr, Stmt};
use crate::shared::scanner::Token;
use crate::walker::environment::{
    ancestor, assigned, empty_frame, entered, extended, lookup, no_frame, stored, target, Chain,
    Frame,
};
use crate::walker::errors::Failure;
use crate::walker::machine::{
    Asked, Object, Pending, Reply, State, Task, assign, begin, binary, bind, branch, break_out,
    call_function, dangling, depth_for, drop, evaluate, execute, get_field, initial, innermost_call,
    innermost_loop, invoke, literal, method_table, needs, perform, plan, push, read, resume,
    return_from, run, set_field, step, underflow, unexpected_reply,
};
use crate::walker::soundness::{
    lemma_innermost_call_is_there, lemma_innermost_loop_is_there, lemma_this_frame_sound, roomy,
    sizes, sound, task_sound, valid, Sizes,
};
use crate::walker::values::Value;
use vstd::prelude::*;

verus! {

/// Whether the depth that the table gives for the reference `id`, if it
/// gives one, is less than the number `n` of scopes around the reference.
pub open spec fn depth_fits(locals: Map<usize, usize>, id: usize, n: nat) -> bool {
    locals.contains_key(id) ==> locals[id] < n
}

/// Whether the table fits the expression where `n` scopes are open.
pub open spec fn expr_fits(locals: Map<usize, usize>, expr: Expr, n: nat) -> bool
    decreases expr,
{
    match expr {
        Expr::Assign { id, value, .. } => depth_fits(locals, id, n) && expr_fits(locals, *value, n),
        Expr::Binary { left, right, .. } => expr_fits(locals, *left, n) && expr_fits(
            locals,
            *right,
            n,
        ),
        Expr::Call { callee, args } => expr_fits(locals, *callee, n) && exprs_fit(
            locals,
            args@,
            0,
            n,
        ),
        Expr::Get { object, .. } => expr_fits(locals, *object, n),
        Expr::Unary { right, .. } => expr_fits(locals, *right, n),
        Expr::Grouping { expr } => expr_fits(locals, *expr, n),
        Expr::Literal { .. } => true,
        Expr::Logical { left, right, .. } => expr_fits(locals, *left, n) && expr_fits(
            locals,
            *right,
            n,
        ),
        Expr::SetProperty { object, value, .. } => expr_fits(locals, *object, n) && expr_fits(
            locals,
            *value,
            n,
        ),
        Expr::This { id, .. } => depth_fits(locals, id, n),
        Expr::Variable { id, .. } => depth_fits(locals, id, n),
    }
}

/// Whether the table fits the expressions `exprs[from..]`.
pub open spec fn exprs_fit(locals: Map<usize, usize>, exprs: Seq<Expr>, from: int, n: nat) -> bool
    decreases exprs, exprs.len() - from,
{
    if 0 <= from < exprs.len() {
        expr_fits(locals, exprs[from], n) && exprs_fit(locals, exprs, from + 1, n)
    } else {
        true
    }
}

/// Whether the table fits the expression, if there is one.
pub open spec fn optional_fits(locals: Map<usize, usize>, expr: Option<Box<Expr>>, n: nat) -> bool {
    match expr {
        Some(e) => expr_fits(locals, *e, n),
        None => true,
    }
}

/// Whether the table fits the statement where `n` scopes are open. A block
/// and the body of a function open one scope more, the body of a method two:
/// one for `this` and one for the parameters.
pub open spec fn stmt_fits(locals: Map<usize, usize>, stmt: Stmt, n: nat) -> bool
    decreases stmt, 0nat,
{
    match stmt {
        Stmt::Block { stmts } => stmts_fit(locals, stmts@, 0, n + 1),
        Stmt::Break => true,
        Stmt::Class { methods, .. } => methods_fit(locals, methods@, 0, n + 2),
        Stmt::Expression { expr } => expr_fits(locals, *expr, n),
        Stmt::Function { body, .. } => stmts_fit(locals, body@, 0, n + 1),
        Stmt::If { condition, then_branch, els } => expr_fits(locals, *condition, n) && stmt_fits(
            locals,
            *then_branch,
            n,
        ) && (match els {
            Some(e) => stmt_fits(locals, *e, n),
            None => true,
        }),
        Stmt::Print { expr } => expr_fits(locals, *expr, n),
        Stmt::Return { value } => optional_fits(locals, value, n),
        Stmt::Var { initializer, .. } => optional_fits(locals, initializer, n),
        Stmt::While { condition, body } => expr_fits(locals, *condition, n) && stmt_fits(
            locals,
            *body,
            n,
        ),
    }
}

/// Whether the table fits the statements `stmts[from..]`.
pub open spec fn stmts_fit(locals: Map<usize, usize>, stmts: Seq<Stmt>, from: int, n: nat) -> bool
    decreases stmts, stmts.len() - from, 0nat,
{
    if 0 <= from < stmts.len() {
        stmt_fits(locals, stmts[from], n) && stmts_fit(locals, stmts, from + 1, n)
    } else {
        true
    }
}

/// Whether the table fits the bodies of the methods `methods[from..]`, where
/// `n` scopes are open in each body.
pub open spec fn methods_fit(locals: Map<usize, usize>, methods: Seq<Stmt>, from: int, n: nat) -> bool
    decreases methods, methods.len() - from, 1nat,
{
    if 0 <= from < methods.len() {
        (match methods[from] {
            Stmt::Function { body, .. } => stmts_fit(locals, body@, 0, n),
            _ => true,
        }) && methods_fit(locals, methods, from + 1, n)
    } else {
        true
    }
}

/// Every frame lies inside a frame that was made before it.
pub open spec fn nested<'a>(frames: Seq<Frame<'a>>) -> bool {
    forall|i: int|
        0 <= i < frames.len() ==> ((#[trigger] frames[i]).enclosing matches Some(p) ==> p < i)
}

/// The number of frames on the way from the frame `h` outward, itself
/// counted: the number of scopes that are open where `h` is the innermost
/// frame.
pub open spec fn height<'a>(frames: Seq<Frame<'a>>, h: usize) -> nat
    decreases h,
{
    if h >= frames.len() {
        0
    } else {
        match frames[h as int].enclosing {
            Some(p) => if p < h {
                height(frames, p) + 1
            } else {
                1
            },
            None => 1,
        }
    }
}

/// From a frame there is a frame at every depth less than the frame's
/// height, and at no other.
pub proof fn lemma_ancestor_within_height<'a>(frames: Seq<Frame<'a>>, h: usize, depth: nat)
    requires
        nested(frames),
        h < frames.len(),
    ensures
        ancestor(frames, h, depth) is Some <==> depth < height(frames, h),
    decreases depth,
{
    if depth > 0 {
        match frames[h as int].enclosing {
            Some(p) => {
                lemma_ancestor_within_height(frames, p, (depth - 1) as nat);
            },
            None => {},
        }
    }
}

/// Whether the frames `after` are the frames `before`, each inside the frame
/// it was in, and more frames behind them.
pub open spec fn extends<'a>(before: Seq<Frame<'a>>, after: Seq<Frame<'a>>) -> bool {
    &&& before.len() <= after.len()
    &&& forall|i: int|
        0 <= i < before.len() ==> (#[trigger] after[i]).enclosing == before[i].enclosing
}

/// The height of a frame does not change when frames are added.
pub proof fn lemma_height_stays<'a>(before: Seq<Frame<'a>>, after: Seq<Frame<'a>>, h: usize)
    requires
        extends(before, after),
        h < before.len(),
    ensures
        height(after, h) == height(before, h),
    decreases h,
{
    assert(after[h as int].enclosing == before[h as int].enclosing);
    match before[h as int].enclosing {
        Some(p) => {
            if p < h {
                lemma_height_stays(before, after, p);
            }
        },
        None => {},
    }
}

/// Whether the table fits what the value holds: the body of a function
/// where one scope more is open than in its closure, the body of a method
/// that is not bound yet, and so of every method of a class, where two more
/// are.
pub open spec fn value_fits<'a>(
    locals: Map<usize, usize>,
    frames: Seq<Frame<'a>>,
    v: Value<'a>,
) -> bool {
    match v {
        Value::Function { body, closure, method, .. } => stmts_fit(
            locals,
            body@,
            0,
            height(frames, closure) + (if method {
                2nat
            } else {
                1nat
            }),
        ),
        Value::Class { methods, closure, .. } => methods_fit(
            locals,
            methods@,
            0,
            height(frames, closure) + 2,
        ),
        _ => true,
    }
}

/// Whether the value is anything but a method that is not bound yet.
pub open spec fn plain<'a>(v: Value<'a>) -> bool {
    !(v matches Value::Function { method, .. } && method)
}

/// The innermost frame after the task is done, where `at` was the innermost
/// frame before it.
pub open spec fn after<'a>(frames: Seq<Frame<'a>>, t: Task<'a>, at: usize) -> usize {
    match t {
        Task::EndBlock => if at < frames.len() {
            match frames[at as int].enclosing {
                Some(p) => p,
                None => at,
            }
        } else {
            at
        },
        Task::CallEnd { scope, .. } => scope,
        Task::InitEnd { scope, .. } => scope,
        _ => at,
    }
}

/// Whether the table fits what the task will execute or evaluate, where `at`
/// is the innermost frame when the task is done. A loop ends, by `break`, in
/// the frame in which it goes on.
pub open spec fn task_fits<'a>(
    locals: Map<usize, usize>,
    frames: Seq<Frame<'a>>,
    t: Task<'a>,
    at: usize,
) -> bool {
    let n = height(frames, at);
    match t {
        Task::Execute(stmt) => stmt_fits(locals, *stmt, n),
        Task::Sequence { stmts, next } => stmts_fit(locals, stmts@, next as int, n),
        Task::Evaluate(expr) => expr_fits(locals, *expr, n),
        Task::Arguments { args, next } => exprs_fit(locals, args@, next as int, n),
        Task::Branch { then_branch, els } => stmt_fits(locals, *then_branch, n) && (match *els {
            Some(e) => stmt_fits(locals, *e, n),
            None => true,
        }),
        Task::LoopTest { condition, body } => expr_fits(locals, *condition, n) && stmt_fits(
            locals,
            *body,
            n,
        ),
        Task::LoopNext { condition, body, scope, .. } => expr_fits(locals, *condition, n)
            && stmt_fits(locals, *body, n) && scope == at,
        Task::Logical { right, .. } => expr_fits(locals, *right, n),
        Task::Assign { id, .. } => depth_fits(locals, id, n),
        _ => true,
    }
}

/// Whether the table fits the tasks, the last of which is done first, with
/// `at` as the innermost frame.
pub open spec fn tasks_fit<'a>(
    locals: Map<usize, usize>,
    frames: Seq<Frame<'a>>,
    tasks: Seq<Task<'a>>,
    at: usize,
) -> bool
    decreases tasks.len(),
{
    at < frames.len() && (tasks.len() > 0 ==> task_fits(locals, frames, tasks.last(), at)
        && tasks_fit(locals, frames, tasks.drop_last(), after(frames, tasks.last(), at)))
}

/// Whether the table fits all values of the map, none of which is a method
/// that is not bound yet.
pub open spec fn variables_fit<'a>(
    locals: Map<usize, usize>,
    frames: Seq<Frame<'a>>,
    m: Map<Seq<char>, Value<'a>>,
) -> bool {
    forall|k: Seq<char>| m.contains_key(k) ==> value_fits(locals, frames, #[trigger] m[k]) && plain(m[k])
}

/// Whether the table fits all values of the map.
pub open spec fn fields_fit<'a>(
    locals: Map<usize, usize>,
    frames: Seq<Frame<'a>>,
    m: Map<Seq<char>, Value<'a>>,
) -> bool {
    forall|k: Seq<char>| m.contains_key(k) ==> value_fits(locals, frames, #[trigger] m[k])
}

/// The depth table and the state agree: the table fits all that the state
/// holds of the program, the work that is still to do and the functions and
/// classes among its values, for the frames that will then be in use.
pub open spec fn agreed<'a>(s: State<'a>) -> bool {
    &&& nested(s.chain.frames)
    &&& tasks_fit(s.locals, s.chain.frames, s.tasks, s.chain.current)
    &&& forall|i: int|
        0 <= i < s.values.len() ==> value_fits(s.locals, s.chain.frames, #[trigger] s.values[i])
            && plain(s.values[i])
    &&& forall|i: int|
        0 <= i < s.chain.frames.len() ==> variables_fit(
            s.locals,
            s.chain.frames,
            (#[trigger] s.chain.frames[i]).values,
        )
    &&& forall|i: int|
        0 <= i < s.objects.len() ==> value_fits(s.locals, s.chain.frames, (#[trigger] s.objects[i]).class)
            && fields_fit(s.locals, s.chain.frames, s.objects[i].fields)
}

/// Whether the table fits what the state holds apart from its tasks.
pub open spec fn settled<'a>(s: State<'a>) -> bool {
    &&& nested(s.chain.frames)
    &&& forall|i: int|
        0 <= i < s.values.len() ==> value_fits(s.locals, s.chain.frames, #[trigger] s.values[i])
            && plain(s.values[i])
    &&& forall|i: int|
        0 <= i < s.chain.frames.len() ==> variables_fit(
            s.locals,
            s.chain.frames,
            (#[trigger] s.chain.frames[i]).values,
        )
    &&& forall|i: int|
        0 <= i < s.objects.len() ==> value_fits(s.locals, s.chain.frames, (#[trigger] s.objects[i]).class)
            && fields_fit(s.locals, s.chain.frames, s.objects[i].fields)
}

/// What the table fits it still fits when frames are added.
pub proof fn lemma_value_fits_stays<'a>(
    locals: Map<usize, usize>,
    before: Seq<Frame<'a>>,
    after: Seq<Frame<'a>>,
    v: Value<'a>,
)
    requires
        extends(before, after),
        valid(Sizes { frames: before.len(), texts: 0, objects: 0 }, v) || v is String || v is Instance,
    ensures
        value_fits(locals, after, v) == value_fits(locals, before, v),
{
    match v {
        Value::Function { closure, .. } => {
            lemma_height_stays(before, after, closure);
        },
        Value::Class { closure, .. } => {
            lemma_height_stays(before, after, closure);
        },
        _ => {},
    }
}

/// The tasks that the table fits it still fits when frames are added.
pub proof fn lemma_tasks_fit_stay<'a>(
    locals: Map<usize, usize>,
    before: Seq<Frame<'a>>,
    after_frames: Seq<Frame<'a>>,
    tasks: Seq<Task<'a>>,
    at: usize,
)
    requires
        extends(before, after_frames),
        tasks_fit(locals, before, tasks, at),
    ensures
        tasks_fit(locals, after_frames, tasks, at),
    decreases tasks.len(),
{
    lemma_height_stays(before, after_frames, at);
    if tasks.len() > 0 {
        assert(after_frames[at as int].enclosing == before[at as int].enclosing);
        assert(after(after_frames, tasks.last(), at) == after(before, tasks.last(), at));
        lemma_tasks_fit_stay(
            locals,
            before,
            after_frames,
            tasks.drop_last(),
            after(before, tasks.last(), at),
        );
    }
}

/// What the tasks with one more task on top are fit by.
pub proof fn lemma_tasks_fit_push<'a>(
    locals: Map<usize, usize>,
    frames: Seq<Frame<'a>>,
    tasks: Seq<Task<'a>>,
    t: Task<'a>,
    at: usize,
)
    ensures
        tasks_fit(locals, frames, tasks.push(t), at) <==> (at < frames.len() && task_fits(
            locals,
            frames,
            t,
            at,
        ) && tasks_fit(locals, frames, tasks, after(frames, t, at))),
{
    assert(tasks.push(t).drop_last() =~= tasks);
    assert(tasks.push(t).last() == t);
}

/// What was settled stays settled, for the old frames, values and instances,
/// when frames are added: every value that the state holds still fits.
pub proof fn lemma_settled_stays<'a>(s: State<'a>, frames: Seq<Frame<'a>>)
    requires
        settled(s),
        sound(s),
        extends(s.chain.frames, frames),
    ensures
        forall|i: int|
            0 <= i < s.values.len() ==> value_fits(s.locals, frames, #[trigger] s.values[i])
                && plain(s.values[i]),
        forall|i: int|
            0 <= i < s.chain.frames.len() ==> variables_fit(
                s.locals,
                frames,
                (#[trigger] s.chain.frames[i]).values,
            ),
        forall|i: int|
            0 <= i < s.objects.len() ==> value_fits(s.locals, frames, (#[trigger] s.objects[i]).class)
                && fields_fit(s.locals, frames, s.objects[i].fields),
{
    let z = sizes(s);
    let y = Sizes { frames: s.chain.frames.len(), texts: 0, objects: 0 };
    assert forall|v: Value<'a>| valid(z, v) implies valid(y, v) || v is String || v is Instance by {}
    assert forall|i: int| 0 <= i < s.values.len() implies value_fits(
        s.locals,
        frames,
        #[trigger] s.values[i],
    ) && plain(s.values[i]) by {
        assert(valid(z, s.values[i]));
        lemma_value_fits_stays(s.locals, s.chain.frames, frames, s.values[i]);
    }
    assert forall|i: int| 0 <= i < s.chain.frames.len() implies variables_fit(
        s.locals,
        frames,
        (#[trigger] s.chain.frames[i]).values,
    ) by {
        let m = s.chain.frames[i].values;
        assert(crate::walker::soundness::frame_sound(z, s.chain.frames[i]));
        assert(variables_fit(s.locals, s.chain.frames, m));
        assert forall|k: Seq<char>| m.contains_key(k) implies value_fits(
            s.locals,
            frames,
            #[trigger] m[k],
        ) && plain(m[k]) by {
            assert(valid(z, m[k]));
            lemma_value_fits_stays(s.locals, s.chain.frames, frames, m[k]);
        }
    }
    assert forall|i: int| 0 <= i < s.objects.len() implies value_fits(
        s.locals,
        frames,
        (#[trigger] s.objects[i]).class,
    ) && fields_fit(s.locals, frames, s.objects[i].fields) by {
        let o = s.objects[i];
        assert(crate::walker::soundness::object_sound(z, o));
        lemma_value_fits_stays(s.locals, s.chain.frames, frames, o.class);
        assert(fields_fit(s.locals, s.chain.frames, o.fields));
        assert forall|k: Seq<char>| o.fields.contains_key(k) implies value_fits(
            s.locals,
            frames,
            #[trigger] o.fields[k],
        ) by {
            assert(valid(z, o.fields[k]));
            lemma_value_fits_stays(s.locals, s.chain.frames, frames, o.fields[k]);
        }
    }
}

/// A new frame inside a frame that is there keeps the frames nested, and its
/// height is one more than that of the frame around it.
pub proof fn lemma_new_frame<'a>(frames: Seq<Frame<'a>>, f: Frame<'a>)
    requires
        nested(frames),
        f.enclosing matches Some(p) && p < frames.len(),
        frames.len() < usize::MAX,
    ensures
        nested(frames.push(f)),
        extends(frames, frames.push(f)),
        height(frames.push(f), frames.len() as usize) == height(frames, f.enclosing->0) + 1,
{
    let after_frames = frames.push(f);
    assert forall|i: int| 0 <= i < after_frames.len() implies ((#[trigger] after_frames[i]).enclosing matches Some(
        p,
    ) ==> p < i) by {
        if i < frames.len() {
            assert(after_frames[i] == frames[i]);
        }
    }
    lemma_height_stays(frames, after_frames, f.enclosing->0);
}

/// Whether a task that is taken off the tasks of `s` can be done: the table
/// fits the task and the tasks below it, and the rest of the state is
/// settled and sound.
pub open spec fn ready<'a>(s: State<'a>, task: Task<'a>) -> bool {
    &&& settled(s)
    &&& sound(s)
    &&& roomy(s)
    &&& task_sound(sizes(s), task)
    &&& s.values.len() >= needs(task)
    &&& task_fits(s.locals, s.chain.frames, task, s.chain.current)
    &&& tasks_fit(
        s.locals,
        s.chain.frames,
        s.tasks,
        after(s.chain.frames, task, s.chain.current),
    )
}

/// The frames with a value stored in one of them are nested as they were,
/// and every frame has the height that it had.
pub proof fn lemma_stored_frames<'a>(
    chain: Chain<'a>,
    handle: usize,
    name: Seq<char>,
    v: Value<'a>,
)
    ensures
        extends(chain.frames, stored(chain, handle, name, v).frames),
        extends(stored(chain, handle, name, v).frames, chain.frames),
        nested(chain.frames) ==> nested(stored(chain, handle, name, v).frames),
        stored(chain, handle, name, v).current == chain.current,
{
    let frames = stored(chain, handle, name, v).frames;
    if nested(chain.frames) {
        assert forall|i: int| 0 <= i < frames.len() implies ((#[trigger] frames[i]).enclosing matches Some(
            p,
        ) ==> p < i) by {
            assert(frames[i].enclosing == chain.frames[i].enclosing);
        }
    }
}

/// A state stays settled when a value that the table fits, and that is no
/// unbound method, is stored in a frame.
pub proof fn lemma_stored_settled<'a>(s: State<'a>, handle: usize, name: Seq<char>, v: Value<'a>)
    requires
        settled(s),
        sound(s),
        value_fits(s.locals, s.chain.frames, v),
        plain(v),
        valid(sizes(s), v),
    ensures
        settled(State { chain: stored(s.chain, handle, name, v), ..s }),
        forall|tasks: Seq<Task<'a>>, at: usize|
            tasks_fit(s.locals, s.chain.frames, tasks, at) ==> #[trigger] tasks_fit(
                s.locals,
                stored(s.chain, handle, name, v).frames,
                tasks,
                at,
            ),
{
    let t = State { chain: stored(s.chain, handle, name, v), ..s };
    lemma_stored_frames(s.chain, handle, name, v);
    lemma_settled_stays(s, t.chain.frames);
    lemma_value_fits_stays(s.locals, s.chain.frames, t.chain.frames, v);
    assert forall|i: int| 0 <= i < t.chain.frames.len() implies variables_fit(
        t.locals,
        t.chain.frames,
        (#[trigger] t.chain.frames[i]).values,
    ) by {
        let m = t.chain.frames[i].values;
        assert(variables_fit(s.locals, t.chain.frames, s.chain.frames[i].values));
        assert forall|k: Seq<char>| m.contains_key(k) implies value_fits(
            t.locals,
            t.chain.frames,
            #[trigger] m[k],
        ) && plain(m[k]) by {
            if !(i == handle && k == name) {
                assert(s.chain.frames[i].values.contains_key(k));
                assert(m[k] == s.chain.frames[i].values[k]);
            }
        }
    }
    assert forall|tasks: Seq<Task<'a>>, at: usize|
        tasks_fit(s.locals, s.chain.frames, tasks, at) implies #[trigger] tasks_fit(
        s.locals,
        t.chain.frames,
        tasks,
        at,
    ) by {
        lemma_tasks_fit_stay(s.locals, s.chain.frames, t.chain.frames, tasks, at);
    }
}

/// The tasks below the innermost loop are fit for the frame in which the
/// loop goes on.
pub proof fn lemma_below_the_loop<'a>(
    locals: Map<usize, usize>,
    frames: Seq<Frame<'a>>,
    tasks: Seq<Task<'a>>,
    at: usize,
)
    requires
        tasks_fit(locals, frames, tasks, at),
    ensures
        innermost_loop(tasks) matches Some(i) ==> tasks_fit(
            locals,
            frames,
            tasks.take(i),
            tasks[i]->LoopNext_scope,
        ),
    decreases tasks.len(),
{
    lemma_innermost_loop_is_there(tasks);
    if tasks.len() > 0 {
        if tasks.last() is LoopNext {
            assert(tasks.take(tasks.len() - 1) =~= tasks.drop_last());
        } else {
            lemma_below_the_loop(locals, frames, tasks.drop_last(), after(frames, tasks.last(), at));
            if let Some(i) = innermost_loop(tasks) {
                assert(tasks.drop_last().take(i) =~= tasks.take(i));
            }
        }
    }
}

/// The tasks below the innermost call are fit for the frame of the caller.
pub proof fn lemma_below_the_call<'a>(
    locals: Map<usize, usize>,
    frames: Seq<Frame<'a>>,
    tasks: Seq<Task<'a>>,
    at: usize,
)
    requires
        tasks_fit(locals, frames, tasks, at),
    ensures
        innermost_call(tasks) matches Some(i) ==> tasks_fit(
            locals,
            frames,
            tasks.take(i),
            after(frames, tasks[i], 0),
        ),
    decreases tasks.len(),
{
    lemma_innermost_call_is_there(tasks);
    if tasks.len() > 0 {
        if tasks.last() is CallEnd || tasks.last() is InitEnd {
            assert(tasks.take(tasks.len() - 1) =~= tasks.drop_last());
        } else {
            lemma_below_the_call(locals, frames, tasks.drop_last(), after(frames, tasks.last(), at));
            if let Some(i) = innermost_call(tasks) {
                assert(tasks.drop_last().take(i) =~= tasks.take(i));
            }
        }
    }
}

/// `break` keeps the table and the state agreed.
pub proof fn lemma_break_agrees<'a>(s: State<'a>, at: usize)
    requires
        settled(s),
        sound(s),
        tasks_fit(s.locals, s.chain.frames, s.tasks, at),
    ensures
        agreed(break_out(s).0),
{
    lemma_below_the_loop(s.locals, s.chain.frames, s.tasks, at);
    lemma_innermost_loop_is_there(s.tasks);
    let t = break_out(s).0;
    if let Some(i) = innermost_loop(s.tasks) {
        assert forall|j: int| 0 <= j < t.values.len() implies value_fits(
            t.locals,
            t.chain.frames,
            #[trigger] t.values[j],
        ) && plain(t.values[j]) by {
            assert(t.values[j] == s.values[j]);
        }
    } else {
        assert(s.chain.current < s.chain.frames.len());
    }
}

/// `return` keeps the table and the state agreed.
pub proof fn lemma_return_agrees<'a>(s: State<'a>, v: Value<'a>, at: usize)
    requires
        settled(s),
        sound(s),
        tasks_fit(s.locals, s.chain.frames, s.tasks, at),
        value_fits(s.locals, s.chain.frames, v),
        plain(v),
    ensures
        agreed(return_from(s, v).0),
{
    lemma_below_the_call(s.locals, s.chain.frames, s.tasks, at);
    lemma_innermost_call_is_there(s.tasks);
    let t = return_from(s, v).0;
    if let Some(i) = innermost_call(s.tasks) {
        assert forall|j: int| 0 <= j < t.values.len() implies value_fits(
            t.locals,
            t.chain.frames,
            #[trigger] t.values[j],
        ) && plain(t.values[j]) by {
            if j < t.values.len() - 1 {
                assert(t.values[j] == s.values[j]);
            }
        }
    } else {
        assert(s.chain.current < s.chain.frames.len());
    }
}

/// The start of a statement keeps the table and the state agreed.
pub proof fn lemma_execute_agrees<'a>(s: State<'a>, stmt: &'a Stmt)
    requires
        ready(s, Task::Execute(stmt)),
    ensures
        agreed(execute(s, stmt).0),
{
    let l = s.locals;
    let frames = s.chain.frames;
    let cur = s.chain.current;
    let n = height(frames, cur);
    let t = execute(s, stmt).0;
    match stmt {
        Stmt::Block { stmts } => {
            let f = frames.len() as usize;
            lemma_new_frame(frames, empty_frame(cur));
            lemma_settled_stays(s, t.chain.frames);
            lemma_tasks_fit_stay(l, frames, t.chain.frames, s.tasks, cur);
            lemma_tasks_fit_push(l, t.chain.frames, s.tasks, Task::EndBlock, f);
            lemma_tasks_fit_push(
                l,
                t.chain.frames,
                s.tasks.push(Task::EndBlock),
                Task::Sequence { stmts, next: 0 },
                f,
            );
            assert forall|i: int| 0 <= i < t.chain.frames.len() implies variables_fit(
                l,
                t.chain.frames,
                (#[trigger] t.chain.frames[i]).values,
            ) by {
                if i < frames.len() {
                    assert(t.chain.frames[i] == frames[i]);
                }
            }
        },
        Stmt::Break => {
            lemma_break_agrees(s, cur);
        },
        Stmt::Class { id, name, methods } => {
            let v = Value::Class { id: *id, name, methods, closure: cur };
            lemma_stored_settled(s, cur, name.lexeme@, v);
        },
        Stmt::Expression { expr } => {
            lemma_tasks_fit_push(l, frames, s.tasks, Task::Discard, cur);
            lemma_tasks_fit_push(l, frames, s.tasks.push(Task::Discard), Task::Evaluate(&**expr), cur);
        },
        Stmt::Function { id, name, params, body } => {
            let v = Value::Function { id: *id, name, params, body, closure: cur, method: false };
            lemma_stored_settled(s, cur, name.lexeme@, v);
        },
        Stmt::If { condition, then_branch, els } => {
            let branch = Task::Branch { then_branch: &**then_branch, els };
            lemma_tasks_fit_push(l, frames, s.tasks, branch, cur);
            lemma_tasks_fit_push(l, frames, s.tasks.push(branch), Task::Evaluate(&**condition), cur);
        },
        Stmt::Print { expr } => {
            lemma_tasks_fit_push(l, frames, s.tasks, Task::Print, cur);
            lemma_tasks_fit_push(l, frames, s.tasks.push(Task::Print), Task::Evaluate(&**expr), cur);
        },
        Stmt::Return { value } => {
            match value {
                Some(e) => {
                    lemma_tasks_fit_push(l, frames, s.tasks, Task::Return, cur);
                    lemma_tasks_fit_push(
                        l,
                        frames,
                        s.tasks.push(Task::Return),
                        Task::Evaluate(&**e),
                        cur,
                    );
                },
                None => {
                    lemma_tasks_fit_push(l, frames, s.tasks, Task::Return, cur);
                    assert forall|j: int| 0 <= j < t.values.len() implies value_fits(
                        l,
                        frames,
                        #[trigger] t.values[j],
                    ) && plain(t.values[j]) by {
                        if j < s.values.len() {
                            assert(t.values[j] == s.values[j]);
                        }
                    }
                },
            }
        },
        Stmt::Var { name, initializer } => {
            match initializer {
                Some(e) => {
                    lemma_tasks_fit_push(l, frames, s.tasks, Task::Define(name), cur);
                    lemma_tasks_fit_push(
                        l,
                        frames,
                        s.tasks.push(Task::Define(name)),
                        Task::Evaluate(&**e),
                        cur,
                    );
                },
                None => {
                    lemma_tasks_fit_push(l, frames, s.tasks, Task::Define(name), cur);
                    assert forall|j: int| 0 <= j < t.values.len() implies value_fits(
                        l,
                        frames,
                        #[trigger] t.values[j],
                    ) && plain(t.values[j]) by {
                        if j < s.values.len() {
                            assert(t.values[j] == s.values[j]);
                        }
                    }
                },
            }
        },
        Stmt::While { condition, body } => {
            let test = Task::LoopTest { condition: &**condition, body: &**body };
            lemma_tasks_fit_push(l, frames, s.tasks, test, cur);
            lemma_tasks_fit_push(l, frames, s.tasks.push(test), Task::Evaluate(&**condition), cur);
        },
    }
}

/// A state stays settled when a value that the table fits, and that is no
/// unbound method, becomes its topmost operand.
pub proof fn lemma_push_settled<'a>(s: State<'a>, v: Value<'a>)
    requires
        settled(s),
        value_fits(s.locals, s.chain.frames, v),
        plain(v),
    ensures
        settled(push(s, v)),
{
    let t = push(s, v);
    assert forall|j: int| 0 <= j < t.values.len() implies value_fits(
        t.locals,
        t.chain.frames,
        #[trigger] t.values[j],
    ) && plain(t.values[j]) by {
        if j < s.values.len() {
            assert(t.values[j] == s.values[j]);
        }
    }
}

/// A state stays settled when operands are taken off.
pub proof fn lemma_fewer_values_settled<'a>(s: State<'a>, upto: int)
    requires
        settled(s),
        0 <= upto <= s.values.len(),
    ensures
        settled(State { values: s.values.take(upto), ..s }),
{
    let t = State { values: s.values.take(upto), ..s };
    assert forall|j: int| 0 <= j < t.values.len() implies value_fits(
        t.locals,
        t.chain.frames,
        #[trigger] t.values[j],
    ) && plain(t.values[j]) by {
        assert(t.values[j] == s.values[j]);
    }
}

/// A read at a depth that the table fits finds a frame, and what it gives
/// the table fits.
pub proof fn lemma_read_agrees<'a>(s: State<'a>, id: usize, name: &'a Token)
    requires
        settled(s),
        sound(s),
        depth_fits(s.locals, id, height(s.chain.frames, s.chain.current)),
        tasks_fit(s.locals, s.chain.frames, s.tasks, s.chain.current),
    ensures
        agreed(read(s, id, name).0),
        target(s.chain, depth_for(s, id)) is Some,
{
    let depth = depth_for(s, id);
    match depth {
        Some(d) => {
            lemma_ancestor_within_height(s.chain.frames, s.chain.current, d as nat);
        },
        None => {},
    }
    crate::walker::soundness::lemma_lookup_valid(sizes(s), s.chain, name.lexeme@, depth);
    let h = target(s.chain, depth)->0;
    assert(variables_fit(s.locals, s.chain.frames, s.chain.frames[h as int].values));
    match lookup(s.chain, name.lexeme@, depth) {
        Ok(v) => {
            lemma_push_settled(s, v);
        },
        Err(_) => {},
    }
}

/// The start of an expression keeps the table and the state agreed, and
/// finds a frame at the depth of a variable.
pub proof fn lemma_evaluate_agrees<'a>(s: State<'a>, expr: &'a Expr)
    requires
        ready(s, Task::Evaluate(expr)),
    ensures
        agreed(evaluate(s, expr).0),
        expr matches Expr::Variable { id, .. } ==> target(s.chain, depth_for(s, *id)) is Some,
        expr matches Expr::This { id, .. } ==> target(s.chain, depth_for(s, *id)) is Some,
{
    let l = s.locals;
    let frames = s.chain.frames;
    let cur = s.chain.current;
    let t = evaluate(s, expr).0;
    match expr {
        Expr::Literal { value } => {
            let made = literal(s, value).0;
            if made.values.len() > s.values.len() {
                lemma_push_settled(State { texts: made.texts, ..s }, made.values.last());
                assert(made.values =~= s.values.push(made.values.last()));
            }
        },
        Expr::Grouping { expr } => {
            lemma_tasks_fit_push(l, frames, s.tasks, Task::Evaluate(&**expr), cur);
        },
        Expr::Unary { op, right } => {
            lemma_tasks_fit_push(l, frames, s.tasks, Task::Unary(op), cur);
            lemma_tasks_fit_push(l, frames, s.tasks.push(Task::Unary(op)), Task::Evaluate(&**right), cur);
        },
        Expr::Binary { left, op, right } => {
            lemma_tasks_fit_push(l, frames, s.tasks, Task::Binary(op), cur);
            lemma_tasks_fit_push(l, frames, s.tasks.push(Task::Binary(op)), Task::Evaluate(&**right), cur);
            lemma_tasks_fit_push(
                l,
                frames,
                s.tasks.push(Task::Binary(op)).push(Task::Evaluate(&**right)),
                Task::Evaluate(&**left),
                cur,
            );
        },
        Expr::Logical { left, op, right } => {
            let rest = Task::Logical { op, right: &**right };
            lemma_tasks_fit_push(l, frames, s.tasks, rest, cur);
            lemma_tasks_fit_push(l, frames, s.tasks.push(rest), Task::Evaluate(&**left), cur);
        },
        Expr::Variable { id, name } => {
            lemma_read_agrees(s, *id, name);
        },
        Expr::This { id, keyword } => {
            lemma_read_agrees(s, *id, keyword);
        },
        Expr::Assign { id, name, value } => {
            let store = Task::Assign { id: *id, name };
            lemma_tasks_fit_push(l, frames, s.tasks, store, cur);
            lemma_tasks_fit_push(l, frames, s.tasks.push(store), Task::Evaluate(&**value), cur);
        },
        Expr::SetProperty { object, name, value } => {
            let a = s.tasks.push(Task::SetField(name));
            let b = a.push(Task::Evaluate(&**value));
            let c = b.push(Task::RequireInstance);
            lemma_tasks_fit_push(l, frames, s.tasks, Task::SetField(name), cur);
            lemma_tasks_fit_push(l, frames, a, Task::Evaluate(&**value), cur);
            lemma_tasks_fit_push(l, frames, b, Task::RequireInstance, cur);
            lemma_tasks_fit_push(l, frames, c, Task::Evaluate(&**object), cur);
        },
        Expr::Call { callee, args } => {
            let a = s.tasks.push(Task::Invoke { count: args@.len() as usize });
            let b = a.push(Task::Arguments { args, next: 0 });
            lemma_tasks_fit_push(l, frames, s.tasks, Task::Invoke { count: args@.len() as usize }, cur);
            lemma_tasks_fit_push(l, frames, a, Task::Arguments { args, next: 0 }, cur);
            lemma_tasks_fit_push(l, frames, b, Task::Evaluate(&**callee), cur);
        },
        Expr::Get { object, name } => {
            lemma_tasks_fit_push(l, frames, s.tasks, Task::GetField(name), cur);
            lemma_tasks_fit_push(l, frames, s.tasks.push(Task::GetField(name)), Task::Evaluate(&**object), cur);
        },
    }
}

/// Whether the frames are the same but for the values in them.
pub open spec fn same_shape<'a>(a: Seq<Frame<'a>>, b: Seq<Frame<'a>>) -> bool {
    extends(a, b) && extends(b, a)
}

/// Binding parameters changes the values of one frame only, and puts
/// nothing there but arguments.
pub proof fn lemma_bind_maps<'a>(
    chain: Chain<'a>,
    handle: usize,
    params: Seq<Token>,
    args: Seq<Value<'a>>,
    upto: int,
)
    ensures
        same_shape(chain.frames, bind(chain, handle, params, args, upto).frames),
        bind(chain, handle, params, args, upto).current == chain.current,
        forall|i: int|
            0 <= i < chain.frames.len() && i != handle ==> (#[trigger] bind(
                chain,
                handle,
                params,
                args,
                upto,
            ).frames[i]).values == chain.frames[i].values,
        upto <= args.len() ==> forall|k: Seq<char>|
            handle < chain.frames.len() && (#[trigger] bind(
                chain,
                handle,
                params,
                args,
                upto,
            ).frames[handle as int].values.contains_key(k)) ==> (chain.frames[handle as int].values.contains_key(
                k,
            ) && bind(chain, handle, params, args, upto).frames[handle as int].values[k]
                == chain.frames[handle as int].values[k]) || (exists|j: int|
                0 <= j < args.len() && bind(
                    chain,
                    handle,
                    params,
                    args,
                    upto,
                ).frames[handle as int].values[k] == #[trigger] args[j]),
    decreases upto,
{
    if !(upto <= 0 || upto > params.len() || upto > args.len()) {
        lemma_bind_maps(chain, handle, params, args, upto - 1);
        let before = bind(chain, handle, params, args, upto - 1);
        let after_chain = bind(chain, handle, params, args, upto);
        lemma_stored_frames(before, handle, params[upto - 1].lexeme@, args[upto - 1]);
        if handle < chain.frames.len() {
            assert forall|k: Seq<char>| #[trigger]
                after_chain.frames[handle as int].values.contains_key(k) implies (chain.frames[handle as int].values.contains_key(
                k,
            ) && after_chain.frames[handle as int].values[k] == chain.frames[handle as int].values[k])
                || (exists|j: int|
                0 <= j < args.len() && after_chain.frames[handle as int].values[k]
                    == #[trigger] args[j]) by {
                if k == params[upto - 1].lexeme@ {
                    assert(after_chain.frames[handle as int].values[k] == args[upto - 1]);
                } else {
                    assert(before.frames[handle as int].values.contains_key(k));
                }
            }
        }
    }
}

/// Frames of the same shape have the same heights.
pub proof fn lemma_same_shape_heights<'a>(a: Seq<Frame<'a>>, b: Seq<Frame<'a>>, h: usize)
    requires
        same_shape(a, b),
    ensures
        height(a, h) == height(b, h),
{
    if h < a.len() {
        lemma_height_stays(a, b, h);
    }
}

/// The call of a function keeps the table and the state agreed, where the
/// table fits the body for one scope more than the closure has, and the
/// tasks for the frame that the end of the call goes back to.
pub proof fn lemma_call_agrees<'a>(
    s: State<'a>,
    params: &'a Vec<Token>,
    body: &'a Vec<Stmt>,
    closure: usize,
    args: Seq<Value<'a>>,
    end: Task<'a>,
)
    requires
        settled(s),
        sound(s),
        s.chain.frames.len() + 1 <= usize::MAX,
        closure < s.chain.frames.len(),
        forall|i: int|
            0 <= i < args.len() ==> value_fits(s.locals, s.chain.frames, #[trigger] args[i])
                && plain(args[i]) && valid(sizes(s), args[i]),
        stmts_fit(s.locals, body@, 0, height(s.chain.frames, closure) + 1),
        end is CallEnd || end is InitEnd,
        tasks_fit(s.locals, s.chain.frames, s.tasks, after(s.chain.frames, end, 0)),
    ensures
        agreed(call_function(s, params, body, closure, args, end)),
{
    let l = s.locals;
    let frames = s.chain.frames;
    let f = frames.len() as usize;
    let made = extended(s.chain, closure);
    let bound = bind(made, f, params@, args, params@.len() as int);
    let t = call_function(s, params, body, closure, args, end);
    lemma_new_frame(frames, empty_frame(closure));
    lemma_bind_maps(made, f, params@, args, params@.len() as int);
    // the shape of the frames is that of the frames with the new frame
    assert(extends(frames, bound.frames)) by {
        assert forall|i: int| 0 <= i < frames.len() implies (#[trigger] bound.frames[i]).enclosing
            == frames[i].enclosing by {
            assert(bound.frames[i].enclosing == made.frames[i].enclosing);
        }
    }
    assert(nested(bound.frames)) by {
        assert forall|i: int| 0 <= i < bound.frames.len() implies ((#[trigger] bound.frames[i]).enclosing matches Some(
            p,
        ) ==> p < i) by {
            assert(bound.frames[i].enclosing == made.frames[i].enclosing);
        }
    }
    lemma_same_shape_heights(made.frames, bound.frames, f);
    lemma_same_shape_heights(made.frames, bound.frames, closure);
    lemma_settled_stays(s, bound.frames);
    lemma_tasks_fit_stay(l, frames, bound.frames, s.tasks, after(frames, end, 0));
    assert(after(bound.frames, end, f) == after(frames, end, 0));
    lemma_tasks_fit_push(l, bound.frames, s.tasks, end, f);
    lemma_tasks_fit_push(l, bound.frames, s.tasks.push(end), Task::Sequence { stmts: body, next: 0 }, f);
    assert forall|i: int| 0 <= i < t.chain.frames.len() implies variables_fit(
        l,
        t.chain.frames,
        (#[trigger] t.chain.frames[i]).values,
    ) by {
        let m = t.chain.frames[i].values;
        if i == f {
            assert forall|k: Seq<char>| m.contains_key(k) implies value_fits(
                l,
                t.chain.frames,
                #[trigger] m[k],
            ) && plain(m[k]) by {
                assert(bound.frames[f as int].values.contains_key(k));
                assert(!made.frames[f as int].values.contains_key(k));
                let j = choose|j: int| 0 <= j < args.len() && m[k] == #[trigger] args[j];
                lemma_value_fits_stays(l, frames, bound.frames, args[j]);
            }
        } else {
            assert(m == made.frames[i].values);
            assert(made.frames[i] == frames[i]);
        }
    }
}

/// The state with a new frame that holds an instance as `this`.
pub open spec fn with_this<'a>(s: State<'a>, outer: usize, instance: Value<'a>) -> State<'a> {
    State {
        chain: stored(extended(s.chain, outer), s.chain.frames.len() as usize, "this"@, instance),
        ..s
    }
}

/// A new frame that holds an instance as `this` keeps the state settled; it
/// is one scope deeper than the frame around it.
pub proof fn lemma_this_frame_settled<'a>(s: State<'a>, outer: usize, instance: Value<'a>)
    requires
        settled(s),
        sound(s),
        outer < s.chain.frames.len(),
        instance is Instance,
        valid(sizes(s), instance),
        s.chain.frames.len() + 1 <= usize::MAX,
    ensures
        settled(with_this(s, outer, instance)),
        sound(with_this(s, outer, instance)),
        extends(s.chain.frames, with_this(s, outer, instance).chain.frames),
        with_this(s, outer, instance).chain.frames.len() == s.chain.frames.len() + 1,
        with_this(s, outer, instance).chain.current == s.chain.current,
        height(with_this(s, outer, instance).chain.frames, s.chain.frames.len() as usize) == height(
            s.chain.frames,
            outer,
        ) + 1,
{
    let l = s.locals;
    let frames = s.chain.frames;
    let f = frames.len() as usize;
    let made = extended(s.chain, outer);
    let t = with_this(s, outer, instance);
    lemma_this_frame_sound(s, outer, instance);
    lemma_new_frame(frames, empty_frame(outer));
    lemma_stored_frames(made, f, "this"@, instance);
    lemma_same_shape_heights(made.frames, t.chain.frames, f);
    assert(extends(frames, t.chain.frames)) by {
        assert forall|i: int| 0 <= i < frames.len() implies (#[trigger] t.chain.frames[i]).enclosing
            == frames[i].enclosing by {
            assert(t.chain.frames[i].enclosing == made.frames[i].enclosing);
        }
    }
    lemma_settled_stays(s, t.chain.frames);
    assert forall|i: int| 0 <= i < t.chain.frames.len() implies variables_fit(
        l,
        t.chain.frames,
        (#[trigger] t.chain.frames[i]).values,
    ) by {
        let m = t.chain.frames[i].values;
        if i == f {
            assert forall|k: Seq<char>| m.contains_key(k) implies value_fits(
                l,
                t.chain.frames,
                #[trigger] m[k],
            ) && plain(m[k]) by {
                assert(k == "this"@);
            }
        } else {
            assert(made.frames[i] == frames[i]);
        }
    }
}

/// Each method of methods that the table fits is fit by it.
pub proof fn lemma_each_method_fits(
    locals: Map<usize, usize>,
    methods: Seq<Stmt>,
    from: int,
    n: nat,
    i: int,
)
    requires
        methods_fit(locals, methods, from, n),
        0 <= from <= i < methods.len(),
    ensures
        methods[i] matches Stmt::Function { body, .. } ==> stmts_fit(locals, body@, 0, n),
    decreases i - from,
{
    if from < i {
        lemma_each_method_fits(locals, methods, from + 1, n, i);
    }
}

/// The table fits the methods of a class as they are put into a new
/// instance, and all their closures are the closure of the class.
pub proof fn lemma_method_table_fits<'a>(
    locals: Map<usize, usize>,
    frames: Seq<Frame<'a>>,
    methods: &'a Vec<Stmt>,
    closure: usize,
    upto: int,
)
    requires
        methods_fit(locals, methods@, 0, height(frames, closure) + 2),
    ensures
        fields_fit(locals, frames, method_table(methods, closure, upto)),
        forall|k: Seq<char>| #[trigger]
            method_table(methods, closure, upto).contains_key(k) ==> (method_table(
                methods,
                closure,
                upto,
            )[k] matches Value::Function { closure: c, method, .. } && c == closure && method),
    decreases upto,
{
    if !(upto <= 0 || upto > methods@.len()) {
        lemma_method_table_fits(locals, frames, methods, closure, upto - 1);
        lemma_each_method_fits(locals, methods@, 0, height(frames, closure) + 2, upto - 1);
        let before = method_table(methods, closure, upto - 1);
        let table = method_table(methods, closure, upto);
        assert forall|k: Seq<char>| table.contains_key(k) implies value_fits(
            locals,
            frames,
            #[trigger] table[k],
        ) by {
            if before.contains_key(k) {
                assert(value_fits(locals, frames, before[k]));
            }
        }
        assert forall|k: Seq<char>| #[trigger] table.contains_key(k) implies (table[k] matches Value::Function {
            closure: c,
            method,
            ..
        } && c == closure && method) by {
            if before.contains_key(k) {
                assert(before[k] matches Value::Function { closure: c, method, .. } && c == closure
                    && method);
            }
        }
    }
}

/// A call keeps the table and the state agreed.
pub proof fn lemma_invoke_agrees<'a>(s: State<'a>, count: usize)
    requires
        ready(s, Task::Invoke { count }),
    ensures
        agreed(invoke(s, count).0),
{
    let l = s.locals;
    let frames = s.chain.frames;
    let cur = s.chain.current;
    let base = s.values.len() - count - 1;
    let callee = s.values[base];
    let args = s.values.subrange(base + 1, s.values.len() as int);
    let rest = State { values: s.values.take(base), ..s };
    let y = sizes(s);
    let t = invoke(s, count).0;
    assert(valid(y, callee) && value_fits(l, frames, callee) && plain(callee));
    assert forall|i: int| 0 <= i < args.len() implies value_fits(l, frames, #[trigger] args[i])
        && plain(args[i]) && valid(y, args[i]) by {
        assert(args[i] == s.values[base + 1 + i]);
    }
    lemma_fewer_values_settled(s, base);
    assert forall|i: int| 0 <= i < rest.values.len() implies valid(y, #[trigger] rest.values[i]) by {
        assert(rest.values[i] == s.values[i]);
    }
    assert(sound(rest));
    assert(tasks_fit(l, frames, s.tasks, cur));
    match callee {
        Value::Function { params, body, closure, .. } => {
            if count == params@.len() {
                let end = Task::CallEnd { scope: cur, height: base as usize };
                lemma_call_agrees(rest, params, body, closure, args, end);
            }
        },
        Value::Class { methods, closure, .. } => {
            let fields = method_table(methods, closure, methods@.len() as int);
            let handle = s.objects.len() as usize;
            let instance = Value::Instance { handle };
            let made = State { objects: s.objects.push(Object { class: callee, fields }), ..rest };
            lemma_method_table_fits(l, frames, methods, closure, methods@.len() as int);
            crate::walker::soundness::lemma_invoke_sound(s, count);
            assert(settled(made)) by {
                assert forall|i: int| 0 <= i < made.objects.len() implies value_fits(
                    l,
                    frames,
                    (#[trigger] made.objects[i]).class,
                ) && fields_fit(l, frames, made.objects[i].fields) by {
                    if i < s.objects.len() {
                        assert(made.objects[i] == s.objects[i]);
                    }
                }
            }
            assert(sound(made)) by {
                let z = sizes(made);
                crate::walker::soundness::lemma_sound_grows(rest, z);
                crate::walker::soundness::lemma_methods_valid(
                    z,
                    methods,
                    closure,
                    methods@.len() as int,
                );
                assert forall|i: int| 0 <= i < made.objects.len() implies crate::walker::soundness::object_sound(
                    z,
                    #[trigger] made.objects[i],
                ) by {
                    if i < s.objects.len() {
                        assert(made.objects[i] == s.objects[i]);
                    }
                }
            }
            if fields.contains_key("init"@) {
                match fields["init"@] {
                    Value::Function { params, body, closure: outer, .. } => {
                        if count == params@.len() {
                            assert(outer == closure);
                            assert(value_fits(l, frames, fields["init"@]));
                            lemma_this_frame_settled(made, outer, instance);
                            let bound = with_this(made, outer, instance);
                            let end = Task::InitEnd {
                                scope: cur,
                                height: base as usize,
                                instance: handle,
                            };
                            lemma_tasks_fit_stay(l, frames, bound.chain.frames, s.tasks, cur);
                            assert forall|i: int| 0 <= i < args.len() implies value_fits(
                                l,
                                bound.chain.frames,
                                #[trigger] args[i],
                            ) && plain(args[i]) && valid(sizes(bound), args[i]) by {
                                lemma_value_fits_stays(l, frames, bound.chain.frames, args[i]);
                            }
                            lemma_call_agrees(bound, params, body, frames.len() as usize, args, end);
                        } else {
                            assert(cur < frames.len());
                        }
                    },
                    _ => {
                        lemma_push_settled(made, instance);
                    },
                }
            } else {
                lemma_push_settled(made, instance);
            }
        },
        _ => {
            assert(cur < frames.len());
        },
    }
}

/// Reading a property keeps the table and the state agreed.
pub proof fn lemma_get_field_agrees<'a>(s: State<'a>, name: &'a Token)
    requires
        ready(s, Task::GetField(name)),
    ensures
        agreed(get_field(s, name).0),
{
    let l = s.locals;
    let frames = s.chain.frames;
    let cur = s.chain.current;
    let receiver = s.values.last();
    let t = get_field(s, name).0;
    assert(valid(sizes(s), receiver));
    assert(cur < frames.len());
    let rest = drop(s);
    lemma_fewer_values_settled(s, s.values.len() - 1);
    assert(rest.values =~= s.values.take(s.values.len() - 1));
    if let Value::Instance { handle } = receiver {
        if handle < s.objects.len() {
            let fields = s.objects[handle as int].fields;
            assert(crate::walker::soundness::object_sound(sizes(s), s.objects[handle as int]));
            assert(fields_fit(l, frames, fields));
            if fields.contains_key(name.lexeme@) {
                let found = fields[name.lexeme@];
                assert(valid(sizes(s), found));
                assert(value_fits(l, frames, found));
                match found {
                    Value::Function { id, name: declared, params, body, closure, method } => {
                        if method {
                            assert(sound(rest)) by {
                                assert forall|i: int| 0 <= i < rest.values.len() implies valid(
                                    sizes(rest),
                                    #[trigger] rest.values[i],
                                ) by {
                                    assert(rest.values[i] == s.values[i]);
                                }
                            }
                            lemma_this_frame_settled(rest, closure, receiver);
                            let bound = with_this(rest, closure, receiver);
                            let made = Value::Function {
                                id,
                                name: declared,
                                params,
                                body,
                                closure: frames.len() as usize,
                                method: false,
                            };
                            lemma_push_settled(bound, made);
                            lemma_tasks_fit_stay(l, frames, bound.chain.frames, s.tasks, cur);
                            assert(t == push(bound, made));
                        } else {
                            lemma_push_settled(rest, found);
                        }
                    },
                    v => {
                        lemma_push_settled(rest, found);
                    },
                }
            }
        }
    }
}

/// An assignment at a depth that the table fits finds a frame, and keeps
/// the table and the state agreed.
pub proof fn lemma_assign_agrees<'a>(s: State<'a>, id: usize, name: &'a Token)
    requires
        ready(s, Task::Assign { id, name }),
    ensures
        agreed(assign(s, id, name).0),
        target(s.chain, depth_for(s, id)) is Some,
{
    let depth = depth_for(s, id);
    match depth {
        Some(d) => {
            lemma_ancestor_within_height(s.chain.frames, s.chain.current, d as nat);
        },
        None => {},
    }
    crate::walker::soundness::lemma_lookup_valid(sizes(s), s.chain, name.lexeme@, depth);
    let h = target(s.chain, depth)->0;
    let v = s.values.last();
    assert(valid(sizes(s), v));
    lemma_stored_settled(s, h, name.lexeme@, v);
    lemma_stored_frames(s.chain, h, name.lexeme@, v);
}

/// Setting a property keeps the table and the state agreed.
pub proof fn lemma_set_field_agrees<'a>(s: State<'a>, name: &'a Token)
    requires
        ready(s, Task::SetField(name)),
    ensures
        agreed(set_field(s, name).0),
{
    let l = s.locals;
    let frames = s.chain.frames;
    let t = set_field(s, name).0;
    let v = s.values[s.values.len() - 1];
    assert(s.chain.current < frames.len());
    if let Value::Instance { handle } = s.values[s.values.len() - 2] {
        if handle < s.objects.len() {
            assert forall|i: int| 0 <= i < t.objects.len() implies value_fits(
                l,
                frames,
                (#[trigger] t.objects[i]).class,
            ) && fields_fit(l, frames, t.objects[i].fields) by {
                assert(fields_fit(l, frames, s.objects[i].fields));
                let m = t.objects[i].fields;
                assert forall|k: Seq<char>| m.contains_key(k) implies value_fits(
                    l,
                    frames,
                    #[trigger] m[k],
                ) by {
                    if !(i == handle && k == name.lexeme@) {
                        assert(s.objects[i].fields.contains_key(k));
                        assert(m[k] == s.objects[i].fields[k]);
                    }
                }
            }
            assert forall|j: int| 0 <= j < t.values.len() implies value_fits(
                l,
                frames,
                #[trigger] t.values[j],
            ) && plain(t.values[j]) by {
                if j < t.values.len() - 1 {
                    assert(t.values[j] == s.values[j]);
                }
            }
        }
    }
}

/// A binary operator keeps the table and the state agreed.
pub proof fn lemma_binary_agrees<'a>(s: State<'a>, op: &'a Token)
    requires
        ready(s, Task::Binary(op)),
    ensures
        agreed(binary(s, op).0),
{
    let t = binary(s, op).0;
    assert(s.chain.current < s.chain.frames.len());
    assert forall|j: int| 0 <= j < t.values.len() implies value_fits(
        t.locals,
        t.chain.frames,
        #[trigger] t.values[j],
    ) && plain(t.values[j]) by {
        if j < s.values.len() - 2 {
            assert(t.values[j] == s.values[j]);
        }
    }
}

/// Doing a task keeps the table and the state agreed.
pub proof fn lemma_perform_agrees<'a>(s: State<'a>, task: Task<'a>)
    requires
        ready(s, task),
    ensures
        agreed(perform(s, task).0),
{
    let l = s.locals;
    let frames = s.chain.frames;
    let cur = s.chain.current;
    let t = perform(s, task).0;
    assert(tasks_fit(l, frames, s.tasks, after(frames, task, cur)));
    match task {
        Task::Execute(stmt) => {
            lemma_execute_agrees(s, stmt);
        },
        Task::Sequence { stmts, next } => {
            if next < stmts@.len() {
                assert(stmts@.len() == stmts.len());
                let more = Task::Sequence { stmts, next: (next + 1) as usize };
                lemma_tasks_fit_push(l, frames, s.tasks, more, cur);
                lemma_tasks_fit_push(l, frames, s.tasks.push(more), Task::Execute(&stmts@[next as int]), cur);
            }
        },
        Task::EndBlock => {},
        Task::Evaluate(expr) => {
            lemma_evaluate_agrees(s, expr);
        },
        Task::Arguments { args, next } => {
            if next < args@.len() {
                assert(args@.len() == args.len());
                let more = Task::Arguments { args, next: (next + 1) as usize };
                lemma_tasks_fit_push(l, frames, s.tasks, more, cur);
                lemma_tasks_fit_push(l, frames, s.tasks.push(more), Task::Evaluate(&args@[next as int]), cur);
            }
        },
        Task::Discard => {
            lemma_fewer_values_settled(s, s.values.len() - 1);
            assert(t.values =~= s.values.take(s.values.len() - 1));
        },
        Task::Branch { then_branch, els } => {
            lemma_fewer_values_settled(s, s.values.len() - 1);
            assert(drop(s).values =~= s.values.take(s.values.len() - 1));
            lemma_tasks_fit_push(l, frames, s.tasks, Task::Execute(then_branch), cur);
            match els {
                Some(e) => {
                    lemma_tasks_fit_push(l, frames, s.tasks, Task::Execute(&**e), cur);
                },
                None => {},
            }
        },
        Task::Print => {
            lemma_fewer_values_settled(s, s.values.len() - 1);
            assert(drop(s).values =~= s.values.take(s.values.len() - 1));
        },
        Task::Define(name) => {
            lemma_fewer_values_settled(s, s.values.len() - 1);
            assert(drop(s).values =~= s.values.take(s.values.len() - 1));
            let rest = drop(s);
            assert(valid(sizes(s), s.values.last()));
            assert(sound(rest)) by {
                assert forall|i: int| 0 <= i < rest.values.len() implies valid(
                    sizes(rest),
                    #[trigger] rest.values[i],
                ) by {
                    assert(rest.values[i] == s.values[i]);
                }
            }
            lemma_stored_settled(rest, cur, name.lexeme@, s.values.last());
            lemma_stored_frames(s.chain, cur, name.lexeme@, s.values.last());
        },
        Task::LoopTest { condition, body } => {
            lemma_fewer_values_settled(s, s.values.len() - 1);
            assert(drop(s).values =~= s.values.take(s.values.len() - 1));
            let next = Task::LoopNext {
                condition,
                body,
                scope: cur,
                height: (s.values.len() - 1) as usize,
            };
            lemma_tasks_fit_push(l, frames, s.tasks, next, cur);
            lemma_tasks_fit_push(l, frames, s.tasks.push(next), Task::Execute(body), cur);
        },
        Task::LoopNext { condition, body, .. } => {
            let test = Task::LoopTest { condition, body };
            lemma_tasks_fit_push(l, frames, s.tasks, test, cur);
            lemma_tasks_fit_push(l, frames, s.tasks.push(test), Task::Evaluate(condition), cur);
        },
        Task::Return => {
            lemma_fewer_values_settled(s, s.values.len() - 1);
            assert(drop(s).values =~= s.values.take(s.values.len() - 1));
            let rest = drop(s);
            assert(sound(rest)) by {
                assert forall|i: int| 0 <= i < rest.values.len() implies valid(
                    sizes(rest),
                    #[trigger] rest.values[i],
                ) by {
                    assert(rest.values[i] == s.values[i]);
                }
            }
            lemma_return_agrees(rest, s.values.last(), cur);
        },
        Task::CallEnd { scope, .. } => {
            lemma_push_settled(State { chain: entered(s.chain, scope), ..s }, Value::Nil);
        },
        Task::InitEnd { scope, instance, .. } => {
            lemma_push_settled(
                State { chain: entered(s.chain, scope), ..s },
                Value::Instance { handle: instance },
            );
        },
        Task::Unary(op) => {
            lemma_fewer_values_settled(s, s.values.len() - 1);
            assert(drop(s).values =~= s.values.take(s.values.len() - 1));
            lemma_push_settled(drop(s), Value::Boolean(!s.values.last().truthy()));
            assert(cur < frames.len());
        },
        Task::Binary(op) => {
            lemma_binary_agrees(s, op);
        },
        Task::Logical { op, right } => {
            lemma_fewer_values_settled(s, s.values.len() - 1);
            assert(drop(s).values =~= s.values.take(s.values.len() - 1));
            lemma_tasks_fit_push(l, frames, s.tasks, Task::Evaluate(right), cur);
        },
        Task::Assign { id, name } => {
            lemma_assign_agrees(s, id, name);
        },
        Task::RequireInstance => {
            assert(cur < frames.len());
        },
        Task::SetField(name) => {
            lemma_set_field_agrees(s, name);
        },
        Task::GetField(name) => {
            lemma_get_field_agrees(s, name);
        },
        Task::Invoke { count } => {
            lemma_invoke_agrees(s, count);
        },
    }
}

/// No step breaks the agreement of the depth table and the state.
pub proof fn lemma_step_agrees<'a>(s: State<'a>, reply: Reply)
    requires
        agreed(s),
        sound(s),
        roomy(s),
    ensures
        agreed(step(s, reply).0),
{
    assert(s.chain.current < s.chain.frames.len());
    if s.pending != Pending::Nothing {
        let t = resume(s, reply).0;
        assert forall|j: int| 0 <= j < t.values.len() implies value_fits(
            t.locals,
            t.chain.frames,
            #[trigger] t.values[j],
        ) && plain(t.values[j]) by {
            if j < s.values.len() {
                assert(t.values[j] == s.values[j]);
            }
        }
    } else if s.tasks.len() > 0 {
        let rest = State { tasks: s.tasks.drop_last(), ..s };
        let task = s.tasks.last();
        assert(task_sound(sizes(s), task));
        assert(sound(rest));
        if rest.values.len() >= needs(task) {
            lemma_perform_agrees(rest, task);
        }
    }
}

/// Where the depth table and the state agree, no step fails for a depth: a
/// variable is read and assigned in a frame that is there at the depth that
/// the table gives.
pub proof fn lemma_agreed_step_finds_frames<'a>(s: State<'a>, reply: Reply, name: Seq<char>)
    requires
        agreed(s),
        sound(s),
        roomy(s),
    ensures
        step(s, reply).1 != Asked::Failed(Failure::Internal { msg: no_frame(name) }),
{
    reveal_strlit("Handle without a value");
    reveal_strlit("Too few operands");
    reveal_strlit("Unexpected reply");
    reveal_strlit("No frame at the depth resolved for ");
    assert(dangling()[0] == 'H');
    assert(underflow()[0] == 'T');
    assert(unexpected_reply()[0] == 'U');
    assert(no_frame(name)[0] == 'N');
    if s.pending == Pending::Nothing && s.tasks.len() > 0 {
        let rest = State { tasks: s.tasks.drop_last(), ..s };
        let task = s.tasks.last();
        assert(task_sound(sizes(s), task));
        assert(sound(rest));
        if rest.values.len() >= needs(task) {
            match task {
                Task::Evaluate(expr) => {
                    lemma_evaluate_agrees(rest, expr);
                },
                Task::Assign { id, name } => {
                    lemma_assign_agrees(rest, id, name);
                },
                _ => {},
            }
        }
    }
}

/// The machine with a program on it, before its first step, agrees with a
/// depth table that fits the program with the global scope alone open.
pub proof fn lemma_start_agrees<'a>(locals: Map<usize, usize>, stmts: &'a Vec<Stmt>)
    requires
        stmts_fit(locals, stmts@, 0, 1),
    ensures
        agreed(begin(initial(locals), Task::Sequence { stmts, next: 0 })),
        sound(begin(initial(locals), Task::Sequence { stmts, next: 0 })),
{
    let s = initial::<'a>(locals);
    let t = plan(s, Task::Sequence { stmts, next: 0 });
    assert(t == begin(s, Task::Sequence { stmts, next: 0 }));
    crate::walker::soundness::lemma_initial_is_sound(s);
    assert(height(s.chain.frames, 0) == 1);
    lemma_tasks_fit_push(locals, s.chain.frames, s.tasks, Task::Sequence { stmts, next: 0 }, 0);
    assert(tasks_fit(locals, s.chain.frames, s.tasks, 0));
    assert forall|i: int| 0 <= i < t.chain.frames.len() implies variables_fit(
        locals,
        t.chain.frames,
        (#[trigger] t.chain.frames[i]).values,
    ) by {
        let m = t.chain.frames[i].values;
        assert forall|k: Seq<char>| m.contains_key(k) implies value_fits(
            locals,
            t.chain.frames,
            #[trigger] m[k],
        ) && plain(m[k]) by {}
    }
}

/// Steps in a row keep the depth table and the state agreed, and the state
/// sound, as long as the stores have room for what the steps can add.
pub proof fn lemma_run_agrees<'a>(s: State<'a>, reply: Reply, more: nat)
    requires
        agreed(s),
        sound(s),
        s.chain.frames.len() + 2 * (more + 1) <= usize::MAX,
        s.texts.len() + (more + 1) <= usize::MAX,
        s.objects.len() + (more + 1) <= usize::MAX,
    ensures
        agreed(run(s, reply, more).0),
        sound(run(s, reply, more).0),
        forall|name: Seq<char>|
            run(s, reply, more).1 != Asked::Failed(Failure::Internal { msg: #[trigger] no_frame(name) }),
    decreases more,
{
    let next = step(s, reply);
    lemma_step_agrees(s, reply);
    crate::walker::soundness::lemma_step_sound(s, reply);
    crate::walker::soundness::lemma_step_adds_little(s, reply);
    assert forall|name: Seq<char>|
        next.1 != Asked::Failed(Failure::Internal { msg: #[trigger] no_frame(name) }) by {
        lemma_agreed_step_finds_frames(s, reply, name);
    }
    if next.1 is Continue && more > 0 {
        lemma_run_agrees(next.0, Reply::Resume, (more - 1) as nat);
    }
}

/// A program whose depth table fits it never finds a depth leading nowhere:
/// from the start of the program, through any number of steps, no read and
/// no assignment fails for want of a frame at the depth that the table
/// gives.
pub proof fn lemma_fitting_program_finds_its_frames<'a>(
    locals: Map<usize, usize>,
    stmts: &'a Vec<Stmt>,
    reply: Reply,
    more: nat,
    name: Seq<char>,
)
    requires
        stmts_fit(locals, stmts@, 0, 1),
        2 * (more + 1) + 1 <= usize::MAX,
    ensures
        run(begin(initial(locals), Task::Sequence { stmts, next: 0 }), reply, more).1 != Asked::Failed(
            Failure::Internal { msg: no_frame(name) },
        ),
{
    let start = begin(initial(locals), Task::Sequence { stmts, next: 0 });
    lemma_start_agrees(locals, stmts);
    lemma_run_agrees(start, reply, more);
}

} // verus!
