//! No handle dangles: in every state that the machine reaches from its start,
//! each handle that a value, a frame or a task holds leads to a frame, a
//! string or an instance that is there.
use crate::shared::scanner::Token;
use crate::walker::ast::{Expr, Stmt};
use crate::walker::environment::{
    extended, lemma_ancestor_in_range, lookup, stored, target, Chain, Frame,
};
use crate::walker::machine::{
    Asked, Object, Pending, Reply, State, Task, assign, binary, bind, break_out, call_function,
    dangling, drop, evaluate, execute, get_field, initial, innermost_call, innermost_loop, invoke,
    literal, method_table, needs, perform, read, resume, return_from, run, set_field, step,
    underflow, unexpected_reply,
};
use crate::walker::errors::Failure;
use crate::walker::environment::no_frame;
use crate::walker::values::Value;
use vstd::prelude::*;

verus! {

/// How many frames, strings and instances there are.
pub struct Sizes {
    pub frames: nat,
    pub texts: nat,
    pub objects: nat,
}

/// The sizes of the stores of a state.
pub open spec fn sizes<'a>(s: State<'a>) -> Sizes {
    Sizes { frames: s.chain.frames.len(), texts: s.texts.len(), objects: s.objects.len() }
}

/// Whether the handle that the value holds, if it holds one, leads
/// somewhere.
pub open spec fn valid<'a>(z: Sizes, v: Value<'a>) -> bool {
    match v {
        Value::String(h) => h < z.texts,
        Value::Instance { handle } => handle < z.objects,
        Value::Function { closure, .. } => closure < z.frames,
        Value::Class { closure, .. } => closure < z.frames,
        _ => true,
    }
}

/// Whether all values of the table are valid.
pub open spec fn all_valid<'a>(z: Sizes, m: Map<Seq<char>, Value<'a>>) -> bool {
    forall|k: Seq<char>| m.contains_key(k) ==> valid(z, #[trigger] m[k])
}

/// Whether the frame holds valid values and lies inside a frame that is
/// there.
pub open spec fn frame_sound<'a>(z: Sizes, f: Frame<'a>) -> bool {
    &&& f.enclosing matches Some(outer) ==> outer < z.frames
    &&& all_valid(z, f.values)
}

/// Whether the instance holds valid values.
pub open spec fn object_sound<'a>(z: Sizes, o: Object<'a>) -> bool {
    &&& valid(z, o.class)
    &&& all_valid(z, o.fields)
}

/// Whether the handles that the task keeps lead somewhere.
pub open spec fn task_sound<'a>(z: Sizes, t: Task<'a>) -> bool {
    match t {
        Task::LoopNext { scope, .. } => scope < z.frames,
        Task::CallEnd { scope, .. } => scope < z.frames,
        Task::InitEnd { scope, instance, .. } => scope < z.frames && instance < z.objects,
        _ => true,
    }
}

/// Whether the frames lie in frames that are there and hold valid values.
pub open spec fn chain_sound<'a>(z: Sizes, chain: Chain<'a>) -> bool {
    &&& chain.frames.len() == z.frames
    &&& chain.current < chain.frames.len()
    &&& forall|i: int| 0 <= i < chain.frames.len() ==> frame_sound(z, #[trigger] chain.frames[i])
}

/// Whether no handle in the state dangles.
pub open spec fn sound<'a>(s: State<'a>) -> bool {
    &&& chain_sound(sizes(s), s.chain)
    &&& s.home < s.chain.frames.len()
    &&& forall|i: int| 0 <= i < s.objects.len() ==> object_sound(sizes(s), #[trigger] s.objects[i])
    &&& forall|i: int| 0 <= i < s.values.len() ==> valid(sizes(s), #[trigger] s.values[i])
    &&& forall|i: int| 0 <= i < s.tasks.len() ==> task_sound(sizes(s), #[trigger] s.tasks[i])
}

/// Whether the stores have room for what one step can add, so that the
/// handle of what is added is its place in the store.
pub open spec fn roomy<'a>(s: State<'a>) -> bool {
    &&& s.chain.frames.len() + 2 <= usize::MAX
    &&& s.texts.len() + 1 <= usize::MAX
    &&& s.objects.len() + 1 <= usize::MAX
}

/// Whether the stores of `z` are at least as large as those of `y`.
pub open spec fn at_least(z: Sizes, y: Sizes) -> bool {
    y.frames <= z.frames && y.texts <= z.texts && y.objects <= z.objects
}

/// Whether a state is sound for stores of the sizes `z`, which may be larger
/// than its own: what a step builds on while it adds to the stores.
pub open spec fn sound_in<'a>(z: Sizes, s: State<'a>) -> bool {
    &&& s.chain.current < z.frames
    &&& s.home < z.frames
    &&& forall|i: int| 0 <= i < s.chain.frames.len() ==> frame_sound(z, #[trigger] s.chain.frames[i])
    &&& forall|i: int| 0 <= i < s.objects.len() ==> object_sound(z, #[trigger] s.objects[i])
    &&& forall|i: int| 0 <= i < s.values.len() ==> valid(z, #[trigger] s.values[i])
    &&& forall|i: int| 0 <= i < s.tasks.len() ==> task_sound(z, #[trigger] s.tasks[i])
}

/// What is sound stays sound when the stores grow.
pub proof fn lemma_sound_grows<'a>(s: State<'a>, z: Sizes)
    requires
        sound(s),
        at_least(z, sizes(s)),
    ensures
        sound_in(z, s),
{
    let y = sizes(s);
    assert forall|i: int| 0 <= i < s.chain.frames.len() implies frame_sound(
        z,
        #[trigger] s.chain.frames[i],
    ) by {
        let f = s.chain.frames[i];
        assert(frame_sound(y, f));
        assert forall|k: Seq<char>| f.values.contains_key(k) implies valid(z, #[trigger] f.values[k]) by {
            assert(valid(y, f.values[k]));
        }
    }
    assert forall|i: int| 0 <= i < s.objects.len() implies object_sound(z, #[trigger] s.objects[i]) by {
        let o = s.objects[i];
        assert(object_sound(y, o));
        assert forall|k: Seq<char>| o.fields.contains_key(k) implies valid(z, #[trigger] o.fields[k]) by {
            assert(valid(y, o.fields[k]));
        }
    }
    assert forall|i: int| 0 <= i < s.values.len() implies valid(z, #[trigger] s.values[i]) by {
        assert(valid(y, s.values[i]));
    }
    assert forall|i: int| 0 <= i < s.tasks.len() implies task_sound(z, #[trigger] s.tasks[i]) by {
        assert(task_sound(y, s.tasks[i]));
    }
}

/// The state at the start is sound.
pub proof fn lemma_initial_is_sound<'a>(s: State<'a>)
    requires
        s == initial::<'a>(s.locals),
    ensures
        sound(s),
{
    assert(s.chain.frames.len() == 1);
    assert forall|i: int| 0 <= i < s.chain.frames.len() implies frame_sound(
        sizes(s),
        #[trigger] s.chain.frames[i],
    ) by {
        let f = s.chain.frames[i];
        assert forall|k: Seq<char>| f.values.contains_key(k) implies valid(
            sizes(s),
            #[trigger] f.values[k],
        ) by {}
    }
}

/// Storing a valid value in a frame keeps the frames sound.
pub proof fn lemma_stored_sound<'a>(
    z: Sizes,
    chain: Chain<'a>,
    handle: usize,
    name: Seq<char>,
    value: Value<'a>,
)
    requires
        forall|i: int| 0 <= i < chain.frames.len() ==> frame_sound(z, #[trigger] chain.frames[i]),
        valid(z, value),
    ensures
        forall|i: int|
            0 <= i < stored(chain, handle, name, value).frames.len() ==> frame_sound(
                z,
                #[trigger] stored(chain, handle, name, value).frames[i],
            ),
        stored(chain, handle, name, value).frames.len() == chain.frames.len(),
        stored(chain, handle, name, value).current == chain.current,
{
    let after = stored(chain, handle, name, value);
    assert forall|i: int| 0 <= i < after.frames.len() implies frame_sound(
        z,
        #[trigger] after.frames[i],
    ) by {
        assert(frame_sound(z, chain.frames[i]));
        if i == handle {
            let f = after.frames[i];
            assert forall|k: Seq<char>| f.values.contains_key(k) implies valid(
                z,
                #[trigger] f.values[k],
            ) by {
                if k != name {
                    assert(valid(z, chain.frames[i].values[k]));
                }
            }
        }
    }
}

/// A new frame inside a frame that is there keeps the frames sound.
pub proof fn lemma_extended_sound<'a>(z: Sizes, chain: Chain<'a>, enclosing: usize)
    requires
        forall|i: int| 0 <= i < chain.frames.len() ==> frame_sound(z, #[trigger] chain.frames[i]),
        enclosing < z.frames,
    ensures
        forall|i: int|
            0 <= i < extended(chain, enclosing).frames.len() ==> frame_sound(
                z,
                #[trigger] extended(chain, enclosing).frames[i],
            ),
        extended(chain, enclosing).frames.len() == chain.frames.len() + 1,
        extended(chain, enclosing).current == chain.current,
{
    let after = extended(chain, enclosing);
    assert forall|i: int| 0 <= i < after.frames.len() implies frame_sound(
        z,
        #[trigger] after.frames[i],
    ) by {
        if i < chain.frames.len() {
            assert(frame_sound(z, chain.frames[i]));
        }
    }
}

/// Binding valid arguments keeps the frames sound.
pub proof fn lemma_bind_sound<'a>(
    z: Sizes,
    chain: Chain<'a>,
    handle: usize,
    params: Seq<Token>,
    args: Seq<Value<'a>>,
    upto: int,
)
    requires
        forall|i: int| 0 <= i < chain.frames.len() ==> frame_sound(z, #[trigger] chain.frames[i]),
        forall|i: int| 0 <= i < args.len() ==> valid(z, #[trigger] args[i]),
    ensures
        forall|i: int|
            0 <= i < bind(chain, handle, params, args, upto).frames.len() ==> frame_sound(
                z,
                #[trigger] bind(chain, handle, params, args, upto).frames[i],
            ),
        bind(chain, handle, params, args, upto).frames.len() == chain.frames.len(),
        bind(chain, handle, params, args, upto).current == chain.current,
    decreases upto,
{
    if !(upto <= 0 || upto > params.len() || upto > args.len()) {
        lemma_bind_sound(z, chain, handle, params, args, upto - 1);
        lemma_stored_sound(
            z,
            bind(chain, handle, params, args, upto - 1),
            handle,
            params[upto - 1].lexeme@,
            args[upto - 1],
        );
    }
}

/// The methods of a class whose closure is there are valid values.
pub proof fn lemma_methods_valid<'a>(z: Sizes, methods: &'a Vec<Stmt>, closure: usize, upto: int)
    requires
        closure < z.frames,
    ensures
        all_valid(z, method_table(methods, closure, upto)),
    decreases upto,
{
    if !(upto <= 0 || upto > methods@.len()) {
        lemma_methods_valid(z, methods, closure, upto - 1);
        let before = method_table(methods, closure, upto - 1);
        let after = method_table(methods, closure, upto);
        assert forall|k: Seq<char>| after.contains_key(k) implies valid(z, #[trigger] after[k]) by {
            if before.contains_key(k) {
                assert(valid(z, before[k]));
            }
        }
    }
}

/// What a read gives is valid.
pub proof fn lemma_lookup_valid<'a>(
    z: Sizes,
    chain: Chain<'a>,
    name: Seq<char>,
    depth: Option<usize>,
)
    requires
        forall|i: int| 0 <= i < chain.frames.len() ==> frame_sound(z, #[trigger] chain.frames[i]),
    ensures
        lookup(chain, name, depth) matches Ok(v) ==> valid(z, v),
        target(chain, depth) matches Some(h) ==> h < chain.frames.len(),
{
    match depth {
        Some(d) => {
            lemma_ancestor_in_range(chain.frames, chain.current, d as nat);
        },
        None => {},
    }
    if let Some(h) = target(chain, depth) {
        assert(frame_sound(z, chain.frames[h as int]));
    }
}

/// A call of a function whose closure is there, with valid arguments, keeps
/// the state sound.
pub proof fn lemma_call_sound<'a>(
    s: State<'a>,
    params: &'a Vec<Token>,
    body: &'a Vec<Stmt>,
    closure: usize,
    args: Seq<Value<'a>>,
    end: Task<'a>,
)
    requires
        s.chain.frames.len() + 1 <= usize::MAX,
        closure < s.chain.frames.len(),
        s.home < s.chain.frames.len(),
        forall|i: int| 0 <= i < args.len() ==> valid(sizes(s), #[trigger] args[i]),
        task_sound(sizes(s), end),
        forall|i: int|
            0 <= i < s.chain.frames.len() ==> frame_sound(sizes(s), #[trigger] s.chain.frames[i]),
        forall|i: int| 0 <= i < s.objects.len() ==> object_sound(sizes(s), #[trigger] s.objects[i]),
        forall|i: int| 0 <= i < s.values.len() ==> valid(sizes(s), #[trigger] s.values[i]),
        forall|i: int| 0 <= i < s.tasks.len() ==> task_sound(sizes(s), #[trigger] s.tasks[i]),
    ensures
        sound(call_function(s, params, body, closure, args, end)),
{
    let t = call_function(s, params, body, closure, args, end);
    let y = sizes(s);
    let z = Sizes { frames: y.frames + 1, ..y };
    let handle = s.chain.frames.len() as usize;
    // everything that was sound stays sound in the larger store
    assert forall|i: int| 0 <= i < s.chain.frames.len() implies frame_sound(
        z,
        #[trigger] s.chain.frames[i],
    ) by {
        let f = s.chain.frames[i];
        assert(frame_sound(y, f));
        assert forall|k: Seq<char>| f.values.contains_key(k) implies valid(z, #[trigger] f.values[k]) by {
            assert(valid(y, f.values[k]));
        }
    }
    assert forall|i: int| 0 <= i < args.len() implies valid(z, #[trigger] args[i]) by {
        assert(valid(y, args[i]));
    }
    let made = extended(s.chain, closure);
    lemma_extended_sound(z, s.chain, closure);
    lemma_bind_sound(z, made, handle, params@, args, params@.len() as int);
    assert(sizes(t) == z);
    assert forall|i: int| 0 <= i < t.objects.len() implies object_sound(z, #[trigger] t.objects[i]) by {
        let o = s.objects[i];
        assert(object_sound(y, o));
        assert forall|k: Seq<char>| o.fields.contains_key(k) implies valid(z, #[trigger] o.fields[k]) by {
            assert(valid(y, o.fields[k]));
        }
    }
    assert forall|i: int| 0 <= i < t.values.len() implies valid(z, #[trigger] t.values[i]) by {
        assert(valid(y, s.values[i]));
    }
    assert forall|i: int| 0 <= i < t.tasks.len() implies task_sound(z, #[trigger] t.tasks[i]) by {
        if i < s.tasks.len() {
            assert(task_sound(y, s.tasks[i]));
        }
    }
}

/// The start of an expression keeps the state sound.
pub proof fn lemma_evaluate_sound<'a>(s: State<'a>, expr: &'a Expr)
    requires
        sound(s),
        roomy(s),
    ensures
        sound(evaluate(s, expr).0),
{
    match expr {
        Expr::Literal { value } => {
            let t = literal(s, value).0;
            lemma_sound_grows(s, sizes(t));
        },
        Expr::Variable { id, name } => {
            lemma_lookup_valid(sizes(s), s.chain, name.lexeme@, crate::walker::machine::depth_for(s, *id));
        },
        Expr::This { id, keyword } => {
            lemma_lookup_valid(
                sizes(s),
                s.chain,
                keyword.lexeme@,
                crate::walker::machine::depth_for(s, *id),
            );
        },
        _ => {},
    }
}

/// The tasks below a task that is sound are sound.
pub proof fn lemma_take_sound<'a>(z: Sizes, tasks: Seq<Task<'a>>, upto: int)
    requires
        forall|i: int| 0 <= i < tasks.len() ==> task_sound(z, #[trigger] tasks[i]),
        0 <= upto <= tasks.len(),
    ensures
        forall|i: int| 0 <= i < tasks.take(upto).len() ==> task_sound(z, #[trigger] tasks.take(upto)[i]),
{
    assert forall|i: int| 0 <= i < tasks.take(upto).len() implies task_sound(
        z,
        #[trigger] tasks.take(upto)[i],
    ) by {
        assert(tasks.take(upto)[i] == tasks[i]);
    }
}

/// The innermost loop, where there is one, is a task of the tasks.
pub proof fn lemma_innermost_loop_is_there<'a>(tasks: Seq<Task<'a>>)
    ensures
        innermost_loop(tasks) matches Some(i) ==> 0 <= i < tasks.len() && tasks[i] is LoopNext,
    decreases tasks.len(),
{
    if tasks.len() > 0 && !(tasks.last() is LoopNext) {
        lemma_innermost_loop_is_there(tasks.drop_last());
    }
}

/// The innermost call, where there is one, is a task of the tasks.
pub proof fn lemma_innermost_call_is_there<'a>(tasks: Seq<Task<'a>>)
    ensures
        innermost_call(tasks) matches Some(i) ==> 0 <= i < tasks.len() && (tasks[i] is CallEnd
            || tasks[i] is InitEnd),
    decreases tasks.len(),
{
    if tasks.len() > 0 && !(tasks.last() is CallEnd || tasks.last() is InitEnd) {
        lemma_innermost_call_is_there(tasks.drop_last());
    }
}

/// `break` keeps the state sound.
pub proof fn lemma_break_sound<'a>(s: State<'a>)
    requires
        sound(s),
    ensures
        sound(break_out(s).0),
{
    lemma_innermost_loop_is_there(s.tasks);
    if let Some(i) = innermost_loop(s.tasks) {
        lemma_take_sound(sizes(s), s.tasks, i);
        assert(task_sound(sizes(s), s.tasks[i]));
        let t = break_out(s).0;
        assert forall|j: int| 0 <= j < t.values.len() implies valid(sizes(t), #[trigger] t.values[j]) by {
            assert(t.values[j] == s.values[j]);
        }
    }
}

/// `return` of a valid value keeps the state sound.
pub proof fn lemma_return_sound<'a>(s: State<'a>, v: Value<'a>)
    requires
        sound(s),
        valid(sizes(s), v),
    ensures
        sound(return_from(s, v).0),
{
    lemma_innermost_call_is_there(s.tasks);
    if let Some(i) = innermost_call(s.tasks) {
        lemma_take_sound(sizes(s), s.tasks, i);
        assert(task_sound(sizes(s), s.tasks[i]));
        let t = return_from(s, v).0;
        assert forall|j: int| 0 <= j < t.values.len() implies valid(sizes(t), #[trigger] t.values[j]) by {
            if j < t.values.len() - 1 {
                assert(t.values[j] == s.values[j]);
            }
        }
    }
}

/// A state with the same stores, whose frames, operands and tasks are sound,
/// is sound.
pub proof fn lemma_stored_state_sound<'a>(s: State<'a>, handle: usize, name: Seq<char>, v: Value<'a>)
    requires
        sound(s),
        valid(sizes(s), v),
    ensures
        sound(State { chain: stored(s.chain, handle, name, v), ..s }),
{
    lemma_stored_sound(sizes(s), s.chain, handle, name, v);
}

/// The start of a statement keeps the state sound.
pub proof fn lemma_execute_sound<'a>(s: State<'a>, stmt: &'a Stmt)
    requires
        sound(s),
        roomy(s),
    ensures
        sound(execute(s, stmt).0),
{
    match stmt {
        Stmt::Block { stmts } => {
            let t = execute(s, stmt).0;
            lemma_sound_grows(s, sizes(t));
            lemma_extended_sound(sizes(t), s.chain, s.chain.current);
        },
        Stmt::Break => {
            lemma_break_sound(s);
        },
        Stmt::Class { id, name, methods } => {
            lemma_stored_state_sound(
                s,
                s.chain.current,
                name.lexeme@,
                Value::Class { id: *id, name, methods, closure: s.chain.current },
            );
        },
        Stmt::Function { id, name, params, body } => {
            lemma_stored_state_sound(
                s,
                s.chain.current,
                name.lexeme@,
                Value::Function {
                    id: *id,
                    name,
                    params,
                    body,
                    closure: s.chain.current,
                    method: false,
                },
            );
        },
        _ => {},
    }
}

/// A binary operator keeps the state sound.
pub proof fn lemma_binary_sound<'a>(s: State<'a>, op: &'a Token)
    requires
        sound(s),
        roomy(s),
        s.values.len() >= 2,
    ensures
        sound(binary(s, op).0),
{
    let t = binary(s, op).0;
    if t.texts.len() > s.texts.len() {
        lemma_sound_grows(s, sizes(t));
        assert forall|j: int| 0 <= j < t.values.len() implies valid(sizes(t), #[trigger] t.values[j]) by {
            if j < t.values.len() - 1 {
                assert(t.values[j] == s.values[j]);
            }
        }
    } else {
        assert forall|j: int| 0 <= j < t.values.len() implies valid(sizes(t), #[trigger] t.values[j]) by {
            if j < s.values.len() - 2 {
                assert(t.values[j] == s.values[j]);
            }
        }
    }
}

/// An assignment keeps the state sound.
pub proof fn lemma_assign_sound<'a>(s: State<'a>, id: usize, name: &'a Token)
    requires
        sound(s),
        s.values.len() >= 1,
    ensures
        sound(assign(s, id, name).0),
{
    let depth = crate::walker::machine::depth_for(s, id);
    lemma_lookup_valid(sizes(s), s.chain, name.lexeme@, depth);
    if let Some(h) = target(s.chain, depth) {
        lemma_stored_state_sound(s, h, name.lexeme@, s.values.last());
    }
}

/// Setting a property keeps the state sound.
pub proof fn lemma_set_field_sound<'a>(s: State<'a>, name: &'a Token)
    requires
        sound(s),
        s.values.len() >= 2,
    ensures
        sound(set_field(s, name).0),
{
    let t = set_field(s, name).0;
    let v = s.values[s.values.len() - 1];
    assert(valid(sizes(s), v));
    if let Value::Instance { handle } = s.values[s.values.len() - 2] {
        if handle < s.objects.len() {
            assert forall|i: int| 0 <= i < t.objects.len() implies object_sound(
                sizes(t),
                #[trigger] t.objects[i],
            ) by {
                assert(object_sound(sizes(s), s.objects[i]));
                if i == handle {
                    let o = t.objects[i];
                    assert forall|k: Seq<char>| o.fields.contains_key(k) implies valid(
                        sizes(t),
                        #[trigger] o.fields[k],
                    ) by {
                        if k != name.lexeme@ {
                            assert(valid(sizes(s), s.objects[i].fields[k]));
                        }
                    }
                }
            }
            assert forall|j: int| 0 <= j < t.values.len() implies valid(
                sizes(t),
                #[trigger] t.values[j],
            ) by {
                if j < t.values.len() - 1 {
                    assert(t.values[j] == s.values[j]);
                }
            }
        }
    }
}

/// Reading a property keeps the state sound.
pub proof fn lemma_get_field_sound<'a>(s: State<'a>, name: &'a Token)
    requires
        sound(s),
        roomy(s),
        s.values.len() >= 1,
    ensures
        sound(get_field(s, name).0),
{
    let t = get_field(s, name).0;
    let receiver = s.values.last();
    assert(valid(sizes(s), receiver));
    if let Value::Instance { handle } = receiver {
        if handle < s.objects.len() {
            let fields = s.objects[handle as int].fields;
            assert(object_sound(sizes(s), s.objects[handle as int]));
            if fields.contains_key(name.lexeme@) {
                let found = fields[name.lexeme@];
                assert(valid(sizes(s), found));
                match found {
                    Value::Function { closure, method: true, .. } => {
                        lemma_sound_grows(s, sizes(t));
                        lemma_extended_sound(sizes(t), s.chain, closure);
                        lemma_stored_sound(
                            sizes(t),
                            extended(s.chain, closure),
                            s.chain.frames.len() as usize,
                            "this"@,
                            receiver,
                        );
                        assert forall|j: int| 0 <= j < t.values.len() implies valid(
                            sizes(t),
                            #[trigger] t.values[j],
                        ) by {
                            if j < t.values.len() - 1 {
                                assert(t.values[j] == s.values[j]);
                            }
                        }
                    },
                    _ => {
                        assert forall|j: int| 0 <= j < t.values.len() implies valid(
                            sizes(t),
                            #[trigger] t.values[j],
                        ) by {
                            if j < t.values.len() - 1 {
                                assert(t.values[j] == s.values[j]);
                            }
                        }
                    },
                }
            }
        }
    }
}

/// A call keeps the state sound.
pub proof fn lemma_invoke_sound<'a>(s: State<'a>, count: usize)
    requires
        sound(s),
        roomy(s),
        s.values.len() >= count + 1,
    ensures
        sound(invoke(s, count).0),
{
    let base = s.values.len() - count - 1;
    let callee = s.values[base];
    let args = s.values.subrange(base + 1, s.values.len() as int);
    let rest = State { values: s.values.take(base), ..s };
    let y = sizes(s);
    assert(valid(y, callee));
    assert forall|i: int| 0 <= i < args.len() implies valid(y, #[trigger] args[i]) by {
        assert(args[i] == s.values[base + 1 + i]);
    }
    assert forall|i: int| 0 <= i < rest.values.len() implies valid(y, #[trigger] rest.values[i]) by {
        assert(rest.values[i] == s.values[i]);
    }
    assert(sound(rest));
    match callee {
        Value::Function { params, body, closure, .. } => {
            if count == params@.len() {
                lemma_call_sound(
                    rest,
                    params,
                    body,
                    closure,
                    args,
                    Task::CallEnd { scope: s.chain.current, height: base as usize },
                );
            }
        },
        Value::Class { methods, closure, .. } => {
            let fields = method_table(methods, closure, methods@.len() as int);
            let handle = s.objects.len() as usize;
            let instance = Value::Instance { handle };
            let made = State { objects: s.objects.push(Object { class: callee, fields }), ..rest };
            let z = sizes(made);
            lemma_sound_grows(rest, z);
            lemma_methods_valid(z, methods, closure, methods@.len() as int);
            assert forall|i: int| 0 <= i < made.objects.len() implies object_sound(
                z,
                #[trigger] made.objects[i],
            ) by {
                if i < s.objects.len() {
                    assert(made.objects[i] == s.objects[i]);
                }
            }
            assert(sound(made));
            let with_instance = crate::walker::machine::push(made, instance);
            assert forall|i: int| 0 <= i < with_instance.values.len() implies valid(
                z,
                #[trigger] with_instance.values[i],
            ) by {
                if i < made.values.len() {
                    assert(with_instance.values[i] == made.values[i]);
                }
            }
            assert(sound(with_instance));
            if fields.contains_key("init"@) {
                match fields["init"@] {
                    Value::Function { params, body, closure: outer, .. } => {
                        if count == params@.len() {
                            assert(valid(z, fields["init"@]));
                            let this_frame = s.chain.frames.len() as usize;
                            let bound = State {
                                chain: stored(
                                    extended(s.chain, outer),
                                    this_frame,
                                    "this"@,
                                    instance,
                                ),
                                ..made
                            };
                            let w = sizes(bound);
                            lemma_sound_grows(made, w);
                            lemma_extended_sound(w, s.chain, outer);
                            lemma_stored_sound(
                                w,
                                extended(s.chain, outer),
                                this_frame,
                                "this"@,
                                instance,
                            );
                            assert forall|i: int| 0 <= i < args.len() implies valid(
                                w,
                                #[trigger] args[i],
                            ) by {
                                assert(valid(y, args[i]));
                            }
                            lemma_call_sound(
                                bound,
                                params,
                                body,
                                this_frame,
                                args,
                                Task::InitEnd {
                                    scope: s.chain.current,
                                    height: base as usize,
                                    instance: handle,
                                },
                            );
                        }
                    },
                    _ => {},
                }
            }
        },
        _ => {},
    }
}

/// Doing a task keeps the state sound.
pub proof fn lemma_perform_sound<'a>(s: State<'a>, task: Task<'a>)
    requires
        sound(s),
        roomy(s),
        task_sound(sizes(s), task),
        s.values.len() >= needs(task),
    ensures
        sound(perform(s, task).0),
{
    let t = perform(s, task).0;
    match task {
        Task::Execute(stmt) => {
            lemma_execute_sound(s, stmt);
        },
        Task::Evaluate(expr) => {
            lemma_evaluate_sound(s, expr);
        },
        Task::EndBlock => {
            assert(frame_sound(sizes(s), s.chain.frames[s.chain.current as int]));
        },
        Task::Define(name) => {
            lemma_stored_state_sound(drop(s), s.chain.current, name.lexeme@, s.values.last());
        },
        Task::Return => {
            lemma_return_sound(drop(s), s.values.last());
        },
        Task::Binary(op) => {
            lemma_binary_sound(s, op);
        },
        Task::Assign { id, name } => {
            lemma_assign_sound(s, id, name);
        },
        Task::SetField(name) => {
            lemma_set_field_sound(s, name);
        },
        Task::GetField(name) => {
            lemma_get_field_sound(s, name);
        },
        Task::Invoke { count } => {
            lemma_invoke_sound(s, count);
        },
        _ => {},
    }
}

/// No step makes a handle dangle: where no handle dangles before a step and
/// the stores have room, none dangles after it.
pub proof fn lemma_step_sound<'a>(s: State<'a>, reply: Reply)
    requires
        sound(s),
        roomy(s),
    ensures
        sound(step(s, reply).0),
{
    if s.pending != Pending::Nothing {
        assert(sound(resume(s, reply).0));
    } else if s.tasks.len() > 0 {
        let rest = State { tasks: s.tasks.drop_last(), ..s };
        assert(task_sound(sizes(s), s.tasks.last()));
        assert(sound(rest));
        if rest.values.len() >= needs(s.tasks.last()) {
            lemma_perform_sound(rest, s.tasks.last());
        }
    }
}

/// A step adds at most two frames, one string and one instance.
pub proof fn lemma_step_adds_little<'a>(s: State<'a>, reply: Reply)
    ensures
        step(s, reply).0.chain.frames.len() <= s.chain.frames.len() + 2,
        step(s, reply).0.texts.len() <= s.texts.len() + 1,
        step(s, reply).0.objects.len() <= s.objects.len() + 1,
{
    if s.pending == Pending::Nothing && s.tasks.len() > 0 {
        let rest = State { tasks: s.tasks.drop_last(), ..s };
        let task = s.tasks.last();
        if rest.values.len() >= needs(task) {
            match task {
                Task::Invoke { count } => {
                    let base = rest.values.len() - count - 1;
                    match rest.values[base] {
                        Value::Function { params, body, closure, .. } => {
                            crate::walker::store::lemma_bind_keeps_frames(
                                extended(rest.chain, closure),
                                rest.chain.frames.len() as usize,
                                params@,
                                rest.values.subrange(base + 1, rest.values.len() as int),
                                params@.len() as int,
                            );
                        },
                        Value::Class { methods, closure, .. } => {
                            let fields = method_table(methods, closure, methods@.len() as int);
                            if fields.contains_key("init"@) {
                                match fields["init"@] {
                                    Value::Function { params, body, closure: outer, .. } => {
                                        let this_frame = rest.chain.frames.len() as usize;
                                        let bound = stored(
                                            extended(rest.chain, outer),
                                            this_frame,
                                            "this"@,
                                            Value::Instance { handle: rest.objects.len() as usize },
                                        );
                                        crate::walker::store::lemma_bind_keeps_frames(
                                            extended(bound, this_frame),
                                            bound.frames.len() as usize,
                                            params@,
                                            rest.values.subrange(
                                                base + 1,
                                                rest.values.len() as int,
                                            ),
                                            params@.len() as int,
                                        );
                                    },
                                    _ => {},
                                }
                            }
                        },
                        _ => {},
                    }
                },
                Task::Execute(stmt) => {
                    assert(execute(rest, stmt).0.chain.frames.len() <= rest.chain.frames.len() + 1);
                },
                Task::Evaluate(expr) => {
                    assert(evaluate(rest, expr).0.texts.len() <= rest.texts.len() + 1);
                },
                _ => {},
            }
        }
    }
}

/// Steps in a row keep the state sound, as long as the stores have room for
/// what the steps can add.
pub proof fn lemma_run_sound<'a>(s: State<'a>, reply: Reply, more: nat)
    requires
        sound(s),
        s.chain.frames.len() + 2 * (more + 1) <= usize::MAX,
        s.texts.len() + (more + 1) <= usize::MAX,
        s.objects.len() + (more + 1) <= usize::MAX,
    ensures
        sound(run(s, reply, more).0),
    decreases more,
{
    let next = step(s, reply);
    lemma_step_sound(s, reply);
    lemma_step_adds_little(s, reply);
    if next.1 is Continue && more > 0 {
        lemma_run_sound(next.0, Reply::Resume, (more - 1) as nat);
    }
}

/// Where no handle dangles, no step fails for want of what a handle leads
/// to: a property is read from and written to an instance that is there.
pub proof fn lemma_sound_step_finds_instances<'a>(s: State<'a>, reply: Reply)
    requires
        sound(s),
    ensures
        step(s, reply).1 != Asked::Failed(Failure::Internal { msg: dangling() }),
{
    reveal_strlit("Handle without a value");
    reveal_strlit("Too few operands");
    reveal_strlit("Unexpected reply");
    reveal_strlit("No frame at the depth resolved for ");
    let found = step(s, reply).1;
    assert(dangling()[0] == 'H');
    assert(underflow()[0] == 'T');
    assert(unexpected_reply()[0] == 'U');
    assert(forall|name: Seq<char>| (#[trigger] no_frame(name))[0] == 'N');
    if s.pending == Pending::Nothing && s.tasks.len() > 0 {
        let rest = State { tasks: s.tasks.drop_last(), ..s };
        let task = s.tasks.last();
        if rest.values.len() >= needs(task) {
            match task {
                Task::SetField(name) => {
                    assert(valid(sizes(s), rest.values[rest.values.len() - 2]));
                },
                Task::GetField(name) => {
                    assert(valid(sizes(s), rest.values.last()));
                },
                _ => {},
            }
        }
    }
}

/// A new frame that holds an instance as `this`, inside a frame that is
/// there, keeps the state sound.
pub proof fn lemma_this_frame_sound<'a>(s: State<'a>, outer: usize, instance: Value<'a>)
    requires
        sound(s),
        outer < s.chain.frames.len(),
        valid(sizes(s), instance),
        s.chain.frames.len() + 1 <= usize::MAX,
    ensures
        sound(
            State {
                chain: stored(
                    extended(s.chain, outer),
                    s.chain.frames.len() as usize,
                    "this"@,
                    instance,
                ),
                ..s
            },
        ),
{
    let t = State {
        chain: stored(extended(s.chain, outer), s.chain.frames.len() as usize, "this"@, instance),
        ..s
    };
    let w = sizes(t);
    lemma_sound_grows(s, w);
    lemma_extended_sound(w, s.chain, outer);
    lemma_stored_sound(w, extended(s.chain, outer), s.chain.frames.len() as usize, "this"@, instance);
}

} // verus!
