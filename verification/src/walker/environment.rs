//! Environments: the frames that hold variables at run time.
//!
//! Every frame that is ever opened is kept in one store and is known by its
//! handle, its place in the store. A frame names the frame that encloses it, so
//! a handle stands for a whole chain of frames, out to the global frame. A
//! closure keeps the handle of the frame in which it was declared: whoever
//! holds the handle sees, and changes, the same frames.
use crate::shared::table::Table;
use crate::walker::errors::{Failure, RuntimeError};
use crate::walker::values::{Native, Value};
use vstd::prelude::*;

verus! {

/// One frame: the variables of one scope, and the handle of the frame around
/// it. Only the global frame has none around it.
pub struct Environment<'a> {
    values: Table<Value<'a>>,
    enclosing: Option<usize>,
}

/// A frame as a map from names to values.
pub struct Frame<'a> {
    pub values: Map<Seq<char>, Value<'a>>,
    pub enclosing: Option<usize>,
}

impl<'a> View for Environment<'a> {
    type V = Frame<'a>;

    closed spec fn view(&self) -> Frame<'a> {
        Frame { values: self.values@, enclosing: self.enclosing }
    }
}

/// The global frame as every program finds it: it holds the native functions.
pub open spec fn global_frame<'a>() -> Frame<'a> {
    Frame {
        values: Map::<Seq<char>, Value<'a>>::empty().insert(
            Native::Clock.name(),
            Value::NativeFunction { native: Native::Clock },
        ).insert(Native::Tsp2Cup.name(), Value::NativeFunction { native: Native::Tsp2Cup }),
        enclosing: None,
    }
}

/// An empty frame inside the frame `enclosing`.
pub open spec fn empty_frame<'a>(enclosing: usize) -> Frame<'a> {
    Frame { values: Map::empty(), enclosing: Some(enclosing) }
}

impl<'a> Environment<'a> {
    fn global() -> (r: Self)
        ensures
            r@ == global_frame::<'a>(),
    {
        let mut e = Environment { values: Table::new(), enclosing: None };
        e.define(
            String::from_str(Native::Clock.as_str()),
            Value::NativeFunction { native: Native::Clock },
        );
        e.define(
            String::from_str(Native::Tsp2Cup.as_str()),
            Value::NativeFunction { native: Native::Tsp2Cup },
        );
        e
    }

    fn inside(enclosing: usize) -> (r: Self)
        ensures
            r@ == empty_frame::<'a>(enclosing),
    {
        Environment { values: Table::new(), enclosing: Some(enclosing) }
    }

    fn define(&mut self, name: String, value: Value<'a>)
        ensures
            final(self)@ == (Frame {
                values: old(self)@.values.insert(name@, value),
                ..old(self)@
            }),
    {
        self.values.insert(name, value);
    }

    fn get(&self, name: &str) -> (r: Option<Value<'a>>)
        ensures
            r == (if self@.values.contains_key(name@) {
                Some(self@.values[name@])
            } else {
                None
            }),
    {
        self.values.get(name)
    }
}

/// All frames, and the handle of the innermost frame of the chain in use.
pub struct EnvironmentStack<'a> {
    frames: Vec<Environment<'a>>,
    current: usize,
}

/// The store of frames, with the handle of the innermost frame in use.
pub struct Chain<'a> {
    pub frames: Seq<Frame<'a>>,
    pub current: usize,
}

impl<'a> View for EnvironmentStack<'a> {
    type V = Chain<'a>;

    closed spec fn view(&self) -> Chain<'a> {
        Chain {
            frames: Seq::new(self.frames.len() as nat, |i: int| self.frames[i]@),
            current: self.current,
        }
    }
}

/// The frame reached from the frame `from` by going outward `depth` times.
/// There is none where a handle on the way has no frame, or where the way
/// leads out of the global frame.
pub open spec fn ancestor<'a>(frames: Seq<Frame<'a>>, from: usize, depth: nat) -> Option<usize>
    decreases depth,
{
    if from >= frames.len() {
        None
    } else if depth == 0 {
        Some(from)
    } else {
        match frames[from as int].enclosing {
            Some(outer) => ancestor(frames, outer, (depth - 1) as nat),
            None => None,
        }
    }
}

/// The frame that a reference of the given depth speaks of: the frame that
/// many steps out from the innermost one, or the global frame where the
/// resolver gave no depth.
pub open spec fn target<'a>(chain: Chain<'a>, depth: Option<usize>) -> Option<usize> {
    match depth {
        Some(d) => ancestor(chain.frames, chain.current, d as nat),
        None => if chain.frames.len() > 0 {
            Some(0usize)
        } else {
            None
        },
    }
}

/// The message for a depth that leads to no frame.
pub open spec fn no_frame(name: Seq<char>) -> Seq<char> {
    "No frame at the depth resolved for "@ + name
}

/// The chain at the start of a program: the global frame alone.
pub open spec fn global_chain<'a>() -> Chain<'a> {
    Chain { frames: seq![global_frame::<'a>()], current: 0 }
}

/// A new empty frame inside the frame `enclosing`; the chain in use stays.
pub open spec fn extended<'a>(chain: Chain<'a>, enclosing: usize) -> Chain<'a> {
    Chain { frames: chain.frames.push(empty_frame(enclosing)), ..chain }
}

/// The chain in use becomes the one that ends in the frame `handle`.
pub open spec fn entered<'a>(chain: Chain<'a>, handle: usize) -> Chain<'a> {
    Chain { current: handle, ..chain }
}

/// A new innermost frame is opened.
pub open spec fn opened<'a>(chain: Chain<'a>) -> Chain<'a> {
    entered(extended(chain, chain.current), chain.frames.len() as usize)
}

/// The innermost frame is left: the frame around it becomes the innermost.
/// The global frame is never left.
pub open spec fn closed<'a>(chain: Chain<'a>) -> Chain<'a> {
    if chain.current < chain.frames.len() {
        match chain.frames[chain.current as int].enclosing {
            Some(outer) => entered(chain, outer),
            None => chain,
        }
    } else {
        chain
    }
}

/// `name` is set to `value` in the frame `handle`, whether it was there before
/// or not.
pub open spec fn stored<'a>(chain: Chain<'a>, handle: usize, name: Seq<char>, value: Value<'a>) -> Chain<
    'a,
> {
    if handle < chain.frames.len() {
        Chain {
            frames: chain.frames.update(
                handle as int,
                Frame {
                    values: chain.frames[handle as int].values.insert(name, value),
                    ..chain.frames[handle as int]
                },
            ),
            ..chain
        }
    } else {
        chain
    }
}

/// `name` is set to `value` in the innermost frame.
pub open spec fn defined<'a>(chain: Chain<'a>, name: Seq<char>, value: Value<'a>) -> Chain<'a> {
    stored(chain, chain.current, name, value)
}

/// What reading `name` at the given depth gives.
pub open spec fn lookup<'a>(chain: Chain<'a>, name: Seq<char>, depth: Option<usize>) -> Result<
    Value<'a>,
    Failure<'a>,
> {
    match target(chain, depth) {
        Some(h) => if chain.frames[h as int].values.contains_key(name) {
            Ok(chain.frames[h as int].values[name])
        } else {
            Err(Failure::UndefinedVariable { name })
        },
        None => Err(Failure::Internal { msg: no_frame(name) }),
    }
}

/// What assigning `value` to `name` at the given depth gives: the chain in
/// which the frame at that depth holds the new value, where it held the name.
pub open spec fn assigned<'a>(
    chain: Chain<'a>,
    name: Seq<char>,
    value: Value<'a>,
    depth: Option<usize>,
) -> Result<Chain<'a>, Failure<'a>> {
    match target(chain, depth) {
        Some(h) => if chain.frames[h as int].values.contains_key(name) {
            Ok(stored(chain, h, name, value))
        } else {
            Err(Failure::UndefinedVariable { name })
        },
        None => Err(Failure::Internal { msg: no_frame(name) }),
    }
}

impl<'a> EnvironmentStack<'a> {
    /// The environments at the start of a program.
    pub fn global() -> (r: Self)
        ensures
            r@ == global_chain::<'a>(),
    {
        let mut frames: Vec<Environment<'a>> = Vec::new();
        frames.push(Environment::global());
        let r = EnvironmentStack { frames, current: 0 };
        assert(r@.frames =~= global_chain::<'a>().frames);
        r
    }

    /// The handle of the innermost frame in use.
    pub fn current(&self) -> (r: usize)
        ensures
            r == self@.current,
    {
        self.current
    }

    /// The number of frames in the store; the handle of the next new frame.
    pub fn len(&self) -> (r: usize)
        ensures
            r == self@.frames.len(),
    {
        self.frames.len()
    }

    /// Makes a new empty frame inside the frame `enclosing`.
    pub fn extend(&mut self, enclosing: usize) -> (r: usize)
        ensures
            final(self)@ == extended(old(self)@, enclosing),
            r == old(self)@.frames.len(),
    {
        let handle = self.frames.len();
        self.frames.push(Environment::inside(enclosing));
        assert(self@.frames =~= extended(old(self)@, enclosing).frames);
        handle
    }

    /// Takes the chain that ends in the frame `handle` into use.
    pub fn enter(&mut self, handle: usize)
        ensures
            final(self)@ == entered(old(self)@, handle),
    {
        self.current = handle;
    }

    /// Opens a new innermost frame.
    pub fn push(&mut self)
        ensures
            final(self)@ == opened(old(self)@),
    {
        let handle = self.extend(self.current);
        self.enter(handle);
    }

    /// Leaves the innermost frame.
    pub fn pop(&mut self)
        ensures
            final(self)@ == closed(old(self)@),
    {
        if self.current < self.frames.len() {
            match self.frames[self.current].enclosing {
                Some(outer) => {
                    self.current = outer;
                },
                None => {},
            }
        }
    }

    /// Sets `name` to `value` in the frame `handle`.
    pub fn store(&mut self, handle: usize, name: String, value: Value<'a>)
        ensures
            final(self)@ == stored(old(self)@, handle, name@, value),
    {
        if handle < self.frames.len() {
            self.frames[handle].define(name, value);
            assert(self@.frames =~= stored(old(self)@, handle, name@, value).frames);
        }
    }

    /// Sets `name` to `value` in the innermost frame.
    pub fn define(&mut self, name: String, value: Value<'a>)
        ensures
            final(self)@ == defined(old(self)@, name@, value),
    {
        self.store(self.current, name, value);
    }

    fn find(&self, depth: Option<usize>) -> (r: Option<usize>)
        ensures
            r == target(self@, depth),
            r matches Some(h) ==> h < self@.frames.len(),
    {
        match depth {
            None => if self.frames.len() > 0 {
                Some(0)
            } else {
                None
            },
            Some(d) => {
                let mut at: usize = self.current;
                let mut left: usize = d;
                while left > 0
                    invariant
                        depth == Some(d),
                        ancestor(self@.frames, self@.current, d as nat) == ancestor(
                            self@.frames,
                            at,
                            left as nat,
                        ),
                    decreases left,
                {
                    if at >= self.frames.len() {
                        return None;
                    }
                    match self.frames[at].enclosing {
                        Some(outer) => {
                            at = outer;
                        },
                        None => {
                            return None;
                        },
                    }
                    left -= 1;
                }
                if at < self.frames.len() {
                    Some(at)
                } else {
                    None
                }
            },
        }
    }

    fn missing(name: &str) -> (r: RuntimeError<'a>)
        ensures
            r@ == (Failure::Internal { msg: no_frame(name@) }),
    {
        let mut msg = String::from_str("No frame at the depth resolved for ");
        msg.append(name);
        RuntimeError::Internal { msg }
    }

    /// Reads `name` in the frame at the given depth, or in the global frame
    /// where there is no depth.
    pub fn get(&self, name: &str, depth: Option<usize>) -> (r: Result<Value<'a>, RuntimeError<'a>>)
        ensures
            match r {
                Ok(v) => lookup(self@, name@, depth) == Ok::<Value<'a>, Failure<'a>>(v),
                Err(e) => lookup(self@, name@, depth) == Err::<Value<'a>, Failure<'a>>(e@),
            },
    {
        match self.find(depth) {
            Some(h) => match self.frames[h].get(name) {
                Some(v) => Ok(v),
                None => Err(RuntimeError::UndefinedVariable { name: String::from_str(name) }),
            },
            None => Err(Self::missing(name)),
        }
    }

    /// Gives `name` the new value in the frame at the given depth, or in the
    /// global frame where there is no depth. The frame must hold the name.
    pub fn assign(&mut self, name: &str, value: Value<'a>, depth: Option<usize>) -> (r: Result<
        Value<'a>,
        RuntimeError<'a>,
    >)
        ensures
            match r {
                Ok(v) => v == value && assigned(old(self)@, name@, value, depth) == Ok::<
                    Chain<'a>,
                    Failure<'a>,
                >(final(self)@),
                Err(e) => final(self)@ == old(self)@ && assigned(old(self)@, name@, value, depth)
                    == Err::<Chain<'a>, Failure<'a>>(e@),
            },
    {
        match self.find(depth) {
            Some(h) => match self.frames[h].get(name) {
                Some(_) => {
                    self.store(h, String::from_str(name), value);
                    Ok(value)
                },
                None => Err(RuntimeError::UndefinedVariable { name: String::from_str(name) }),
            },
            None => Err(Self::missing(name)),
        }
    }
}

/// Storing a value changes no link between frames: every way outward leads
/// where it led before.
pub proof fn lemma_stored_keeps_ancestors<'a>(
    chain: Chain<'a>,
    handle: usize,
    name: Seq<char>,
    value: Value<'a>,
    from: usize,
    depth: nat,
)
    ensures
        ancestor(stored(chain, handle, name, value).frames, from, depth) == ancestor(
            chain.frames,
            from,
            depth,
        ),
    decreases depth,
{
    let after = stored(chain, handle, name, value);
    if from < chain.frames.len() && depth > 0 {
        assert(after.frames[from as int].enclosing == chain.frames[from as int].enclosing);
        match chain.frames[from as int].enclosing {
            Some(outer) => {
                lemma_stored_keeps_ancestors(chain, handle, name, value, outer, (depth - 1) as nat);
            },
            None => {},
        }
    }
}

/// What was assigned is what is read: after an assignment that succeeded, a
/// read of the same name at the same depth gives the assigned value.
pub proof fn lemma_assigned_is_read<'a>(
    chain: Chain<'a>,
    name: Seq<char>,
    value: Value<'a>,
    depth: Option<usize>,
)
    requires
        assigned(chain, name, value, depth) is Ok,
    ensures
        lookup(assigned(chain, name, value, depth)->Ok_0, name, depth) == Ok::<
            Value<'a>,
            Failure<'a>,
        >(value),
{
    let h = target(chain, depth)->0;
    let after = stored(chain, h, name, value);
    match depth {
        Some(d) => {
            lemma_stored_keeps_ancestors(chain, h, name, value, chain.current, d as nat);
            lemma_ancestor_in_range(chain.frames, chain.current, d as nat);
        },
        None => {},
    }
    assert(after.frames[h as int].values.contains_key(name));
}

/// A frame that is reached lies in the store.
pub proof fn lemma_ancestor_in_range<'a>(frames: Seq<Frame<'a>>, from: usize, depth: nat)
    ensures
        ancestor(frames, from, depth) matches Some(h) ==> h < frames.len(),
    decreases depth,
{
    if from < frames.len() && depth > 0 {
        match frames[from as int].enclosing {
            Some(outer) => {
                lemma_ancestor_in_range(frames, outer, (depth - 1) as nat);
            },
            None => {},
        }
    }
}

/// What is defined in the innermost frame is what a read at depth 0 gives.
pub proof fn lemma_defined_is_read<'a>(chain: Chain<'a>, name: Seq<char>, value: Value<'a>)
    requires
        chain.current < chain.frames.len(),
    ensures
        lookup(defined(chain, name, value), name, Some(0usize)) == Ok::<Value<'a>, Failure<'a>>(
            value,
        ),
{
    let after = defined(chain, name, value);
    assert(after.frames[chain.current as int].values.contains_key(name));
}

} // verus!
