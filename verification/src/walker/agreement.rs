//! The resolver and the environments agree: the depth that the one computes
//! from the scopes leads the other to the frame that a search by name finds.
use crate::shared::scanner::Token;
use crate::walker::environment::{ancestor, stored, target, Chain, Frame};
use crate::walker::errors::Failure;
use crate::walker::machine::{assign, depth_for, proceed, push, read, stop, State};
use crate::walker::resolver::{
    depth_of, lemma_depth_is_innermost, resolve_local, ResolverView, Scopes,
};
use vstd::prelude::*;

verus! {

/// The nearest frame that holds `name`, searching by name from the frame
/// `from` outward through at most `within` frames.
pub open spec fn nearest<'a>(frames: Seq<Frame<'a>>, from: usize, name: Seq<char>, within: nat) -> Option<
    usize,
>
    decreases within,
{
    if within == 0 || from >= frames.len() {
        None
    } else if frames[from as int].values.contains_key(name) {
        Some(from)
    } else {
        match frames[from as int].enclosing {
            Some(outer) => nearest(frames, outer, name, (within - 1) as nat),
            None => None,
        }
    }
}

/// The chain in use has a frame for each open scope, and the frame at each
/// distance holds `name` exactly if the scope at that distance does.
pub open spec fn mirrors<'a>(chain: Chain<'a>, scopes: Scopes, name: Seq<char>) -> bool {
    forall|d: nat|
        d < scopes.len() ==> match #[trigger] ancestor(chain.frames, chain.current, d) {
            Some(h) => chain.frames[h as int].values.contains_key(name) == scopes[scopes.len() - 1
                - d].contains_key(name),
            None => false,
        }
}

/// Where the frames in use mirror the open scopes, the depth that the
/// resolver records for a name leads to the nearest frame that holds the
/// name, the one that a search by name from the innermost frame outward would
/// find; and the resolver records no depth exactly where that search finds
/// nothing.
pub proof fn lemma_resolved_depth_finds_nearest<'a>(chain: Chain<'a>, scopes: Scopes, name: Seq<char>)
    requires
        mirrors(chain, scopes, name),
        scopes.len() <= usize::MAX,
    ensures
        match depth_of(scopes, name) {
            Some(d) => target(chain, Some(d as usize)) == nearest(
                chain.frames,
                chain.current,
                name,
                scopes.len(),
            ) && nearest(chain.frames, chain.current, name, scopes.len()) is Some,
            None => nearest(chain.frames, chain.current, name, scopes.len()) is None,
        },
    decreases scopes.len(),
{
    lemma_depth_is_innermost(scopes, name);
    if scopes.len() > 0 {
        let here = ancestor(chain.frames, chain.current, 0nat);
        assert(here == Some(chain.current));
        if !scopes.last().contains_key(name) {
            let outer_scopes = scopes.drop_last();
            if outer_scopes.len() > 0 {
                let next = ancestor(chain.frames, chain.current, 1nat);
                assert(next is Some);
                let outer = chain.frames[chain.current as int].enclosing->0;
                let outer_chain = Chain { current: outer, ..chain };
                assert forall|d: nat| d < outer_scopes.len() implies match #[trigger] ancestor(
                    outer_chain.frames,
                    outer_chain.current,
                    d,
                ) {
                    Some(h) => outer_chain.frames[h as int].values.contains_key(name)
                        == outer_scopes[outer_scopes.len() - 1 - d].contains_key(name),
                    None => false,
                } by {
                    assert(ancestor(chain.frames, outer, d) == ancestor(
                        chain.frames,
                        chain.current,
                        d + 1,
                    ));
                    assert(outer_scopes[outer_scopes.len() - 1 - d] == scopes[scopes.len() - 1 - (d
                        + 1)]);
                }
                lemma_resolved_depth_finds_nearest(outer_chain, outer_scopes, name);
                lemma_depth_is_innermost(outer_scopes, name);
                match depth_of(outer_scopes, name) {
                    Some(d) => {
                        assert(ancestor(chain.frames, outer, d) == ancestor(
                            chain.frames,
                            chain.current,
                            d + 1,
                        ));
                    },
                    None => {},
                }
            } else {
                assert(depth_of(outer_scopes, name) is None);
                match chain.frames[chain.current as int].enclosing {
                    Some(outer) => {
                        assert(nearest(chain.frames, outer, name, 0) is None);
                    },
                    None => {},
                }
            }
        }
    }
}

/// Whether the state and the resolver stand at the same reference: the
/// frames in use mirror the open scopes for `name`, the outermost of them is
/// the global frame, and the depth table holds for the reference `id` what
/// the resolver records for it there.
pub open spec fn at_reference<'a>(s: State<'a>, st: ResolverView, id: usize, name: Seq<char>) -> bool {
    &&& 0 < st.scopes.len() <= usize::MAX
    &&& mirrors(s.chain, st.scopes, name)
    &&& ancestor(s.chain.frames, s.chain.current, (st.scopes.len() - 1) as nat) == Some(0usize)
    &&& !st.locals.contains_key(id)
    &&& s.locals.contains_key(id) == resolve_local(st, id, name).locals.contains_key(id)
    &&& s.locals.contains_key(id) ==> s.locals[id] == resolve_local(st, id, name).locals[id]
}

/// The frame that the table's entry for a reference leads to, or the global
/// frame where the table has none, is the nearest frame that holds the name.
proof fn lemma_recorded_depth_finds_nearest<'a>(
    s: State<'a>,
    st: ResolverView,
    id: usize,
    name: Seq<char>,
)
    requires
        at_reference(s, st, id, name),
    ensures
        match nearest(s.chain.frames, s.chain.current, name, st.scopes.len()) {
            Some(h) => target(s.chain, depth_for(s, id)) == Some(h) && h < s.chain.frames.len()
                && s.chain.frames[h as int].values.contains_key(name),
            None => target(s.chain, depth_for(s, id)) == Some(0usize)
                && !s.chain.frames[0].values.contains_key(name),
        },
{
    lemma_resolved_depth_finds_nearest(s.chain, st.scopes, name);
    lemma_depth_is_innermost(st.scopes, name);
    lemma_nearest_holds(s.chain.frames, s.chain.current, name, st.scopes.len());
    let last = (st.scopes.len() - 1) as nat;
    assert(ancestor(s.chain.frames, s.chain.current, last) == Some(0usize));
    assert(s.chain.frames[0].values.contains_key(name) == st.scopes[0].contains_key(name));
    crate::walker::environment::lemma_ancestor_in_range(s.chain.frames, s.chain.current, last);
}

/// The frame that a search by name finds is there and holds the name.
pub proof fn lemma_nearest_holds<'a>(frames: Seq<Frame<'a>>, from: usize, name: Seq<char>, within: nat)
    ensures
        nearest(frames, from, name, within) matches Some(h) ==> h < frames.len()
            && frames[h as int].values.contains_key(name),
    decreases within,
{
    if !(within == 0 || from >= frames.len()) && !frames[from as int].values.contains_key(name) {
        match frames[from as int].enclosing {
            Some(outer) => lemma_nearest_holds(frames, outer, name, (within - 1) as nat),
            None => {},
        }
    }
}

/// A read goes to the binding that a search by name finds. Where the frames
/// in use mirror the scopes that were open at a reference, the machine, which
/// goes by the depth table alone, reads the variable in the nearest frame
/// that holds its name, going outward from the innermost: in the frame at the
/// recorded depth, or, where nothing is recorded, in the global frame. Where
/// no frame holds the name, the variable is undefined.
pub proof fn lemma_read_finds_the_nearest_binding<'a>(
    s: State<'a>,
    st: ResolverView,
    id: usize,
    name: &'a Token,
)
    requires
        at_reference(s, st, id, name.lexeme@),
    ensures
        match nearest(s.chain.frames, s.chain.current, name.lexeme@, st.scopes.len()) {
            Some(h) => read(s, id, name) == proceed(
                push(s, s.chain.frames[h as int].values[name.lexeme@]),
            ),
            None => read(s, id, name) == stop(
                s,
                Failure::UndefinedVariable { name: name.lexeme@ },
            ),
        },
{
    lemma_recorded_depth_finds_nearest(s, st, id, name.lexeme@);
}

/// An assignment goes to the binding that a search by name finds: under the
/// conditions of `lemma_read_finds_the_nearest_binding`, the machine writes
/// the value into the nearest frame that holds the name, and into no other.
pub proof fn lemma_assignment_finds_the_nearest_binding<'a>(
    s: State<'a>,
    st: ResolverView,
    id: usize,
    name: &'a Token,
)
    requires
        at_reference(s, st, id, name.lexeme@),
        s.values.len() >= 1,
    ensures
        match nearest(s.chain.frames, s.chain.current, name.lexeme@, st.scopes.len()) {
            Some(h) => assign(s, id, name) == proceed(
                State { chain: stored(s.chain, h, name.lexeme@, s.values.last()), ..s },
            ),
            None => assign(s, id, name) == stop(
                s,
                Failure::UndefinedVariable { name: name.lexeme@ },
            ),
        },
{
    lemma_recorded_depth_finds_nearest(s, st, id, name.lexeme@);
}

} // verus!
