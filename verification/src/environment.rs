//! Lexical scoping: a chain of environment frames, each mapping names to
//! runtime values, modelled as a sequence of mathematical maps (index 0 is
//! the global frame, the last index is the innermost frame).

use crate::interpreter::{ErrorKind, RuntimeError};
use crate::object::{Object, Val};
use crate::token::Token;
use vstd::prelude::*;

verus! {

/// One scope frame: name-to-value bindings. A later binding for the same
/// name overrides an earlier one, so the frame models a map.
pub struct Frame {
    pub bindings: Vec<(String, Object)>,
}

/// The map modelled by a frame's binding list.
pub open spec fn frame_view(bs: Seq<(String, Object)>) -> Map<Seq<char>, Val>
    decreases bs.len(),
{
    if bs.len() == 0 {
        Map::empty()
    } else {
        frame_view(bs.drop_last()).insert(bs.last().0@, bs.last().1@)
    }
}

/// The nearest binding of `name` in the chain, searching the innermost
/// frame first.
pub open spec fn chain_lookup(chain: Seq<Map<Seq<char>, Val>>, name: Seq<char>) -> Option<Val>
    decreases chain.len(),
{
    if chain.len() == 0 {
        None
    } else if chain.last().contains_key(name) {
        Some(chain.last()[name])
    } else {
        chain_lookup(chain.drop_last(), name)
    }
}

/// The chain after assigning `v` to the nearest frame that already binds
/// `name`; `None` when no frame binds it.
pub open spec fn chain_assign(
    chain: Seq<Map<Seq<char>, Val>>,
    name: Seq<char>,
    v: Val,
) -> Option<Seq<Map<Seq<char>, Val>>>
    decreases chain.len(),
{
    if chain.len() == 0 {
        None
    } else if chain.last().contains_key(name) {
        Some(chain.update(chain.len() - 1, chain.last().insert(name, v)))
    } else {
        match chain_assign(chain.drop_last(), name, v) {
            Some(rest) => Some(rest.push(chain.last())),
            None => None,
        }
    }
}

/// The scope chain: a stack of frames. The global frame is created at
/// construction and never popped; a child frame is pushed on block entry
/// and popped on block exit.
pub struct Environment {
    pub frames: Vec<Frame>,
}

impl View for Environment {
    type V = Seq<Map<Seq<char>, Val>>;

    open spec fn view(&self) -> Seq<Map<Seq<char>, Val>> {
        Seq::new(self.frames@.len(), |i: int| frame_view(self.frames@[i].bindings@))
    }
}

impl Environment {
    /// A chain always holds at least the global frame.
    pub open spec fn wf(&self) -> bool {
        self.frames@.len() >= 1
    }

    /// A fresh chain holding only an empty global frame.
    pub fn new() -> (env: Environment)
        ensures
            env.wf(),
            env@ =~= seq![Map::<Seq<char>, Val>::empty()],
    {
        let mut frames: Vec<Frame> = Vec::new();
        frames.push(Frame { bindings: Vec::new() });
        let env = Environment { frames };
        proof {
            assert(env@[0] =~= Map::<Seq<char>, Val>::empty());
        }
        env
    }

    /// Pushes a fresh empty frame, entering a nested scope whose enclosing
    /// scope is the previous innermost frame.
    pub fn push_frame(&mut self)
        requires
            old(self).wf(),
        ensures
            final(self).wf(),
            final(self)@ =~= old(self)@.push(Map::<Seq<char>, Val>::empty()),
    {
        self.frames.push(Frame { bindings: Vec::new() });
        proof {
            assert(self@.last() =~= Map::<Seq<char>, Val>::empty());
            assert(self@ =~= old(self)@.push(Map::<Seq<char>, Val>::empty()));
        }
    }

    /// Pops the innermost frame, leaving the enclosing scope current again.
    pub fn pop_frame(&mut self)
        requires
            old(self).wf(),
            old(self)@.len() >= 2,
        ensures
            final(self).wf(),
            final(self)@ =~= old(self)@.drop_last(),
    {
        let _ = self.frames.pop();
        proof {
            assert(self@ =~= old(self)@.drop_last());
        }
    }

    /// Inserts or overwrites a binding in the innermost frame only.
    /// Always succeeds.
    pub fn define(&mut self, name: String, obj: Object)
        requires
            old(self).wf(),
        ensures
            final(self).wf(),
            final(self)@ =~= old(self)@.update(
                old(self)@.len() - 1,
                old(self)@.last().insert(name@, obj@),
            ),
    {
        let ghost old_env = *old(self);
        let mut frame = self.frames.pop().unwrap();
        frame.bindings.push((name, obj));
        self.frames.push(frame);
        proof {
            let top = old_env.frames@.len() - 1;
            let old_bs = old_env.frames@[top].bindings@;
            let new_bs = self.frames@[top].bindings@;
            assert(new_bs.drop_last() =~= old_bs);
            assert(frame_view(new_bs) == frame_view(old_bs).insert(new_bs.last().0@, new_bs.last().1@));
            assert(self@ =~= old_env@.update(top, old_env@.last().insert(new_bs.last().0@, new_bs.last().1@)));
        }
    }

    /// Returns the value of the nearest binding found by walking from the
    /// innermost frame outward; fails with `UndefinedVariable` (carrying the
    /// reference's source line) if no frame in the chain binds the name.
    pub fn get(&self, name: &Token) -> (r: Result<Object, RuntimeError>)
        requires
            self.wf(),
        ensures
            match chain_lookup(self@, name.lexeme@) {
                Some(v) => r matches Ok(o) && o@ == v,
                None => r == Err::<Object, RuntimeError>(
                    RuntimeError {
                        line: name.line,
                        kind: ErrorKind::UndefinedVariable(name.lexeme),
                    },
                ),
            },
    {
        let mut fi = self.frames.len();
        proof {
            assert(self@.subrange(0, fi as int) =~= self@);
        }
        while fi > 0
            invariant
                self.wf(),
                fi <= self.frames@.len(),
                chain_lookup(self@, name.lexeme@) == chain_lookup(
                    self@.subrange(0, fi as int),
                    name.lexeme@,
                ),
            decreases fi,
        {
            fi = fi - 1;
            let frame = &self.frames[fi];
            match frame_find(frame, &name.lexeme) {
                Some(bi) => {
                    proof {
                        lemma_frame_view_value(frame.bindings@, name.lexeme@, bi as int);
                        let prefix = self@.subrange(0, fi + 1);
                        assert(prefix.last() == self@[fi as int]);
                        assert(chain_lookup(self@, name.lexeme@)
                            == Some(frame_view(frame.bindings@)[name.lexeme@]));
                    }
                    return Ok(frame.bindings[bi].1.clone());
                },
                None => {
                    proof {
                        lemma_frame_view_absent(frame.bindings@, name.lexeme@);
                        let prefix = self@.subrange(0, fi + 1);
                        assert(prefix.last() == self@[fi as int]);
                        assert(prefix.drop_last() =~= self@.subrange(0, fi as int));
                    }
                },
            }
        }
        proof {
            assert(self@.subrange(0, 0) =~= Seq::<Map<Seq<char>, Val>>::empty());
        }
        Err(RuntimeError {
            line: name.line,
            kind: ErrorKind::UndefinedVariable(name.lexeme.clone()),
        })
    }

    /// Overwrites the nearest existing binding of the name, walking from the
    /// innermost frame outward; fails with `UndefinedVariable` if no frame
    /// binds it — assignment never implicitly declares.
    pub fn assign(&mut self, name: &Token, obj: Object) -> (r: Result<(), RuntimeError>)
        requires
            old(self).wf(),
        ensures
            final(self).wf(),
            final(self)@.len() == old(self)@.len(),
            match chain_assign(old(self)@, name.lexeme@, obj@) {
                Some(chain) => r is Ok && final(self)@ == chain,
                None => final(self)@ == old(self)@ && r == Err::<(), RuntimeError>(
                    RuntimeError {
                        line: name.line,
                        kind: ErrorKind::UndefinedVariable(name.lexeme),
                    },
                ),
            },
    {
        let ghost old_env = *old(self);
        let mut fi = self.frames.len();
        while fi > 0
            invariant
                old_env == *old(self),
                *self == old_env,
                self.wf(),
                fi <= self.frames@.len(),
                forall|j: int|
                    fi <= j < self@.len() ==> !(#[trigger] self@[j]).contains_key(name.lexeme@),
            decreases fi,
        {
            fi = fi - 1;
            let found = frame_find(&self.frames[fi], &name.lexeme);
            match found {
                Some(bi) => {
                    proof {
                        lemma_frame_view_value(self.frames@[fi as int].bindings@, name.lexeme@, bi as int);
                        lemma_chain_assign_found(self@, name.lexeme@, obj@, fi as int);
                    }
                    let mut upper = self.frames.split_off(fi + 1);
                    let mut target = self.frames.pop().unwrap();
                    let key = target.bindings[bi].0.clone();
                    let ghost old_bs = target.bindings@;
                    let ghost pair = (key, obj);
                    target.bindings[bi] = (key, obj);
                    proof {
                        lemma_frame_view_update(old_bs, bi as int, pair);
                    }
                    let ghost tgt = target;
                    self.frames.push(target);
                    self.frames.append(&mut upper);
                    proof {
                        assert(self.frames@ =~= old_env.frames@.update(fi as int, tgt));
                        assert(frame_view(tgt.bindings@) =~= old_env@[fi as int].insert(
                            name.lexeme@,
                            obj@,
                        ));
                        assert(self@ =~= old_env@.update(
                            fi as int,
                            old_env@[fi as int].insert(name.lexeme@, obj@),
                        ));
                    }
                    return Ok(());
                },
                None => {
                    proof {
                        lemma_frame_view_absent(self.frames@[fi as int].bindings@, name.lexeme@);
                    }
                },
            }
        }
        proof {
            lemma_chain_assign_absent(self@, name.lexeme@, obj@);
        }
        Err(RuntimeError {
            line: name.line,
            kind: ErrorKind::UndefinedVariable(name.lexeme.clone()),
        })
    }
}

/// Finds the index of the binding that decides `name` in a frame: the last
/// one with that name, or `None` when the frame does not bind it.
fn frame_find(frame: &Frame, name: &String) -> (r: Option<usize>)
    ensures
        match r {
            Some(bi) => bi < frame.bindings@.len() && frame.bindings@[bi as int].0@ == name@
                && forall|j: int|
                    bi < j < frame.bindings@.len() ==> (#[trigger] frame.bindings@[j]).0@ != name@,
            None => forall|j: int|
                0 <= j < frame.bindings@.len() ==> (#[trigger] frame.bindings@[j]).0@ != name@,
        },
{
    let mut i = frame.bindings.len();
    while i > 0
        invariant
            i <= frame.bindings@.len(),
            forall|j: int| i <= j < frame.bindings@.len() ==> (#[trigger] frame.bindings@[j]).0@ != name@,
        decreases i,
    {
        i = i - 1;
        if frame.bindings[i].0 == *name {
            return Some(i);
        }
    }
    None
}

/// In a frame's map, `name` is bound exactly when some binding carries it.
proof fn lemma_frame_view_absent(bs: Seq<(String, Object)>, name: Seq<char>)
    requires
        forall|j: int| 0 <= j < bs.len() ==> (#[trigger] bs[j]).0@ != name,
    ensures
        !frame_view(bs).contains_key(name),
    decreases bs.len(),
{
    if bs.len() > 0 {
        lemma_frame_view_absent(bs.drop_last(), name);
    }
}

/// The frame's map binds `name` to the value of its last binding with that
/// name.
proof fn lemma_frame_view_value(bs: Seq<(String, Object)>, name: Seq<char>, i: int)
    requires
        0 <= i < bs.len(),
        bs[i].0@ == name,
        forall|j: int| i < j < bs.len() ==> (#[trigger] bs[j]).0@ != name,
    ensures
        frame_view(bs).contains_key(name),
        frame_view(bs)[name] == bs[i].1@,
    decreases bs.len(),
{
    if i == bs.len() - 1 {
    } else {
        lemma_frame_view_value(bs.drop_last(), name, i);
    }
}

/// Replacing the deciding binding of a name rewrites the frame's map entry
/// for that name and nothing else.
proof fn lemma_frame_view_update(bs: Seq<(String, Object)>, i: int, p: (String, Object))
    requires
        0 <= i < bs.len(),
        forall|j: int| i < j < bs.len() ==> (#[trigger] bs[j]).0@ != bs[i].0@,
        p.0@ == bs[i].0@,
    ensures
        frame_view(bs.update(i, p)) =~= frame_view(bs).insert(p.0@, p.1@),
    decreases bs.len(),
{
    if i == bs.len() - 1 {
        assert(bs.update(i, p).drop_last() =~= bs.drop_last());
        assert(frame_view(bs.update(i, p))
            =~= frame_view(bs.drop_last()).insert(p.0@, p.1@));
        assert(frame_view(bs).insert(p.0@, p.1@)
            =~= frame_view(bs.drop_last()).insert(bs.last().0@, bs.last().1@).insert(p.0@, p.1@));
    } else {
        assert(bs.update(i, p).drop_last() =~= bs.drop_last().update(i, p));
        lemma_frame_view_update(bs.drop_last(), i, p);
        assert(bs.update(i, p).last() == bs.last());
        assert(frame_view(bs.update(i, p))
            =~= frame_view(bs.drop_last()).insert(p.0@, p.1@).insert(bs.last().0@, bs.last().1@));
    }
}

/// When the topmost frame that binds `name` is frame `fi`, assignment
/// rewrites exactly that frame's entry.
proof fn lemma_chain_assign_found(chain: Seq<Map<Seq<char>, Val>>, name: Seq<char>, v: Val, fi: int)
    requires
        0 <= fi < chain.len(),
        chain[fi].contains_key(name),
        forall|j: int| fi < j < chain.len() ==> !(#[trigger] chain[j]).contains_key(name),
    ensures
        chain_assign(chain, name, v) == Some(chain.update(fi, chain[fi].insert(name, v))),
    decreases chain.len(),
{
    if fi == chain.len() - 1 {
        assert(chain.update(fi, chain[fi].insert(name, v))
            =~= chain.update(chain.len() - 1, chain.last().insert(name, v)));
    } else {
        lemma_chain_assign_found(chain.drop_last(), name, v, fi);
        assert(chain.drop_last().update(fi, chain[fi].insert(name, v)).push(chain.last())
            =~= chain.update(fi, chain[fi].insert(name, v)));
    }
}

/// When no frame binds `name`, assignment fails and changes nothing.
proof fn lemma_chain_assign_absent(chain: Seq<Map<Seq<char>, Val>>, name: Seq<char>, v: Val)
    requires
        forall|j: int| 0 <= j < chain.len() ==> !(#[trigger] chain[j]).contains_key(name),
    ensures
        chain_assign(chain, name, v) is None,
    decreases chain.len(),
{
    if chain.len() > 0 {
        lemma_chain_assign_absent(chain.drop_last(), name, v);
    }
}

} // verus!
