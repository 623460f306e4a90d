//! The runtime scope chain.
//!
//! A scope is a frame of name bindings with an optional link to its
//! enclosing frame. Frames are shared: the active call stack and every
//! closure that captured a scope refer to the same frame, and a mutation
//! through one holder is visible to all. To express that sharing without
//! reference counting, all frames live in one arena owned by this type and
//! are denoted by their index; a link always points at an older frame, so
//! every chain reaches the root.

use crate::assoc::{assoc_view, distinct_keys, lemma_assoc_view_dom, lemma_assoc_view_index,
    lemma_assoc_view_push, lemma_assoc_view_update};
use crate::runtime_value::{Value, ValueV};
use vstd::prelude::*;

verus! {

/// The mathematical content of one frame: its bindings as a map, and the
/// index of its enclosing frame if it has one.
pub ghost struct FrameV {
    pub bindings: Map<Seq<char>, ValueV>,
    pub enclosing: Option<int>,
}

/// One frame of the scope chain.
pub struct Frame {
    values: Vec<(String, Value)>,
    enclosing: Option<usize>,
}

impl View for Frame {
    type V = FrameV;

    closed spec fn view(&self) -> FrameV {
        FrameV {
            bindings: assoc_view(self.values@),
            enclosing: match self.enclosing {
                Some(j) => Some(j as int),
                None => None,
            },
        }
    }
}

impl Frame {
    /// Each frame keeps at most one entry per name.
    pub closed spec fn wf(&self) -> bool {
        distinct_keys(self.values@)
    }

    /// The position of a name's entry, if the frame binds the name.
    fn find(&self, name: &String) -> (r: Option<usize>)
        requires
            self.wf(),
        ensures
            match r {
                Some(i) => i < self.values@.len() && self.values@[i as int].0@ == name@
                    && self@.bindings.contains_key(name@) && self@.bindings[name@]
                    == self.values@[i as int].1@,
                None => !self@.bindings.contains_key(name@),
            },
    {
        let n = self.values.len();
        for i in 0..n
            invariant
                n == self.values@.len(),
                self.wf(),
                forall|j: int| 0 <= j < i ==> self.values@[j].0@ != name@,
        {
            if self.values[i].0 == *name {
                proof {
                    lemma_assoc_view_index(self.values@, i as int);
                }
                return Some(i);
            }
        }
        proof {
            lemma_assoc_view_dom(self.values@, name@);
        }
        None
    }

    /// The value bound to a name in this frame alone.
    fn get(&self, name: &String) -> (r: Option<Value>)
        requires
            self.wf(),
        ensures
            match r {
                Some(v) => self@.bindings.contains_key(name@) && v@ == self@.bindings[name@],
                None => !self@.bindings.contains_key(name@),
            },
    {
        match self.find(name) {
            Some(i) => Some(self.values[i].1.clone()),
            None => None,
        }
    }

    /// Binds a name in this frame, overwriting any previous binding, and
    /// returns the previous value if one existed.
    fn insert(&mut self, name: &String, value: &Value) -> (prev: Option<Value>)
        requires
            old(self).wf(),
        ensures
            final(self).wf(),
            final(self)@.bindings == old(self)@.bindings.insert(name@, value@),
            final(self)@.enclosing == old(self)@.enclosing,
            match prev {
                Some(p) => old(self)@.bindings.contains_key(name@) && p@
                    == old(self)@.bindings[name@],
                None => !old(self)@.bindings.contains_key(name@),
            },
    {
        let ghost s0 = self.values@;
        match self.find(name) {
            Some(i) => {
                let prev = self.values[i].1.clone();
                let pair = (name.clone(), value.clone());
                let ghost p = pair;
                self.values[i] = pair;
                proof {
                    lemma_assoc_view_update(s0, i as int, p);
                }
                Some(prev)
            },
            None => {
                let pair = (name.clone(), value.clone());
                let ghost p = pair;
                self.values.push(pair);
                proof {
                    lemma_assoc_view_dom(s0, name@);
                    lemma_assoc_view_push(s0, p);
                }
                None
            },
        }
    }
}

/// The frame `distance` enclosing links above `frame`, or `None` when the
/// chain is shorter than that.
pub open spec fn spec_ancestor(env: Seq<FrameV>, frame: int, distance: int) -> Option<int>
    decreases distance,
{
    if distance <= 0 {
        Some(frame)
    } else if 0 <= frame < env.len() {
        match env[frame].enclosing {
            Some(j) => spec_ancestor(env, j, distance - 1),
            None => None,
        }
    } else {
        None
    }
}

/// The value a whole-chain walk finds for a name, starting at `frame`:
/// the binding in the nearest frame that has one.
pub open spec fn spec_lookup_chain(env: Seq<FrameV>, frame: int, name: Seq<char>) -> Option<
    ValueV,
>
    decreases frame,
{
    if 0 <= frame < env.len() {
        if env[frame].bindings.contains_key(name) {
            Some(env[frame].bindings[name])
        } else {
            match env[frame].enclosing {
                Some(j) => if 0 <= j < frame {
                    spec_lookup_chain(env, j, name)
                } else {
                    None
                },
                None => None,
            }
        }
    } else {
        None
    }
}

/// The arena of all frames created during a run. A frame is denoted by
/// its index; links point from younger frames to strictly older ones.
pub struct Environment {
    frames: Vec<Frame>,
}

impl View for Environment {
    type V = Seq<FrameV>;

    closed spec fn view(&self) -> Seq<FrameV> {
        self.frames@.map_values(|f: Frame| f@)
    }
}

impl Environment {
    /// Every frame has distinct names, and every enclosing link points at
    /// an older frame, so chains are acyclic and end at the root.
    pub closed spec fn wf(&self) -> bool {
        &&& forall|i: int|
            0 <= i < self.frames@.len() ==> (#[trigger] self.frames@[i]).wf()
        &&& forall|i: int|
            0 <= i < self.frames@.len() ==> match (#[trigger] self@[i]).enclosing {
                Some(j) => 0 <= j < i,
                None => true,
            }
    }

    /// A fresh chain holding only the root frame, with no bindings.
    pub fn new() -> (env: Environment)
        ensures
            env.wf(),
            env@.len() == 1,
            env@[0].bindings == Map::<Seq<char>, ValueV>::empty(),
            env@[0].enclosing is None,
    {
        let mut frames: Vec<Frame> = Vec::new();
        frames.push(Frame { values: Vec::new(), enclosing: None });
        Environment { frames }
    }

    /// Opens a new, empty frame whose enclosing scope is `enclosing`, and
    /// returns its index. Existing frames are untouched.
    pub fn from(&mut self, enclosing: usize) -> (frame: usize)
        requires
            old(self).wf(),
            enclosing < old(self)@.len(),
        ensures
            final(self).wf(),
            frame == old(self)@.len(),
            final(self)@.len() == old(self)@.len() + 1,
            forall|i: int| 0 <= i < old(self)@.len() ==> final(self)@[i] == old(self)@[i],
            final(self)@[frame as int].bindings == Map::<Seq<char>, ValueV>::empty(),
            final(self)@[frame as int].enclosing == Some(enclosing as int),
    {
        let frame = self.frames.len();
        let nf = Frame { values: Vec::new(), enclosing: Some(enclosing) };
        let ghost gnf = nf;
        self.frames.push(nf);
        proof {
            assert(self@ =~= old(self)@.push(gnf@));
            assert forall|i: int|
                0 <= i < self.frames@.len() implies (#[trigger] self.frames@[i]).wf() by {
                if i < old(self).frames@.len() {
                    assert(old(self).frames@[i].wf());
                }
            }
        }
        frame
    }

    /// Whether the frame has an enclosing scope; only the root does not.
    pub fn has_enclosing(&self, frame: usize) -> (r: bool)
        requires
            frame < self@.len(),
        ensures
            r == (self@[frame as int].enclosing is Some),
    {
        self.frames[frame].enclosing.is_some()
    }

    /// Binds a name in the given frame only, overwriting any previous
    /// binding there, and returns the previous value if one existed.
    pub fn define_or_update(&mut self, frame: usize, name: &String, value: &Value) -> (prev:
        Option<Value>)
        requires
            old(self).wf(),
            frame < old(self)@.len(),
        ensures
            final(self).wf(),
            final(self)@.len() == old(self)@.len(),
            forall|i: int| 0 <= i < final(self)@.len() && i != frame ==> final(self)@[i] == old(self)@[i],
            final(self)@[frame as int].bindings == old(self)@[frame as int].bindings.insert(
                name@,
                value@,
            ),
            final(self)@[frame as int].enclosing == old(self)@[frame as int].enclosing,
            match prev {
                Some(p) => old(self)@[frame as int].bindings.contains_key(name@) && p@
                    == old(self)@[frame as int].bindings[name@],
                None => !old(self)@[frame as int].bindings.contains_key(name@),
            },
    {
        let fr = &mut self.frames[frame];
        let prev = fr.insert(name, value);
        proof {
            assert(self@ =~= old(self)@.update(
                frame as int,
                FrameV {
                    bindings: old(self)@[frame as int].bindings.insert(name@, value@),
                    enclosing: old(self)@[frame as int].enclosing,
                },
            ));
            assert forall|i: int|
                0 <= i < self.frames@.len() implies (#[trigger] self.frames@[i]).wf() by {
                if i != frame {
                    assert(self.frames@[i] == old(self).frames@[i]);
                    assert(old(self).frames@[i].wf());
                }
            }
        }
        prev
    }

    /// The value bound to a name in the given frame alone; `None` when
    /// that frame does not bind the name.
    pub fn get(&self, frame: usize, name: &String) -> (r: Option<Value>)
        requires
            self.wf(),
            frame < self@.len(),
        ensures
            match r {
                Some(v) => self@[frame as int].bindings.contains_key(name@) && v@
                    == self@[frame as int].bindings[name@],
                None => !self@[frame as int].bindings.contains_key(name@),
            },
    {
        self.frames[frame].get(name)
    }

    /// Walks `distance` enclosing links and returns the frame reached.
    /// `None` means the chain is shorter than `distance`: the resolver and
    /// the evaluator disagreed about the scope shape, which callers treat
    /// as an internal fault, never as a user error.
    pub fn ancestor(&self, frame: usize, distance: usize) -> (r: Option<usize>)
        requires
            self.wf(),
            frame < self@.len(),
        ensures
            match r {
                Some(a) => a < self@.len() && Some(a as int) == spec_ancestor(
                    self@,
                    frame as int,
                    distance as int,
                ),
                None => spec_ancestor(self@, frame as int, distance as int) is None,
            },
    {
        let mut cur = frame;
        let mut left = distance;
        while left > 0
            invariant
                self.wf(),
                cur < self@.len(),
                left <= distance,
                spec_ancestor(self@, frame as int, distance as int) == spec_ancestor(
                    self@,
                    cur as int,
                    left as int,
                ),
            decreases left,
        {
            match self.frames[cur].enclosing {
                Some(j) => {
                    cur = j;
                    left = left - 1;
                },
                None => {
                    return None;
                },
            }
        }
        Some(cur)
    }

    /// Reads a name in the frame `distance` hops up from `frame`;
    /// distance 0 means `frame` itself. `None` when the chain is too
    /// short or that frame does not bind the name.
    pub fn get_at(&self, frame: usize, name: &String, distance: usize) -> (r: Option<Value>)
        requires
            self.wf(),
            frame < self@.len(),
        ensures
            match spec_ancestor(self@, frame as int, distance as int) {
                Some(a) => match r {
                    Some(v) => self@[a].bindings.contains_key(name@) && v@
                        == self@[a].bindings[name@],
                    None => !self@[a].bindings.contains_key(name@),
                },
                None => r is None,
            },
    {
        match self.ancestor(frame, distance) {
            Some(a) => self.frames[a].get(name),
            None => None,
        }
    }

    /// Writes a name in the frame `distance` hops up from `frame`,
    /// returning the previous binding of that frame as `define_or_update`
    /// does. When the chain is too short, nothing is written and the
    /// result is `None`.
    pub fn assign_at(&mut self, frame: usize, name: &String, value: &Value, distance: usize) -> (r:
        Option<Value>)
        requires
            old(self).wf(),
            frame < old(self)@.len(),
        ensures
            final(self).wf(),
            final(self)@.len() == old(self)@.len(),
            match spec_ancestor(old(self)@, frame as int, distance as int) {
                Some(a) => {
                    &&& forall|i: int| 0 <= i < final(self)@.len() && i != a ==> final(self)@[i] == old(
                        self,
                    )@[i]
                    &&& final(self)@[a].bindings == old(self)@[a].bindings.insert(name@, value@)
                    &&& final(self)@[a].enclosing == old(self)@[a].enclosing
                    &&& match r {
                        Some(p) => old(self)@[a].bindings.contains_key(name@) && p@ == old(
                            self,
                        )@[a].bindings[name@],
                        None => !old(self)@[a].bindings.contains_key(name@),
                    }
                },
                None => final(self)@ == old(self)@ && r is None,
            },
    {
        match self.ancestor(frame, distance) {
            Some(a) => {
                let fr = &mut self.frames[a];
                let prev = fr.insert(name, value);
                proof {
                    assert(self@ =~= old(self)@.update(
                        a as int,
                        FrameV {
                            bindings: old(self)@[a as int].bindings.insert(name@, value@),
                            enclosing: old(self)@[a as int].enclosing,
                        },
                    ));
                    assert forall|i: int|
                        0 <= i < self.frames@.len() implies (#[trigger] self.frames@[i]).wf() by {
                        if i != a {
                            assert(self.frames@[i] == old(self).frames@[i]);
                            assert(old(self).frames@[i].wf());
                        }
                    }
                }
                prev
            },
            None => None,
        }
    }

    /// Walks the whole chain from `frame` outward and returns the binding
    /// in the nearest frame that has one. Used for the names whose depth
    /// the resolver does not precompute, and as the fallback for
    /// references the resolver left unresolved.
    pub fn get_deep(&self, frame: usize, name: &String) -> (r: Option<Value>)
        requires
            self.wf(),
            frame < self@.len(),
        ensures
            match r {
                Some(v) => spec_lookup_chain(self@, frame as int, name@) == Some(v@),
                None => spec_lookup_chain(self@, frame as int, name@) is None,
            },
        decreases frame,
    {
        match self.frames[frame].get(name) {
            Some(v) => Some(v),
            None => {
                match self.frames[frame].enclosing {
                    Some(j) => self.get_deep(j, name),
                    None => None,
                }
            },
        }
    }
}


/// Following enclosing links from a valid frame stays inside the arena.
pub proof fn lemma_ancestor_in_range(env: &Environment, frame: int, distance: int)
    requires
        env.wf(),
        0 <= frame < env@.len(),
    ensures
        match spec_ancestor(env@, frame, distance) {
            Some(a) => 0 <= a < env@.len(),
            None => true,
        },
    decreases distance,
{
    if distance > 0 {
        match env@[frame].enclosing {
            Some(j) => {
                assert(env@[frame] == env.frames@[frame]@);
                lemma_ancestor_in_range(env, j, distance - 1);
            },
            None => {},
        }
    }
}

} // verus!
