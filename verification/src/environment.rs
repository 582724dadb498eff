//! The environment: an arena of scope frames. Each frame maps names to
//! values and points to its enclosing frame; the chain from any frame to
//! the root (global) frame, which has no parent, is finite and acyclic
//! because a frame's parent is always created before it.
//!
//! The arena realizes shared mutable scopes without reference counting:
//! closures capture a frame by index, the evaluator addresses its current
//! frame by index, and an assignment through either is visible to both.
//! Frames are kept for the lifetime of the run.
//!
//! A frame's model is a [`Map`] from the name's characters to the value's
//! model; the backing store appends, and lookups take the latest entry,
//! so a redeclaration overwrites.

use vstd::prelude::*;

use crate::errors::{EnvError, EnvErrorV};
use crate::value::{Object, Val};

verus! {

/// One scope frame: name-to-value bindings plus the enclosing frame.
pub struct Frame {
    pub values: Vec<(String, Object)>,
    pub enclosing: Option<usize>,
}

/// Model of one scope frame.
pub struct FrameV {
    pub map: Map<Seq<char>, Val>,
    pub enclosing: Option<int>,
}

/// The map an append-only binding list denotes: the latest entry for a
/// name wins.
pub open spec fn entries_map(es: Seq<(String, Object)>) -> Map<Seq<char>, Val>
    decreases es.len(),
{
    if es.len() == 0 {
        Map::empty()
    } else {
        entries_map(es.drop_last()).insert(es.last().0@, es.last().1@)
    }
}

impl View for Frame {
    type V = FrameV;

    open spec fn view(&self) -> FrameV {
        FrameV {
            map: entries_map(self.values@),
            enclosing: match self.enclosing {
                Some(p) => Some(p as int),
                None => None,
            },
        }
    }
}

/// The whole environment: a forest of frames rooted at the global frame,
/// which is created first and sits at index zero.
pub struct Env {
    pub frames: Vec<Frame>,
}

impl View for Env {
    type V = Seq<FrameV>;

    open spec fn view(&self) -> Seq<FrameV> {
        self.frames@.map_values(|f: Frame| f@)
    }
}

/// The frame reached from `i` by following exactly `d` parent links, or
/// `None` where the chain is shorter than that or leaves the arena.
pub open spec fn at_distance(fs: Seq<FrameV>, i: int, d: nat) -> Option<int>
    decreases d,
{
    if !(0 <= i < fs.len()) {
        None
    } else if d == 0 {
        Some(i)
    } else {
        match fs[i].enclosing {
            Some(p) => at_distance(fs, p, (d - 1) as nat),
            None => None,
        }
    }
}

/// The first frame on the chain from `i` outward that binds `k`, walking
/// only parent links that point at earlier frames (the arena's creation
/// order guarantees they all do).
pub open spec fn chain_find(fs: Seq<FrameV>, i: int, k: Seq<char>) -> Option<int>
    decreases i + 1,
{
    if !(0 <= i < fs.len()) {
        None
    } else if fs[i].map.contains_key(k) {
        Some(i)
    } else {
        match fs[i].enclosing {
            Some(p) => if 0 <= p < i {
                chain_find(fs, p, k)
            } else {
                None
            },
            None => None,
        }
    }
}

/// How the arena's model indexes into the backing vector.
pub proof fn lemma_env_view(e: Env)
    ensures
        e@.len() == e.frames@.len(),
        forall|j: int| 0 <= j < e.frames@.len() ==> #[trigger] e@[j] == e.frames@[j]@,
{
}

impl Env {
    /// A fresh environment holding only the empty global frame.
    pub fn new() -> (e: Env)
        ensures
            e@.len() == 1,
            e@[0].map == Map::<Seq<char>, Val>::empty(),
            e@[0].enclosing is None,
    {
        let global = Frame { values: Vec::new(), enclosing: None };
        let frames = vec![global];
        let e = Env { frames };
        proof {
            assert(e@ =~= seq![e.frames@[0]@]);
        }
        e
    }

    /// The number of frames in the arena.
    pub fn len(&self) -> (n: usize)
        ensures
            n == self@.len(),
    {
        self.frames.len()
    }

    /// A new empty frame enclosed by `parent`; returns its index.
    pub fn new_enclosing(&mut self, parent: usize) -> (idx: usize)
        ensures
            idx == old(self)@.len(),
            final(self)@ == old(self)@.push(
                FrameV { map: Map::<Seq<char>, Val>::empty(), enclosing: Some(parent as int) },
            ),
    {
        let idx = self.frames.len();
        self.frames.push(Frame { values: Vec::new(), enclosing: Some(parent) });
        proof {
            assert(self@ =~= old(self)@.push(
                FrameV { map: Map::<Seq<char>, Val>::empty(), enclosing: Some(parent as int) },
            ));
        }
        idx
    }

    /// Binds `name` to `value` in frame `frame`, inserting or overwriting.
    pub fn define(&mut self, frame: usize, name: &String, value: Object)
        requires
            frame < old(self)@.len(),
        ensures
            final(self)@.len() == old(self)@.len(),
            final(self)@ == old(self)@.update(
                frame as int,
                FrameV {
                    map: old(self)@[frame as int].map.insert(name@, value@),
                    enclosing: old(self)@[frame as int].enclosing,
                },
            ),
    {
        let ghost pre = self.frames@[frame as int].values@;
        let f: &mut Frame = &mut self.frames[frame];
        f.values.push((name.clone(), value));
        proof {
            assert(self.frames@[frame as int].values@.drop_last() =~= pre);
            assert(self@ =~= old(self)@.update(
                frame as int,
                FrameV {
                    map: old(self)@[frame as int].map.insert(name@, value@),
                    enclosing: old(self)@[frame as int].enclosing,
                },
            ));
        }
    }

    /// The value bound to `name` in frame `frame` itself, without looking
    /// at enclosing frames.
    pub fn get_local(&self, frame: usize, name: &String) -> (r: Option<Object>)
        requires
            frame < self@.len(),
        ensures
            match r {
                Some(v) => self@[frame as int].map.contains_key(name@) && v@ == self@[
                    frame as int
                ].map[name@],
                None => !self@[frame as int].map.contains_key(name@),
            },
    {
        proof {
            lemma_env_view(*self);
        }
        let ghost es = self.frames@[frame as int].values@;
        let mut i: usize = self.frames[frame].values.len();
        proof {
            assert(es.take(i as int) =~= es);
        }
        while i > 0
            invariant
                frame < self.frames@.len(),
                i <= es.len(),
                es == self.frames@[frame as int].values@,
                self@[frame as int].map == entries_map(es),
                entries_map(es).contains_key(name@) == entries_map(es.take(i as int)).contains_key(
                    name@,
                ),
                entries_map(es).contains_key(name@) ==> entries_map(es)[name@] == entries_map(
                    es.take(i as int),
                )[name@],
            decreases i,
        {
            i = i - 1;
            proof {
                assert(es.take(i + 1).drop_last() =~= es.take(i as int));
                assert(es.take(i + 1).last() == es[i as int]);
            }
            if self.frames[frame].values[i].0 == *name {
                let v = self.frames[frame].values[i].1.dup();
                return Some(v);
            }
        }
        proof {
            assert(es.take(0) =~= Seq::<(String, Object)>::empty());
        }
        None
    }

    /// The index of the frame exactly `distance` parent links above
    /// `frame`, or `None` where the chain is shorter than that.
    pub fn ancestor(&self, frame: usize, distance: usize) -> (r: Option<usize>)
        ensures
            match r {
                Some(fi) => at_distance(self@, frame as int, distance as nat) == Some(fi as int),
                None => at_distance(self@, frame as int, distance as nat) is None,
            },
    {
        proof {
            lemma_env_view(*self);
        }
        if frame >= self.frames.len() {
            return None;
        }
        let mut cur = frame;
        let mut d = distance;
        while d > 0
            invariant
                cur < self@.len(),
                self@.len() == self.frames@.len(),
                forall|j: int| 0 <= j < self.frames@.len() ==> #[trigger] self@[j]
                    == self.frames@[j]@,
                at_distance(self@, frame as int, distance as nat) == at_distance(
                    self@,
                    cur as int,
                    d as nat,
                ),
            decreases d,
        {
            match self.frames[cur].enclosing {
                Some(p) => {
                    proof {
                        assert(self@[cur as int] == self.frames@[cur as int]@);
                    }
                    if p >= self.frames.len() {
                        proof {
                            assert(at_distance(self@, p as int, (d - 1) as nat) is None);
                        }
                        return None;
                    }
                    cur = p;
                    d = d - 1;
                },
                None => {
                    proof {
                        assert(self@[cur as int] == self.frames@[cur as int]@);
                    }
                    return None;
                },
            }
        }
        Some(cur)
    }

    /// Reads `name` in the frame exactly `distance` links above `frame`:
    /// `Some` exactly where that frame exists and binds the name. A chain
    /// shorter than `distance` and an unbound name both give `None`;
    /// [`Env::ancestor`] tells the two apart, and a caller driven by the
    /// resolver's table treats the missing frame as an internal fault,
    /// not a user error.
    pub fn get_at(&self, distance: usize, frame: usize, name: &String) -> (r: Option<Object>)
        ensures
            match at_distance(self@, frame as int, distance as nat) {
                Some(fi) => match r {
                    Some(v) => self@[fi].map.contains_key(name@) && v@ == self@[fi].map[name@],
                    None => !self@[fi].map.contains_key(name@),
                },
                None => r is None,
            },
    {
        proof {
            lemma_at_distance_in_bounds(self@, frame as int, distance as nat);
        }
        match self.ancestor(frame, distance) {
            Some(fi) => self.get_local(fi, name),
            None => None,
        }
    }

    /// Binds `name` to `value` in the frame exactly `distance` links
    /// above `frame`; reports whether that frame exists.
    pub fn assign_at(&mut self, distance: usize, frame: usize, name: &String, value: Object) -> (ok:
        bool)
        ensures
            match at_distance(old(self)@, frame as int, distance as nat) {
                Some(fi) => ok && final(self)@ == old(self)@.update(
                    fi,
                    FrameV {
                        map: old(self)@[fi].map.insert(name@, value@),
                        enclosing: old(self)@[fi].enclosing,
                    },
                ),
                None => !ok && final(self)@ == old(self)@,
            },
    {
        proof {
            lemma_at_distance_in_bounds(self@, frame as int, distance as nat);
        }
        match self.ancestor(frame, distance) {
            Some(fi) => {
                self.define(fi, name, value);
                true
            },
            None => false,
        }
    }

    /// Reads `name` on the chain from `frame` outward: the innermost
    /// frame that binds it wins; fails where none does.
    pub fn get(&self, frame: usize, name: &crate::token::Token) -> (r: Result<Object, EnvError>)
        ensures
            match chain_find(self@, frame as int, name.lexeme@) {
                Some(fi) => r is Ok && r->Ok_0@ == self@[fi].map[name.lexeme@],
                None => r matches Err(e) && e@ == (EnvErrorV::ValueNotFound {
                    line: name.line as nat,
                    name: name.lexeme@,
                }),
            },
    {
        match self.locate(frame, &name.lexeme) {
            Some(fi) => {
                proof {
                    lemma_chain_find_valid(self@, frame as int, name.lexeme@);
                }
                match self.get_local(fi, &name.lexeme) {
                    Some(v) => Ok(v),
                    None => Err(
                        EnvError::ValueNotFound { line: name.line, name: name.lexeme.clone() },
                    ),
                }
            },
            None => Err(EnvError::ValueNotFound { line: name.line, name: name.lexeme.clone() }),
        }
    }

    /// Assigns `value` to `name` in the innermost frame on the chain from
    /// `frame` outward that already binds it; fails, changing nothing,
    /// where none does. Assignment never creates a binding.
    pub fn assign(&mut self, frame: usize, name: &crate::token::Token, value: Object) -> (r: Result<
        (),
        EnvError,
    >)
        ensures
            match chain_find(old(self)@, frame as int, name.lexeme@) {
                Some(fi) => r is Ok && final(self)@ == old(self)@.update(
                    fi,
                    FrameV {
                        map: old(self)@[fi].map.insert(name.lexeme@, value@),
                        enclosing: old(self)@[fi].enclosing,
                    },
                ),
                None => r is Err && final(self)@ == old(self)@ && (r matches Err(e) && e@
                    == (EnvErrorV::ValueNotFound { line: name.line as nat, name: name.lexeme@ })),
            },
    {
        proof {
            lemma_chain_find_valid(self@, frame as int, name.lexeme@);
        }
        match self.locate(frame, &name.lexeme) {
            Some(fi) => {
                self.define(fi, &name.lexeme, value);
                Ok(())
            },
            None => Err(EnvError::ValueNotFound { line: name.line, name: name.lexeme.clone() }),
        }
    }

    /// The innermost frame on the chain from `frame` outward that binds
    /// `name`.
    fn locate(&self, frame: usize, name: &String) -> (r: Option<usize>)
        ensures
            match r {
                Some(fi) => chain_find(self@, frame as int, name@) == Some(fi as int),
                None => chain_find(self@, frame as int, name@) is None,
            },
    {
        proof {
            lemma_env_view(*self);
        }
        if frame >= self.frames.len() {
            return None;
        }
        let mut cur = frame;
        loop
            invariant
                cur < self@.len(),
                self@.len() == self.frames@.len(),
                forall|j: int| 0 <= j < self.frames@.len() ==> #[trigger] self@[j]
                    == self.frames@[j]@,
                chain_find(self@, frame as int, name@) == chain_find(self@, cur as int, name@),
            decreases cur,
        {
            match self.get_local(cur, name) {
                Some(_) => {
                    return Some(cur);
                },
                None => {
                    match self.frames[cur].enclosing {
                        Some(p) => {
                            proof {
                                assert(self@[cur as int] == self.frames@[cur as int]@);
                            }
                            if p >= cur {
                                return None;
                            }
                            cur = p;
                        },
                        None => {
                            proof {
                                assert(self@[cur as int] == self.frames@[cur as int]@);
                            }
                            return None;
                        },
                    }
                },
            }
        }
    }
}

/// A frame found at a distance lies inside the arena.
pub proof fn lemma_at_distance_in_bounds(fs: Seq<FrameV>, i: int, d: nat)
    ensures
        match at_distance(fs, i, d) {
            Some(fi) => 0 <= fi < fs.len(),
            None => true,
        },
    decreases d,
{
    if 0 <= i < fs.len() && d > 0 {
        match fs[i].enclosing {
            Some(p) => lemma_at_distance_in_bounds(fs, p, (d - 1) as nat),
            None => {},
        }
    }
}

/// A frame found by the chain search lies inside the arena and binds the
/// name.
pub proof fn lemma_chain_find_valid(fs: Seq<FrameV>, i: int, k: Seq<char>)
    ensures
        match chain_find(fs, i, k) {
            Some(fi) => 0 <= fi < fs.len() && fs[fi].map.contains_key(k),
            None => true,
        },
    decreases i + 1,
{
    if 0 <= i < fs.len() && !fs[i].map.contains_key(k) {
        match fs[i].enclosing {
            Some(p) => {
                if 0 <= p < i {
                    lemma_chain_find_valid(fs, p, k);
                }
            },
            None => {},
        }
    }
}

} // verus!
