//! The scope and cache stack: a stack of name-to-value frames.
//!
//! One mechanism serves two purposes: helpers push a frame around their body
//! and bind loop variables in it, and the evaluator memoizes resolved
//! variables and paths in the innermost frame so that repeated references
//! within one render reuse the resolved value. Lookup scans frames innermost
//! to outermost, and within a frame the latest write wins.

use vstd::prelude::*;
use crate::convert::RawValue;
use crate::convert::Val;

verus! {

/// The mathematical image of a frame: its entries in writing order.
pub type FrameV = Seq<(Seq<char>, Val)>;

/// The mathematical image of the whole stack: frames in pushing order, the
/// innermost frame last.
pub type ScopeV = Seq<FrameV>;

/// The image of one frame's entries.
pub open spec fn entries_view(f: Seq<(String, RawValue)>) -> FrameV {
    f.map(|i: int, e: (String, RawValue)| (e.0@, e.1@))
}

/// The image of a stack of frames.
pub open spec fn scope_view(s: Seq<Vec<(String, RawValue)>>) -> ScopeV {
    s.map(|i: int, f: Vec<(String, RawValue)>| entries_view(f@))
}

/// The value bound to `k` in one frame: the latest write wins.
pub open spec fn frame_get(f: FrameV, k: Seq<char>) -> Option<Val>
    decreases f.len(),
{
    if f.len() == 0 {
        None
    } else if f.last().0 == k {
        Some(f.last().1)
    } else {
        frame_get(f.drop_last(), k)
    }
}

/// The value bound to `k` in a stack: the innermost binding wins.
pub open spec fn scope_get(sc: ScopeV, k: Seq<char>) -> Option<Val>
    decreases sc.len(),
{
    if sc.len() == 0 {
        None
    } else {
        match frame_get(sc.last(), k) {
            Some(v) => Some(v),
            None => scope_get(sc.drop_last(), k),
        }
    }
}

/// The stack after binding `k` to `v` in the innermost frame.
pub open spec fn scope_set(sc: ScopeV, k: Seq<char>, v: Val) -> ScopeV {
    sc.update(sc.len() - 1, sc.last().push((k, v)))
}

/// A binding written to the innermost frame is exactly what lookup then
/// finds under its name.
pub proof fn lemma_scope_set_get(sc: ScopeV, k: Seq<char>, v: Val)
    requires
        sc.len() > 0,
    ensures
        scope_get(scope_set(sc, k, v), k) == Some(v),
{
    let sc2 = scope_set(sc, k, v);
    assert(sc2.last() == sc.last().push((k, v)));
    assert(sc2.last().last() == (k, v));
    assert(frame_get(sc2.last(), k) == Some(v));
}

/// A stack of name-to-value frames.
pub struct Memory {
    pub stack: Vec<Vec<(String, RawValue)>>,
}

impl View for Memory {
    type V = ScopeV;

    open spec fn view(&self) -> ScopeV {
        scope_view(self.stack@)
    }
}

impl Memory {
    /// A fresh stack holding one empty frame.
    pub fn new() -> (r: Self)
        ensures
            r@ =~= seq![Seq::<(Seq<char>, Val)>::empty()],
    {
        let mut stack: Vec<Vec<(String, RawValue)>> = Vec::new();
        stack.push(Vec::new());
        let r = Memory { stack };
        proof {
            assert(r@.len() == 1);
            assert(r@[0] =~= Seq::<(Seq<char>, Val)>::empty());
        }
        r
    }

    /// Pushes a fresh, empty innermost frame.
    pub fn extend(&mut self)
        ensures
            final(self)@ =~= old(self)@.push(Seq::<(Seq<char>, Val)>::empty()),
    {
        self.stack.push(Vec::new());
        proof {
            assert(self@.len() == old(self)@.len() + 1);
            assert(self@[old(self)@.len() as int] =~= Seq::<(Seq<char>, Val)>::empty());
            assert(forall|i: int| 0 <= i < old(self)@.len() ==> self@[i] == old(self)@[i]);
        }
    }

    /// Removes the innermost frame, with all its bindings; does nothing on an
    /// empty stack.
    pub fn destroy(&mut self)
        ensures
            old(self)@.len() > 0 ==> final(self)@ =~= old(self)@.drop_last(),
            old(self)@.len() == 0 ==> final(self)@ =~= old(self)@,
    {
        let _ = self.stack.pop();
        proof {
            if old(self)@.len() > 0 {
                assert(self@ =~= old(self)@.drop_last());
            } else {
                assert(self@ =~= old(self)@);
            }
        }
    }

    /// The value bound to `val`, searching frames innermost to outermost.
    pub fn get(&self, val: &String) -> (r: Option<&RawValue>)
        ensures
            match scope_get(self@, val@) {
                Some(v) => r matches Some(rv) && rv@ == v,
                None => r is None,
            },
    {
        let mut fi = self.stack.len();
        proof {
            assert(self@.take(self.stack@.len() as int) =~= self@);
        }
        while fi > 0
            invariant
                fi <= self.stack@.len(),
                scope_get(self@, val@) == scope_get(self@.take(fi as int), val@),
            decreases fi,
        {
            fi -= 1;
            let frame = &self.stack[fi];
            proof {
                assert(entries_view(frame@).take(frame@.len() as int) =~= entries_view(frame@));
            }
            let mut ei = frame.len();
            while ei > 0
                invariant
                    fi < self.stack@.len(),
                    frame@ == self.stack@[fi as int]@,
                    ei <= frame@.len(),
                    frame_get(entries_view(frame@), val@) == frame_get(
                        entries_view(frame@).take(ei as int),
                        val@,
                    ),
                decreases ei,
            {
                ei -= 1;
                proof {
                    let fv = entries_view(frame@);
                    assert(fv.take(ei + 1).last() == fv[ei as int]);
                    assert(fv.take(ei + 1).drop_last() =~= fv.take(ei as int));
                    assert(fv[ei as int] == (frame@[ei as int].0@, frame@[ei as int].1@));
                }
                if crate::convert::str_eq(frame[ei].0.as_str(), val.as_str()) {
                    return Some(&frame[ei].1);
                }
            }
            proof {
                let sv = self@.take(fi + 1);
                assert(sv.last() == self@[fi as int]);
                assert(sv.drop_last() =~= self@.take(fi as int));
                assert(entries_view(frame@).take(0) =~= Seq::<(Seq<char>, Val)>::empty());
                assert(self@[fi as int] == entries_view(frame@));
            }
        }
        proof {
            assert(self@.take(0) =~= Seq::<FrameV>::empty());
        }
        None
    }

    /// Binds `key` to `val` in the innermost frame, shadowing any earlier
    /// binding of the same name.
    pub fn set(&mut self, key: String, val: RawValue)
        requires
            old(self)@.len() > 0,
        ensures
            final(self)@ =~= scope_set(old(self)@, key@, val@),
    {
        let mut frame = match self.stack.pop() {
            Some(f) => f,
            None => Vec::new(),
        };
        proof {
            let gk = key@;
            let gv = val@;
            assert(entries_view(frame@.push((key, val))) =~= entries_view(frame@).push((gk, gv)));
        }
        frame.push((key, val));
        self.stack.push(frame);
        proof {
            assert(self@.len() == old(self)@.len());
            assert(forall|i: int|
                0 <= i < old(self)@.len() - 1 ==> self@[i] == old(self)@[i]);
            assert(self@[old(self)@.len() - 1] == entries_view(
                old(self).stack@.last()@.push((key, val)),
            ));
            assert(old(self)@.last() == entries_view(old(self).stack@.last()@));
        }
    }
}

} // verus!
