use core::marker::PhantomData;
use core::ops::Add;
use vstd::prelude::*;
use vstd::std_specs::ops::AddSpec;

use crate::tape::{Tape, TapeEntry};

verus! {

/// `transition`, applied to `v`, may give the move `m` and the value `w`.
pub open spec fn transition_gives<P, V, F: FnMut(&V) -> (P, V)>(transition: F, v: V, m: P, w: V) -> bool {
    call_ensures(transition, (&v,), (m, w))
}

/// A head that walks a tape: at each step it reads the cell under it, and `transition`
/// turns that value into a move and the value to write back.
#[verifier::reject_recursive_types(P)]
#[verifier::reject_recursive_types(V)]
pub struct Automaton<P, V, F> where F: FnMut(&V) -> (P, V), V: Copy {
    head: Option<P>,
    transition: F,
    _p: PhantomData<V>,
}

impl<P, V, F> Automaton<P, V, F> where
    P: Add<P, Output = P> + Copy,
    F: FnMut(&V) -> (P, V),
    V: Copy,
 {
    /// Where the head stands, or `None` once it has stopped or before it starts.
    pub closed spec fn spec_head(&self) -> Option<P> {
        self.head
    }

    /// The rule applied at each step.
    pub closed spec fn spec_transition(&self) -> F {
        self.transition
    }

    /// An automaton with `transition` as its rule, not yet started.
    pub fn new(transition: F) -> (r: Self)
        ensures
            r.spec_head() is None,
            r.spec_transition() == transition,
    {
        Self { head: None, transition, _p: PhantomData }
    }

    /// Puts the head at `head`.
    pub fn start(&mut self, head: P)
        ensures
            final(self).spec_head() == Some(head),
            final(self).spec_transition() == old(self).spec_transition(),
    {
        self.head = Some(head);
    }

    /// One step: reads the cell under the head, writes the value that `transition` gives
    /// for it, and moves the head by the offset it gives. Gives back the position and the
    /// value written, or `None`, and stops, where there is no head or no cell under it.
    pub fn next<T: Tape<P, V>>(&mut self, tape: &mut T) -> (r: Option<(P, V)>)
        requires
            old(self).spec_head() matches Some(p) ==> {
                &&& (*old(tape)).inv()
                &&& (*old(tape)).accessible(p)
                &&& (*old(tape)).read(p) matches Some(v) ==> {
                    &&& call_requires(old(self).spec_transition(), (&v,))
                    &&& forall|m: P, w: V|
                        #[trigger] transition_gives(old(self).spec_transition(), v, m, w)
                            ==> m.add_req(p)
                }
            },
        ensures
            final(self).spec_transition() == old(self).spec_transition(),
            r is None ==> final(self).spec_head() is None,
            r is None ==> {
                &&& old(self).spec_head() matches Some(p) ==> (*old(tape)).read(p) is None
                &&& (*old(tape)).inv() ==> (*final(tape)).inv()
                &&& forall|q: P| #[trigger] (*final(tape)).read(q) == (*old(tape)).read(q)
                &&& forall|q: P| #[trigger] (*final(tape)).accessible(q) == (*old(tape)).accessible(q)
            },
            r matches Some((p, w)) ==> old(self).spec_head() == Some(p),
            r matches Some((p, w)) ==> (*old(tape)).read(p) is Some,
            r matches Some((p, w)) ==> exists|v: V, m: P|
                {
                    &&& (*old(tape)).read(p) == Some(v)
                    &&& #[trigger] transition_gives(old(self).spec_transition(), v, m, w)
                    &&& final(self).spec_head() matches Some(h) && (P::obeys_add_spec() ==> h
                        == m.add_spec(p))
                },
            r matches Some((p, w)) ==> (*old(tape)).written(p, w, &*final(tape)),
            r matches Some((p, w)) ==> (*final(tape)).inv(),
            r matches Some((p, w)) ==> (*final(tape)).read(p) == Some(w),
    {
        broadcast use vstd::function::group_function_axioms;

        if let Some(p) = self.head.take() {
            let value = tape.get_mut(&p);
            if let TapeEntry::Hit(v) = value {
                let cur: V = *v;
                let (np, nv) = (self.transition)(&cur);
                // Names the closure's outcome, so that the move may be added and the step
                // described.
                assert(transition_gives(old(self).spec_transition(), cur, np, nv));
                *v = nv;
                self.head = Some(np + p);
                proof {
                    (*old(tape)).lemma_written(p, nv, &*final(tape));
                }
                let res = Some((p, nv));
                // The value written is the one handed back.
                assert(res matches Some((q, w)) ==> w == nv);
                res
            } else {
                None
            }
        } else {
            None
        }
    }
}

} // verus!
