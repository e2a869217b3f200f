use core::marker::PhantomData;
use vstd::prelude::*;

use crate::tape::{Tape, TapeEntry};

verus! {

/// `f` can be called on every position and always gives the same position back.
pub open spec fn is_position_map<P, F: Fn(&P) -> P>(f: F) -> bool {
    &&& forall|p: P| #[trigger] call_requires(f, (&p,))
    &&& forall|p: P, q1: P, q2: P|
        #[trigger] call_ensures(f, (&p,), q1) && #[trigger] call_ensures(f, (&p,), q2) ==> q1 == q2
}

/// The position that `f` sends `p` to.
pub open spec fn mapped<P, F: Fn(&P) -> P>(f: F, p: P) -> P {
    choose|q: P| call_ensures(f, (&p,), q)
}

/// Where `f` sends `p` to `q`, `q` is the position that `p` is looked up at.
pub proof fn lemma_mapped<P, F: Fn(&P) -> P>(f: F, p: P, q: P)
    requires
        is_position_map(f),
        call_ensures(f, (&p,), q),
    ensures
        mapped(f, p) == q,
{
}

/// A tape that looks every position up on `base` at the position `map` sends it to.
#[verifier::reject_recursive_types(P)]
pub struct TapeMap<P, V, T: Tape<P, V>, F: Fn(&P) -> P> {
    pub base: T,
    pub map: F,
    pub _p: PhantomData<(P, V)>,
}

impl<P, V, T: Tape<P, V>, F: Fn(&P) -> P> TapeMap<P, V, T, F> {
    /// Looks `base` up through `map`.
    pub fn new(base: T, map: F) -> (r: Self)
        ensures
            r.base == base,
            r.map == map,
    {
        Self { base, map, _p: PhantomData }
    }
}

impl<P, V, T: Tape<P, V>, F: Fn(&P) -> P> Tape<P, V> for TapeMap<P, V, T, F> {
    open spec fn inv(&self) -> bool {
        &&& self.base.inv()
        &&& is_position_map(self.map)
    }

    open spec fn read(&self, p: P) -> Option<V> {
        self.base.read(mapped(self.map, p))
    }

    open spec fn accessible(&self, p: P) -> bool {
        self.base.accessible(mapped(self.map, p))
    }

    open spec fn written(&self, p: P, v: V, after: &Self) -> bool {
        &&& after.map == self.map
        &&& self.base.written(mapped(self.map, p), v, &after.base)
    }

    fn get(&mut self, position: &P) -> (r: TapeEntry<&V>) {
        let q = (self.map)(position);
        self.base.get(&q)
    }

    fn get_mut(&mut self, position: &P) -> (r: TapeEntry<&mut V>) {
        let q = (self.map)(position);
        self.base.get_mut(&q)
    }

    proof fn lemma_written(&self, p: P, v: V, after: &Self) {
        self.base.lemma_written(mapped(self.map, p), v, &after.base);
    }

    proof fn lemma_rewrite(&self, p: P, after: &Self) {
        self.base.lemma_rewrite(mapped(self.map, p), &after.base);
    }
}

} // verus!
