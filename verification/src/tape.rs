pub mod extend;
pub mod grid;
pub mod map;

use vstd::prelude::*;

use crate::tape::map::TapeMap;

verus! {

/// The outcome of looking a position up on a tape.
pub enum TapeEntry<V> {
    /// The position has a cell; here it is.
    Hit(V),
    /// The position has no cell.
    Miss,
}

/// A tape: cells addressed by positions, which an automaton reads and writes.
pub trait Tape<Position, Value> {
    /// What the tape promises to keep true between calls.
    spec fn inv(&self) -> bool;

    /// The value a lookup at `p` finds, or `None` where it misses.
    spec fn read(&self, p: Position) -> Option<Value>;

    /// A lookup at `p` is defined (it does not fail).
    spec fn accessible(&self, p: Position) -> bool;

    /// `after` is this tape with the cell that `p` finds set to `v`.
    spec fn written(&self, p: Position, v: Value, after: &Self) -> bool;

    /// The value at `position`, or `Miss`.
    fn get(&mut self, position: &Position) -> (r: TapeEntry<&Value>)
        requires
            old(self).inv(),
            old(self).accessible(*position),
        ensures
            match r {
                TapeEntry::Hit(v) => {
                    &&& old(self).read(*position) == Some(*v)
                    &&& old(self).written(*position, *v, &*final(self))
                    &&& final(self).inv()
                    &&& forall|q: Position| #[trigger] final(self).read(q) == old(self).read(q)
                    &&& forall|q: Position|
                        #[trigger] final(self).accessible(q) == old(self).accessible(q)
                },
                TapeEntry::Miss => {
                    &&& old(self).read(*position) is None
                    &&& final(self).inv()
                    &&& forall|q: Position| #[trigger] final(self).read(q) == old(self).read(q)
                    &&& forall|q: Position|
                        #[trigger] final(self).accessible(q) == old(self).accessible(q)
                },
            },
    ;

    /// The cell at `position`, to be written through, or `Miss`.
    fn get_mut(&mut self, position: &Position) -> (r: TapeEntry<&mut Value>)
        requires
            old(self).inv(),
            old(self).accessible(*position),
        ensures
            match r {
                TapeEntry::Hit(v) => {
                    &&& old(self).read(*position) == Some(*v)
                    &&& old(self).written(*position, *final(v), &*final(self))
                },
                TapeEntry::Miss => {
                    &&& old(self).read(*position) is None
                    &&& final(self).inv()
                    &&& forall|q: Position| #[trigger] final(self).read(q) == old(self).read(q)
                    &&& forall|q: Position|
                        #[trigger] final(self).accessible(q) == old(self).accessible(q)
                },
            },
    ;

    /// This tape, looked up through `map`.
    fn map<F: Fn(&Position) -> Position>(self, map: F) -> (r: TapeMap<Position, Value, Self, F>) where
        Self: Sized,
        ensures
            r.base == self,
            r.map == map,
    {
        TapeMap { base: self, map, _p: core::marker::PhantomData }
    }

    /// A write keeps the invariant and what can be looked up, and is read back.
    proof fn lemma_written(&self, p: Position, v: Value, after: &Self)
        requires
            self.inv(),
            self.accessible(p),
            self.read(p) is Some,
            self.written(p, v, after),
        ensures
            after.inv(),
            after.read(p) == Some(v),
            forall|q: Position| #[trigger] after.accessible(q) == self.accessible(q),
    ;

    /// Writing back the value that is there changes no lookup.
    proof fn lemma_rewrite(&self, p: Position, after: &Self)
        requires
            self.inv(),
            self.accessible(p),
            self.read(p) is Some,
            self.written(p, self.read(p)->0, after),
        ensures
            forall|q: Position| #[trigger] after.read(q) == self.read(q),
    ;
}

impl<P, V, T> Tape<P, V> for &mut T where T: Tape<P, V> {
    open spec fn inv(&self) -> bool {
        (**self).inv()
    }

    open spec fn read(&self, p: P) -> Option<V> {
        (**self).read(p)
    }

    open spec fn accessible(&self, p: P) -> bool {
        (**self).accessible(p)
    }

    open spec fn written(&self, p: P, v: V, after: &Self) -> bool {
        (**self).written(p, v, &**after)
    }

    fn get(&mut self, position: &P) -> (r: TapeEntry<&V>) {
        T::get(self, position)
    }

    fn get_mut(&mut self, position: &P) -> (r: TapeEntry<&mut V>) {
        T::get_mut(self, position)
    }

    proof fn lemma_written(&self, p: P, v: V, after: &Self) {
        (**self).lemma_written(p, v, &**after);
    }

    proof fn lemma_rewrite(&self, p: P, after: &Self) {
        (**self).lemma_rewrite(p, &**after);
    }
}

} // verus!
