pub mod mmap;

use vstd::prelude::*;

verus! {

/// A fixed-length run of cells, addressed from zero.
///
/// A store describes its cells through `cells` only where `describes_cells` holds; every
/// clause below that speaks of the cells is guarded by it. A store written outside Verus
/// (one that cannot give a spec function) keeps the defaults: it describes nothing, so
/// verified code can make one but not look into it.
pub trait Store<V> where Self: Sized {
    /// Whether `cells` describes this store.
    open spec fn describes_cells() -> bool {
        false
    }

    /// The cells, in order, where `describes_cells` holds; no clause reads it otherwise.
    closed spec fn cells(&self) -> Seq<V> {
        Seq::empty()
    }

    /// Whether `fill` always hands back a store. A store that does not say may fail.
    open spec fn fill_infallible() -> bool {
        false
    }

    /// Makes a store of `size` cells, each a clone of `fill`, or fails with `None`.
    fn fill(size: usize, fill: V) -> (r: Option<Self>) where V: Clone
        ensures
            Self::fill_infallible() ==> r is Some,
            Self::describes_cells() ==> (r matches Some(s) ==> {
                &&& s.cells().len() == size
                &&& forall|i: int| 0 <= i < size ==> cloned(fill, #[trigger] s.cells()[i])
            }),
    ;

    /// The cell at `position`.
    fn get(&mut self, position: usize) -> (r: &V)
        requires
            Self::describes_cells(),
            position < old(self).cells().len(),
        ensures
            *r == old(self).cells()[position as int],
            final(self).cells() == old(self).cells(),
    ;

    /// The cell at `position`, to be written through.
    fn get_mut(&mut self, position: usize) -> (r: &mut V)
        requires
            Self::describes_cells(),
            position < old(self).cells().len(),
        ensures
            *r == old(self).cells()[position as int],
            final(self).cells() == old(self).cells().update(position as int, *final(r)),
    ;
}

impl<V> Store<V> for Vec<V> where V: Clone {
    open spec fn cells(&self) -> Seq<V> {
        self@
    }

    open spec fn describes_cells() -> bool {
        true
    }

    open spec fn fill_infallible() -> bool {
        true
    }

    fn fill(size: usize, fill: V) -> (r: Option<Self>) {
        Some(vec![fill; size])
    }

    fn get(&mut self, position: usize) -> (r: &V) {
        &self[position]
    }

    fn get_mut(&mut self, position: usize) -> (r: &mut V) {
        &mut self[position]
    }
}

} // verus!
