use core::hash::Hash;
use core::ops::Add;
use vstd::prelude::*;
use vstd::std_specs::cmp::PartialEqSpec;

use crate::tape::{Tape, TapeEntry};
use crate::utils::kvec::KVec;

verus! {

/// `==` on `P` is specified, and is equality.
pub open spec fn eq_is_identity<P: PartialEq>() -> bool {
    &&& P::obeys_eq_spec()
    &&& forall|x: P, y: P| #[trigger] x.eq_spec(&y) <==> x == y
}

/// `==` on vectors is equality.
pub proof fn lemma_kvec_eq_is_identity<const N: usize>()
    ensures
        eq_is_identity::<KVec<N>>(),
{
}

/// Some entry of `s` has the key `k`.
pub open spec fn has_key<P, V>(s: Seq<(P, V)>, k: P) -> bool {
    exists|i: int| 0 <= i < s.len() && #[trigger] s[i].0 == k
}

/// No key occurs twice in `s`.
pub open spec fn keys_unique<P, V>(s: Seq<(P, V)>) -> bool {
    forall|i: int, j: int| 0 <= i < j < s.len() ==> #[trigger] s[i].0 != #[trigger] s[j].0
}

/// The place in `s` of the entry with key `k`.
pub open spec fn key_index<P, V>(s: Seq<(P, V)>, k: P) -> int {
    choose|i: int| 0 <= i < s.len() && #[trigger] s[i].0 == k
}

/// The map from each key of `s` to the value beside it.
pub open spec fn entries_map<P, V>(s: Seq<(P, V)>) -> Map<P, V> {
    Map::new(|k: P| has_key(s, k), |k: P| s[key_index(s, k)].1)
}

proof fn lemma_entry_found<P, V>(s: Seq<(P, V)>, i: int)
    requires
        keys_unique(s),
        0 <= i < s.len(),
    ensures
        entries_map(s).contains_key(s[i].0),
        entries_map(s)[s[i].0] == s[i].1,
{
    let k = s[i].0;
    assert(has_key(s, k));
    let j = key_index(s, k);
    if j != i {
        if j < i {
            assert(s[j].0 != s[i].0);
        } else {
            assert(s[i].0 != s[j].0);
        }
    }
}

proof fn lemma_entry_updated<P, V>(s: Seq<(P, V)>, i: int, w: V)
    requires
        keys_unique(s),
        0 <= i < s.len(),
    ensures
        keys_unique(s.update(i, (s[i].0, w))),
        entries_map(s.update(i, (s[i].0, w))) == entries_map(s).insert(s[i].0, w),
{
    let t = s.update(i, (s[i].0, w));
    assert(keys_unique(t)) by {
        assert forall|a: int, b: int| 0 <= a < b < t.len() implies #[trigger] t[a].0 != #[trigger] t[b].0 by {
            assert(s[a].0 != s[b].0);
        }
    }
    lemma_entry_found(t, i);
    assert forall|k: P| #[trigger] has_key(t, k) == has_key(s, k) by {
        if has_key(s, k) {
            let a = choose|a: int| 0 <= a < s.len() && #[trigger] s[a].0 == k;
            assert(t[a].0 == k);
        }
        if has_key(t, k) {
            let a = choose|a: int| 0 <= a < t.len() && #[trigger] t[a].0 == k;
            assert(s[a].0 == k);
        }
    }
    assert forall|k: P| has_key(t, k) && k != s[i].0 implies #[trigger] entries_map(t)[k]
        == entries_map(s)[k] by {
        let a = choose|a: int| 0 <= a < t.len() && #[trigger] t[a].0 == k;
        assert(a != i);
        lemma_entry_found(t, a);
        lemma_entry_found(s, a);
    }
    assert(entries_map(t) =~= entries_map(s).insert(s[i].0, w));
}

proof fn lemma_entry_pushed<P, V>(s: Seq<(P, V)>, k: P, w: V)
    requires
        keys_unique(s),
        !has_key(s, k),
    ensures
        keys_unique(s.push((k, w))),
        entries_map(s.push((k, w))) == entries_map(s).insert(k, w),
{
    let t = s.push((k, w));
    assert(keys_unique(t)) by {
        assert forall|a: int, b: int| 0 <= a < b < t.len() implies #[trigger] t[a].0 != #[trigger] t[b].0 by {
            if b < s.len() {
                assert(s[a].0 != s[b].0);
            } else {
                assert(s[a].0 == t[a].0);
            }
        }
    }
    lemma_entry_found(t, s.len() as int);
    assert forall|q: P| #[trigger] has_key(t, q) == (has_key(s, q) || q == k) by {
        if has_key(s, q) {
            let a = choose|a: int| 0 <= a < s.len() && #[trigger] s[a].0 == q;
            assert(t[a].0 == q);
        }
        if has_key(t, q) && q != k {
            let a = choose|a: int| 0 <= a < t.len() && #[trigger] t[a].0 == q;
            assert(a < s.len());
            assert(s[a].0 == q);
        }
    }
    assert forall|q: P| has_key(s, q) implies #[trigger] entries_map(t)[q] == entries_map(s)[q] by {
        let a = choose|a: int| 0 <= a < s.len() && #[trigger] s[a].0 == q;
        lemma_entry_found(s, a);
        assert(t[a] == s[a]);
        lemma_entry_found(t, a);
    }
    assert(entries_map(t) =~= entries_map(s).insert(k, w));
}

/// Finds the entry of `store` with key `position`, adding one with value `fill` where
/// there is none, and gives its place.
fn slot<P: PartialEq + Copy, V: Copy>(store: &mut Vec<(P, V)>, position: &P, fill: V) -> (i: usize)
    requires
        eq_is_identity::<P>(),
        keys_unique(old(store)@),
    ensures
        i < final(store)@.len(),
        final(store)@[i as int].0 == *position,
        has_key(old(store)@, *position) ==> final(store)@ == old(store)@,
        !has_key(old(store)@, *position) ==> final(store)@ == old(store)@.push((*position, fill)),
{
    let n = store.len();
    for j in 0..n
        invariant
            n == store@.len(),
            store@ == old(store)@,
            eq_is_identity::<P>(),
            forall|a: int| 0 <= a < j ==> #[trigger] store@[a].0 != *position,
    {
        if store[j].0 == *position {
            return j;
        }
    }
    store.push((*position, fill));
    n
}

/// The value of the entry at place `i` of `store`, to be written through.
fn value_mut<P, V>(store: &mut Vec<(P, V)>, i: usize) -> (c: &mut V)
    requires
        i < old(store)@.len(),
    ensures
        *c == old(store)@[i as int].1,
        final(store)@ == old(store)@.update(i as int, (old(store)@[i as int].0, *final(c))),
{
    &mut store[i].1
}

/// A tape that never misses: where `base` misses, a position gets a cell of its own,
/// which starts as `fill`.
#[verifier::reject_recursive_types(P)]
pub struct TapeExtension<P: Eq + Hash + Copy + Add<P, Output = P>, V: Copy, T: Tape<P, V>> {
    base: T,
    store: Vec<(P, V)>,
    fill: V,
}

impl<P: Eq + Hash + Copy + Add<P, Output = P>, V: Copy, T: Tape<P, V>> TapeExtension<P, V, T> {
    /// The tape extended.
    pub closed spec fn spec_base(&self) -> T {
        self.base
    }

    /// The cells made so far for positions that `base` misses, each beside its position,
    /// in the order they were made.
    pub closed spec fn spec_entries(&self) -> Seq<(P, V)> {
        self.store@
    }

    /// The cells made so far, by position.
    pub open spec fn spec_store(&self) -> Map<P, V> {
        entries_map(self.spec_entries())
    }

    /// The value a new cell starts with.
    pub closed spec fn spec_fill(&self) -> V {
        self.fill
    }

    /// A lookup never misses.
    pub proof fn lemma_never_misses(&self, p: P)
        ensures
            self.read(p) is Some,
    {
    }

    /// Gives the extended tape back, without the cells made for it.
    pub fn base(self) -> (r: T)
        ensures
            r == self.spec_base(),
    {
        self.base
    }
}

impl<P: Eq + Hash + Copy + Add<P, Output = P>, V: Copy, T: Tape<P, V>> Tape<P, V> for TapeExtension<
    P,
    V,
    T,
> {
    open spec fn inv(&self) -> bool {
        &&& self.spec_base().inv()
        &&& eq_is_identity::<P>()
        &&& keys_unique(self.spec_entries())
    }

    open spec fn read(&self, p: P) -> Option<V> {
        match self.spec_base().read(p) {
            Some(v) => Some(v),
            None => Some(
                if self.spec_store().contains_key(p) {
                    self.spec_store()[p]
                } else {
                    self.spec_fill()
                },
            ),
        }
    }

    open spec fn accessible(&self, p: P) -> bool {
        self.spec_base().accessible(p)
    }

    open spec fn written(&self, p: P, v: V, after: &Self) -> bool {
        &&& after.spec_fill() == self.spec_fill()
        &&& if self.spec_base().read(p) is Some {
            &&& self.spec_base().written(p, v, &after.spec_base())
            &&& after.spec_entries() == self.spec_entries()
        } else {
            &&& self.spec_base().inv() ==> after.spec_base().inv()
            &&& forall|q: P| #[trigger] after.spec_base().read(q) == self.spec_base().read(q)
            &&& forall|q: P|
                #[trigger] after.spec_base().accessible(q) == self.spec_base().accessible(q)
            &&& keys_unique(self.spec_entries()) ==> keys_unique(after.spec_entries())
            &&& after.spec_store() == self.spec_store().insert(p, v)
        }
    }

    fn get(&mut self, position: &P) -> (r: TapeEntry<&V>) {
        match self.base.get(position) {
            TapeEntry::Hit(entry) => return TapeEntry::Hit(entry),
            TapeEntry::Miss => {},
        }
        let ghost before = self.store@;
        let i = slot(&mut self.store, position, self.fill);
        proof {
            if has_key(before, *position) {
                lemma_entry_found(before, i as int);
                assert(entries_map(before).insert(*position, before[i as int].1) =~= entries_map(
                    before,
                ));
            } else {
                lemma_entry_pushed(before, *position, self.fill);
            }
        }
        TapeEntry::Hit(&self.store[i].1)
    }

    fn get_mut(&mut self, position: &P) -> (r: TapeEntry<&mut V>) {
        match self.base.get_mut(position) {
            TapeEntry::Hit(entry) => return TapeEntry::Hit(entry),
            TapeEntry::Miss => {},
        }
        let ghost before = self.store@;
        let i = slot(&mut self.store, position, self.fill);
        proof {
            if has_key(before, *position) {
                lemma_entry_found(before, i as int);
            } else {
                lemma_entry_pushed(before, *position, self.fill);
                lemma_entry_found(self.store@, i as int);
            }
        }
        let ghost cur = self.store@;
        let cell = value_mut(&mut self.store, i);
        proof {
            let w = *final(cell);
            lemma_entry_updated(cur, i as int, w);
            assert(entries_map(before).insert(*position, self.fill).insert(*position, w)
                =~= entries_map(before).insert(*position, w));
        }
        TapeEntry::Hit(cell)
    }

    proof fn lemma_written(&self, p: P, v: V, after: &Self) {
        if self.spec_base().read(p) is Some {
            self.spec_base().lemma_written(p, v, &after.spec_base());
        }
    }

    proof fn lemma_rewrite(&self, p: P, after: &Self) {
        if self.spec_base().read(p) is Some {
            self.spec_base().lemma_rewrite(p, &after.spec_base());
        } else {
            assert forall|q: P| #[trigger] after.read(q) == self.read(q) by {
                if q != p {
                    assert(after.spec_store().contains_key(q) == self.spec_store().contains_key(q));
                }
            }
        }
    }
}

/// Extends `base` so that positions it misses get cells starting as `fill`.
pub fn extend_tape<P: Eq + Hash + Copy + Add<P, Output = P>, V: Copy, T: Tape<P, V>>(
    base: T,
    fill: V,
) -> (r: TapeExtension<P, V, T>)
    ensures
        r.spec_base() == base,
        r.spec_entries() == Seq::<(P, V)>::empty(),
        r.spec_store() == Map::<P, V>::empty(),
        r.spec_fill() == fill,
        base.inv() && eq_is_identity::<P>() ==> r.inv(),
        forall|p: P|
            #[trigger] r.read(p) == match base.read(p) {
                Some(v) => Some(v),
                None => Some(fill),
            },
{
    let r = TapeExtension { base, store: Vec::new(), fill };
    assert(r.spec_store() =~= Map::<P, V>::empty());
    r
}

} // verus!
