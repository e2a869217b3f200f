use core::marker::PhantomData;
use vstd::prelude::*;

use crate::store::Store;
use crate::tape::{Tape, TapeEntry};
use crate::utils::kvec::{
    all_eq, all_lt, diff_seq, fits_i64, ints, kvec_gt, kvec_le, kvec_lt, kvec_of,
    lemma_kvec_of_coords, lemma_strict_orders_exclusive, sum_seq, KVec,
};

verus! {

/// The index that coordinates `c[k..]` have in a block of extents `s[k..]`, the coordinate
/// at `k` varying fastest.
pub open spec fn linear_index(c: Seq<int>, s: Seq<int>, k: int) -> int
    decreases c.len() - k,
{
    if k >= c.len() {
        0
    } else {
        linear_index(c, s, k + 1) * s[k] + c[k]
    }
}

/// The number of cells in a block of extents `s[k..]`.
pub open spec fn volume(s: Seq<int>, k: int) -> int
    decreases s.len() - k,
{
    if k >= s.len() {
        1
    } else {
        s[k] * volume(s, k + 1)
    }
}

/// Each step of computing `linear_index(c, s, 0)` from the last coordinate down stays
/// within `i64`.
pub open spec fn index_steps_fit(c: Seq<int>, s: Seq<int>) -> bool {
    forall|j: int|
        0 <= j < c.len() ==> {
            &&& i64::MIN <= #[trigger] linear_index(c, s, j + 1) * s[j] <= i64::MAX
            &&& i64::MIN <= linear_index(c, s, j) <= i64::MAX
        }
}

/// `0 <= c[i] < s[i]` for every `i` from `k` on.
pub open spec fn within(c: Seq<int>, s: Seq<int>, k: int) -> bool {
    forall|i: int| k <= i < c.len() ==> 0 <= #[trigger] c[i] < s[i]
}

/// Every extent from `k` on is at least one.
pub open spec fn extents_positive(s: Seq<int>, k: int) -> bool {
    forall|i: int| k <= i < s.len() ==> 1 <= #[trigger] s[i]
}

proof fn lemma_volume_positive(s: Seq<int>, k: int)
    requires
        0 <= k,
        extents_positive(s, k),
    ensures
        1 <= volume(s, k),
    decreases s.len() - k,
{
    if k < s.len() {
        lemma_volume_positive(s, k + 1);
        let a = s[k];
        let b = volume(s, k + 1);
        assert(a * b >= 1) by (nonlinear_arith)
            requires
                a >= 1,
                b >= 1,
        ;
    }
}

proof fn lemma_volume_bounds(s: Seq<int>, j: int, k: int)
    requires
        0 <= j <= k,
        extents_positive(s, j),
    ensures
        1 <= volume(s, k) <= volume(s, j),
    decreases k - j,
{
    if j < k {
        lemma_volume_bounds(s, j + 1, k);
        if j < s.len() {
            lemma_volume_positive(s, j + 1);
            let a = s[j];
            let b = volume(s, j + 1);
            assert(a * b >= b) by (nonlinear_arith)
                requires
                    a >= 1,
                    b >= 1,
            ;
        }
    } else {
        lemma_volume_positive(s, k);
    }
}

proof fn lemma_index_bounds(c: Seq<int>, s: Seq<int>, k: int)
    requires
        0 <= k,
        c.len() == s.len(),
        within(c, s, k),
    ensures
        0 <= linear_index(c, s, k) < volume(s, k),
        forall|j: int|
            k <= j < c.len() ==> 0 <= #[trigger] linear_index(c, s, j + 1) * s[j] <= linear_index(
                c,
                s,
                j,
            ) < volume(s, j),
    decreases c.len() - k,
{
    if k < c.len() {
        lemma_index_bounds(c, s, k + 1);
        let l = linear_index(c, s, k + 1);
        let v = volume(s, k + 1);
        let e = s[k];
        let x = c[k];
        assert(0 <= l * e <= l * e + x < v * e) by (nonlinear_arith)
            requires
                0 <= l < v,
                0 <= x < e,
        ;
        assert(v * e == e * v) by (nonlinear_arith);
    }
}

proof fn lemma_index_injective(c1: Seq<int>, c2: Seq<int>, s: Seq<int>, k: int)
    requires
        0 <= k,
        c1.len() == s.len(),
        c2.len() == s.len(),
        within(c1, s, k),
        within(c2, s, k),
        linear_index(c1, s, k) == linear_index(c2, s, k),
    ensures
        forall|i: int| k <= i < s.len() ==> #[trigger] c1[i] == c2[i],
    decreases s.len() - k,
{
    if k < s.len() {
        let x = linear_index(c1, s, k);
        vstd::arithmetic::div_mod::lemma_fundamental_div_mod_converse(
            x,
            s[k],
            linear_index(c1, s, k + 1),
            c1[k],
        );
        vstd::arithmetic::div_mod::lemma_fundamental_div_mod_converse(
            x,
            s[k],
            linear_index(c2, s, k + 1),
            c2[k],
        );
        lemma_index_injective(c1, c2, s, k + 1);
    }
}

/// `x` divided by the extents before `k`, rounding down.
pub open spec fn quotient(x: int, s: Seq<int>, k: int) -> int
    decreases k,
{
    if k <= 0 {
        x
    } else {
        quotient(x, s, k - 1) / s[k - 1]
    }
}

/// The coordinates whose linear index, in a block of extents `s`, is `x`.
pub open spec fn coordinates(x: int, s: Seq<int>) -> Seq<int> {
    Seq::new(s.len(), |i: int| quotient(x, s, i) % s[i])
}

proof fn lemma_coordinates(x: int, s: Seq<int>, k: int)
    requires
        0 <= k <= s.len(),
        extents_positive(s, 0),
        0 <= quotient(x, s, k) < volume(s, k),
    ensures
        linear_index(coordinates(x, s), s, k) == quotient(x, s, k),
        within(coordinates(x, s), s, k),
    decreases s.len() - k,
{
    let c = coordinates(x, s);
    if k < s.len() {
        let q = quotient(x, s, k);
        let d = s[k];
        let v = volume(s, k + 1);
        assert(1 <= d);
        vstd::arithmetic::div_mod::lemma_fundamental_div_mod(q, d);
        vstd::arithmetic::div_mod::lemma_mod_bound(q, d);
        vstd::arithmetic::div_mod::lemma_div_pos_is_pos(q, d);
        let qd = q / d;
        let r = q % d;
        assert(qd < v) by (nonlinear_arith)
            requires
                q == d * qd + r,
                0 <= r,
                q < d * v,
                d >= 1,
        ;
        assert(quotient(x, s, k + 1) == qd);
        lemma_coordinates(x, s, k + 1);
        assert(c[k] == r);
        assert(qd * d == d * qd) by (nonlinear_arith);
    }
}

/// A box of cells between two corners, `lower` and `upper`, both inclusive, stored in `S`
/// with the first coordinate varying fastest.
pub struct Grid<const N: usize, V, S: Store<V>> {
    upper: KVec<N>,
    lower: KVec<N>,
    size: KVec<N>,
    data: S,
    _p: PhantomData<V>,
}

/// The extents of the box from `lower` to `upper`: `upper - lower + 1` in each coordinate.
pub open spec fn extents<const N: usize>(lower: KVec<N>, upper: KVec<N>) -> Seq<int> {
    Seq::new(N as nat, |i: int| upper.0[i] - lower.0[i] + 1)
}

/// The box from `lower` to `upper` can be counted in `i64` and in `usize`.
pub open spec fn box_fits<const N: usize>(lower: KVec<N>, upper: KVec<N>) -> bool {
    &&& fits_i64(extents(lower, upper))
    &&& volume(extents(lower, upper), 0) <= i64::MAX
    &&& volume(extents(lower, upper), 0) <= usize::MAX
}

impl<const N: usize, V, S: Store<V>> Grid<N, V, S> {
    /// The lower corner.
    pub closed spec fn spec_lower(&self) -> KVec<N> {
        self.lower
    }

    /// The upper corner.
    pub closed spec fn spec_upper(&self) -> KVec<N> {
        self.upper
    }

    /// The extents.
    pub closed spec fn spec_size(&self) -> KVec<N> {
        self.size
    }

    /// The cells, in storage order.
    pub closed spec fn cells(&self) -> Seq<V> {
        self.data.cells()
    }

    /// `p` lies in the box, corners included.
    pub open spec fn in_box(&self, p: KVec<N>) -> bool {
        forall|i: int| 0 <= i < N ==> #[trigger] self.spec_lower().0[i] <= p.0[i] <= self.spec_upper().0[i]
    }

    /// A lookup at `p` misses: `p` is below the lower corner in every coordinate, or above
    /// the upper one in every coordinate.
    pub open spec fn misses(&self, p: KVec<N>) -> bool {
        kvec_gt(self.spec_lower(), p) || kvec_lt(self.spec_upper(), p)
    }

    /// The offset of `p` from the lower corner.
    pub open spec fn offset(&self, p: KVec<N>) -> Seq<int> {
        diff_seq(p, self.spec_lower())
    }

    /// The index of the cell that `p` finds, computed in integers.
    pub open spec fn cell_index(&self, p: KVec<N>) -> int {
        linear_index(self.offset(p), ints(self.spec_size()), 0)
    }

    /// The structure of the grid: the extents match the corners, and the store holds
    /// one cell for each position of the box.
    pub open spec fn wf(&self) -> bool {
        &&& forall|i: int|
            0 <= i < N ==> #[trigger] self.spec_lower().0[i] <= self.spec_upper().0[i]
        &&& ints(self.spec_size()) == extents(self.spec_lower(), self.spec_upper())
        &&& self.cells().len() == volume(ints(self.spec_size()), 0)
        &&& self.cells().len() <= i64::MAX
        &&& self.cells().len() <= usize::MAX
        &&& S::describes_cells()
    }

    /// Every position of the box has a cell: it does not miss, it can be looked up, and
    /// its cell index is within the store.
    pub proof fn lemma_in_box(&self, p: KVec<N>)
        requires
            self.wf(),
            self.in_box(p),
        ensures
            !self.misses(p),
            fits_i64(self.offset(p)),
            index_steps_fit(self.offset(p), ints(self.spec_size())),
            0 <= self.cell_index(p) < self.cells().len(),
    {
        let s = ints(self.spec_size());
        let c = self.offset(p);
        if N > 0 {
            assert(self.spec_lower().0[0] <= p.0[0] <= self.spec_upper().0[0]);
        }
        assert(within(c, s, 0)) by {
            assert forall|i: int| 0 <= i < c.len() implies 0 <= #[trigger] c[i] < s[i] by {
                assert(self.spec_lower().0[i] <= p.0[i] <= self.spec_upper().0[i]);
            }
        }
        assert(extents_positive(s, 0)) by {
            assert forall|i: int| 0 <= i < s.len() implies 1 <= #[trigger] s[i] by {
                assert(self.spec_lower().0[i] <= self.spec_upper().0[i]);
            }
        }
        assert(fits_i64(c)) by {
            assert forall|i: int| 0 <= i < c.len() implies i64::MIN <= #[trigger] c[i] <= i64::MAX by {
                assert(self.spec_lower().0[i] <= p.0[i] <= self.spec_upper().0[i]);
                assert(s[i] == self.spec_size().0[i]);
            }
        }
        lemma_index_bounds(c, s, 0);
        assert forall|j: int| 0 <= j < c.len() implies {
            &&& i64::MIN <= #[trigger] linear_index(c, s, j + 1) * s[j] <= i64::MAX
            &&& i64::MIN <= linear_index(c, s, j) <= i64::MAX
        } by {
            lemma_volume_bounds(s, 0, j);
        }
    }

    /// Every cell of the store is the cell of some position of the box.
    pub proof fn lemma_every_cell_has_position(&self, i: int)
        requires
            self.wf(),
            0 <= i < self.cells().len(),
        ensures
            exists|p: KVec<N>| #[trigger] self.in_box(p) && self.cell_index(p) == i,
    {
        let s = ints(self.spec_size());
        assert(extents_positive(s, 0)) by {
            assert forall|j: int| 0 <= j < s.len() implies 1 <= #[trigger] s[j] by {
                assert(self.spec_lower().0[j] <= self.spec_upper().0[j]);
            }
        }
        lemma_coordinates(i, s, 0);
        let c = coordinates(i, s);
        let pts = Seq::new(N as nat, |j: int| self.spec_lower().0[j] + c[j]);
        assert(fits_i64(pts)) by {
            assert forall|j: int| 0 <= j < N implies i64::MIN <= #[trigger] pts[j] <= i64::MAX by {
                assert(0 <= c[j] < s[j]);
                assert(s[j] == self.spec_upper().0[j] - self.spec_lower().0[j] + 1);
            }
        }
        lemma_kvec_of_coords::<N>(pts);
        let p = kvec_of::<N>(pts);
        assert(self.offset(p) =~= c);
        assert(self.in_box(p)) by {
            assert forall|j: int| 0 <= j < N implies #[trigger] self.spec_lower().0[j] <= p.0[j]
                <= self.spec_upper().0[j] by {
                assert(0 <= c[j] < s[j]);
                assert(s[j] == self.spec_upper().0[j] - self.spec_lower().0[j] + 1);
            }
        }
        assert(self.cell_index(p) == i);
    }

    /// Two positions of the box that find the same cell are the same position.
    pub proof fn lemma_cells_distinct(&self, p: KVec<N>, q: KVec<N>)
        requires
            self.wf(),
            self.in_box(p),
            self.in_box(q),
            self.cell_index(p) == self.cell_index(q),
        ensures
            p == q,
    {
        broadcast use vstd::array::group_array_axioms;

        let s = ints(self.spec_size());
        let cp = self.offset(p);
        let cq = self.offset(q);
        assert forall|i: int| 0 <= i < N implies 0 <= #[trigger] cp[i] < s[i] && 0 <= cq[i] < s[i] by {
            assert(self.spec_lower().0[i] <= p.0[i] <= self.spec_upper().0[i]);
            assert(self.spec_lower().0[i] <= q.0[i] <= self.spec_upper().0[i]);
        }
        lemma_index_injective(cp, cq, s, 0);
        assert forall|i: int| 0 <= i < N implies #[trigger] p.0[i] == q.0[i] by {
            assert(cp[i] == cq[i]);
        }
        assert(p.0 =~= q.0);
    }
}

impl<const N: usize, V: Copy, S: Store<V>> Grid<N, V, S> {
    /// The index of the cell at offset `coord` from the lower corner.
    fn linear(&self, coord: &KVec<N>) -> (r: i64)
        requires
            index_steps_fit(ints(*coord), ints(self.spec_size())),
        ensures
            r == linear_index(ints(*coord), ints(self.spec_size()), 0),
    {
        let ghost c = ints(*coord);
        let ghost s = ints(self.size);
        let mut index: i64 = 0;
        let mut i: usize = N;
        while i > 0
            invariant
                i <= N,
                c == ints(*coord),
                s == ints(self.size),
                index_steps_fit(c, s),
                index == linear_index(c, s, i as int),
            decreases i,
        {
            i = i - 1;
            assert(i64::MIN <= linear_index(c, s, i + 1) * s[i as int] <= i64::MAX);
            assert(i64::MIN <= linear_index(c, s, i as int) <= i64::MAX);
            index = index * self.size.0[i];
            index = index + coord.0[i];
        }
        index
    }
}

impl<const N: usize, V: Copy, S: Store<V>> Grid<N, V, S> {
    /// Makes the box from `lower` to `upper` with every cell a copy of `fill`, or `None`
    /// where the store cannot be made.
    pub fn try_fill(lower: KVec<N>, upper: KVec<N>, fill: V) -> (r: Option<Self>)
        requires
            kvec_le(lower, upper),
            box_fits(lower, upper),
        ensures
            S::fill_infallible() ==> r is Some,
            r matches Some(g) ==> {
                &&& g.spec_lower() == lower
                &&& g.spec_upper() == upper
                &&& ints(g.spec_size()) == extents(lower, upper)
            },
            S::describes_cells() ==> (r matches Some(g) ==> {
                &&& g.wf()
                &&& forall|i: int| 0 <= i < g.cells().len() ==> cloned(fill, #[trigger] g.cells()[i])
            }),
    {
        broadcast use vstd::array::group_array_axioms;

        let ghost e = extents(lower, upper);
        assert forall|i: int| 0 <= i < N implies #[trigger] lower.0[i] <= upper.0[i] by {
            if N > 0 && !all_eq(lower, upper) {
                assert(all_lt(lower, upper));
            }
        }
        assert(fits_i64(diff_seq(upper, lower))) by {
            assert forall|i: int| 0 <= i < N implies i64::MIN <= #[trigger] diff_seq(upper, lower)[i] <= i64::MAX by {
                assert(i64::MIN <= e[i] <= i64::MAX);
            }
        }
        let span = upper - lower;
        let ones = KVec([1i64; N]);
        assert(fits_i64(sum_seq(span, ones))) by {
            assert forall|i: int| 0 <= i < N implies i64::MIN <= #[trigger] sum_seq(span, ones)[i] <= i64::MAX by {
                assert(i64::MIN <= e[i] <= i64::MAX);
            }
        }
        let size = span + ones;
        let ghost s = ints(size);
        assert(s =~= e);
        assert(extents_positive(s, 0)) by {
            assert forall|i: int| 0 <= i < s.len() implies 1 <= #[trigger] s[i] by {
                assert(lower.0[i] <= upper.0[i]);
            }
        }
        let mut measure: i64 = 1;
        let mut i: usize = N;
        while i > 0
            invariant
                i <= N,
                s == ints(size),
                s == e,
                extents_positive(s, 0),
                volume(s, 0) <= i64::MAX,
                volume(s, 0) <= usize::MAX,
                measure == volume(s, i as int),
            decreases i,
        {
            i = i - 1;
            proof {
                lemma_volume_bounds(s, 0, i as int);
                let a = volume(s, i + 1);
                let b = s[i as int];
                assert(a * b == b * a) by (nonlinear_arith);
            }
            measure = measure * size.0[i];
        }
        proof {
            lemma_volume_bounds(s, 0, 0);
        }
        match S::fill(measure as usize, fill) {
            Some(data) => Some(Grid { lower, upper, size, data, _p: PhantomData }),
            None => None,
        }
    }

    /// Makes the box from `lower` to `upper` with every cell a copy of `fill`.
    pub fn fill(lower: KVec<N>, upper: KVec<N>, fill: V) -> (r: Self)
        requires
            kvec_le(lower, upper),
            box_fits(lower, upper),
            S::fill_infallible(),
        ensures
            r.spec_lower() == lower,
            r.spec_upper() == upper,
            ints(r.spec_size()) == extents(lower, upper),
            S::describes_cells() ==> r.wf(),
            S::describes_cells() ==> forall|i: int|
                0 <= i < r.cells().len() ==> cloned(fill, #[trigger] r.cells()[i]),
            S::describes_cells() ==> forall|p: KVec<N>| #[trigger]
                r.in_box(p) ==> (r.read(p) matches Some(v) && cloned(fill, v)),
    {
        let r = Self::try_fill(lower, upper, fill).unwrap();
        proof {
            if S::describes_cells() {
                assert forall|p: KVec<N>| #[trigger] r.in_box(p) implies (r.read(p) matches Some(
                    v,
                ) && cloned(fill, v)) by {
                    r.lemma_in_box(p);
                }
            }
        }
        r
    }

    /// The extents: `upper - lower + 1` in each coordinate.
    pub fn size(&self) -> (r: KVec<N>)
        ensures
            r == self.spec_size(),
    {
        self.size
    }

    /// The lower corner.
    pub fn lower(&self) -> (r: KVec<N>)
        ensures
            r == self.spec_lower(),
    {
        self.lower
    }

    /// The upper corner.
    pub fn upper(&self) -> (r: KVec<N>)
        ensures
            r == self.spec_upper(),
    {
        self.upper
    }

    /// A write at a position of the box is read back there, and leaves every other
    /// position of the box as it was.
    pub proof fn lemma_write_in_box(&self, p: KVec<N>, q: KVec<N>, v: V, after: &Self)
        requires
            self.wf(),
            self.in_box(p),
            self.in_box(q),
            self.written(p, v, after),
        ensures
            after.wf(),
            after.read(p) == Some(v),
            q != p ==> after.read(q) == self.read(q),
    {
        self.lemma_in_box(p);
        self.lemma_in_box(q);
        if q != p {
            if self.cell_index(p) == self.cell_index(q) {
                self.lemma_cells_distinct(p, q);
            }
        }
    }
}

impl<const N: usize, V: Copy, S: Store<V>> Tape<KVec<N>, V> for Grid<N, V, S> {
    open spec fn inv(&self) -> bool {
        self.wf()
    }

    open spec fn read(&self, p: KVec<N>) -> Option<V> {
        if self.misses(p) {
            None
        } else {
            Some(self.cells()[self.cell_index(p)])
        }
    }

    open spec fn accessible(&self, p: KVec<N>) -> bool {
        ||| self.misses(p)
        ||| {
            &&& fits_i64(self.offset(p))
            &&& index_steps_fit(self.offset(p), ints(self.spec_size()))
            &&& 0 <= self.cell_index(p) < self.cells().len()
        }
    }

    open spec fn written(&self, p: KVec<N>, v: V, after: &Self) -> bool {
        &&& after.spec_lower() == self.spec_lower()
        &&& after.spec_upper() == self.spec_upper()
        &&& after.spec_size() == self.spec_size()
        &&& after.cells() == self.cells().update(self.cell_index(p), v)
    }

    fn get(&mut self, position: &KVec<N>) -> (r: TapeEntry<&V>)
        ensures
            final(self).spec_lower() == old(self).spec_lower(),
            final(self).spec_upper() == old(self).spec_upper(),
            final(self).spec_size() == old(self).spec_size(),
            r is Miss ==> *final(self) == *old(self),
    {
        if N > 0 {
            proof {
                lemma_strict_orders_exclusive(self.lower, *position);
            }
        }
        if self.lower > *position {
            return TapeEntry::Miss;
        }
        if self.upper < *position {
            return TapeEntry::Miss;
        }
        let coord = *position - self.lower;
        proof {
            assert(ints(coord) =~= self.offset(*position));
        }
        let index = self.linear(&coord);
        proof {
            let cells = self.data.cells();
            assert(cells.update(index as int, cells[index as int]) =~= cells);
        }
        TapeEntry::Hit(self.data.get(index as usize))
    }

    fn get_mut(&mut self, position: &KVec<N>) -> (r: TapeEntry<&mut V>)
        ensures
            final(self).spec_lower() == old(self).spec_lower(),
            final(self).spec_upper() == old(self).spec_upper(),
            final(self).spec_size() == old(self).spec_size(),
            r is Miss ==> *final(self) == *old(self),
    {
        if N > 0 {
            proof {
                lemma_strict_orders_exclusive(self.lower, *position);
            }
        }
        if self.lower > *position {
            return TapeEntry::Miss;
        }
        if self.upper < *position {
            return TapeEntry::Miss;
        }
        let coord = *position - self.lower;
        proof {
            assert(ints(coord) =~= self.offset(*position));
        }
        let index = self.linear(&coord);
        TapeEntry::Hit(self.data.get_mut(index as usize))
    }

    proof fn lemma_written(&self, p: KVec<N>, v: V, after: &Self) {
    }

    proof fn lemma_rewrite(&self, p: KVec<N>, after: &Self) {
        assert(after.cells() =~= self.cells());
    }
}

} // verus!
