use core::cmp::Ordering;
use core::ops::{Add, Sub};
use vstd::prelude::*;
use vstd::std_specs::cmp::PartialOrdSpec;
use vstd::std_specs::ops::{AddSpec, SubSpec};

verus! {

/// A vector of `N` signed 64-bit coordinates.
#[derive(Debug, Clone, Copy, Eq, Hash)]
pub struct KVec<const N: usize>(pub [i64; N]);

impl<const N: usize> View for KVec<N> {
    type V = Seq<i64>;

    open spec fn view(&self) -> Seq<i64> {
        self.0@
    }
}

/// Every coordinate of `a` is strictly below the same coordinate of `b`.
pub open spec fn all_lt<const N: usize>(a: KVec<N>, b: KVec<N>) -> bool {
    forall|i: int| 0 <= i < N ==> #[trigger] a.0[i] < b.0[i]
}

/// Every coordinate of `a` equals the same coordinate of `b`.
pub open spec fn all_eq<const N: usize>(a: KVec<N>, b: KVec<N>) -> bool {
    forall|i: int| 0 <= i < N ==> #[trigger] a.0[i] == b.0[i]
}

/// Every coordinate of `a` is strictly above the same coordinate of `b`.
pub open spec fn all_gt<const N: usize>(a: KVec<N>, b: KVec<N>) -> bool {
    forall|i: int| 0 <= i < N ==> #[trigger] a.0[i] > b.0[i]
}

/// `a < b` in the order of `KVec`: it is not empty and every coordinate is below.
pub open spec fn kvec_lt<const N: usize>(a: KVec<N>, b: KVec<N>) -> bool {
    N > 0 && all_lt(a, b)
}

/// `a > b` in the order of `KVec`: it is not empty and every coordinate is above.
pub open spec fn kvec_gt<const N: usize>(a: KVec<N>, b: KVec<N>) -> bool {
    N > 0 && all_gt(a, b)
}

/// `a <= b` in the order of `KVec`: all below, or all equal.
pub open spec fn kvec_le<const N: usize>(a: KVec<N>, b: KVec<N>) -> bool {
    kvec_lt(a, b) || all_eq(a, b)
}

/// Coordinate-wise sum, as integers.
pub open spec fn sum_seq<const N: usize>(a: KVec<N>, b: KVec<N>) -> Seq<int> {
    Seq::new(N as nat, |i: int| a.0[i] + b.0[i])
}

/// Coordinate-wise difference, as integers.
pub open spec fn diff_seq<const N: usize>(a: KVec<N>, b: KVec<N>) -> Seq<int> {
    Seq::new(N as nat, |i: int| a.0[i] - b.0[i])
}

/// The coordinates as integers.
pub open spec fn ints<const N: usize>(a: KVec<N>) -> Seq<int> {
    Seq::new(N as nat, |i: int| a.0[i] as int)
}

/// Every entry of `s` fits in an `i64`.
pub open spec fn fits_i64(s: Seq<int>) -> bool {
    forall|i: int| 0 <= i < s.len() ==> i64::MIN <= #[trigger] s[i] <= i64::MAX
}

/// The coordinates of `r` are the first `N` entries of `s`.
pub open spec fn has_coords<const N: usize>(r: KVec<N>, s: Seq<int>) -> bool {
    forall|i: int| 0 <= i < N ==> #[trigger] r.0[i] == s[i]
}

/// The vector whose coordinates are the entries of `s`.
pub open spec fn kvec_of<const N: usize>(s: Seq<int>) -> KVec<N> {
    choose|r: KVec<N>| has_coords(r, s)
}

/// A vector equals `kvec_of(s)` when its coordinates are the entries of `s`.
pub proof fn lemma_kvec_of<const N: usize>(r: KVec<N>, s: Seq<int>)
    requires
        has_coords(r, s),
    ensures
        r == kvec_of::<N>(s),
{
    broadcast use vstd::array::group_array_axioms;

    let c = kvec_of::<N>(s);
    assert(forall|i: int| 0 <= i < N ==> #[trigger] c.0[i] == s[i]);
    assert(r.0 =~= c.0);
}

/// Of two vectors, at most one of "every coordinate below", "every coordinate equal",
/// "every coordinate above" holds, unless there are no coordinates.
pub proof fn lemma_strict_orders_exclusive<const N: usize>(a: KVec<N>, b: KVec<N>)
    requires
        N > 0,
    ensures
        all_gt(a, b) ==> !all_lt(a, b) && !all_eq(a, b),
        all_lt(a, b) ==> !all_gt(a, b) && !all_eq(a, b),
        all_eq(a, b) ==> !all_gt(a, b) && !all_lt(a, b),
{
    assert(a.0[0] < b.0[0] || a.0[0] == b.0[0] || a.0[0] > b.0[0]);
}

/// An array whose first `k` entries are those of `s`, the rest zero.
spec fn array_prefix<const N: usize>(s: Seq<int>, k: nat) -> [i64; N]
    decreases k,
{
    if k == 0 {
        vstd::array::spec_array_fill_for_copy_type::<i64, N>(0)
    } else {
        vstd::array::spec_array_update(array_prefix::<N>(s, (k - 1) as nat), k - 1, s[k - 1] as i64)
    }
}

proof fn lemma_array_prefix<const N: usize>(s: Seq<int>, k: nat)
    requires
        k <= N,
        fits_i64(s),
        s.len() == N,
    ensures
        forall|i: int| 0 <= i < k ==> #[trigger] array_prefix::<N>(s, k)@[i] == s[i],
        array_prefix::<N>(s, k)@.len() == N,
    decreases k,
{
    broadcast use vstd::array::group_array_axioms;

    if k > 0 {
        lemma_array_prefix::<N>(s, (k - 1) as nat);
        assert(i64::MIN <= s[k - 1] <= i64::MAX);
    }
}

/// Every sequence of `N` values that fit in `i64` is the coordinates of a vector.
pub proof fn lemma_kvec_of_coords<const N: usize>(s: Seq<int>)
    requires
        s.len() == N,
        fits_i64(s),
    ensures
        has_coords(kvec_of::<N>(s), s),
{
    broadcast use vstd::array::group_array_axioms;

    lemma_array_prefix::<N>(s, N as nat);
    let w = KVec(array_prefix::<N>(s, N as nat));
    assert(forall|i: int| 0 <= i < N ==> #[trigger] w.0[i] == w.0@[i]);
    assert(has_coords(w, s));
}

/// Subtracting `b` undoes adding it.
pub proof fn lemma_sub_undoes_add<const N: usize>(a: KVec<N>, b: KVec<N>)
    requires
        a.add_req(b),
    ensures
        a.add_spec(b).sub_req(b),
        a.add_spec(b).sub_spec(b) == a,
{
    lemma_kvec_of_coords::<N>(sum_seq(a, b));
    let c = a.add_spec(b);
    assert(fits_i64(diff_seq(c, b))) by {
        assert forall|i: int| 0 <= i < N implies i64::MIN <= #[trigger] diff_seq(c, b)[i] <= i64::MAX by {
            assert(c.0[i] == a.0[i] + b.0[i]);
        }
    }
    assert(has_coords(a, diff_seq(c, b))) by {
        assert forall|i: int| 0 <= i < N implies #[trigger] a.0[i] == diff_seq(c, b)[i] by {
            assert(c.0[i] == a.0[i] + b.0[i]);
        }
    }
    lemma_kvec_of(a, diff_seq(c, b));
}

/// Adding `b` undoes subtracting it.
pub proof fn lemma_add_undoes_sub<const N: usize>(a: KVec<N>, b: KVec<N>)
    requires
        a.sub_req(b),
    ensures
        a.sub_spec(b).add_req(b),
        a.sub_spec(b).add_spec(b) == a,
{
    lemma_kvec_of_coords::<N>(diff_seq(a, b));
    let c = a.sub_spec(b);
    assert(fits_i64(sum_seq(c, b))) by {
        assert forall|i: int| 0 <= i < N implies i64::MIN <= #[trigger] sum_seq(c, b)[i] <= i64::MAX by {
            assert(c.0[i] == a.0[i] - b.0[i]);
        }
    }
    assert(has_coords(a, sum_seq(c, b))) by {
        assert forall|i: int| 0 <= i < N implies #[trigger] a.0[i] == sum_seq(c, b)[i] by {
            assert(c.0[i] == a.0[i] - b.0[i]);
        }
    }
    lemma_kvec_of(a, sum_seq(c, b));
}

/// Addition does not depend on the order of its operands.
pub proof fn lemma_add_commutes<const N: usize>(a: KVec<N>, b: KVec<N>)
    ensures
        a.add_req(b) == b.add_req(a),
        a.add_spec(b) == b.add_spec(a),
{
    assert(sum_seq(a, b) =~= sum_seq(b, a));
}

/// Adding the zero vector changes nothing.
pub proof fn lemma_add_zero<const N: usize>(a: KVec<N>, z: KVec<N>)
    requires
        forall|i: int| 0 <= i < N ==> #[trigger] z.0[i] == 0,
    ensures
        a.add_req(z),
        a.add_spec(z) == a,
{
    assert(has_coords(a, sum_seq(a, z)));
    lemma_kvec_of(a, sum_seq(a, z));
}

/// Every vector compares equal to itself.
pub proof fn lemma_cmp_reflexive<const N: usize>(a: KVec<N>)
    ensures
        a.partial_cmp_spec(&a) == Some(Ordering::Equal),
{
    if N > 0 {
        lemma_strict_orders_exclusive(a, a);
    }
}

/// Two vectors compare equal exactly when they are equal.
pub proof fn lemma_cmp_equal<const N: usize>(a: KVec<N>, b: KVec<N>)
    ensures
        (a.partial_cmp_spec(&b) == Some(Ordering::Equal)) == (a == b),
{
    broadcast use vstd::array::group_array_axioms;

    if N > 0 {
        lemma_strict_orders_exclusive(a, b);
    }
    if all_eq(a, b) {
        assert(a.0 =~= b.0);
    }
}

/// Swapping the operands swaps `Less` and `Greater`.
pub proof fn lemma_cmp_swapped<const N: usize>(a: KVec<N>, b: KVec<N>)
    ensures
        a.partial_cmp_spec(&b) == Some(Ordering::Less) <==> b.partial_cmp_spec(&a) == Some(
            Ordering::Greater,
        ),
        a.partial_cmp_spec(&b) == Some(Ordering::Equal) <==> b.partial_cmp_spec(&a) == Some(
            Ordering::Equal,
        ),
        a.partial_cmp_spec(&b) is None <==> b.partial_cmp_spec(&a) is None,
{
    if N > 0 {
        lemma_strict_orders_exclusive(a, b);
        lemma_strict_orders_exclusive(b, a);
    }
}

/// `<` is transitive.
pub proof fn lemma_lt_transitive<const N: usize>(a: KVec<N>, b: KVec<N>, c: KVec<N>)
    requires
        a.partial_cmp_spec(&b) == Some(Ordering::Less),
        b.partial_cmp_spec(&c) == Some(Ordering::Less),
    ensures
        a.partial_cmp_spec(&c) == Some(Ordering::Less),
{
    lemma_strict_orders_exclusive(a, b);
    lemma_strict_orders_exclusive(b, c);
    lemma_strict_orders_exclusive(a, c);
}

impl<const N: usize> vstd::std_specs::cmp::PartialEqSpecImpl for KVec<N> {
    open spec fn obeys_eq_spec() -> bool {
        true
    }

    open spec fn eq_spec(&self, other: &Self) -> bool {
        *self == *other
    }
}

impl<const N: usize> PartialEq for KVec<N> {
    /// Two vectors are equal when all their coordinates are.
    fn eq(&self, other: &Self) -> (r: bool) {
        broadcast use vstd::array::group_array_axioms;

        for i in 0..N
            invariant
                forall|j: int| 0 <= j < i ==> #[trigger] self.0[j] == other.0[j],
        {
            if self.0[i] != other.0[i] {
                return false;
            }
        }
        assert(self.0 =~= other.0);
        true
    }
}

impl<const N: usize> vstd::std_specs::cmp::PartialOrdSpecImpl for KVec<N> {
    open spec fn obeys_partial_cmp_spec() -> bool {
        true
    }

    open spec fn partial_cmp_spec(&self, other: &Self) -> Option<Ordering> {
        if N == 0 {
            Some(Ordering::Equal)
        } else if all_lt(*self, *other) {
            Some(Ordering::Less)
        } else if all_eq(*self, *other) {
            Some(Ordering::Equal)
        } else if all_gt(*self, *other) {
            Some(Ordering::Greater)
        } else {
            None
        }
    }
}

impl<const N: usize> PartialOrd for KVec<N> {
    /// Compares coordinate by coordinate: the vectors are ordered only where every
    /// coordinate compares the same way as the first.
    fn partial_cmp(&self, other: &Self) -> (r: Option<Ordering>) {
        if N == 0 {
            return Some(Ordering::Equal);
        }
        let first = if self.0[0] < other.0[0] {
            Ordering::Less
        } else if self.0[0] == other.0[0] {
            Ordering::Equal
        } else {
            Ordering::Greater
        };
        for i in 1..N
            invariant
                N > 0,
                first == Ordering::Less ==> forall|j: int|
                    0 <= j < i ==> #[trigger] self.0[j] < other.0[j],
                first == Ordering::Equal ==> forall|j: int|
                    0 <= j < i ==> #[trigger] self.0[j] == other.0[j],
                first == Ordering::Greater ==> forall|j: int|
                    0 <= j < i ==> #[trigger] self.0[j] > other.0[j],
                first == Ordering::Less ==> self.0[0] < other.0[0],
                first == Ordering::Equal ==> self.0[0] == other.0[0],
                first == Ordering::Greater ==> self.0[0] > other.0[0],
        {
            let same = match first {
                Ordering::Less => self.0[i] < other.0[i],
                Ordering::Equal => self.0[i] == other.0[i],
                Ordering::Greater => self.0[i] > other.0[i],
            };
            if !same {
                return None;
            }
        }
        Some(first)
    }
}

impl<const N: usize> vstd::std_specs::ops::AddSpecImpl<KVec<N>> for KVec<N> {
    open spec fn obeys_add_spec() -> bool {
        true
    }

    open spec fn add_req(self, rhs: Self) -> bool {
        fits_i64(sum_seq(self, rhs))
    }

    open spec fn add_spec(self, rhs: Self) -> Self {
        kvec_of(sum_seq(self, rhs))
    }
}

impl<const N: usize> Add<KVec<N>> for KVec<N> {
    type Output = KVec<N>;

    /// Coordinate-wise sum.
    fn add(self, rhs: KVec<N>) -> (r: Self::Output)
        ensures
            has_coords(r, sum_seq(self, rhs)),
    {
        let mut out = self;
        for i in 0..N
            invariant
                fits_i64(sum_seq(self, rhs)),
                forall|j: int| 0 <= j < i ==> #[trigger] out.0[j] == self.0[j] + rhs.0[j],
                forall|j: int| i <= j < N ==> #[trigger] out.0[j] == self.0[j],
        {
            assert(i64::MIN <= sum_seq(self, rhs)[i as int] <= i64::MAX);
            out.0[i] = out.0[i] + rhs.0[i];
        }
        proof {
            lemma_kvec_of(out, sum_seq(self, rhs));
        }
        out
    }
}

impl<const N: usize> vstd::std_specs::ops::SubSpecImpl<KVec<N>> for KVec<N> {
    open spec fn obeys_sub_spec() -> bool {
        true
    }

    open spec fn sub_req(self, rhs: Self) -> bool {
        fits_i64(diff_seq(self, rhs))
    }

    open spec fn sub_spec(self, rhs: Self) -> Self {
        kvec_of(diff_seq(self, rhs))
    }
}

impl<const N: usize> Sub<KVec<N>> for KVec<N> {
    type Output = KVec<N>;

    /// Coordinate-wise difference.
    fn sub(self, rhs: KVec<N>) -> (r: Self::Output)
        ensures
            has_coords(r, diff_seq(self, rhs)),
    {
        let mut out = self;
        for i in 0..N
            invariant
                fits_i64(diff_seq(self, rhs)),
                forall|j: int| 0 <= j < i ==> #[trigger] out.0[j] == self.0[j] - rhs.0[j],
                forall|j: int| i <= j < N ==> #[trigger] out.0[j] == self.0[j],
        {
            assert(i64::MIN <= diff_seq(self, rhs)[i as int] <= i64::MAX);
            out.0[i] = out.0[i] - rhs.0[i];
        }
        proof {
            lemma_kvec_of(out, diff_seq(self, rhs));
        }
        out
    }
}

impl<const N: usize> KVec<N> {
    /// The vector whose coordinates are all zero.
    pub fn zero() -> (r: Self)
        ensures
            forall|i: int| 0 <= i < N ==> #[trigger] r.0[i] == 0,
    {
        broadcast use vstd::array::group_array_axioms;

        KVec([0i64; N])
    }
}

} // verus!

