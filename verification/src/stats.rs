//! Order statistics over the results of many trials.

use vstd::prelude::*;

verus! {

/// A quantile, as the fraction `numer / denom` between zero and one.
#[derive(Clone, Copy, Debug, PartialEq, Eq)]
pub struct Quantile {
    pub numer: usize,
    pub denom: usize,
}

impl Quantile {
    /// The fraction has a denominator and lies between zero and one.
    pub open spec fn valid(self) -> bool {
        0 < self.denom && self.numer <= self.denom
    }

    /// The nearest rank of the quantile among `n` values, counted from
    /// zero: the quantile times `n - 1`, rounded down.
    pub open spec fn rank(self, n: nat) -> nat {
        (self.numer * (n - 1) / (self.denom as int)) as nat
    }

    /// The quantile `numer / denom`, where that is a fraction between zero
    /// and one.
    pub fn new(numer: usize, denom: usize) -> (made: Option<Quantile>)
        ensures
            made matches Some(q) ==> q.numer == numer && q.denom == denom && q.valid(),
            made is Some <==> 0 < denom && numer <= denom,
    {
        if 0 < denom && numer <= denom {
            Some(Quantile { numer, denom })
        } else {
            None
        }
    }

    /// The nearest rank of the quantile among `n` values.
    pub fn nearest_rank(&self, n: usize) -> (rank: usize)
        requires
            self.valid(),
            n >= 1,
        ensures
            rank == self.rank(n as nat),
            rank < n,
    {
        let numer: u128 = self.numer as u128;
        let denom: u128 = self.denom as u128;
        let last: u128 = (n - 1) as u128;
        assert(numer * last <= denom * last && denom * last <= 0xffff_ffff_ffff_ffff
            * 0xffff_ffff_ffff_ffff) by (nonlinear_arith)
            requires
                numer <= denom,
                denom <= 0xffff_ffff_ffff_ffff,
                last <= 0xffff_ffff_ffff_ffff,
        ;
        let scaled: u128 = numer * last;
        assert(scaled / denom <= last) by (nonlinear_arith)
            requires
                scaled <= denom * last,
                denom > 0,
        ;
        (scaled / denom) as usize
    }
}

/// The quantile zero has the first rank and the quantile one the last.
pub proof fn lemma_rank_ends(q: Quantile, n: nat)
    requires
        q.valid(),
        n >= 1,
    ensures
        q.rank(n) <= n - 1,
        q.numer == 0 ==> q.rank(n) == 0,
        q.numer == q.denom ==> q.rank(n) == n - 1,
{
    let d = q.denom as int;
    let m = q.numer as int;
    let last = n - 1;
    assert(m * last <= d * last) by (nonlinear_arith)
        requires
            m <= d,
            0 <= last,
    ;
    assert((m * last) / d <= last) by (nonlinear_arith)
        requires
            m * last <= d * last,
            d > 0,
    ;
    if m == 0 {
        assert(m * last == 0) by (nonlinear_arith)
            requires
                m == 0,
        ;
    }
    if m == d {
        assert((d * last) / d == last) by (nonlinear_arith)
            requires
                d > 0,
        ;
    }
    assert(0 <= m * last) by (nonlinear_arith)
        requires
            0 <= m,
            0 <= last,
    ;
    assert(0 <= (m * last) / d) by (nonlinear_arith)
        requires
            0 <= m * last,
            d > 0,
    ;
}

/// The values stand in ascending order.
pub open spec fn ascending(values: Seq<usize>) -> bool {
    forall|i: int, j: int| 0 <= i <= j < values.len() ==> values[i] <= values[j]
}

/// Sorts the values in place.
///
/// Calls `sort_unstable` of the standard library's slices. The contract
/// claims what its documentation says of integers: afterwards the slice is
/// in ascending order, and it holds the values it held, each as often as
/// before.
#[verifier::external_body]
fn sort_values(values: &mut Vec<usize>)
    ensures
        ascending(final(values)@),
        final(values)@.to_multiset() == old(values)@.to_multiset(),
{
    values.sort_unstable();
}

/// Sorts `a` and picks, for each quantile of `q`, the value at its nearest
/// rank. No value is interpolated.
pub fn quantiles(a: &mut Vec<usize>, q: &Vec<Quantile>) -> (picked: Vec<(Quantile, usize)>)
    requires
        old(a)@.len() >= 1,
        forall|k: int| 0 <= k < q@.len() ==> (#[trigger] q@[k]).valid(),
    ensures
        ascending(final(a)@),
        final(a)@.to_multiset() == old(a)@.to_multiset(),
        final(a)@.len() == old(a)@.len(),
        picked@.len() == q@.len(),
        forall|k: int|
            0 <= k < q@.len() ==> #[trigger] picked@[k] == (
                q@[k],
                final(a)@[q@[k].rank(old(a)@.len()) as int],
            ),
{
    let ghost before = a@;
    sort_values(a);
    proof {
        before.to_multiset_ensures();
        a@.to_multiset_ensures();
    }
    let n: usize = a.len();
    let mut picked: Vec<(Quantile, usize)> = Vec::new();
    let mut k: usize = 0;
    while k < q.len()
        invariant
            k <= q.len(),
            n == a@.len(),
            n >= 1,
            picked@.len() == k,
            forall|j: int| 0 <= j < q@.len() ==> (#[trigger] q@[j]).valid(),
            forall|j: int| 0 <= j < k ==> #[trigger] picked@[j] == (q@[j], a@[q@[j].rank(n as nat) as int]),
        decreases q.len() - k,
    {
        let qq: Quantile = q[k];
        let i: usize = qq.nearest_rank(n);
        picked.push((qq, a[i]));
        k += 1;
    }
    picked
}

} // verus!
