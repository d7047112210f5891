//! The arena of assets: amounts addressed by the position at which they were
//! loaded.
//!
//! Positions are handed out in rising order from zero and never reused: an
//! asset leaves the pool only when the whole pool is unloaded.

use crate::amount::Amount;
use crate::sorting::{ordered, rank, sort, Ranked};
use vstd::prelude::*;
use vstd::relations::sorted_by;

verus! {

/// The value that one asset had at some moment, with the asset's index.
#[derive(Clone, Copy, Debug, PartialEq, Eq, Structural)]
pub struct AssetCapture {
    pub value: Amount,
    pub idx: usize,
}

impl Ranked for AssetCapture {
    /// By index; captures of one index by mantissa, then by scale.
    open spec fn leq(a: Self, b: Self) -> bool {
        ||| a.idx < b.idx
        ||| a.idx == b.idx && a.value.spec_mantissa() < b.value.spec_mantissa()
        ||| a.idx == b.idx && a.value.spec_mantissa() == b.value.spec_mantissa()
            && a.value.spec_scale() <= b.value.spec_scale()
    }

    fn no_later(&self, other: &Self) -> (r: bool) {
        if self.idx != other.idx {
            self.idx < other.idx
        } else if self.value.mantissa() != other.value.mantissa() {
            self.value.mantissa() < other.value.mantissa()
        } else {
            self.value.scale() <= other.value.scale()
        }
    }

    proof fn lemma_total_order() {
        assert forall|a: Self, b: Self| #[trigger] Self::leq(a, b) && Self::leq(b, a) implies a
            == b by {
            Amount::lemma_equal_by_parts(a.value, b.value);
        }
    }
}

/// One amount of the ledger.
pub struct Asset {
    value: Amount,
}

impl View for Asset {
    type V = Amount;

    closed spec fn view(&self) -> Amount {
        self.value
    }
}

impl Asset {
    pub fn new(value: Amount) -> (r: Asset)
        ensures
            r@ == value,
    {
        Asset { value }
    }

    pub fn get(&self) -> (r: Amount)
        ensures
            r == self@,
    {
        self.value
    }

    /// Sets the asset to `amount`. To add to it, hand in the sum:
    /// `asset.get().checked_add(delta)`.
    pub fn mutate(&mut self, amount: Amount)
        ensures
            final(self)@ == amount,
    {
        self.value = amount;
    }
}

/// The captures of `values`, one for each position, in rising order.
pub open spec fn captures_of(values: Seq<Amount>) -> Seq<AssetCapture> {
    Seq::new(values.len(), |i: int| AssetCapture { value: values[i], idx: i as usize })
}

/// The values that `captures` hold, position by position.
pub open spec fn values_of(captures: Seq<AssetCapture>) -> Seq<Amount> {
    Seq::new(captures.len(), |i: int| captures[i].value)
}

/// The sum of the assets at `idxs`, added from left to right starting at zero.
/// An index at which the pool holds nothing adds nothing. `None` where a sum
/// on the way leaves the decimal range.
pub open spec fn group_total(values: Seq<Amount>, idxs: Seq<usize>) -> Option<Amount>
    decreases idxs.len(),
{
    if idxs.len() == 0 {
        Some(Amount::spec_zero())
    } else {
        match group_total(values, idxs.drop_last()) {
            None => None,
            Some(sum) => if idxs.last() < values.len() {
                sum.spec_checked_add(values[idxs.last() as int])
            } else {
                Some(sum)
            },
        }
    }
}

/// The arena of assets. Its view is the sequence of their values by index.
pub struct AssetPool {
    assets: Vec<Asset>,
}

impl View for AssetPool {
    type V = Seq<Amount>;

    closed spec fn view(&self) -> Seq<Amount> {
        Seq::new(self.assets@.len(), |i: int| self.assets@[i]@)
    }
}

impl AssetPool {
    /// The empty pool.
    pub fn new() -> (r: AssetPool)
        ensures
            r@ == Seq::<Amount>::empty(),
    {
        AssetPool { assets: Vec::new() }
    }

    /// The number of assets.
    pub fn len(&self) -> (n: usize)
        ensures
            n == self@.len(),
    {
        self.assets.len()
    }

    /// Appends `asset` and returns its index.
    pub fn load(&mut self, asset: Asset) -> (idx: usize)
        ensures
            final(self)@ == old(self)@.push(asset@),
            idx == old(self)@.len(),
    {
        self.assets.push(asset);
        self.assets.len() - 1
    }

    /// The value of the asset at `idx`, if there is one.
    pub fn get(&self, idx: usize) -> (r: Option<Amount>)
        ensures
            r == if idx < self@.len() {
                Some(self@[idx as int])
            } else {
                None
            },
    {
        if idx < self.assets.len() {
            Some(self.assets[idx].get())
        } else {
            None
        }
    }

    /// The value of the asset at `idx`, for a caller that knows the index to
    /// be in range.
    pub fn get_unchecked(&self, idx: usize) -> (r: Amount)
        requires
            idx < self@.len(),
        ensures
            r == self@[idx as int],
    {
        self.assets[idx].get()
    }

    /// Sets the asset at `idx` to `change`. Returns whether there is such an
    /// asset; where there is none the pool stays as it is.
    pub fn mutate(&mut self, idx: usize, change: Amount) -> (found: bool)
        ensures
            found == (idx < old(self)@.len()),
            final(self)@ == if found {
                old(self)@.update(idx as int, change)
            } else {
                old(self)@
            },
    {
        if idx < self.assets.len() {
            self.mutate_unchecked(idx, change);
            true
        } else {
            false
        }
    }

    /// Sets the asset at `idx` to `change`, for a caller that knows the index
    /// to be in range.
    pub fn mutate_unchecked(&mut self, idx: usize, change: Amount)
        requires
            idx < old(self)@.len(),
        ensures
            final(self)@ == old(self)@.update(idx as int, change),
    {
        self.assets[idx].mutate(change);
    }

    /// Takes all assets out of the pool, which is empty afterwards.
    pub fn unload(&mut self) -> (r: Vec<Asset>)
        ensures
            final(self)@ == Seq::<Amount>::empty(),
            r@.len() == old(self)@.len(),
            forall|i: int| 0 <= i < r@.len() ==> (#[trigger] r@[i])@ == old(self)@[i],
    {
        let mut out: Vec<Asset> = Vec::new();
        std::mem::swap(&mut self.assets, &mut out);
        out
    }

    /// One capture for each asset, in rising order of index. The pool keeps
    /// its assets.
    pub fn capture(&self) -> (r: Vec<AssetCapture>)
        ensures
            r@ == captures_of(self@),
    {
        let mut out: Vec<AssetCapture> = Vec::new();
        let n = self.assets.len();
        let mut idx: usize = 0;
        while idx < n
            invariant
                n == self.assets@.len(),
                idx <= n,
                out@.len() == idx,
                forall|i: int| 0 <= i < idx ==> #[trigger] out@[i] == captures_of(self@)[i],
            decreases n - idx,
        {
            out.push(AssetCapture { value: self.assets[idx].get(), idx });
            idx += 1;
        }
        out
    }

    /// The pool of the values that `captures` hold, in rising order of their
    /// indices, whatever the order in which they arrive. Captures of the same
    /// index follow each other by mantissa, then by scale.
    pub fn reload(captures: Vec<AssetCapture>) -> (r: AssetPool)
        ensures
            r@ == values_of(ordered(captures@)),
    {
        let sorted = sort(&captures);
        AssetPool::reload_unchecked(sorted)
    }

    /// The pool of the values that `captures` hold, in the order in which they
    /// arrive: the asset at position `i` is made of `captures[i]`, whatever
    /// index that capture names. The pool of a capture is restored only where
    /// the captures arrive in rising order of index.
    pub fn reload_unchecked(captures: Vec<AssetCapture>) -> (r: AssetPool)
        ensures
            r@ == values_of(captures@),
    {
        let mut out = AssetPool::new();
        let n = captures.len();
        let mut i: usize = 0;
        while i < n
            invariant
                n == captures@.len(),
                i <= n,
                out@ == values_of(captures@.take(i as int)),
            decreases n - i,
        {
            out.load(Asset::new(captures[i].value));
            i += 1;
        }
        proof {
            assert(captures@.take(n as int) =~= captures@);
        }
        out
    }

    /// The sum of the assets at `idxs`: see [`group_total`].
    pub fn value_of_group(&self, idxs: Vec<usize>) -> (r: Option<Amount>)
        ensures
            r == group_total(self@, idxs@),
    {
        self.total_of(&idxs)
    }

    /// The sum of the assets at `idxs`, for a caller that knows every index to
    /// be in range.
    pub fn value_of_group_unchecked(&self, idxs: Vec<usize>) -> (r: Option<Amount>)
        requires
            forall|k: int| 0 <= k < idxs@.len() ==> idxs@[k] < self@.len(),
        ensures
            r == group_total(self@, idxs@),
    {
        let mut sum = Amount::zero();
        let n = idxs.len();
        let mut i: usize = 0;
        while i < n
            invariant
                n == idxs@.len(),
                i <= n,
                forall|k: int| 0 <= k < idxs@.len() ==> idxs@[k] < self@.len(),
                group_total(self@, idxs@.take(i as int)) == Some(sum),
            decreases n - i,
        {
            proof {
                assert(idxs@.take(i + 1).drop_last() =~= idxs@.take(i as int));
            }
            match sum.checked_add(self.get_unchecked(idxs[i])) {
                Some(next) => {
                    sum = next;
                },
                None => {
                    proof {
                        lemma_group_total_fails_on(self@, idxs@, i + 1);
                    }
                    return None;
                },
            }
            i += 1;
        }
        proof {
            assert(idxs@.take(n as int) =~= idxs@);
        }
        Some(sum)
    }

    pub(crate) fn total_of(&self, idxs: &Vec<usize>) -> (r: Option<Amount>)
        ensures
            r == group_total(self@, idxs@),
    {
        let mut sum = Amount::zero();
        let n = idxs.len();
        let mut i: usize = 0;
        while i < n
            invariant
                n == idxs@.len(),
                i <= n,
                group_total(self@, idxs@.take(i as int)) == Some(sum),
            decreases n - i,
        {
            proof {
                assert(idxs@.take(i + 1).drop_last() =~= idxs@.take(i as int));
            }
            if let Some(value) = self.get(idxs[i]) {
                match sum.checked_add(value) {
                    Some(next) => {
                        sum = next;
                    },
                    None => {
                        proof {
                            lemma_group_total_fails_on(self@, idxs@, i + 1);
                        }
                        return None;
                    },
                }
            }
            i += 1;
        }
        proof {
            assert(idxs@.take(n as int) =~= idxs@);
        }
        Some(sum)
    }
}

/// Capturing a pool and reloading the captures gives the pool back: the same
/// value at every index.
pub proof fn lemma_reload_restores_capture(values: Seq<Amount>)
    requires
        values.len() <= usize::MAX,
    ensures
        values_of(ordered(captures_of(values))) == values,
{
    let captures = captures_of(values);
    assert forall|i: int, j: int| 0 <= i < j < captures.len() implies #[trigger] rank::<
        AssetCapture,
    >()(captures[i], captures[j]) by {
        assert(captures[i].idx < captures[j].idx);
    }
    crate::sorting::lemma_ordered_of_sorted(captures);
    assert(values_of(captures) =~= values);
}

/// Reloading does not depend on the order in which the captures arrive: the
/// same captures in any order give the same pool.
pub proof fn lemma_reload_ignores_arrival_order(a: Seq<AssetCapture>, b: Seq<AssetCapture>)
    requires
        a.to_multiset() == b.to_multiset(),
    ensures
        values_of(ordered(a)) == values_of(ordered(b)),
{
    crate::sorting::lemma_ordered_of_permutation(a, b);
}

/// The captures of a pool, shuffled in any way, reload to that pool.
pub proof fn lemma_reload_restores_shuffled_capture(values: Seq<Amount>, shuffled: Seq<AssetCapture>)
    requires
        values.len() <= usize::MAX,
        shuffled.to_multiset() == captures_of(values).to_multiset(),
    ensures
        values_of(ordered(shuffled)) == values,
{
    lemma_reload_ignores_arrival_order(shuffled, captures_of(values));
    lemma_reload_restores_capture(values);
}

/// `reload_unchecked` does not put captures in order: where two captures
/// arrive with their indices the wrong way round, and no two captures hold the
/// same value, the pool that it builds differs from the one that `reload`
/// builds.
pub proof fn lemma_unchecked_reload_keeps_arrival_order(captures: Seq<AssetCapture>, i: int, j: int)
    requires
        0 <= i < j < captures.len(),
        captures[i].idx > captures[j].idx,
        forall|p: int, q: int|
            0 <= p < q < captures.len() ==> (#[trigger] captures[p]).value != (
            #[trigger] captures[q]).value,
    ensures
        values_of(captures) != values_of(ordered(captures)),
{
    crate::sorting::lemma_ordered(captures);
    let sorted = ordered(captures);
    if values_of(captures) == values_of(sorted) {
        assert forall|p: int| 0 <= p < captures.len() implies sorted[p] == captures[p] by {
            assert(values_of(captures)[p] == values_of(sorted)[p]);
            sorted.to_multiset_ensures();
            captures.to_multiset_ensures();
            assert(sorted.contains(sorted[p]));
            assert(captures.to_multiset().count(sorted[p]) > 0);
            assert(captures.contains(sorted[p]));
            let q = choose|q: int| 0 <= q < captures.len() && captures[q] == sorted[p];
            if q < p {
                assert(captures[q].value != captures[p].value);
            } else if p < q {
                assert(captures[p].value != captures[q].value);
            }
        }
        assert(sorted =~= captures);
        assert(rank::<AssetCapture>()(captures[i], captures[j]));
    }
}

/// In the pool that `reload` builds the indices of the captures rise from
/// one position to the next.
pub proof fn lemma_reload_sorts_by_index(captures: Seq<AssetCapture>)
    ensures
        ordered(captures).len() == captures.len(),
        forall|i: int, j: int|
            0 <= i < j < captures.len() ==> (#[trigger] ordered(captures)[i]).idx <= (
            #[trigger] ordered(captures)[j]).idx,
{
    crate::sorting::lemma_ordered(captures);
    let sorted = ordered(captures);
    assert forall|i: int, j: int| 0 <= i < j < captures.len() implies (#[trigger] sorted[i]).idx
        <= (#[trigger] sorted[j]).idx by {
        assert(rank::<AssetCapture>()(sorted[i], sorted[j]));
    }
}

/// The total of a group of two assets is the sum of their two values.
pub proof fn lemma_group_total_of_two(values: Seq<Amount>, i: usize, j: usize)
    requires
        i < values.len(),
        j < values.len(),
    ensures
        group_total(values, seq![i, j]) == values[i as int].spec_checked_add(values[j as int]),
{
    let both = seq![i, j];
    let first = seq![i];
    Amount::lemma_zero();
    assert(both.drop_last() =~= first);
    assert(first.drop_last() =~= Seq::<usize>::empty());
    assert(group_total(values, first.drop_last()) == Some(Amount::spec_zero()));
    assert(group_total(values, first) == Some(values[i as int]));
}

/// An index at which the pool holds no asset adds nothing to a total, and
/// does not make it fail: the total is that of the group without it.
pub proof fn lemma_group_total_skips_missing(values: Seq<Amount>, idxs: Seq<usize>, at: int)
    requires
        0 <= at < idxs.len(),
        idxs[at] >= values.len(),
    ensures
        group_total(values, idxs) == group_total(values, idxs.remove(at)),
    decreases idxs.len(),
{
    if at == idxs.len() - 1 {
        assert(idxs.remove(at) =~= idxs.drop_last());
        match group_total(values, idxs.drop_last()) {
            None => {},
            Some(sum) => {},
        }
    } else {
        assert(idxs.remove(at).drop_last() =~= idxs.drop_last().remove(at));
        assert(idxs.remove(at).last() == idxs.last());
        lemma_group_total_skips_missing(values, idxs.drop_last(), at);
    }
}

/// Once a sum on the way has left the decimal range, the total has.
pub proof fn lemma_group_total_fails_on(values: Seq<Amount>, idxs: Seq<usize>, n: int)
    requires
        0 <= n <= idxs.len(),
        group_total(values, idxs.take(n)) is None,
    ensures
        group_total(values, idxs) is None,
    decreases idxs.len() - n,
{
    if n == idxs.len() {
        assert(idxs.take(n) =~= idxs);
    } else {
        assert(idxs.take(n + 1).drop_last() =~= idxs.take(n));
        lemma_group_total_fails_on(values, idxs, n + 1);
    }
}

} // verus!
