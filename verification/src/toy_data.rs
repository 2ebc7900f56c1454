//! The 1-D regression dataset: samples that pair a grid position with a noisy
//! response, split deterministically into train and test.
//!
//! The grid and the responses are evaluated by the caller (they are real
//! numbers; the library carries their 32-bit patterns untouched). The pairing,
//! the order, the cut point and the split are decided — and proved — here.

use crate::shuffle::{index_seq, shuffle_of, shuffled_order};
use crate::split::{
    apply_order, lemma_ordered_split_partitions, select, split_at, SplitFraction, SPLIT_SEED,
};
use vstd::prelude::*;

verus! {

/// One regression sample: a grid position and its response, each held as the
/// bit pattern of the caller's 32-bit value.
#[derive(Clone, Copy, Debug, PartialEq, Eq, Structural)]
pub struct ToyItem {
    pub x: u32,
    pub y: u32,
}

/// The samples that pair each grid value with its response, in grid order.
pub open spec fn toy_items_of(xs: Seq<u32>, ys: Seq<u32>) -> Seq<ToyItem> {
    Seq::new(xs.len(), |i: int| ToyItem { x: xs[i], y: ys[i] })
}

/// Pairs each grid value with its response, in grid order: sample `i` is
/// `(xs[i], ys[i])`, and there are exactly as many samples as grid values.
pub fn make_toydata(xs: Vec<u32>, ys: Vec<u32>) -> (r: Vec<ToyItem>)
    requires
        xs@.len() == ys@.len(),
    ensures
        r@ == toy_items_of(xs@, ys@),
        r@.len() == xs@.len(),
{
    let mut r: Vec<ToyItem> = Vec::new();
    let end = xs.len();
    for i in 0..end
        invariant
            end == xs@.len() == ys@.len(),
            r@ =~= toy_items_of(xs@, ys@).take(i as int),
    {
        r.push(ToyItem { x: xs[i], y: ys[i] });
        proof {
            assert(r@ =~= toy_items_of(xs@, ys@).take(i + 1));
        }
    }
    proof {
        assert(r@ =~= toy_items_of(xs@, ys@));
    }
    r
}

/// An ordered, immutable collection of regression samples.
pub struct ToyDataset {
    dataset: Vec<ToyItem>,
}

impl View for ToyDataset {
    type V = Seq<ToyItem>;

    closed spec fn view(&self) -> Seq<ToyItem> {
        self.dataset@
    }
}

impl ToyDataset {
    /// The sample at `index`, or nothing past the end.
    pub fn get(&self, index: usize) -> (r: Option<ToyItem>)
        ensures
            index < self@.len() ==> r == Some(self@[index as int]),
            index >= self@.len() ==> r is None,
    {
        if index < self.dataset.len() {
            Some(self.dataset[index])
        } else {
            None
        }
    }

    /// How many samples the dataset holds.
    pub fn len(&self) -> (r: usize)
        ensures
            r == self@.len(),
    {
        self.dataset.len()
    }
}

/// The parameters of the toy generator: the grid bounds (bit patterns of the
/// caller's 32-bit values), the sample count, and the split fraction.
#[derive(Clone, Copy, Debug)]
pub struct ToyDatasetConfig {
    pub start: u32,
    pub end: u32,
    pub n: usize,
    pub split: SplitFraction,
}

impl ToyDatasetConfig {
    /// At least one sample, and a split fraction in (0, 1].
    pub open spec fn wf(self) -> bool {
        self.n >= 1 && self.split.wf()
    }

    /// The positions of the dataset, dealt out under the fixed split seed.
    pub open spec fn order_spec(self) -> Seq<usize> {
        shuffle_of(SPLIT_SEED, index_seq(self.n as nat))
    }

    /// What the train split holds: the first `ceil(split · n)` samples of the
    /// dataset dealt out along the seeded shuffle of its positions.
    pub open spec fn train_spec(self, items: Seq<ToyItem>) -> Seq<ToyItem> {
        select(items, self.order_spec()).take(self.split.spec_train_count(self.n as int))
    }

    /// What the test split holds: the complement, in the same shuffled order.
    pub open spec fn test_spec(self, items: Seq<ToyItem>) -> Seq<ToyItem> {
        select(items, self.order_spec()).skip(self.split.spec_train_count(self.n as int))
    }

    /// The train split of `items`, rejected unless the configuration is
    /// well-formed and `items` has the configured size. Together with the
    /// test split it restores the dataset exactly once: the two multisets
    /// add up to the dataset's.
    pub fn train(&self, items: Vec<ToyItem>) -> (r: Option<ToyDataset>)
        ensures
            r is Some <==> self.wf() && items@.len() == self.n,
            r matches Some(d) ==> d@ == self.train_spec(items@),
            r matches Some(d) ==> d@.len() == self.split.spec_train_count(self.n as int),
            r is Some ==> self.train_spec(items@).to_multiset().add(
                self.test_spec(items@).to_multiset(),
            ) == items@.to_multiset(),
    {
        let (head, _) = self.split_both(items)?;
        Some(ToyDataset { dataset: head })
    }

    /// The test split of `items`: the samples the train split leaves, in the
    /// same shuffled order, rejected on the same malformed inputs.
    pub fn test(&self, items: Vec<ToyItem>) -> (r: Option<ToyDataset>)
        ensures
            r is Some <==> self.wf() && items@.len() == self.n,
            r matches Some(d) ==> d@ == self.test_spec(items@),
            r matches Some(d) ==> d@.len() + self.split.spec_train_count(self.n as int) == items@.len(),
            r is Some ==> self.train_spec(items@).to_multiset().add(
                self.test_spec(items@).to_multiset(),
            ) == items@.to_multiset(),
    {
        let (_, tail) = self.split_both(items)?;
        Some(ToyDataset { dataset: tail })
    }

    /// Shuffles the dataset's positions under the fixed seed and cuts once.
    fn split_both(&self, items: Vec<ToyItem>) -> (r: Option<(Vec<ToyItem>, Vec<ToyItem>)>)
        ensures
            r is Some <==> self.wf() && items@.len() == self.n,
            r matches Some(p) ==> p.0@ == self.train_spec(items@) && p.1@ == self.test_spec(
                items@,
            ),
            r matches Some(p) ==> p.0@.len() == self.split.spec_train_count(self.n as int)
                && p.0@.len() + p.1@.len() == items@.len(),
            r is Some ==> self.train_spec(items@).to_multiset().add(
                self.test_spec(items@).to_multiset(),
            ) == items@.to_multiset(),
    {
        if !(self.n >= 1 && self.split.is_valid() && items.len() == self.n) {
            return None;
        }
        let order = shuffled_order(items.len(), SPLIT_SEED);
        let shuffled = apply_order(&items, &order);
        let k = self.split.train_count(items.len());
        let (head, tail) = split_at(&shuffled, k);
        proof {
            lemma_ordered_split_partitions(items@, order@, k as int);
        }
        Some((head, tail))
    }
}

/// The samples' grid positions, in order.
pub open spec fn toy_xs(items: Seq<ToyItem>) -> Seq<u32> {
    items.map_values(|it: ToyItem| it.x)
}

/// The samples' responses, in order.
pub open spec fn toy_ys(items: Seq<ToyItem>) -> Seq<u32> {
    items.map_values(|it: ToyItem| it.y)
}

/// Stacks regression samples into two aligned columns: entry `i` of each
/// column comes from sample `i`.
#[derive(Clone, Copy, Debug)]
pub struct ToyBatcher {}

impl ToyBatcher {
    /// A batcher; it carries no state of its own.
    pub fn new() -> ToyBatcher {
        ToyBatcher {}
    }

    /// Stacks the samples' positions and responses into two aligned columns,
    /// one entry per sample, in sample order.
    pub fn batch(&self, items: Vec<ToyItem>) -> (r: ToyBatch)
        ensures
            r.x@ == toy_xs(items@),
            r.y@ == toy_ys(items@),
    {
        let mut x: Vec<u32> = Vec::new();
        let mut y: Vec<u32> = Vec::new();
        let end = items.len();
        for i in 0..end
            invariant
                end == items@.len(),
                x@ =~= toy_xs(items@.take(i as int)),
                y@ =~= toy_ys(items@.take(i as int)),
        {
            x.push(items[i].x);
            y.push(items[i].y);
            proof {
                assert(x@ =~= toy_xs(items@.take(i + 1)));
                assert(y@ =~= toy_ys(items@.take(i + 1)));
            }
        }
        proof {
            assert(x@ =~= toy_xs(items@));
            assert(y@ =~= toy_ys(items@));
        }
        ToyBatch { x, y }
    }
}

/// A batch of regression samples: two columns of equal length, entry `i` of
/// `x` pairing with entry `i` of `y` (shape n × 1 each).
#[derive(Clone, Debug, PartialEq)]
pub struct ToyBatch {
    pub x: Vec<u32>,
    pub y: Vec<u32>,
}

impl ToyBatch {
    /// Recovers the samples a batch was stacked from, in order; rejected
    /// when the two columns disagree in length.
    pub fn unbatch(&self) -> (r: Option<Vec<ToyItem>>)
        ensures
            r is Some <==> self.x@.len() == self.y@.len(),
            r matches Some(v) ==> v@ == toy_items_of(self.x@, self.y@),
    {
        if self.x.len() != self.y.len() {
            return None;
        }
        let mut v: Vec<ToyItem> = Vec::new();
        let end = self.x.len();
        for i in 0..end
            invariant
                end == self.x@.len() == self.y@.len(),
                v@ =~= toy_items_of(self.x@, self.y@).take(i as int),
        {
            v.push(ToyItem { x: self.x[i], y: self.y[i] });
            proof {
                assert(v@ =~= toy_items_of(self.x@, self.y@).take(i + 1));
            }
        }
        proof {
            assert(v@ =~= toy_items_of(self.x@, self.y@));
        }
        Some(v)
    }
}

/// Law: unbatching a batch restores the samples it was stacked from, in
/// order and with their values.
pub proof fn lemma_toy_batch_roundtrip(items: Seq<ToyItem>)
    ensures
        toy_items_of(toy_xs(items), toy_ys(items)) == items,
{
    assert(toy_items_of(toy_xs(items), toy_ys(items)) =~= items);
}

} // verus!
