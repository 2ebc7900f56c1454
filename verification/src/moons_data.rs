//! The two-class half-moons dataset: an inner and an outer crescent of 2-D
//! points, labelled 1 and 0, split deterministically into train and test, and
//! stacked into flat batches.
//!
//! The points themselves are evaluated by the caller (they are real numbers;
//! the library carries their 32-bit patterns untouched). The concatenation,
//! the labels, the order, the cut point and the batch layout are decided —
//! and proved — here.

use crate::shuffle::{index_seq, shuffle_of, shuffled_order};
use crate::split::{
    apply_order, lemma_ordered_split_partitions, select, split_at, SplitFraction, SPLIT_SEED,
};
use vstd::prelude::*;

verus! {

/// The class given to every point of the inner crescent.
pub const INNER_LABEL: i8 = 1;

/// The class given to every point of the outer crescent.
pub const OUTER_LABEL: i8 = 0;

/// One classification sample: a 2-D point, each coordinate held as the bit
/// pattern of the caller's 32-bit value, and its class.
#[derive(Clone, Copy, Debug, PartialEq)]
pub struct MoonsItem {
    pub x: [u32; 2],
    pub y: i8,
}

/// The inner crescent's points, labelled 1, followed by the outer crescent's,
/// labelled 0.
pub open spec fn moons_items_of(inner: Seq<[u32; 2]>, outer: Seq<[u32; 2]>) -> Seq<MoonsItem> {
    Seq::new(
        inner.len() + outer.len(),
        |i: int|
            if i < inner.len() {
                MoonsItem { x: inner[i], y: INNER_LABEL }
            } else {
                MoonsItem { x: outer[i - inner.len()], y: OUTER_LABEL }
            },
    )
}

/// Concatenates the two crescents: first every inner point labelled 1, then
/// every outer point labelled 0, each crescent in its given order.
pub fn make_moons(inner: Vec<[u32; 2]>, outer: Vec<[u32; 2]>) -> (r: Vec<MoonsItem>)
    ensures
        r@ == moons_items_of(inner@, outer@),
        r@.len() == inner@.len() + outer@.len(),
{
    let mut r: Vec<MoonsItem> = Vec::new();
    let n_inner = inner.len();
    let n_outer = outer.len();
    for i in 0..n_inner
        invariant
            n_inner == inner@.len(),
            r@ =~= moons_items_of(inner@, outer@).take(i as int),
    {
        r.push(MoonsItem { x: inner[i], y: INNER_LABEL });
        proof {
            assert(r@ =~= moons_items_of(inner@, outer@).take(i + 1));
        }
    }
    for i in 0..n_outer
        invariant
            n_inner == inner@.len(),
            n_outer == outer@.len(),
            r@ =~= moons_items_of(inner@, outer@).take(n_inner + i),
    {
        r.push(MoonsItem { x: outer[i], y: OUTER_LABEL });
        proof {
            assert(r@ =~= moons_items_of(inner@, outer@).take(n_inner + i + 1));
        }
    }
    proof {
        assert(r@ =~= moons_items_of(inner@, outer@));
    }
    r
}

/// How many samples of `s` carry the class `label`.
pub open spec fn count_label(s: Seq<MoonsItem>, label: i8) -> int
    decreases s.len(),
{
    if s.len() == 0 {
        0
    } else {
        count_label(s.drop_last(), label) + if s.last().y == label {
            1int
        } else {
            0int
        }
    }
}

/// Counts the samples that carry the class `label`.
pub fn count_with_label(items: &Vec<MoonsItem>, label: i8) -> (r: usize)
    ensures
        r == count_label(items@, label),
{
    let mut count: usize = 0;
    let end = items.len();
    for i in 0..end
        invariant
            end == items@.len(),
            count == count_label(items@.take(i as int), label),
            count <= i,
    {
        if items[i].y == label {
            count = count + 1;
        }
        proof {
            assert(items@.take(i + 1).drop_last() =~= items@.take(i as int));
            assert(items@.take(i + 1).last() == items@[i as int]);
        }
    }
    proof {
        assert(items@.take(end as int) =~= items@);
    }
    count
}

/// Law: the generated dataset holds exactly `inner.len()` samples of class 1
/// and exactly `outer.len()` samples of class 0.
pub proof fn lemma_moons_label_counts(inner: Seq<[u32; 2]>, outer: Seq<[u32; 2]>)
    ensures
        count_label(moons_items_of(inner, outer), INNER_LABEL) == inner.len(),
        count_label(moons_items_of(inner, outer), OUTER_LABEL) == outer.len(),
{
    lemma_count_label_concat(moons_items_of(inner, outer), inner.len() as int);
}

/// Counting classes in a sequence whose first `k` samples carry class 1 and
/// whose rest carry class 0 gives `k` and the remainder.
proof fn lemma_count_label_concat(s: Seq<MoonsItem>, k: int)
    requires
        0 <= k <= s.len(),
        forall|i: int| 0 <= i < k ==> (#[trigger] s[i]).y == INNER_LABEL,
        forall|i: int| k <= i < s.len() ==> (#[trigger] s[i]).y == OUTER_LABEL,
    ensures
        count_label(s, INNER_LABEL) == k,
        count_label(s, OUTER_LABEL) == s.len() - k,
    decreases s.len(),
{
    if s.len() > 0 {
        if k == s.len() {
            lemma_count_label_concat(s.drop_last(), k - 1);
        } else {
            lemma_count_label_concat(s.drop_last(), k);
        }
    }
}

/// An ordered, immutable collection of classification samples.
pub struct MoonsDataset {
    dataset: Vec<MoonsItem>,
}

impl View for MoonsDataset {
    type V = Seq<MoonsItem>;

    closed spec fn view(&self) -> Seq<MoonsItem> {
        self.dataset@
    }
}

impl MoonsDataset {
    /// The sample at `index`, or nothing past the end.
    pub fn get(&self, index: usize) -> (r: Option<MoonsItem>)
        ensures
            index < self@.len() ==> r == Some(self@[index as int]),
            index >= self@.len() ==> r is None,
    {
        if index < self.dataset.len() {
            Some(self.dataset[index])
        } else {
            None
        }
    }

    /// How many samples the dataset holds.
    pub fn len(&self) -> (r: usize)
        ensures
            r == self@.len(),
    {
        self.dataset.len()
    }
}

/// The parameters of the moons generator: the two crescents' sample counts,
/// the split fraction, and the noise scale (the bit pattern of the caller's
/// 32-bit value).
#[derive(Clone, Copy, Debug)]
pub struct MoonDatasetConfig {
    pub n_inner: usize,
    pub n_outer: usize,
    pub split: SplitFraction,
    pub noise: u32,
}

impl MoonDatasetConfig {
    /// The dataset the two counts make together.
    pub open spec fn total(self) -> int {
        self.n_inner + self.n_outer
    }

    /// At least one sample in each crescent, a total that a length can hold,
    /// and a split fraction in (0, 1].
    pub open spec fn wf(self) -> bool {
        self.n_inner >= 1 && self.n_outer >= 1 && self.total() <= usize::MAX
            && self.split.wf()
    }

    /// The positions of the dataset, dealt out under the fixed split seed.
    pub open spec fn order_spec(self) -> Seq<usize> {
        shuffle_of(SPLIT_SEED, index_seq(self.total() as nat))
    }

    /// What the train split holds: the first `ceil(split · total)` samples of
    /// the dataset dealt out along the seeded shuffle of its positions.
    pub open spec fn train_spec(self, items: Seq<MoonsItem>) -> Seq<MoonsItem> {
        select(items, self.order_spec()).take(self.split.spec_train_count(self.total()))
    }

    /// What the test split holds: the complement, in the same shuffled order.
    pub open spec fn test_spec(self, items: Seq<MoonsItem>) -> Seq<MoonsItem> {
        select(items, self.order_spec()).skip(self.split.spec_train_count(self.total()))
    }

    /// The train split of `items`, rejected unless the configuration is
    /// well-formed and `items` holds the configured total. Together with the
    /// test split it restores the dataset exactly once: the two multisets
    /// add up to the dataset's.
    pub fn train(&self, items: Vec<MoonsItem>) -> (r: Option<MoonsDataset>)
        ensures
            r is Some <==> self.wf() && items@.len() == self.total(),
            r matches Some(d) ==> d@ == self.train_spec(items@),
            r matches Some(d) ==> d@.len() == self.split.spec_train_count(self.total()),
            r is Some ==> self.train_spec(items@).to_multiset().add(
                self.test_spec(items@).to_multiset(),
            ) == items@.to_multiset(),
    {
        let (head, _) = self.split_both(items)?;
        Some(MoonsDataset { dataset: head })
    }

    /// The test split of `items`: the samples the train split leaves, in the
    /// same shuffled order, rejected on the same malformed inputs.
    pub fn test(&self, items: Vec<MoonsItem>) -> (r: Option<MoonsDataset>)
        ensures
            r is Some <==> self.wf() && items@.len() == self.total(),
            r matches Some(d) ==> d@ == self.test_spec(items@),
            r matches Some(d) ==> d@.len() + self.split.spec_train_count(self.total()) == items@.len(),
            r is Some ==> self.train_spec(items@).to_multiset().add(
                self.test_spec(items@).to_multiset(),
            ) == items@.to_multiset(),
    {
        let (_, tail) = self.split_both(items)?;
        Some(MoonsDataset { dataset: tail })
    }

    /// Shuffles the dataset's positions under the fixed seed and cuts once.
    fn split_both(&self, items: Vec<MoonsItem>) -> (r: Option<(Vec<MoonsItem>, Vec<MoonsItem>)>)
        ensures
            r is Some <==> self.wf() && items@.len() == self.total(),
            r matches Some(p) ==> p.0@ == self.train_spec(items@) && p.1@ == self.test_spec(
                items@,
            ),
            r matches Some(p) ==> p.0@.len() == self.split.spec_train_count(self.total())
                && p.0@.len() + p.1@.len() == items@.len(),
            r is Some ==> self.train_spec(items@).to_multiset().add(
                self.test_spec(items@).to_multiset(),
            ) == items@.to_multiset(),
    {
        let valid = self.n_inner >= 1 && self.n_outer >= 1 && usize::MAX - self.n_inner
            >= self.n_outer && self.split.is_valid();
        if !valid {
            return None;
        }
        let total = self.n_inner + self.n_outer;
        if items.len() != total {
            return None;
        }
        let order = shuffled_order(total, SPLIT_SEED);
        let shuffled = apply_order(&items, &order);
        let k = self.split.train_count(total);
        let (head, tail) = split_at(&shuffled, k);
        proof {
            lemma_ordered_split_partitions(items@, order@, k as int);
        }
        Some((head, tail))
    }
}

/// The samples' coordinates, stacked row-major into one flat sequence: the
/// point of sample `i` occupies entries `2i` and `2i + 1`.
pub open spec fn moons_features(items: Seq<MoonsItem>) -> Seq<u32> {
    Seq::new(
        2 * items.len(),
        |k: int|
            if k % 2 == 0 {
                items[k / 2].x@[0]
            } else {
                items[k / 2].x@[1]
            },
    )
}

/// The samples' classes, in order.
pub open spec fn moons_labels(items: Seq<MoonsItem>) -> Seq<i8> {
    items.map_values(|it: MoonsItem| it.y)
}

/// The samples a flat feature row and a label column were stacked from.
pub open spec fn moons_items_of_batch(x: Seq<u32>, y: Seq<i8>) -> Seq<MoonsItem> {
    Seq::new(y.len(), |i: int| MoonsItem { x: [x[2 * i], x[2 * i + 1]], y: y[i] })
}

/// Stacks classification samples into a flat row-major feature array of shape
/// n × 2 and an aligned label column.
#[derive(Clone, Copy, Debug)]
pub struct MoonsBatcher {}

impl MoonsBatcher {
    /// A batcher; it carries no state of its own.
    pub fn new() -> MoonsBatcher {
        MoonsBatcher {}
    }

    /// Stacks the samples' points row-major — sample `i` fills entries `2i`
    /// and `2i + 1` — and their classes into an aligned column.
    pub fn batch(&self, items: Vec<MoonsItem>) -> (r: MoonsBatch)
        ensures
            r.x@ == moons_features(items@),
            r.y@ == moons_labels(items@),
    {
        let mut x: Vec<u32> = Vec::new();
        let mut y: Vec<i8> = Vec::new();
        let end = items.len();
        for i in 0..end
            invariant
                end == items@.len(),
                x@ =~= moons_features(items@.take(i as int)),
                y@ =~= moons_labels(items@.take(i as int)),
        {
            x.push(items[i].x[0]);
            x.push(items[i].x[1]);
            y.push(items[i].y);
            proof {
                assert(x@ =~= moons_features(items@.take(i + 1)));
                assert(y@ =~= moons_labels(items@.take(i + 1)));
            }
        }
        proof {
            assert(x@ =~= moons_features(items@));
            assert(y@ =~= moons_labels(items@));
        }
        MoonsBatch { x, y }
    }
}

/// A batch of classification samples: a flat row-major feature array — two
/// entries per sample — and an aligned label column.
#[derive(Clone, Debug, PartialEq)]
pub struct MoonsBatch {
    pub x: Vec<u32>,
    pub y: Vec<i8>,
}

impl MoonsBatch {
    /// Recovers the samples a batch was stacked from, in order; rejected
    /// when the feature row is not twice the label column.
    pub fn unbatch(&self) -> (r: Option<Vec<MoonsItem>>)
        ensures
            r is Some <==> self.x@.len() == 2 * self.y@.len(),
            r matches Some(v) ==> v@ == moons_items_of_batch(self.x@, self.y@),
    {
        let xl = self.x.len();
        let yl = self.y.len();
        if yl > usize::MAX / 2 {
            proof {
                assert(2 * self.y@.len() > usize::MAX >= xl);
            }
            return None;
        }
        if xl != 2 * yl {
            return None;
        }
        let mut v: Vec<MoonsItem> = Vec::new();
        let end = self.y.len();
        for i in 0..end
            invariant
                end == self.y@.len(),
                end <= usize::MAX / 2,
                self.x@.len() == 2 * end,
                v@ =~= moons_items_of_batch(self.x@, self.y@).take(i as int),
        {
            v.push(MoonsItem { x: [self.x[2 * i], self.x[2 * i + 1]], y: self.y[i] });
            proof {
                assert(v@ =~= moons_items_of_batch(self.x@, self.y@).take(i + 1));
            }
        }
        proof {
            assert(v@ =~= moons_items_of_batch(self.x@, self.y@));
        }
        Some(v)
    }
}

/// Law: unbatching a batch restores the samples it was stacked from, in
/// order and with their points and classes.
pub proof fn lemma_moons_batch_roundtrip(items: Seq<MoonsItem>)
    ensures
        moons_items_of_batch(moons_features(items), moons_labels(items)) == items,
{
    let xx = moons_features(items);
    let back = moons_items_of_batch(xx, moons_labels(items));
    assert forall|i: int| 0 <= i < items.len() implies back[i] == items[i] by {
        assert((2 * i) % 2 == 0) by (nonlinear_arith);
        assert((2 * i) / 2 == i) by (nonlinear_arith);
        assert((2 * i + 1) % 2 == 1) by (nonlinear_arith);
        assert((2 * i + 1) / 2 == i) by (nonlinear_arith);
        assert(xx[2 * i] == items[i].x@[0]);
        assert(xx[2 * i + 1] == items[i].x@[1]);
        assert(back[i].x@ =~= items[i].x@);
        assert(back[i].x == items[i].x);
        assert(back[i].y == items[i].y);
    }
    assert(back =~= items);
}

} // verus!
