//! The train/test split: an exact fractional cut point, and the selection of
//! samples along a shuffled order.

use vstd::arithmetic::div_mod::{lemma_div_is_ordered, lemma_fundamental_div_mod_converse};
use vstd::arithmetic::mul::lemma_mul_inequality;
use vstd::prelude::*;

verus! {

/// The fixed seed of the generator that orders a dataset before the cut.
pub const SPLIT_SEED: u64 = 12;

/// The samples of `s` dealt out along `order`: position `i` receives
/// `s[order[i]]`.
pub open spec fn select<T>(s: Seq<T>, order: Seq<usize>) -> Seq<T> {
    Seq::new(order.len(), |i: int| s[order[i] as int])
}

/// Deals the samples out along `order`.
pub fn apply_order<T: Copy>(items: &Vec<T>, order: &Vec<usize>) -> (r: Vec<T>)
    requires
        forall|i: int| 0 <= i < order@.len() ==> (#[trigger] order@[i]) < items@.len(),
    ensures
        r@ == select(items@, order@),
{
    let mut r: Vec<T> = Vec::new();
    let end = order.len();
    for k in 0..end
        invariant
            end == order@.len(),
            forall|i: int| 0 <= i < order@.len() ==> (#[trigger] order@[i]) < items@.len(),
            r@ =~= select(items@, order@).take(k as int),
    {
        r.push(items[order[k]]);
        proof {
            assert(r@ =~= select(items@, order@).take(k + 1));
        }
    }
    proof {
        assert(select(items@, order@).take(end as int) =~= select(items@, order@));
    }
    r
}

/// The first `k` samples and the rest, in order.
pub fn split_at<T: Copy>(items: &Vec<T>, k: usize) -> (r: (Vec<T>, Vec<T>))
    requires
        k <= items@.len(),
    ensures
        r.0@ == items@.take(k as int),
        r.1@ == items@.skip(k as int),
{
    let mut head: Vec<T> = Vec::new();
    let mut tail: Vec<T> = Vec::new();
    let end = items.len();
    for i in 0..k
        invariant
            k <= items@.len(),
            head@ =~= items@.take(k as int).take(i as int),
    {
        head.push(items[i]);
        proof {
            assert(head@ =~= items@.take(k as int).take(i + 1));
        }
    }
    for i in k..end
        invariant
            k <= end == items@.len(),
            tail@ =~= items@.skip(k as int).take(i - k),
    {
        tail.push(items[i]);
        proof {
            assert(tail@ =~= items@.skip(k as int).take(i + 1 - k));
        }
    }
    proof {
        assert(head@ =~= items@.take(k as int));
        assert(tail@ =~= items@.skip(k as int));
    }
    (head, tail)
}

/// Law: cutting a dataset after dealing it out along an order that uses each
/// of its positions exactly once partitions it. The two parts restore the
/// shuffled sequence when joined, their multisets add up to the dataset's —
/// no sample is lost or duplicated — and no position feeds both parts.
pub proof fn lemma_ordered_split_partitions<T>(s: Seq<T>, order: Seq<usize>, k: int)
    requires
        order.len() == s.len(),
        forall|i: int| 0 <= i < order.len() ==> (#[trigger] order[i]) < s.len(),
        order.no_duplicates(),
        0 <= k <= s.len(),
    ensures
        select(s, order).take(k) + select(s, order).skip(k) == select(s, order),
        select(s, order).take(k).to_multiset().add(select(s, order).skip(k).to_multiset())
            == s.to_multiset(),
        forall|a: usize| !(order.take(k).contains(a) && order.skip(k).contains(a)),
{
    let sel = select(s, order);
    assert(sel.take(k) + sel.skip(k) =~= sel);
    vstd::seq_lib::lemma_multiset_commutative(sel.take(k), sel.skip(k));
    lemma_select_permutes(s, order);
    assert forall|a: usize| !(order.take(k).contains(a) && order.skip(k).contains(a)) by {
        if order.take(k).contains(a) && order.skip(k).contains(a) {
            let i = choose|i: int| 0 <= i < order.take(k).len() && order.take(k)[i] == a;
            let j = choose|j: int|
                0 <= j < order.skip(k).len() && order.skip(k)[j] == a;
            assert(order[i] == a);
            assert(order[j + k] == a);
        }
    }
}

/// Dealing a sequence out along an order that uses each of its positions
/// exactly once keeps exactly the given samples: the multiset is unchanged.
pub proof fn lemma_select_permutes<T>(s: Seq<T>, order: Seq<usize>)
    requires
        order.len() == s.len(),
        forall|i: int| 0 <= i < order.len() ==> (#[trigger] order[i]) < s.len(),
        order.no_duplicates(),
    ensures
        select(s, order).to_multiset() == s.to_multiset(),
    decreases s.len(),
{
    broadcast use vstd::seq_lib::group_to_multiset_ensures;

    let n = s.len() as int;
    if n == 0 {
        assert(select(s, order) =~= s);
    } else {
        let j = order.last() as int;
        let s2 = s.remove(j);
        let adjust = |k: usize| if k > order.last() { (k - 1) as usize } else { k };
        let order2 = order.drop_last().map_values(adjust);
        assert forall|i: int| 0 <= i < order2.len() implies (#[trigger] order2[i])
            < s2.len() by {
            assert(order[i] != order[n - 1]);
        }
        assert(order2.no_duplicates()) by {
            assert forall|i1: int, i2: int|
                0 <= i1 < order2.len() && 0 <= i2 < order2.len() && i1 != i2 implies order2[i1]
                != order2[i2] by {
                assert(order[i1] != order[i2]);
                assert(order[i1] != order[n - 1]);
                assert(order[i2] != order[n - 1]);
            }
        }
        assert(select(s2, order2) =~= select(s, order).drop_last()) by {
            assert forall|i: int| 0 <= i < n - 1 implies select(s2, order2)[i] == select(
                s,
                order,
            )[i] by {
                assert(order[i] != order[n - 1]);
            }
        }
        lemma_select_permutes(s2, order2);
        assert(select(s, order) =~= select(s, order).drop_last().push(s[j]));
        assert(select(s, order).to_multiset() =~= s2.to_multiset().insert(s[j]));
        assert(s2.to_multiset() =~= s.to_multiset().remove(s[j]));
        assert(s.contains(s[j]));
        assert(s.to_multiset().count(s[j]) > 0);
        assert(s2.to_multiset().insert(s[j]) =~= s.to_multiset());
    }
}

/// A split fraction held exactly as the ratio `num / den`; valid ratios lie
/// in (0, 1], that is `1 <= num <= den`.
#[derive(Clone, Copy, Debug, PartialEq, Eq, Structural)]
pub struct SplitFraction {
    pub num: u32,
    pub den: u32,
}

impl SplitFraction {
    /// The fraction lies in (0, 1].
    pub open spec fn wf(self) -> bool {
        1 <= self.num <= self.den
    }

    /// Accepts exactly the ratios that lie in (0, 1].
    pub fn new(num: u32, den: u32) -> (r: Option<SplitFraction>)
        ensures
            r is Some <==> 1 <= num <= den,
            r is Some ==> r == Some(SplitFraction { num, den }),
    {
        if 1 <= num && num <= den {
            Some(SplitFraction { num, den })
        } else {
            None
        }
    }

    /// Whether the ratio lies in (0, 1].
    pub fn is_valid(&self) -> (r: bool)
        ensures
            r == self.wf(),
    {
        1 <= self.num && self.num <= self.den
    }

    /// `ceil(num * n / den)`: how many of `n` samples the train split takes.
    pub open spec fn spec_train_count(self, n: int) -> int {
        (self.num * n + self.den - 1) / (self.den as int)
    }

    /// The number of samples the train split takes out of `n`, rounded up.
    pub fn train_count(&self, n: usize) -> (r: usize)
        requires
            self.wf(),
        ensures
            r == self.spec_train_count(n as int),
            r <= n,
            n >= 1 ==> r >= 1,
    {
        let num = self.num as u128;
        let den = self.den as u128;
        let wide = n as u128;
        proof {
            assert(num * wide <= 0xffff_ffffu128 * 0xffff_ffff_ffff_ffffu128) by (nonlinear_arith)
                requires
                    num <= 0xffff_ffffu128,
                    wide <= 0xffff_ffff_ffff_ffffu128,
            ;
        }
        let count = (num * wide + (den - 1)) / den;
        proof {
            self.lemma_train_count_bounds(n as int);
        }
        count as usize
    }

    /// The cut point is at most `n`, and at least 1 once there is a sample.
    pub proof fn lemma_train_count_bounds(self, n: int)
        requires
            self.wf(),
            n >= 0,
        ensures
            self.spec_train_count(n) <= n,
            n >= 1 ==> self.spec_train_count(n) >= 1,
    {
        let num = self.num as int;
        let den = self.den as int;
        lemma_mul_inequality(num, den, n);
        assert(den * n + den - 1 == n * den + (den - 1)) by (nonlinear_arith);
        lemma_fundamental_div_mod_converse(den * n + den - 1, den, n, den - 1);
        lemma_div_is_ordered(num * n + den - 1, den * n + den - 1, den);
        if n >= 1 {
            assert(num * n >= 1) by (nonlinear_arith)
                requires
                    num >= 1,
                    n >= 1,
            ;
            lemma_fundamental_div_mod_converse(den, den, 1, 0);
            lemma_div_is_ordered(den, num * n + den - 1, den);
        }
    }
}

} // verus!
