//! Sorting and lower-middle median selection over binary64 bit patterns.

use vstd::prelude::*;
use vstd::relations::sorted_by;
use vstd::relations::total_ordering;
use vstd::seq_lib::group_to_multiset_ensures;
use vstd::seq_lib::lemma_sorted_unique;
use crate::order::lemma_order_key_monotone;
use crate::order::lemma_value_le_total;
use crate::order::order_key;
use crate::order::value_le;

verus! {

/// The value order as a relation, in vstd's sorting vocabulary.
pub open spec fn value_order() -> spec_fn(u64, u64) -> bool {
    |a: u64, b: u64| value_le(a, b)
}

/// A sequence of patterns arranged in ascending value order.
pub open spec fn sorted_values(s: Seq<u64>) -> bool {
    forall|p: int, q: int| 0 <= p < q < s.len() ==> value_le(#[trigger] s[p], #[trigger] s[q])
}

/// The ascending rearrangement of a sample.
pub open spec fn value_sorted(s: Seq<u64>) -> Seq<u64> {
    s.sort_by(value_order())
}

/// The median of a non-empty sample: the element at the lower middle slot of
/// the ascending rearrangement — the exact middle for an odd count, the lower
/// of the two central elements for an even count.
pub open spec fn median_value(s: Seq<u64>) -> u64
    recommends
        s.len() > 0,
{
    value_sorted(s)[(s.len() as int - 1) / 2]
}

/// The value order is a total ordering in vstd's sense.
pub proof fn lemma_value_order_total()
    ensures
        total_ordering(value_order()),
{
    let r = value_order();
    assert forall|x: u64| #[trigger] r(x, x) by {
        lemma_value_le_total(x, x, x);
    }
    assert forall|x: u64, y: u64| #[trigger] r(x, y) && #[trigger] r(y, x) implies x == y by {
        lemma_value_le_total(x, y, x);
    }
    assert forall|x: u64, y: u64, z: u64| #[trigger] r(x, y) && #[trigger] r(y, z) implies r(
        x,
        z,
    ) by {
        lemma_value_le_total(x, y, z);
    }
    assert forall|x: u64, y: u64| #[trigger] r(x, y) || #[trigger] r(y, x) by {
        lemma_value_le_total(x, y, x);
    }
}

/// Ascending order restated as vstd's `sorted_by` over the value order.
proof fn lemma_sorted_values_by(s: Seq<u64>)
    requires
        sorted_values(s),
    ensures
        sorted_by(s, value_order()),
{
    let r = value_order();
    assert forall|p: int, q: int| 0 <= p < q < s.len() implies #[trigger] r(s[p], s[q]) by {
        assert(value_le(s[p], s[q]));
    }
}

/// True when `a` sits strictly below `b` in the value order.
fn lt_value(a: u64, b: u64) -> (r: bool)
    ensures
        r == !value_le(b, a),
{
    let ka = order_key(a);
    let kb = order_key(b);
    proof {
        lemma_order_key_monotone(b, a);
    }
    ka < kb
}

/// Ascending copy of `sample` in the value order. The sample itself is read
/// through a shared borrow and handed back exactly as it came.
pub fn sorted_copy(sample: &Vec<u64>) -> (r: Vec<u64>)
    ensures
        sorted_values(r@),
        r@.to_multiset() == sample@.to_multiset(),
        r@.len() == sample@.len(),
{
    let mut out: Vec<u64> = Vec::new();
    proof {
        assert(out@ =~= sample@.subrange(0, 0));
    }
    let mut i: usize = 0;
    while i < sample.len()
        invariant
            i <= sample@.len(),
            sorted_values(out@),
            out@.len() == i,
            out@.to_multiset() == sample@.subrange(0, i as int).to_multiset(),
        decreases sample@.len() - i,
    {
        let x = sample[i];
        let mut j: usize = out.len();
        while j > 0 && lt_value(x, out[j - 1])
            invariant
                j <= out@.len(),
                forall|k: int| j <= k < out@.len() ==> !value_le(#[trigger] out@[k], x),
            decreases j,
        {
            j -= 1;
        }
        let ghost s = out@;
        out.insert(j, x);
        proof {
            broadcast use group_to_multiset_ensures;

            s.insert_ensures(j as int, x);
            assert forall|p: int, q: int|
                0 <= p < q < out@.len() implies value_le(#[trigger] out@[p], #[trigger] out@[q]) by {
                if q < j {
                    assert(out@[p] == s[p] && out@[q] == s[q]);
                } else if q == j {
                    assert(out@[p] == s[p] && out@[q] == x);
                    assert(value_le(s[j - 1], x));
                    if p < j - 1 {
                        assert(value_le(s[p], s[j - 1]));
                        lemma_value_le_total(s[p], s[j - 1], x);
                    }
                } else if p < j {
                    assert(out@[p] == s[p] && out@[q] == s[q - 1]);
                    assert(value_le(s[p], s[q - 1]));
                } else if p == j {
                    assert(out@[p] == x && out@[q] == s[q - 1]);
                    assert(!value_le(s[q - 1], x));
                    lemma_value_le_total(x, s[q - 1], x);
                } else {
                    assert(out@[p] == s[p - 1] && out@[q] == s[q - 1]);
                }
            }
            assert(out@ == s.insert(j as int, x));
            assert(s.insert(j as int, x).to_multiset() == s.to_multiset().insert(x));
            assert(sample@.subrange(0, i as int + 1) =~= sample@.subrange(0, i as int).push(
                sample@[i as int],
            ));
            assert(sample@.subrange(0, i as int).push(sample@[i as int]).to_multiset()
                == sample@.subrange(0, i as int).to_multiset().insert(sample@[i as int]));
        }
        i += 1;
    }
    proof {
        assert(sample@.subrange(0, sample@.len() as int) =~= sample@);
    }
    out
}

/// The median of a sample of binary64 patterns: absent exactly on the empty
/// sample; otherwise the element at the lower middle slot of the ascending
/// rearrangement — the exact middle for an odd count, the lower of the two
/// central elements for an even count. The sample is only read, never changed.
pub fn median(sample: &Vec<u64>) -> (r: Option<u64>)
    ensures
        r is Some <==> sample@.len() > 0,
        sample@.len() > 0 ==> r == Some(median_value(sample@)),
        sample@.len() % 2 == 1 ==> r == Some(value_sorted(sample@)[sample@.len() as int / 2]),
        sample@.len() > 0 && sample@.len() % 2 == 0 ==> r == Some(
            value_sorted(sample@)[sample@.len() as int / 2 - 1],
        ),
{
    if sample.len() == 0 {
        return None;
    }
    let s = sorted_copy(sample);
    let m = s[(s.len() - 1) / 2];
    proof {
        lemma_value_order_total();
        sample@.lemma_sort_by_ensures(value_order());
        lemma_sorted_values_by(s@);
        lemma_sorted_unique(s@, value_sorted(sample@), value_order());
    }
    Some(m)
}

/// The median of a sample depends only on which patterns occur, and how
/// often — never on their arrangement.
pub proof fn lemma_median_permutation_invariant(a: Seq<u64>, b: Seq<u64>)
    requires
        a.to_multiset() == b.to_multiset(),
    ensures
        median_value(a) == median_value(b),
{
    broadcast use group_to_multiset_ensures;

    lemma_value_order_total();
    a.lemma_sort_by_ensures(value_order());
    b.lemma_sort_by_ensures(value_order());
    lemma_sorted_unique(value_sorted(a), value_sorted(b), value_order());
    assert(a.len() == a.to_multiset().len());
    assert(b.len() == b.to_multiset().len());
}

} // verus!
