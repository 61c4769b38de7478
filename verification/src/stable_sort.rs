//! Sorting by integer keys.

use vstd::prelude::*;
#[allow(unused_imports)]
use vstd::set_lib::{lemma_int_range, lemma_subset_equality, set_int_range};

verus! {

/// Position `a` comes before position `b`: by the keys, and among equal keys by
/// the positions themselves.
pub open spec fn key_before(keys: Seq<i64>, a: usize, b: usize) -> bool {
    ||| keys[a as int] < keys[b as int]
    ||| keys[a as int] == keys[b as int] && a < b
}

/// `order` lists the positions `lo..hi`, each once, in the stable order of their keys.
pub open spec fn is_stable_order_of(keys: Seq<i64>, lo: int, hi: int, order: Seq<usize>) -> bool {
    &&& order.len() == hi - lo
    &&& forall|i: int| 0 <= i < order.len() ==> lo <= #[trigger] order[i] < hi
    &&& forall|i: int, j: int|
        0 <= i < j < order.len() ==> key_before(keys, #[trigger] order[i], #[trigger] order[j])
}

/// `order` lists all positions of `keys`, each once, in the stable order of their keys.
pub open spec fn is_stable_order(keys: Seq<i64>, order: Seq<usize>) -> bool {
    is_stable_order_of(keys, 0, keys.len() as int, order)
}

/// Merges the stable orders of two adjacent ranges.
fn merge(
    keys: &[i64],
    left: &Vec<usize>,
    right: &Vec<usize>,
    Ghost(lo): Ghost<int>,
    Ghost(mid): Ghost<int>,
    Ghost(hi): Ghost<int>,
) -> (order: Vec<usize>)
    requires
        0 <= lo <= mid <= hi <= keys@.len(),
        is_stable_order_of(keys@, lo, mid, left@),
        is_stable_order_of(keys@, mid, hi, right@),
    ensures
        is_stable_order_of(keys@, lo, hi, order@),
{
    let mut order: Vec<usize> = Vec::new();
    let mut i: usize = 0;
    let mut j: usize = 0;
    while i < left.len() || j < right.len()
        invariant
            0 <= lo <= mid <= hi <= keys@.len(),
            is_stable_order_of(keys@, lo, mid, left@),
            is_stable_order_of(keys@, mid, hi, right@),
            i <= left@.len(),
            j <= right@.len(),
            order@.len() == i + j,
            forall|k: int| 0 <= k < order@.len() ==> lo <= #[trigger] order@[k] < hi,
            forall|k: int, l: int|
                0 <= k < l < order@.len() ==> key_before(
                    keys@,
                    #[trigger] order@[k],
                    #[trigger] order@[l],
                ),
            forall|k: int, l: int|
                0 <= k < order@.len() && i <= l < left@.len() ==> key_before(
                    keys@,
                    #[trigger] order@[k],
                    #[trigger] left@[l],
                ),
            forall|k: int, l: int|
                0 <= k < order@.len() && j <= l < right@.len() ==> key_before(
                    keys@,
                    #[trigger] order@[k],
                    #[trigger] right@[l],
                ),
        decreases left@.len() + right@.len() - i - j,
    {
        let take_left = if i >= left.len() {
            false
        } else if j >= right.len() {
            true
        } else {
            keys[left[i]] <= keys[right[j]]
        };
        if take_left {
            order.push(left[i]);
            i = i + 1;
        } else {
            order.push(right[j]);
            j = j + 1;
        }
    }
    order
}

/// The stable order of the positions `lo..hi`.
fn sort_range(keys: &[i64], lo: usize, hi: usize) -> (order: Vec<usize>)
    requires
        lo <= hi <= keys@.len(),
    ensures
        is_stable_order_of(keys@, lo as int, hi as int, order@),
    decreases hi - lo,
{
    if hi - lo == 0 {
        Vec::new()
    } else if hi - lo == 1 {
        let mut order: Vec<usize> = Vec::new();
        order.push(lo);
        order
    } else {
        let mid: usize = lo + (hi - lo) / 2;
        let left = sort_range(keys, lo, mid);
        let right = sort_range(keys, mid, hi);
        merge(keys, &left, &right, Ghost(lo as int), Ghost(mid as int), Ghost(hi as int))
    }
}

/// The positions of `keys` in the stable order of their keys.
pub fn stable_order(keys: &[i64]) -> (order: Vec<usize>)
    ensures
        is_stable_order(keys@, order@),
{
    sort_range(keys, 0, keys.len())
}

/// As many distinct positions as there are positions leave out none.
pub proof fn lemma_distinct_positions_cover(order: Seq<usize>, p: usize)
    requires
        order.no_duplicates(),
        forall|i: int| 0 <= i < order.len() ==> #[trigger] order[i] < order.len(),
        p < order.len(),
    ensures
        order.contains(p),
{
    let positions = order.map_values(|i: usize| i as int);
    assert(positions.no_duplicates());
    positions.unique_seq_to_set();
    let all = set_int_range(0, order.len() as int);
    lemma_int_range(0, order.len() as int);
    assert(positions.to_set().subset_of(all)) by {
        assert forall|x: int| positions.to_set().contains(x) implies all.contains(x) by {
            let k = choose|k: int| 0 <= k < positions.len() && positions[k] == x;
            assert(positions[k] == order[k] as int);
        }
    }
    lemma_subset_equality(positions.to_set(), all);
    assert(all.contains(p as int));
    let k = choose|k: int| 0 <= k < positions.len() && positions[k] == p as int;
    assert(order[k] == p);
}

/// A stable order lists every position, and none twice.
pub proof fn law_stable_order_is_a_permutation(keys: Seq<i64>, order: Seq<usize>)
    requires
        is_stable_order(keys, order),
    ensures
        order.len() == keys.len(),
        order.no_duplicates(),
        forall|p: usize| p < keys.len() ==> #[trigger] order.contains(p),
{
    assert forall|p: usize| p < keys.len() implies #[trigger] order.contains(p) by {
        lemma_distinct_positions_cover(order, p);
    }
}

/// There is one stable order only: the keys determine it.
pub proof fn law_stable_order_is_unique(keys: Seq<i64>, a: Seq<usize>, b: Seq<usize>)
    requires
        is_stable_order(keys, a),
        is_stable_order(keys, b),
    ensures
        a == b,
{
    assert forall|n: int| 0 <= n < a.len() implies a[n] == b[n] by {
        lemma_stable_orders_agree(keys, a, b, n);
    }
}

proof fn lemma_stable_orders_agree(keys: Seq<i64>, a: Seq<usize>, b: Seq<usize>, n: int)
    requires
        is_stable_order(keys, a),
        is_stable_order(keys, b),
        0 <= n < a.len(),
    ensures
        a[n] == b[n],
    decreases n,
{
    assert forall|m: int| 0 <= m < n implies a[m] == b[m] by {
        lemma_stable_orders_agree(keys, a, b, m);
    }
    law_stable_order_is_a_permutation(keys, a);
    law_stable_order_is_a_permutation(keys, b);
    assert(b.contains(a[n]));
    assert(a.contains(b[n]));
    let j = choose|j: int| 0 <= j < b.len() && b[j] == a[n];
    let k = choose|k: int| 0 <= k < a.len() && a[k] == b[n];
    if a[n] != b[n] {
        if j < n {
            assert(a[j] == b[j]);
            assert(key_before(keys, a[j], a[n]));
        }
        if k < n {
            assert(a[k] == b[k]);
            assert(key_before(keys, b[k], b[n]));
        }
        assert(key_before(keys, b[n], b[j]));
        assert(key_before(keys, a[n], a[k]));
    }
}

/// A stable order runs from the smallest key to the largest, and equal keys keep the
/// order of their positions.
pub proof fn law_stable_order_sorts(keys: Seq<i64>, order: Seq<usize>)
    requires
        is_stable_order(keys, order),
    ensures
        forall|i: int, j: int|
            0 <= i < j < order.len() ==> keys[#[trigger] order[i] as int]
                <= keys[#[trigger] order[j] as int],
        forall|i: int, j: int|
            0 <= i < j < order.len() && keys[#[trigger] order[i] as int]
                == keys[#[trigger] order[j] as int] ==> order[i] < order[j],
{
}

} // verus!
