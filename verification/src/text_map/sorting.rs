//! Ordering a set of indices by integer keys.
use vstd::prelude::*;

verus! {

/// A sort key: three integers compared lexicographically.
pub type SortKey = (i128, i128, i128);

/// Index `i` comes before index `j`: its key is smaller, or the keys are equal and `i < j`.
pub open spec fn key_before(keys: Seq<SortKey>, i: int, j: int) -> bool {
    let a = keys[i];
    let b = keys[j];
    a.0 < b.0 || (a.0 == b.0 && (a.1 < b.1 || (a.1 == b.1 && (a.2 < b.2 || (a.2 == b.2 && i
        < j)))))
}

/// `order` lists the indices below `n`, each once.
pub open spec fn is_permutation_of_range(order: Seq<usize>, n: nat) -> bool {
    &&& order.len() == n
    &&& forall|k: int| 0 <= k < order.len() ==> order[k] < n
    &&& forall|a: int, b: int| 0 <= a < b < order.len() ==> order[a] != order[b]
    &&& forall|j: int|
        0 <= j < n ==> 0 <= #[trigger] position_of(order, j) < n && order[position_of(order, j)]
            == j
}

/// `j` occurs in `order`.
pub open spec fn occurs_in(order: Seq<usize>, j: int) -> bool {
    exists|k: int| 0 <= k < order.len() && order[k] == j
}

/// A position at which `j` occurs in `order`, when it occurs.
pub open spec fn position_of(order: Seq<usize>, j: int) -> int {
    choose|k: int| 0 <= k < order.len() && order[k] == j
}

/// `order` is in increasing order of keys.
pub open spec fn sorted_by_keys(keys: Seq<SortKey>, order: Seq<usize>) -> bool {
    forall|a: int, b: int|
        0 <= a < b < order.len() ==> key_before(keys, order[a] as int, order[b] as int)
}

proof fn lemma_key_before_transitive(keys: Seq<SortKey>, i: int, j: int, k: int)
    requires
        key_before(keys, i, j),
        key_before(keys, j, k),
    ensures
        key_before(keys, i, k),
{
}

proof fn lemma_key_before_total(keys: Seq<SortKey>, i: int, j: int)
    requires
        i != j,
        !key_before(keys, i, j),
    ensures
        key_before(keys, j, i),
{
}

fn comes_before(keys: &Vec<SortKey>, i: usize, j: usize) -> (r: bool)
    requires
        i < keys.len(),
        j < keys.len(),
    ensures
        r == key_before(keys@, i as int, j as int),
{
    let a = keys[i];
    let b = keys[j];
    a.0 < b.0 || (a.0 == b.0 && (a.1 < b.1 || (a.1 == b.1 && (a.2 < b.2 || (a.2 == b.2 && i
        < j)))))
}

/// The indices of `keys` in increasing order of their keys, ties broken by index.
pub fn sort_indices_by_keys(keys: &Vec<SortKey>) -> (order: Vec<usize>)
    ensures
        is_permutation_of_range(order@, keys.len() as nat),
        sorted_by_keys(keys@, order@),
{
    let n = keys.len();
    let mut order: Vec<usize> = Vec::new();
    let mut i: usize = 0;
    while i < n
        invariant
            n == keys.len(),
            i <= n,
            order.len() == i,
            forall|k: int| 0 <= k < order.len() ==> order[k] < i,
            forall|a: int, b: int| 0 <= a < b < order.len() ==> order[a] != order[b],
            forall|j: int| 0 <= j < i ==> #[trigger] occurs_in(order@, j),
            sorted_by_keys(keys@, order@),
        decreases n - i,
    {
        let mut p: usize = 0;
        while p < order.len() && !comes_before(keys, i, order[p])
            invariant
                n == keys.len(),
                i < n,
                p <= order.len(),
                forall|k: int| 0 <= k < order.len() ==> order[k] < i,
                forall|q: int| 0 <= q < p ==> key_before(keys@, order[q] as int, i as int),
            decreases order.len() - p,
        {
            proof {
                lemma_key_before_total(keys@, i as int, order[p as int] as int);
            }
            p = p + 1;
        }
        let ghost old_order = order@;
        order.insert(p, i);
        proof {
            assert(order@ == old_order.insert(p as int, i));
            assert forall|a: int, b: int| 0 <= a < b < order.len() implies key_before(
                keys@,
                order[a] as int,
                order[b] as int,
            ) by {
                if b < p {
                    assert(order[a] == old_order[a] && order[b] == old_order[b]);
                } else if b == p {
                    assert(order[a] == old_order[a]);
                } else if a == p {
                    assert(order[b] == old_order[b - 1]);
                    if b - 1 > p {
                        lemma_key_before_transitive(
                            keys@,
                            i as int,
                            old_order[p as int] as int,
                            old_order[b - 1] as int,
                        );
                    }
                } else if a < p {
                    assert(order[a] == old_order[a] && order[b] == old_order[b - 1]);
                } else {
                    assert(order[a] == old_order[a - 1] && order[b] == old_order[b - 1]);
                }
            }
            assert forall|j: int| 0 <= j < i + 1 implies #[trigger] occurs_in(order@, j) by {
                if j == i {
                    assert(order[p as int] == j);
                } else {
                    assert(occurs_in(old_order, j));
                    let k0 = choose|k: int| 0 <= k < old_order.len() && old_order[k] == j;
                    if k0 < p {
                        assert(order[k0] == j);
                    } else {
                        assert(order[k0 + 1] == j);
                    }
                }
            }
            assert forall|a: int, b: int| 0 <= a < b < order.len() implies order[a]
                != order[b] by {
                if a < p && b < p {
                } else if a < p && b == p {
                } else if a < p {
                    assert(order[b] == old_order[b - 1]);
                } else if a == p {
                    assert(order[b] == old_order[b - 1]);
                } else {
                    assert(order[a] == old_order[a - 1] && order[b] == old_order[b - 1]);
                }
            }
        }
        i = i + 1;
    }
    assert forall|j: int| 0 <= j < n implies 0 <= #[trigger] position_of(order@, j) < n
        && order@[position_of(order@, j)] == j by {
        assert(occurs_in(order@, j));
    }
    order
}

} // verus!
