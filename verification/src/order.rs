//! The payout scheduler: the one-time, deterministic ordering of roster
//! indices computed at activation. Members are ordered by eligibility
//! score, highest first; members with equal scores keep their join order.

use vstd::prelude::*;

use crate::circle::MAX_MEMBERS;

verus! {

/// Roster index `a` is paid before roster index `b` under `scores`:
/// strictly higher score first, ties broken by lower (earlier) index.
/// This is a strict total order on distinct indices, so a sorted
/// permutation is unique.
pub open spec fn precedes(scores: Seq<u8>, a: u8, b: u8) -> bool {
    ||| scores[a as int] > scores[b as int]
    ||| (scores[a as int] == scores[b as int] && a < b)
}

/// The first `count` slots of `order` are pairwise sorted by `precedes`:
/// a stable descending sort of roster indices by score.
pub open spec fn stable_sorted(order: Seq<u8>, scores: Seq<u8>, count: int) -> bool {
    forall|k1: int, k2: int| 0 <= k1 < k2 < count ==> precedes(scores, order[k1], order[k2])
}

/// Every one of the first `count` slots holds a roster index below `count`.
pub open spec fn prefix_in_range(order: Seq<u8>, count: int) -> bool {
    forall|k: int| 0 <= k < count ==> (#[trigger] order[k]) < count
}

/// No roster index repeats within the first `count` slots.
pub open spec fn prefix_distinct(order: Seq<u8>, count: int) -> bool {
    forall|k1: int, k2: int| 0 <= k1 < k2 < count ==> order[k1] != order[k2]
}

/// Roster index `v` appears within the first `count` slots.
pub open spec fn prefix_contains(order: Seq<u8>, count: int, v: int) -> bool {
    exists|k: int| 0 <= k < count && order[k] as int == v
}

/// Every roster index below `count` appears within the first `count`
/// slots: with `prefix_in_range` and `prefix_distinct`, the prefix is a
/// permutation of `[0, count)`.
pub open spec fn prefix_covers(order: Seq<u8>, count: int) -> bool {
    forall|v: int| 0 <= v < count ==> #[trigger] prefix_contains(order, count, v)
}

/// Exchanging two slots within the prefix loses no roster index from it.
proof fn lemma_swap_preserves_prefix_contains(s1: Seq<u8>, s2: Seq<u8>, count: int, x: int, y: int)
    requires
        s1.len() == s2.len(),
        0 <= x < count <= s1.len(),
        0 <= y < count,
        s2[x] == s1[y],
        s2[y] == s1[x],
        forall|k: int| 0 <= k < s1.len() && k != x && k != y ==> s1[k] == s2[k],
    ensures
        forall|v: int|
            prefix_contains(s1, count, v) ==> #[trigger] prefix_contains(s2, count, v),
{
    assert forall|v: int|
        prefix_contains(s1, count, v) implies #[trigger] prefix_contains(s2, count, v) by {
        let k = choose|k: int| 0 <= k < count && s1[k] as int == v;
        if k == x {
            assert(s2[y] as int == v);
        } else if k == y {
            assert(s2[x] as int == v);
        } else {
            assert(s2[k] as int == v);
        }
    }
}

/// Computes the payout order for the enrolled prefix: an insertion sort of
/// the roster indices `0 .. count`, stable and descending by score. Slots
/// at `count` and beyond are left cleared.
pub fn compute_payout_order(scores: &Vec<u8>, count: usize) -> (order: Vec<u8>)
    requires
        scores@.len() == MAX_MEMBERS,
        1 <= count <= MAX_MEMBERS,
    ensures
        order@.len() == MAX_MEMBERS,
        prefix_in_range(order@, count as int),
        prefix_distinct(order@, count as int),
        prefix_covers(order@, count as int),
        stable_sorted(order@, scores@, count as int),
        forall|k: int| count <= k < MAX_MEMBERS ==> order@[k] == 0,
{
    let mut order: Vec<u8> = Vec::new();
    let mut k: usize = 0;
    while k < count
        invariant
            k <= count <= MAX_MEMBERS,
            order@.len() == k,
            forall|j: int| 0 <= j < k ==> order@[j] as int == j,
        decreases count - k,
    {
        order.push(k as u8);
        k += 1;
    }
    while k < MAX_MEMBERS
        invariant
            count <= k <= MAX_MEMBERS,
            order@.len() == k,
            forall|j: int| 0 <= j < count ==> order@[j] as int == j,
            forall|j: int| count <= j < k ==> order@[j] == 0,
        decreases MAX_MEMBERS - k,
    {
        order.push(0);
        k += 1;
    }
    proof {
        assert forall|v: int|
            0 <= v < count implies #[trigger] prefix_contains(order@, count as int, v) by {
            assert(order@[v] as int == v);
        }
    }
    let mut i: usize = 1;
    while i < count
        invariant
            1 <= i <= count <= MAX_MEMBERS,
            order@.len() == MAX_MEMBERS,
            scores@.len() == MAX_MEMBERS,
            prefix_in_range(order@, count as int),
            prefix_distinct(order@, count as int),
            prefix_covers(order@, count as int),
            stable_sorted(order@, scores@, i as int),
            forall|a: int| 0 <= a < i ==> (#[trigger] order@[a]) < i,
            forall|a: int| i <= a < count ==> (#[trigger] order@[a]) as int == a,
            forall|k: int| count <= k < MAX_MEMBERS ==> order@[k] == 0,
        decreases count - i,
    {
        let mut j: usize = i;
        while j > 0 && scores[order[j - 1] as usize] < scores[order[j] as usize]
            invariant
                0 < i < count <= MAX_MEMBERS,
                0 <= j <= i,
                order@.len() == MAX_MEMBERS,
                scores@.len() == MAX_MEMBERS,
                prefix_in_range(order@, count as int),
                prefix_distinct(order@, count as int),
                prefix_covers(order@, count as int),
                order@[j as int] as int == i,
                forall|a: int| 0 <= a <= i && a != j ==> (#[trigger] order@[a]) < i,
                forall|a: int, b: int|
                    0 <= a < b <= i && b != j ==> precedes(scores@, order@[a], order@[b]),
                forall|a: int| j < a <= i ==> precedes(scores@, order@[j as int], order@[a]),
                forall|a: int| i < a < count ==> (#[trigger] order@[a]) as int == a,
                forall|k: int| count <= k < MAX_MEMBERS ==> order@[k] == 0,
            decreases j,
        {
            let ghost s1 = order@;
            let moved = order[j];
            order[j] = order[j - 1];
            order[j - 1] = moved;
            proof {
                lemma_swap_preserves_prefix_contains(
                    s1,
                    order@,
                    count as int,
                    j - 1,
                    j as int,
                );
                assert forall|v: int|
                    0 <= v < count implies #[trigger] prefix_contains(
                    order@,
                    count as int,
                    v,
                ) by {
                    assert(prefix_contains(s1, count as int, v));
                }
            }
            j -= 1;
        }
        proof {
            assert forall|a: int, b: int|
                0 <= a < b <= i implies precedes(scores@, order@[a], order@[b]) by {
                if b == j && j > 0 && a < j - 1 {
                    assert(precedes(scores@, order@[a], order@[j - 1]));
                    assert(precedes(scores@, order@[j - 1], order@[b]));
                }
            }
        }
        i += 1;
    }
    order
}

} // verus!
