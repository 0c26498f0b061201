//! Guarantees that hold of every well-formed circle, stated once over the
//! well-formedness invariant and proved for all states the operations can
//! reach.

use vstd::prelude::*;

use crate::circle::Circle;
use crate::circle::FairCircleError;
use crate::circle::MemberId;
use crate::circle::MAX_MEMBERS;
use crate::circle::MIN_MEMBERS;
use crate::order::prefix_contains;
use crate::order::prefix_distinct;
use crate::order::prefix_in_range;

verus! {

/// The member count always lies in `[1, MAX_MEMBERS]`, and from
/// activation on it also meets the quorum `MIN_MEMBERS`.
pub proof fn lemma_member_count_bounds(c: Circle)
    requires
        c.wf(),
    ensures
        1 <= c.member_count <= MAX_MEMBERS,
        c.status is Active || c.status is Completed ==> MIN_MEMBERS <= c.member_count,
{
}

/// No two enrolled members ever share an identity.
pub proof fn lemma_members_unique(c: Circle, i: int, j: int)
    requires
        c.wf(),
        0 <= i < c.member_count,
        0 <= j < c.member_count,
        i != j,
    ensures
        c.members@[i] != c.members@[j],
{
    if i < j {
        assert(c.members@[i] != c.members@[j]);
    } else {
        assert(c.members@[j] != c.members@[i]);
    }
}

/// From activation on, the payout order is a permutation of the roster
/// indices `[0, member_count)`: every slot of the prefix names an enrolled
/// index, no index repeats, and every index appears. It never changes
/// again: the contract of every operation on an activated circle keeps
/// `payout_order` equal to what activation computed, `update_fair_score`
/// included.
pub proof fn lemma_payout_order_permutation(c: Circle)
    requires
        c.wf(),
        c.status is Active || c.status is Completed,
    ensures
        prefix_in_range(c.payout_order@, c.member_count as int),
        prefix_distinct(c.payout_order@, c.member_count as int),
        forall|v: int|
            0 <= v < c.member_count ==> #[trigger] prefix_contains(
                c.payout_order@,
                c.member_count as int,
                v,
            ),
{
}

/// The round-complete flag is true exactly when every enrolled member's
/// contribution cell for the current round is set.
pub proof fn lemma_round_complete_iff(c: Circle)
    requires
        c.wf(),
        c.status is Active,
    ensures
        c.round_contributions_complete <==> c.all_contributed(c.current_round as int - 1),
{
}

/// A member contributes at most once per round: once their cell for the
/// current round is set, a further `contribute` is refused as a double
/// contribution (and, by `contribute`'s contract, leaves the circle —
/// its pool included — unchanged).
pub proof fn lemma_contribute_at_most_once(c: Circle, m: MemberId)
    requires
        c.wf(),
        c.status is Active,
        c.is_member(m),
        c.cell(c.member_index(m), c.current_round as int - 1),
    ensures
        c.contribute_error(m) == Some(FairCircleError::AlreadyContributed),
{
}

/// Only the member at payout-order position `current_round - 1` can claim
/// the round: any other caller is refused as not the recipient.
pub proof fn lemma_claim_only_recipient(c: Circle, m: MemberId)
    requires
        c.wf(),
        c.status is Active,
        c.round_contributions_complete,
        m != c.members@[c.payout_order@[c.current_round as int - 1] as int],
    ensures
        c.claim_error(m) == Some(FairCircleError::NotPayoutRecipient),
{
}

/// The scheduled recipient of a complete round is never refused: in a
/// well-formed active circle the current recipient has never claimed
/// before, so their claim goes through.
pub proof fn lemma_recipient_claim_succeeds(c: Circle)
    requires
        c.wf(),
        c.status is Active,
        c.round_contributions_complete,
    ensures
        c.claim_error(c.members@[c.payout_order@[c.current_round as int - 1] as int]) is None,
{
    let r = c.current_round as int - 1;
    assert(c.has_claimed@[c.payout_order@[r] as int] == (r < c.rounds_paid()));
}

/// Each member is paid at most once over the circle's lifetime: a member
/// whose claimed flag is set can never have another claim accepted, in
/// this or any later round.
pub proof fn lemma_claim_at_most_once(c: Circle, m: MemberId)
    requires
        c.wf(),
        c.status is Active,
        c.is_member(m),
        c.has_claimed@[c.member_index(m)],
    ensures
        c.claim_error(m) == Some(FairCircleError::RoundNotComplete) || c.claim_error(m) == Some(
            FairCircleError::NotPayoutRecipient,
        ),
{
    if c.round_contributions_complete {
        let r = c.current_round as int - 1;
        let ridx = c.payout_order@[r] as int;
        assert(c.has_claimed@[ridx] == (r < c.rounds_paid()));
        let idx = c.member_index(m);
        assert(0 <= idx < c.member_count && c.members@[idx] == m);
        assert(0 <= r < c.member_count);
        assert(ridx < c.member_count);
        if c.members@[ridx] == m {
            if idx < ridx {
                assert(c.members@[idx] != c.members@[ridx]);
            } else if ridx < idx {
                assert(c.members@[ridx] != c.members@[idx]);
            }
            assert(false);
        }
    }
}

} // verus!
