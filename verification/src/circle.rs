//! The circle record: membership roster, lifecycle status, per-round
//! contribution ledger, payout schedule and escrow balance, together with
//! every operation that may change them.

use vstd::prelude::*;

use crate::order::compute_payout_order;
use crate::order::prefix_contains;
use crate::order::prefix_covers;
use crate::order::prefix_distinct;
use crate::order::prefix_in_range;
use crate::order::stable_sorted;

verus! {

/// Fixed capacity of a circle's roster.
pub const MAX_MEMBERS: usize = 10;

/// Quorum required before a circle may be activated.
pub const MIN_MEMBERS: usize = 3;

/// Upper bound on the length of a circle's name.
pub const CIRCLE_NAME_MAX_LEN: usize = 32;

/// Largest per-round contribution amount the escrow arithmetic admits:
/// a full round's pool, `contribution_amount * MAX_MEMBERS`, must fit in a
/// `u64`.
pub const MAX_CONTRIBUTION_AMOUNT: u64 = u64::MAX / 10;

/// An opaque 256-bit principal identity. The circle only ever compares
/// identities for equality; how one is produced or authenticated is the
/// caller's concern.
#[derive(Clone, Copy, PartialEq, Eq, Structural, Debug)]
pub struct MemberId {
    pub w0: u64,
    pub w1: u64,
    pub w2: u64,
    pub w3: u64,
}

/// Lifecycle status of a circle.
#[derive(Clone, Copy, PartialEq, Eq, Structural, Debug)]
pub enum CircleStatus {
    Forming,
    Active,
    Completed,
    Cancelled,
}

/// Every way an operation on a circle can be refused. A refused operation
/// leaves the circle unchanged.
#[derive(Clone, Copy, PartialEq, Eq, Structural, Debug)]
pub enum FairCircleError {
    NameTooLong,
    InvalidContributionAmount,
    InvalidPeriodLength,
    CircleNotForming,
    CircleFull,
    InsufficientFairScore,
    AlreadyJoined,
    NotEnoughMembers,
    Unauthorized,
    CircleNotActive,
    InvalidRound,
    NotMember,
    AlreadyContributed,
    RoundNotComplete,
    NotPayoutRecipient,
    AlreadyClaimed,
}

/// The circle record. Rosters, scores, the payout schedule, the ledger
/// matrix and the claimed flags all live in vectors of fixed length
/// `MAX_MEMBERS`; entries at index `member_count` and beyond are logically
/// absent and are kept in a fixed cleared state.
#[derive(Clone, Debug, PartialEq, Eq)]
pub struct Circle {
    pub creator: MemberId,
    pub name: String,
    pub contribution_amount: u64,
    pub period_length: i64,
    pub min_fair_score: u8,
    pub current_round: u8,
    pub payout_index: u8,
    pub member_count: u8,
    pub status: CircleStatus,
    pub created_at: i64,
    pub round_start_time: i64,
    pub total_pool: u64,
    pub round_contributions_complete: bool,
    pub members: Vec<MemberId>,
    pub fair_scores: Vec<u8>,
    pub payout_order: Vec<u8>,
    pub contributions: Vec<Vec<bool>>,
    pub has_claimed: Vec<bool>,
}

impl Circle {
    /// The ledger cell for member `i` and 0-based round index `r`.
    pub open spec fn cell(self, i: int, r: int) -> bool {
        self.contributions@[i]@[r]
    }

    /// Every vector has the fixed capacity length.
    pub open spec fn dims_ok(self) -> bool {
        &&& self.members@.len() == MAX_MEMBERS
        &&& self.fair_scores@.len() == MAX_MEMBERS
        &&& self.payout_order@.len() == MAX_MEMBERS
        &&& self.has_claimed@.len() == MAX_MEMBERS
        &&& self.contributions@.len() == MAX_MEMBERS
        &&& forall|i: int|
            0 <= i < MAX_MEMBERS ==> (#[trigger] self.contributions@[i])@.len() == MAX_MEMBERS
    }

    /// No two enrolled members share an identity.
    pub open spec fn members_unique(self) -> bool {
        forall|i: int, j: int|
            0 <= i < j < self.member_count ==> self.members@[i] != self.members@[j]
    }

    /// `m` is enrolled.
    pub open spec fn is_member(self, m: MemberId) -> bool {
        exists|i: int| 0 <= i < self.member_count && self.members@[i] == m
    }

    /// The roster index of enrolled member `m` (meaningful only when
    /// `is_member(m)` holds; unique under `members_unique`).
    pub open spec fn member_index(self, m: MemberId) -> int {
        choose|i: int| 0 <= i < self.member_count && self.members@[i] == m
    }

    /// Every enrolled member's cell for round index `r` is set.
    pub open spec fn all_contributed(self, r: int) -> bool {
        forall|i: int| 0 <= i < self.member_count ==> #[trigger] self.cell(i, r)
    }

    /// How many of the first `n` members have a set cell for round index `r`.
    pub open spec fn count_contributed_up_to(self, r: int, n: int) -> int
        decreases n,
    {
        if n <= 0 {
            0
        } else {
            self.count_contributed_up_to(r, n - 1) + if self.cell(n - 1, r) {
                1int
            } else {
                0int
            }
        }
    }

    /// How many enrolled members have contributed for round index `r`.
    pub open spec fn count_contributed(self, r: int) -> int {
        self.count_contributed_up_to(r, self.member_count as int)
    }

    /// The payout-order prefix names an enrolled index in every slot, with
    /// no repetition: together with `order_covers` it is a permutation of
    /// `[0, member_count)`.
    pub open spec fn order_prefix_valid(self) -> bool {
        &&& prefix_in_range(self.payout_order@, self.member_count as int)
        &&& prefix_distinct(self.payout_order@, self.member_count as int)
    }

    /// Roster index `v` appears somewhere in the payout-order prefix.
    pub open spec fn order_contains(self, v: int) -> bool {
        prefix_contains(self.payout_order@, self.member_count as int, v)
    }

    /// Every enrolled index appears in the payout-order prefix.
    pub open spec fn order_covers(self) -> bool {
        prefix_covers(self.payout_order@, self.member_count as int)
    }

    /// The number of rounds already paid out: rounds `1..=rounds_paid`
    /// (1-based) have been claimed and drained.
    pub open spec fn rounds_paid(self) -> int {
        if self.status is Completed {
            self.member_count as int
        } else {
            self.current_round as int - 1
        }
    }

    /// Ledger shape away from the current round: rounds already paid are
    /// fully contributed, later rounds are untouched, and roster rows past
    /// `member_count` are clear.
    pub open spec fn ledger_shape_ok(self) -> bool {
        &&& forall|i: int, r: int|
            0 <= i < self.member_count && 0 <= r < self.rounds_paid() ==> #[trigger] self.cell(i, r)
        &&& forall|i: int, r: int|
            0 <= i < MAX_MEMBERS && self.rounds_paid() < r < MAX_MEMBERS
                ==> !#[trigger] self.cell(i, r)
        &&& forall|i: int, r: int|
            self.member_count <= i < MAX_MEMBERS && 0 <= r < MAX_MEMBERS
                ==> !#[trigger] self.cell(i, r)
    }

    /// The claimed flags match the payout schedule exactly: the member in
    /// payout position `k` has claimed iff round `k + 1` has been paid.
    pub open spec fn claims_match_schedule(self) -> bool {
        &&& forall|k: int|
            0 <= k < self.member_count
                ==> #[trigger] self.has_claimed@[self.payout_order@[k] as int] == (k < self
                .rounds_paid())
        &&& forall|i: int|
            self.member_count <= i < MAX_MEMBERS ==> !#[trigger] self.has_claimed@[i]
    }

    /// Well-formedness: established by `create_circle` and preserved by
    /// every operation. All other public contracts assume it.
    pub open spec fn wf(self) -> bool {
        &&& self.dims_ok()
        &&& self.name@.len() <= CIRCLE_NAME_MAX_LEN
        &&& 0 < self.contribution_amount <= MAX_CONTRIBUTION_AMOUNT
        &&& self.period_length > 0
        &&& 1 <= self.member_count <= MAX_MEMBERS
        &&& self.members@[0] == self.creator
        &&& self.members_unique()
        &&& match self.status {
            CircleStatus::Forming => {
                &&& self.current_round == 0
                &&& self.total_pool == 0
                &&& !self.round_contributions_complete
                &&& forall|i: int, r: int|
                    0 <= i < MAX_MEMBERS && 0 <= r < MAX_MEMBERS ==> !#[trigger] self.cell(i, r)
                &&& forall|i: int| 0 <= i < MAX_MEMBERS ==> !#[trigger] self.has_claimed@[i]
            },
            CircleStatus::Active => {
                &&& MIN_MEMBERS <= self.member_count
                &&& 1 <= self.current_round <= self.member_count
                &&& self.order_prefix_valid()
                &&& self.order_covers()
                &&& self.ledger_shape_ok()
                &&& self.claims_match_schedule()
                &&& self.round_contributions_complete == self.all_contributed(
                    self.current_round as int - 1,
                )
                &&& self.total_pool == self.contribution_amount * self.count_contributed(
                    self.current_round as int - 1,
                )
            },
            CircleStatus::Completed => {
                &&& MIN_MEMBERS <= self.member_count
                &&& self.current_round == self.member_count
                &&& self.total_pool == 0
                &&& !self.round_contributions_complete
                &&& self.order_prefix_valid()
                &&& self.order_covers()
                &&& self.ledger_shape_ok()
                &&& self.claims_match_schedule()
            },
            CircleStatus::Cancelled => true,
        }
    }

    /// Why `create_circle` with these arguments is refused, if it is.
    pub open spec fn create_error(
        name: Seq<char>,
        contribution_amount: u64,
        period_length: i64,
    ) -> Option<FairCircleError> {
        if name.len() > CIRCLE_NAME_MAX_LEN {
            Some(FairCircleError::NameTooLong)
        } else if contribution_amount == 0 {
            Some(FairCircleError::InvalidContributionAmount)
        } else if period_length <= 0 {
            Some(FairCircleError::InvalidPeriodLength)
        } else {
            None
        }
    }

    /// Opens a new circle in `Forming` status with the creator enrolled as
    /// its sole member, at roster index 0 and with placeholder score 0.
    ///
    /// The bound on `contribution_amount` is a machine limit: a full
    /// round's pool, `contribution_amount * member_count`, must fit in a
    /// `u64`.
    pub fn create_circle(
        creator: MemberId,
        name: String,
        contribution_amount: u64,
        period_length: i64,
        min_fair_score: u8,
        now: i64,
    ) -> (result: Result<Circle, FairCircleError>)
        requires
            contribution_amount <= MAX_CONTRIBUTION_AMOUNT,
        ensures
            match result {
                Ok(c) => {
                    &&& Self::create_error(name@, contribution_amount, period_length) is None
                    &&& c.wf()
                    &&& c.creator == creator
                    &&& c.name@ == name@
                    &&& c.contribution_amount == contribution_amount
                    &&& c.period_length == period_length
                    &&& c.min_fair_score == min_fair_score
                    &&& c.status == CircleStatus::Forming
                    &&& c.member_count == 1
                    &&& c.members@[0] == creator
                    &&& c.fair_scores@[0] == 0
                    &&& c.created_at == now
                    &&& c.round_start_time == 0
                    &&& c.current_round == 0
                    &&& c.total_pool == 0
                },
                Err(e) => Some(e) == Self::create_error(name@, contribution_amount, period_length),
            },
    {
        if name.as_str().unicode_len() > CIRCLE_NAME_MAX_LEN {
            return Err(FairCircleError::NameTooLong);
        }
        if contribution_amount == 0 {
            return Err(FairCircleError::InvalidContributionAmount);
        }
        if period_length <= 0 {
            return Err(FairCircleError::InvalidPeriodLength);
        }
        let circle = Circle {
            creator,
            name,
            contribution_amount,
            period_length,
            min_fair_score,
            current_round: 0,
            payout_index: 0,
            member_count: 1,
            status: CircleStatus::Forming,
            created_at: now,
            round_start_time: 0,
            total_pool: 0,
            round_contributions_complete: false,
            members: repeat_id(creator),
            fair_scores: repeat_u8(0),
            payout_order: repeat_u8(0),
            contributions: empty_matrix(),
            has_claimed: repeat_bool(false),
        };
        Ok(circle)
    }

    /// Why `start_circle` called by `caller` is refused, if it is.
    pub open spec fn start_error(self, caller: MemberId) -> Option<FairCircleError> {
        if !(self.status is Forming) {
            Some(FairCircleError::CircleNotForming)
        } else if self.member_count < MIN_MEMBERS {
            Some(FairCircleError::NotEnoughMembers)
        } else if caller != self.creator {
            Some(FairCircleError::Unauthorized)
        } else {
            None
        }
    }

    /// Activates a forming circle once quorum is met: only the creator may
    /// do so. The payout order over the enrolled prefix becomes a
    /// permutation of `[0, member_count)`, sorted by score descending with
    /// ties keeping join order, and round 1 opens with an empty ledger
    /// column and an empty pool.
    pub fn start_circle(&mut self, caller: MemberId, now: i64) -> (result: Result<
        (),
        FairCircleError,
    >)
        requires
            old(self).wf(),
        ensures
            final(self).wf(),
            match result {
                Ok(()) => {
                    &&& old(self).start_error(caller) is None
                    &&& final(self).status == CircleStatus::Active
                    &&& final(self).current_round == 1
                    &&& final(self).round_start_time == now
                    &&& final(self).order_prefix_valid()
                    &&& final(self).order_covers()
                    &&& stable_sorted(
                        final(self).payout_order@,
                        old(self).fair_scores@,
                        old(self).member_count as int,
                    )
                    &&& final(self).member_count == old(self).member_count
                    &&& final(self).members@ == old(self).members@
                    &&& final(self).fair_scores@ == old(self).fair_scores@
                    &&& final(self).creator == old(self).creator
                    &&& final(self).name@ == old(self).name@
                    &&& final(self).contribution_amount == old(self).contribution_amount
                    &&& final(self).period_length == old(self).period_length
                    &&& final(self).min_fair_score == old(self).min_fair_score
                    &&& final(self).total_pool == 0
                    &&& final(self).has_claimed@ == old(self).has_claimed@
                    &&& final(self).contributions@ == old(self).contributions@
                },
                Err(e) => {
                    &&& *final(self) == *old(self)
                    &&& Some(e) == old(self).start_error(caller)
                },
            },
    {
        if self.status != CircleStatus::Forming {
            return Err(FairCircleError::CircleNotForming);
        }
        if (self.member_count as usize) < MIN_MEMBERS {
            return Err(FairCircleError::NotEnoughMembers);
        }
        if caller != self.creator {
            return Err(FairCircleError::Unauthorized);
        }
        self.status = CircleStatus::Active;
        self.current_round = 1;
        self.round_start_time = now;
        self.payout_order = compute_payout_order(&self.fair_scores, self.member_count as usize);
        proof {
            assert forall|i: int, r: int|
                0 <= i < MAX_MEMBERS && 0 <= r < MAX_MEMBERS implies !self.cell(i, r) by {
                assert(!old(self).cell(i, r));
            }
            lemma_count_empty(*self, 0, self.member_count as int);
            assert(!self.cell(0, 0));
            assert(!self.all_contributed(0));
        }
        Ok(())
    }

    /// Why `join_circle` by `member` with `fair_score` is refused, if it is.
    pub open spec fn join_error(self, member: MemberId, fair_score: u8) -> Option<
        FairCircleError,
    > {
        if !(self.status is Forming) {
            Some(FairCircleError::CircleNotForming)
        } else if self.member_count >= MAX_MEMBERS {
            Some(FairCircleError::CircleFull)
        } else if fair_score < self.min_fair_score {
            Some(FairCircleError::InsufficientFairScore)
        } else if self.is_member(member) {
            Some(FairCircleError::AlreadyJoined)
        } else {
            None
        }
    }

    /// Enrolls `member` with `fair_score` while the circle is forming:
    /// appended at roster index `member_count`, with a cleared ledger row
    /// and a cleared claimed flag.
    pub fn join_circle(&mut self, member: MemberId, fair_score: u8) -> (result: Result<
        (),
        FairCircleError,
    >)
        requires
            old(self).wf(),
        ensures
            final(self).wf(),
            match result {
                Ok(()) => {
                    &&& old(self).join_error(member, fair_score) is None
                    &&& final(self).member_count == old(self).member_count + 1
                    &&& final(self).members@ == old(self).members@.update(
                        old(self).member_count as int,
                        member,
                    )
                    &&& final(self).fair_scores@ == old(self).fair_scores@.update(
                        old(self).member_count as int,
                        fair_score,
                    )
                    &&& final(self).status == old(self).status
                    &&& final(self).creator == old(self).creator
                    &&& final(self).name@ == old(self).name@
                    &&& final(self).contribution_amount == old(self).contribution_amount
                    &&& final(self).period_length == old(self).period_length
                    &&& final(self).min_fair_score == old(self).min_fair_score
                    &&& final(self).current_round == old(self).current_round
                    &&& final(self).total_pool == old(self).total_pool
                    &&& final(self).payout_order@ == old(self).payout_order@
                    &&& final(self).has_claimed@ == old(self).has_claimed@
                    &&& forall|i: int, r: int|
                        0 <= i < MAX_MEMBERS && 0 <= r < MAX_MEMBERS
                            ==> !#[trigger] final(self).cell(i, r)
                },
                Err(e) => {
                    &&& *final(self) == *old(self)
                    &&& Some(e) == old(self).join_error(member, fair_score)
                },
            },
    {
        if self.status != CircleStatus::Forming {
            return Err(FairCircleError::CircleNotForming);
        }
        if self.member_count as usize >= MAX_MEMBERS {
            return Err(FairCircleError::CircleFull);
        }
        if fair_score < self.min_fair_score {
            return Err(FairCircleError::InsufficientFairScore);
        }
        let count = self.member_count as usize;
        if let Some(i) = find_member_index(&self.members, count, member) {
            proof {
                assert(0 <= i < self.member_count && self.members@[i as int] == member);
                assert(self.is_member(member));
            }
            return Err(FairCircleError::AlreadyJoined);
        }
        self.members[count] = member;
        self.fair_scores[count] = fair_score;
        self.contributions[count] = repeat_bool(false);
        self.has_claimed[count] = false;
        self.member_count = self.member_count + 1;
        proof {
            assert forall|i: int, r: int|
                0 <= i < MAX_MEMBERS && 0 <= r < MAX_MEMBERS implies !self.cell(i, r) by {
                if i != count {
                    assert(self.contributions@[i] == old(self).contributions@[i]);
                    assert(!old(self).cell(i, r));
                }
            }
            assert forall|i: int, j: int|
                0 <= i < j < self.member_count implies self.members@[i] != self.members@[j] by {
                if j < count {
                    assert(old(self).members@[i] != old(self).members@[j]);
                }
            }
        }
        Ok(())
    }

    /// Why `contribute` by `member` is refused, if it is.
    pub open spec fn contribute_error(self, member: MemberId) -> Option<FairCircleError> {
        if !(self.status is Active) {
            Some(FairCircleError::CircleNotActive)
        } else if !(1 <= self.current_round <= self.member_count) {
            Some(FairCircleError::InvalidRound)
        } else if !self.is_member(member) {
            Some(FairCircleError::NotMember)
        } else if self.cell(self.member_index(member), self.current_round as int - 1) {
            Some(FairCircleError::AlreadyContributed)
        } else {
            None
        }
    }

    /// Records `member`'s contribution for the current round, at most once
    /// per member and round. On success the returned amount — always the
    /// fixed `contribution_amount` — is owed by `member` into the pooled
    /// account, the member's cell for the round is set, the pool grows by
    /// that amount, and the round-complete flag becomes true exactly when
    /// every enrolled member's cell for the round is set.
    pub fn contribute(&mut self, member: MemberId) -> (result: Result<u64, FairCircleError>)
        requires
            old(self).wf(),
        ensures
            final(self).wf(),
            match result {
                Ok(amount) => {
                    &&& old(self).contribute_error(member) is None
                    &&& amount == old(self).contribution_amount
                    &&& forall|i: int, r: int|
                        0 <= i < MAX_MEMBERS && 0 <= r < MAX_MEMBERS
                            ==> #[trigger] final(self).cell(i, r) == (old(self).cell(i, r) || (i
                            == old(self).member_index(member) && r == old(self).current_round as int
                            - 1))
                    &&& final(self).total_pool == old(self).total_pool + old(
                        self,
                    ).contribution_amount
                    &&& final(self).round_contributions_complete == final(self).all_contributed(
                        old(self).current_round as int - 1,
                    )
                    &&& final(self).status == old(self).status
                    &&& final(self).current_round == old(self).current_round
                    &&& final(self).member_count == old(self).member_count
                    &&& final(self).members@ == old(self).members@
                    &&& final(self).fair_scores@ == old(self).fair_scores@
                    &&& final(self).payout_order@ == old(self).payout_order@
                    &&& final(self).has_claimed@ == old(self).has_claimed@
                    &&& final(self).creator == old(self).creator
                    &&& final(self).name@ == old(self).name@
                    &&& final(self).contribution_amount == old(self).contribution_amount
                    &&& final(self).period_length == old(self).period_length
                    &&& final(self).min_fair_score == old(self).min_fair_score
                    &&& final(self).round_start_time == old(self).round_start_time
                },
                Err(e) => {
                    &&& *final(self) == *old(self)
                    &&& Some(e) == old(self).contribute_error(member)
                },
            },
    {
        if self.status != CircleStatus::Active {
            return Err(FairCircleError::CircleNotActive);
        }
        let round = self.current_round as usize;
        if round == 0 || round > self.member_count as usize {
            return Err(FairCircleError::InvalidRound);
        }
        let count = self.member_count as usize;
        let idx = match find_member_index(&self.members, count, member) {
            Some(i) => i,
            None => {
                return Err(FairCircleError::NotMember);
            },
        };
        proof {
            assert(0 <= idx < self.member_count && self.members@[idx as int] == member);
            assert(self.is_member(member));
            let ci = self.member_index(member);
            assert(0 <= ci < self.member_count && self.members@[ci] == member);
            assert(ci == idx as int);
        }
        if self.contributions[idx][round - 1] {
            return Err(FairCircleError::AlreadyContributed);
        }
        proof {
            lemma_count_missing_one(*self, round - 1, self.member_count as int, idx as int);
            assert(self.total_pool + self.contribution_amount <= u64::MAX) by (nonlinear_arith)
                requires
                    self.total_pool == self.contribution_amount * self.count_contributed_up_to(
                        round - 1,
                        self.member_count as int,
                    ),
                    0 <= self.count_contributed_up_to(round - 1, self.member_count as int)
                        <= self.member_count - 1,
                    0 < self.member_count <= 10,
                    0 < self.contribution_amount <= u64::MAX / 10,
            ;
        }
        let ghost prev = *self;
        self.contributions[idx][round - 1] = true;
        self.total_pool = self.total_pool + self.contribution_amount;
        let all = column_all_set(&self.contributions, count, round - 1);
        if all {
            self.round_contributions_complete = true;
        }
        proof {
            let count_ = self.member_count as int;
            let rr = round - 1;
            assert forall|i: int, r: int|
                0 <= i < MAX_MEMBERS && 0 <= r < MAX_MEMBERS implies #[trigger] self.cell(i, r)
                == (prev.cell(i, r) || (i == idx as int && r == rr)) by {
                if i != idx as int {
                    assert(self.contributions@[i] == prev.contributions@[i]);
                }
            }
            if all {
                assert forall|i: int| 0 <= i < count_ implies #[trigger] self.cell(i, rr) by {
                    assert(self.contributions@[i]@[rr]);
                }
            } else {
                assert(exists|i: int| 0 <= i < count_ && !self.contributions@[i]@[rr]);
                let w = choose|i: int| 0 <= i < count_ && !self.contributions@[i]@[rr];
                assert(!self.cell(w, rr));
                assert(!self.all_contributed(rr));
            }
            assert(self.round_contributions_complete == self.all_contributed(rr));
            assert(!prev.all_contributed(rr));
            assert forall|i: int, r: int|
                0 <= i < count_ && 0 <= r < self.rounds_paid() implies #[trigger] self.cell(
                i,
                r,
            ) by {
                assert(prev.cell(i, r));
            }
            assert forall|i: int, r: int|
                0 <= i < MAX_MEMBERS && self.rounds_paid() < r < MAX_MEMBERS implies !#[trigger] self.cell(
                i,
                r,
            ) by {
                assert(!prev.cell(i, r));
            }
            assert forall|i: int, r: int|
                count_ <= i < MAX_MEMBERS && 0 <= r < MAX_MEMBERS implies !#[trigger] self.cell(
                i,
                r,
            ) by {
                assert(!prev.cell(i, r));
            }
            assert forall|k: int|
                0 <= k < count_ implies #[trigger] self.has_claimed@[self.payout_order@[k] as int]
                == (k < self.rounds_paid()) by {
                assert(prev.has_claimed@[prev.payout_order@[k] as int] == (k < prev.rounds_paid()));
            }
            assert forall|i: int|
                count_ <= i < MAX_MEMBERS implies !#[trigger] self.has_claimed@[i] by {
                assert(!prev.has_claimed@[i]);
            }
            lemma_count_set_one(prev, *self, rr, count_, idx as int);
            assert(self.total_pool == self.contribution_amount * self.count_contributed_up_to(
                rr,
                count_,
            )) by (nonlinear_arith)
                requires
                    self.count_contributed_up_to(rr, count_) == prev.count_contributed_up_to(
                        rr,
                        count_,
                    ) + 1,
                    self.total_pool == prev.total_pool + prev.contribution_amount,
                    prev.total_pool == prev.contribution_amount * prev.count_contributed_up_to(
                        rr,
                        count_,
                    ),
                    self.contribution_amount == prev.contribution_amount,
            ;
        }
        Ok(self.contribution_amount)
    }

    /// Why `claim_payout` by `recipient` is refused, if it is.
    pub open spec fn claim_error(self, recipient: MemberId) -> Option<FairCircleError> {
        if !(self.status is Active) {
            Some(FairCircleError::CircleNotActive)
        } else if !self.round_contributions_complete {
            Some(FairCircleError::RoundNotComplete)
        } else if self.members@[self.payout_order@[self.current_round as int - 1] as int]
            != recipient {
            Some(FairCircleError::NotPayoutRecipient)
        } else if self.has_claimed@[self.payout_order@[self.current_round as int - 1] as int] {
            Some(FairCircleError::AlreadyClaimed)
        } else {
            None
        }
    }

    /// Pays the completed current round out to its scheduled recipient:
    /// the member at payout-order position `current_round - 1`, and nobody
    /// else. On success the returned amount — one full round,
    /// `contribution_amount * member_count` — is owed from the pooled
    /// account to `recipient`, the pool is drained to zero, the recipient
    /// is marked claimed, and the circle either advances to the next round
    /// or, after the final round, completes.
    pub fn claim_payout(&mut self, recipient: MemberId, now: i64) -> (result: Result<
        u64,
        FairCircleError,
    >)
        requires
            old(self).wf(),
        ensures
            final(self).wf(),
            match result {
                Ok(amount) => {
                    &&& old(self).claim_error(recipient) is None
                    &&& amount == old(self).contribution_amount * (old(self).member_count as u64)
                    &&& final(self).has_claimed@ == old(self).has_claimed@.update(
                        old(self).payout_order@[old(self).current_round as int - 1] as int,
                        true,
                    )
                    &&& final(self).total_pool == 0
                    &&& !final(self).round_contributions_complete
                    &&& if old(self).current_round == old(self).member_count {
                        &&& final(self).status == CircleStatus::Completed
                        &&& final(self).current_round == old(self).current_round
                        &&& final(self).round_start_time == old(self).round_start_time
                    } else {
                        &&& final(self).status == CircleStatus::Active
                        &&& final(self).current_round == old(self).current_round + 1
                        &&& final(self).round_start_time == now
                    }
                    &&& final(self).member_count == old(self).member_count
                    &&& final(self).members@ == old(self).members@
                    &&& final(self).fair_scores@ == old(self).fair_scores@
                    &&& final(self).payout_order@ == old(self).payout_order@
                    &&& final(self).contributions@ == old(self).contributions@
                    &&& final(self).creator == old(self).creator
                    &&& final(self).name@ == old(self).name@
                    &&& final(self).contribution_amount == old(self).contribution_amount
                    &&& final(self).period_length == old(self).period_length
                    &&& final(self).min_fair_score == old(self).min_fair_score
                },
                Err(e) => {
                    &&& *final(self) == *old(self)
                    &&& Some(e) == old(self).claim_error(recipient)
                },
            },
    {
        if self.status != CircleStatus::Active {
            return Err(FairCircleError::CircleNotActive);
        }
        if !self.round_contributions_complete {
            return Err(FairCircleError::RoundNotComplete);
        }
        let round = self.current_round as usize;
        let ridx = self.payout_order[round - 1] as usize;
        if self.members[ridx] != recipient {
            return Err(FairCircleError::NotPayoutRecipient);
        }
        if self.has_claimed[ridx] {
            return Err(FairCircleError::AlreadyClaimed);
        }
        proof {
            lemma_count_full(*self, round - 1, self.member_count as int);
            assert(self.total_pool == self.contribution_amount * (self.member_count as int));
            assert(self.contribution_amount * (self.member_count as u64) <= u64::MAX)
                by (nonlinear_arith)
                requires
                    0 < self.member_count <= 10,
                    0 < self.contribution_amount <= u64::MAX / 10,
            ;
        }
        let payout = self.contribution_amount * self.member_count as u64;
        let ghost prev = *self;
        self.has_claimed[ridx] = true;
        self.total_pool = self.total_pool - payout;
        self.round_contributions_complete = false;
        if self.current_round >= self.member_count {
            self.status = CircleStatus::Completed;
        } else {
            self.current_round = self.current_round + 1;
            self.round_start_time = now;
        }
        proof {
            lemma_claim_wf(prev, *self, ridx as int, round as int);
        }
        Ok(payout)
    }

    /// Why `update_fair_score` is refused, if it is.
    pub open spec fn update_score_error(self, authority: MemberId, member: MemberId) -> Option<
        FairCircleError,
    > {
        if authority != self.creator {
            Some(FairCircleError::Unauthorized)
        } else if !self.is_member(member) {
            Some(FairCircleError::NotMember)
        } else {
            None
        }
    }

    /// Overwrites an enrolled member's eligibility score, on the
    /// creator's authority alone. The payout order is never recomputed:
    /// after activation a score change has no effect on the schedule.
    pub fn update_fair_score(
        &mut self,
        authority: MemberId,
        member: MemberId,
        new_score: u8,
    ) -> (result: Result<(), FairCircleError>)
        requires
            old(self).wf(),
        ensures
            final(self).wf(),
            match result {
                Ok(()) => {
                    &&& old(self).update_score_error(authority, member) is None
                    &&& final(self).fair_scores@ == old(self).fair_scores@.update(
                        old(self).member_index(member),
                        new_score,
                    )
                    &&& final(self).payout_order@ == old(self).payout_order@
                    &&& final(self).members@ == old(self).members@
                    &&& final(self).has_claimed@ == old(self).has_claimed@
                    &&& final(self).contributions@ == old(self).contributions@
                    &&& final(self).status == old(self).status
                    &&& final(self).current_round == old(self).current_round
                    &&& final(self).member_count == old(self).member_count
                    &&& final(self).total_pool == old(self).total_pool
                    &&& final(self).round_contributions_complete == old(
                        self,
                    ).round_contributions_complete
                    &&& final(self).creator == old(self).creator
                    &&& final(self).name@ == old(self).name@
                    &&& final(self).contribution_amount == old(self).contribution_amount
                    &&& final(self).period_length == old(self).period_length
                    &&& final(self).min_fair_score == old(self).min_fair_score
                    &&& final(self).round_start_time == old(self).round_start_time
                },
                Err(e) => {
                    &&& *final(self) == *old(self)
                    &&& Some(e) == old(self).update_score_error(authority, member)
                },
            },
    {
        if authority != self.creator {
            return Err(FairCircleError::Unauthorized);
        }
        let count = self.member_count as usize;
        let idx = match find_member_index(&self.members, count, member) {
            Some(i) => i,
            None => {
                return Err(FairCircleError::NotMember);
            },
        };
        proof {
            assert(0 <= idx < self.member_count && self.members@[idx as int] == member);
            assert(self.is_member(member));
            let ci = self.member_index(member);
            assert(0 <= ci < self.member_count && self.members@[ci] == member);
            assert(ci == idx as int);
        }
        let ghost prev = *self;
        self.fair_scores[idx] = new_score;
        proof {
            lemma_wf_frame(prev, *self);
        }
        Ok(())
    }

    /// The roster index owed the current round's payout: payout-order
    /// position `current_round - 1`.
    pub fn resolve_recipient(&self) -> (r: u8)
        requires
            self.wf(),
            self.status is Active,
        ensures
            r == self.payout_order@[self.current_round as int - 1],
            r < self.member_count,
    {
        self.payout_order[self.current_round as usize - 1]
    }
}

/// Well-formedness only reads the score vector's length, never its
/// entries: a circle stays well formed when everything else is kept.
proof fn lemma_wf_frame(prev: Circle, cur: Circle)
    requires
        prev.wf(),
        cur.fair_scores@.len() == prev.fair_scores@.len(),
        cur.members@ == prev.members@,
        cur.payout_order@ == prev.payout_order@,
        cur.has_claimed@ == prev.has_claimed@,
        cur.contributions@ == prev.contributions@,
        cur.member_count == prev.member_count,
        cur.status == prev.status,
        cur.current_round == prev.current_round,
        cur.total_pool == prev.total_pool,
        cur.round_contributions_complete == prev.round_contributions_complete,
        cur.creator == prev.creator,
        cur.name@ == prev.name@,
        cur.contribution_amount == prev.contribution_amount,
        cur.period_length == prev.period_length,
    ensures
        cur.wf(),
{
    let count = prev.member_count as int;
    assert forall|i: int, r: int|
        0 <= i < MAX_MEMBERS && 0 <= r < MAX_MEMBERS implies #[trigger] cur.cell(i, r)
        == prev.cell(i, r) by {
        assert(cur.contributions@[i] == prev.contributions@[i]);
    }
    assert forall|i: int|
        0 <= i < MAX_MEMBERS implies #[trigger] cur.has_claimed@[i] == prev.has_claimed@[i] by {
    }
    match prev.status {
        CircleStatus::Forming => {
            assert forall|i: int, r: int|
                0 <= i < MAX_MEMBERS && 0 <= r < MAX_MEMBERS implies !#[trigger] cur.cell(
                i,
                r,
            ) by {
                assert(!prev.cell(i, r));
            }
        },
        CircleStatus::Cancelled => {
        },
        _ => {
            let paid = prev.rounds_paid();
            assert(cur.rounds_paid() == paid);
            assert forall|i: int, r: int|
                0 <= i < count && 0 <= r < paid implies #[trigger] cur.cell(i, r) by {
                assert(prev.cell(i, r));
            }
            assert forall|i: int, r: int|
                0 <= i < MAX_MEMBERS && paid < r < MAX_MEMBERS implies !#[trigger] cur.cell(
                i,
                r,
            ) by {
                assert(!prev.cell(i, r));
            }
            assert forall|i: int, r: int|
                count <= i < MAX_MEMBERS && 0 <= r < MAX_MEMBERS implies !#[trigger] cur.cell(
                i,
                r,
            ) by {
                assert(!prev.cell(i, r));
            }
            assert forall|k: int|
                0 <= k < count implies #[trigger] cur.has_claimed@[cur.payout_order@[k] as int] == (
                k < paid) by {
                assert(prev.has_claimed@[prev.payout_order@[k] as int] == (k < paid));
            }
            if cur.status is Active {
                let rr = prev.current_round as int - 1;
                if prev.all_contributed(rr) {
                    assert forall|i: int| 0 <= i < count implies #[trigger] cur.cell(i, rr) by {
                        assert(prev.cell(i, rr));
                    }
                    assert(cur.all_contributed(rr));
                } else {
                    assert(exists|i: int| 0 <= i < count && !prev.cell(i, rr));
                    let w = choose|i: int| 0 <= i < count && !prev.cell(i, rr);
                    assert(!cur.cell(w, rr));
                    assert(!cur.all_contributed(rr));
                }
                lemma_count_same(prev, cur, rr, count);
            }
        },
    }
}

/// After a successful payout the circle is well formed again: the claimed
/// flags track the schedule one round further, and the drained pool and
/// ledger match the advanced (or completed) round.
proof fn lemma_claim_wf(prev: Circle, cur: Circle, ridx: int, round: int)
    requires
        prev.wf(),
        prev.status is Active,
        prev.round_contributions_complete,
        round == prev.current_round as int,
        ridx == prev.payout_order@[round - 1] as int,
        !prev.has_claimed@[ridx],
        cur.has_claimed@ == prev.has_claimed@.update(ridx, true),
        cur.total_pool == 0,
        !cur.round_contributions_complete,
        cur.members@ == prev.members@,
        cur.fair_scores@ == prev.fair_scores@,
        cur.payout_order@ == prev.payout_order@,
        cur.contributions@ == prev.contributions@,
        cur.member_count == prev.member_count,
        cur.creator == prev.creator,
        cur.name@ == prev.name@,
        cur.contribution_amount == prev.contribution_amount,
        cur.period_length == prev.period_length,
        if prev.current_round == prev.member_count {
            cur.status is Completed && cur.current_round == prev.current_round
        } else {
            cur.status is Active && cur.current_round == prev.current_round + 1
        },
    ensures
        cur.wf(),
{
    let count = prev.member_count as int;
    assert forall|i: int, r: int|
        0 <= i < MAX_MEMBERS && 0 <= r < MAX_MEMBERS implies #[trigger] cur.cell(i, r)
        == prev.cell(i, r) by {
        assert(cur.contributions@[i] == prev.contributions@[i]);
    }
    let paid = cur.rounds_paid();
    assert(paid == round);
    assert forall|i: int, r: int|
        0 <= i < count && 0 <= r < paid implies #[trigger] cur.cell(i, r) by {
        if r < round - 1 {
            assert(prev.cell(i, r));
        } else {
            assert(prev.all_contributed(round - 1));
            assert(prev.cell(i, round - 1));
        }
    }
    assert forall|k: int|
        0 <= k < count implies #[trigger] cur.has_claimed@[cur.payout_order@[k] as int] == (k
        < paid) by {
        if k == round - 1 {
            assert(cur.has_claimed@[ridx]);
        } else {
            assert(prev.payout_order@[k] != prev.payout_order@[round - 1]);
            assert(cur.has_claimed@[cur.payout_order@[k] as int] == prev.has_claimed@[prev.payout_order@[k] as int]);
        }
    }
    if cur.status is Active {
        assert forall|i: int|
            0 <= i < count implies !#[trigger] cur.cell(i, cur.current_round as int - 1) by {
            assert(!prev.cell(i, round));
        }
        assert(!cur.cell(0, cur.current_round as int - 1));
        assert(!cur.all_contributed(cur.current_round as int - 1));
        lemma_count_empty(cur, cur.current_round as int - 1, count);
    }
}

/// A cleared ledger column counts no contributions.
proof fn lemma_count_empty(c: Circle, r: int, n: int)
    requires
        forall|i: int| 0 <= i < n ==> !c.cell(i, r),
    ensures
        c.count_contributed_up_to(r, n) == 0,
    decreases n,
{
    if n > 0 {
        lemma_count_empty(c, r, n - 1);
    }
}

/// A fully contributed ledger column counts every member.
proof fn lemma_count_full(c: Circle, r: int, n: int)
    requires
        0 <= n,
        forall|i: int| 0 <= i < n ==> c.cell(i, r),
    ensures
        c.count_contributed_up_to(r, n) == n,
    decreases n,
{
    if n > 0 {
        lemma_count_full(c, r, n - 1);
    }
}

/// The contribution count only reads the ledger column it counts.
proof fn lemma_count_same(c1: Circle, c2: Circle, r: int, n: int)
    requires
        forall|i: int| 0 <= i < n ==> c1.cell(i, r) == c2.cell(i, r),
    ensures
        c1.count_contributed_up_to(r, n) == c2.count_contributed_up_to(r, n),
    decreases n,
{
    if n > 0 {
        lemma_count_same(c1, c2, r, n - 1);
    }
}

/// Setting one cleared cell raises the column's contribution count by one.
proof fn lemma_count_set_one(c1: Circle, c2: Circle, r: int, n: int, idx: int)
    requires
        0 <= idx < n,
        !c1.cell(idx, r),
        c2.cell(idx, r),
        forall|i: int| 0 <= i < n && i != idx ==> c1.cell(i, r) == c2.cell(i, r),
    ensures
        c2.count_contributed_up_to(r, n) == c1.count_contributed_up_to(r, n) + 1,
    decreases n,
{
    if idx == n - 1 {
        lemma_count_same(c1, c2, r, n - 1);
    } else if n > 0 {
        lemma_count_set_one(c1, c2, r, n - 1, idx);
    }
}

/// A column with at least one cleared cell counts at most all the others.
proof fn lemma_count_missing_one(c: Circle, r: int, n: int, idx: int)
    requires
        0 <= idx < n,
        !c.cell(idx, r),
    ensures
        0 <= c.count_contributed_up_to(r, n) <= n - 1,
    decreases n,
{
    if idx == n - 1 {
        lemma_count_bounds(c, r, n - 1);
    } else {
        lemma_count_missing_one(c, r, n - 1, idx);
    }
}

/// The contribution count never exceeds the number of members counted.
proof fn lemma_count_bounds(c: Circle, r: int, n: int)
    requires
        0 <= n,
    ensures
        0 <= c.count_contributed_up_to(r, n) <= n,
    decreases n,
{
    if n > 0 {
        lemma_count_bounds(c, r, n - 1);
    }
}

/// Whether every enrolled member's cell in ledger column `r` is set.
fn column_all_set(contributions: &Vec<Vec<bool>>, count: usize, r: usize) -> (all: bool)
    requires
        count <= contributions@.len(),
        forall|i: int| 0 <= i < count ==> r < (#[trigger] contributions@[i])@.len(),
    ensures
        all == (forall|i: int| 0 <= i < count ==> #[trigger] contributions@[i]@[r as int]),
{
    let mut i: usize = 0;
    while i < count
        invariant
            i <= count <= contributions@.len(),
            forall|k: int| 0 <= k < count ==> r < (#[trigger] contributions@[k])@.len(),
            forall|k: int| 0 <= k < i ==> #[trigger] contributions@[k]@[r as int],
        decreases count - i,
    {
        if !contributions[i][r] {
            return false;
        }
        i += 1;
    }
    true
}

/// First roster index among the enrolled prefix holding identity `m`, if
/// any.
fn find_member_index(members: &Vec<MemberId>, count: usize, m: MemberId) -> (r: Option<usize>)
    requires
        count <= members@.len(),
    ensures
        match r {
            Some(i) => {
                &&& i < count
                &&& members@[i as int] == m
                &&& forall|k: int| 0 <= k < i ==> members@[k] != m
            },
            None => forall|k: int| 0 <= k < count ==> members@[k] != m,
        },
{
    let mut i: usize = 0;
    while i < count
        invariant
            i <= count <= members@.len(),
            forall|k: int| 0 <= k < i ==> members@[k] != m,
        decreases count - i,
    {
        if members[i] == m {
            return Some(i);
        }
        i += 1;
    }
    None
}

/// A vector of `MAX_MEMBERS` copies of `v`.
fn repeat_id(v: MemberId) -> (out: Vec<MemberId>)
    ensures
        out@.len() == MAX_MEMBERS,
        forall|i: int| 0 <= i < MAX_MEMBERS ==> out@[i] == v,
{
    let mut out: Vec<MemberId> = Vec::new();
    let mut k: usize = 0;
    while k < MAX_MEMBERS
        invariant
            k <= MAX_MEMBERS,
            out@.len() == k,
            forall|i: int| 0 <= i < k ==> out@[i] == v,
        decreases MAX_MEMBERS - k,
    {
        out.push(v);
        k += 1;
    }
    out
}

/// A vector of `MAX_MEMBERS` copies of `v`.
fn repeat_u8(v: u8) -> (out: Vec<u8>)
    ensures
        out@.len() == MAX_MEMBERS,
        forall|i: int| 0 <= i < MAX_MEMBERS ==> out@[i] == v,
{
    let mut out: Vec<u8> = Vec::new();
    let mut k: usize = 0;
    while k < MAX_MEMBERS
        invariant
            k <= MAX_MEMBERS,
            out@.len() == k,
            forall|i: int| 0 <= i < k ==> out@[i] == v,
        decreases MAX_MEMBERS - k,
    {
        out.push(v);
        k += 1;
    }
    out
}

/// A vector of `MAX_MEMBERS` copies of `v`.
fn repeat_bool(v: bool) -> (out: Vec<bool>)
    ensures
        out@.len() == MAX_MEMBERS,
        forall|i: int| 0 <= i < MAX_MEMBERS ==> out@[i] == v,
{
    let mut out: Vec<bool> = Vec::new();
    let mut k: usize = 0;
    while k < MAX_MEMBERS
        invariant
            k <= MAX_MEMBERS,
            out@.len() == k,
            forall|i: int| 0 <= i < k ==> out@[i] == v,
        decreases MAX_MEMBERS - k,
    {
        out.push(v);
        k += 1;
    }
    out
}

/// A `MAX_MEMBERS x MAX_MEMBERS` matrix of cleared cells.
fn empty_matrix() -> (out: Vec<Vec<bool>>)
    ensures
        out@.len() == MAX_MEMBERS,
        forall|i: int| 0 <= i < MAX_MEMBERS ==> (#[trigger] out@[i])@.len() == MAX_MEMBERS,
        forall|i: int, r: int|
            0 <= i < MAX_MEMBERS && 0 <= r < MAX_MEMBERS ==> !(#[trigger] out@[i]@[r]),
{
    let mut out: Vec<Vec<bool>> = Vec::new();
    let mut k: usize = 0;
    while k < MAX_MEMBERS
        invariant
            k <= MAX_MEMBERS,
            out@.len() == k,
            forall|i: int| 0 <= i < k ==> (#[trigger] out@[i])@.len() == MAX_MEMBERS,
            forall|i: int, r: int| 0 <= i < k && 0 <= r < MAX_MEMBERS ==> !(#[trigger] out@[i]@[r]),
        decreases MAX_MEMBERS - k,
    {
        out.push(repeat_bool(false));
        k += 1;
    }
    out
}

} // verus!
