use faircircle::Circle;
use faircircle::CircleStatus;
use faircircle::FairCircleError;
use faircircle::MemberId;
use faircircle::MAX_MEMBERS;

fn mid(n: u64) -> MemberId {
    MemberId { w0: n, w1: 0, w2: 0, w3: 0 }
}

fn forming_circle(min_score: u8) -> Circle {
    Circle::create_circle(mid(1), String::from("circle"), 100, 86400, min_score, 1_700_000_000)
        .unwrap()
}

/// A three-member active circle: creator id 1 (score via update), then
/// ids 2 and 3 with the given scores.
fn active_circle(creator_score: u8, s2: u8, s3: u8) -> Circle {
    let mut c = forming_circle(0);
    c.update_fair_score(mid(1), mid(1), creator_score).unwrap();
    c.join_circle(mid(2), s2).unwrap();
    c.join_circle(mid(3), s3).unwrap();
    c.start_circle(mid(1), 1_700_000_100).unwrap();
    c
}

#[test]
fn create_sets_initial_state() {
    let c = forming_circle(10);
    assert_eq!(c.status, CircleStatus::Forming);
    assert_eq!(c.member_count, 1);
    assert_eq!(c.members[0], mid(1));
    assert_eq!(c.fair_scores[0], 0);
    assert_eq!(c.contribution_amount, 100);
    assert_eq!(c.period_length, 86400);
    assert_eq!(c.min_fair_score, 10);
    assert_eq!(c.current_round, 0);
    assert_eq!(c.total_pool, 0);
    assert!(!c.round_contributions_complete);
    assert_eq!(c.created_at, 1_700_000_000);
}

#[test]
fn create_rejects_long_name() {
    let name = String::from("abcdefghijklmnopqrstuvwxyz0123456");
    assert_eq!(name.len(), 33);
    let r = Circle::create_circle(mid(1), name, 100, 86400, 0, 0);
    assert_eq!(r.unwrap_err(), FairCircleError::NameTooLong);
}

#[test]
fn create_accepts_name_at_bound() {
    let name = String::from("abcdefghijklmnopqrstuvwxyz012345");
    assert_eq!(name.len(), 32);
    assert!(Circle::create_circle(mid(1), name, 100, 86400, 0, 0).is_ok());
}

#[test]
fn create_rejects_zero_amount() {
    let r = Circle::create_circle(mid(1), String::from("c"), 0, 86400, 0, 0);
    assert_eq!(r.unwrap_err(), FairCircleError::InvalidContributionAmount);
}

#[test]
fn create_rejects_nonpositive_period() {
    let r = Circle::create_circle(mid(1), String::from("c"), 100, 0, 0, 0);
    assert_eq!(r.unwrap_err(), FairCircleError::InvalidPeriodLength);
    let r = Circle::create_circle(mid(1), String::from("c"), 100, -5, 0, 0);
    assert_eq!(r.unwrap_err(), FairCircleError::InvalidPeriodLength);
}

#[test]
fn join_enrolls_member() {
    let mut c = forming_circle(0);
    c.join_circle(mid(2), 55).unwrap();
    assert_eq!(c.member_count, 2);
    assert_eq!(c.members[1], mid(2));
    assert_eq!(c.fair_scores[1], 55);
    assert!(!c.has_claimed[1]);
}

#[test]
fn join_rejects_low_score() {
    // A score of 40 against a required minimum of 50 is refused and the
    // roster stays as it was.
    let mut c = forming_circle(50);
    let r = c.join_circle(mid(2), 40);
    assert_eq!(r.unwrap_err(), FairCircleError::InsufficientFairScore);
    assert_eq!(c.member_count, 1);
}

#[test]
fn join_accepts_score_at_minimum() {
    let mut c = forming_circle(50);
    assert!(c.join_circle(mid(2), 50).is_ok());
    assert_eq!(c.member_count, 2);
}

#[test]
fn join_rejects_duplicate_member() {
    let mut c = forming_circle(0);
    c.join_circle(mid(2), 10).unwrap();
    let r = c.join_circle(mid(2), 20);
    assert_eq!(r.unwrap_err(), FairCircleError::AlreadyJoined);
    assert_eq!(c.member_count, 2);
}

#[test]
fn join_rejects_creator_rejoining() {
    let mut c = forming_circle(0);
    let r = c.join_circle(mid(1), 10);
    assert_eq!(r.unwrap_err(), FairCircleError::AlreadyJoined);
}

#[test]
fn join_rejects_when_full() {
    let mut c = forming_circle(0);
    for n in 2..=MAX_MEMBERS as u64 {
        c.join_circle(mid(n), 10).unwrap();
    }
    assert_eq!(c.member_count as usize, MAX_MEMBERS);
    let r = c.join_circle(mid(99), 10);
    assert_eq!(r.unwrap_err(), FairCircleError::CircleFull);
    assert_eq!(c.member_count as usize, MAX_MEMBERS);
}

#[test]
fn join_rejects_after_activation() {
    let mut c = active_circle(80, 60, 90);
    let r = c.join_circle(mid(9), 99);
    assert_eq!(r.unwrap_err(), FairCircleError::CircleNotForming);
}

#[test]
fn start_requires_quorum() {
    let mut c = forming_circle(0);
    c.join_circle(mid(2), 10).unwrap();
    let r = c.start_circle(mid(1), 0);
    assert_eq!(r.unwrap_err(), FairCircleError::NotEnoughMembers);
    assert_eq!(c.status, CircleStatus::Forming);
}

#[test]
fn start_requires_creator() {
    let mut c = forming_circle(0);
    c.join_circle(mid(2), 10).unwrap();
    c.join_circle(mid(3), 10).unwrap();
    let r = c.start_circle(mid(2), 0);
    assert_eq!(r.unwrap_err(), FairCircleError::Unauthorized);
}

#[test]
fn start_activates_and_opens_round_one() {
    let c = active_circle(80, 60, 90);
    assert_eq!(c.status, CircleStatus::Active);
    assert_eq!(c.current_round, 1);
    assert_eq!(c.round_start_time, 1_700_000_100);
    assert_eq!(c.total_pool, 0);
}

#[test]
fn start_rejects_active_circle() {
    let mut c = active_circle(80, 60, 90);
    let r = c.start_circle(mid(1), 0);
    assert_eq!(r.unwrap_err(), FairCircleError::CircleNotForming);
}

#[test]
fn payout_order_sorts_by_score_descending() {
    // Scores [80, 60, 90] at roster indices [0, 1, 2].
    let c = active_circle(80, 60, 90);
    assert_eq!(&c.payout_order[..3], &[2, 0, 1]);
}

#[test]
fn payout_order_stable_on_ties() {
    // Scores [50, 90, 90, 10] joined in that order: the two 90s keep
    // their join order, so the payout order is [1, 2, 0, 3].
    let mut c = forming_circle(0);
    c.update_fair_score(mid(1), mid(1), 50).unwrap();
    c.join_circle(mid(2), 90).unwrap();
    c.join_circle(mid(3), 90).unwrap();
    c.join_circle(mid(4), 10).unwrap();
    c.start_circle(mid(1), 0).unwrap();
    assert_eq!(&c.payout_order[..4], &[1, 2, 0, 3]);
}

#[test]
fn payout_order_all_equal_scores_keeps_join_order() {
    let c = active_circle(70, 70, 70);
    assert_eq!(&c.payout_order[..3], &[0, 1, 2]);
}

#[test]
fn contribute_marks_cell_and_grows_pool() {
    let mut c = active_circle(80, 60, 90);
    let amount = c.contribute(mid(2)).unwrap();
    assert_eq!(amount, 100);
    assert!(c.contributions[1][0]);
    assert_eq!(c.total_pool, 100);
    assert!(!c.round_contributions_complete);
}

#[test]
fn contribute_rejects_double_contribution() {
    let mut c = active_circle(80, 60, 90);
    c.contribute(mid(2)).unwrap();
    let r = c.contribute(mid(2));
    assert_eq!(r.unwrap_err(), FairCircleError::AlreadyContributed);
    assert_eq!(c.total_pool, 100);
}

#[test]
fn contribute_rejects_stranger() {
    let mut c = active_circle(80, 60, 90);
    let r = c.contribute(mid(42));
    assert_eq!(r.unwrap_err(), FairCircleError::NotMember);
}

#[test]
fn contribute_rejects_forming_circle() {
    let mut c = forming_circle(0);
    let r = c.contribute(mid(1));
    assert_eq!(r.unwrap_err(), FairCircleError::CircleNotActive);
}

#[test]
fn contribute_rejects_invalid_round() {
    // Not reachable through the operations; a hand-built state shows the
    // guard.
    let mut c = active_circle(80, 60, 90);
    c.current_round = 0;
    let r = c.contribute(mid(1));
    assert_eq!(r.unwrap_err(), FairCircleError::InvalidRound);
}

#[test]
fn round_completes_only_with_last_contribution() {
    let mut c = active_circle(80, 60, 90);
    c.contribute(mid(1)).unwrap();
    assert!(!c.round_contributions_complete);
    c.contribute(mid(3)).unwrap();
    assert!(!c.round_contributions_complete);
    c.contribute(mid(2)).unwrap();
    assert!(c.round_contributions_complete);
    assert_eq!(c.total_pool, 300);
}

#[test]
fn claim_rejects_incomplete_round() {
    let mut c = active_circle(80, 60, 90);
    c.contribute(mid(1)).unwrap();
    let r = c.claim_payout(mid(3), 0);
    assert_eq!(r.unwrap_err(), FairCircleError::RoundNotComplete);
}

#[test]
fn claim_rejects_non_recipient() {
    let mut c = active_circle(80, 60, 90);
    c.contribute(mid(1)).unwrap();
    c.contribute(mid(2)).unwrap();
    c.contribute(mid(3)).unwrap();
    // Recipient of round 1 is the highest score: id 3 (score 90).
    let r = c.claim_payout(mid(1), 0);
    assert_eq!(r.unwrap_err(), FairCircleError::NotPayoutRecipient);
}

#[test]
fn claim_rejects_already_claimed_flag() {
    // Not reachable through the operations (the scheduled recipient can
    // never have claimed before); a hand-built state shows the guard.
    let mut c = active_circle(80, 60, 90);
    c.contribute(mid(1)).unwrap();
    c.contribute(mid(2)).unwrap();
    c.contribute(mid(3)).unwrap();
    c.has_claimed[2] = true;
    let r = c.claim_payout(mid(3), 0);
    assert_eq!(r.unwrap_err(), FairCircleError::AlreadyClaimed);
}

#[test]
fn claim_pays_full_round_and_advances() {
    let mut c = active_circle(80, 60, 90);
    c.contribute(mid(1)).unwrap();
    c.contribute(mid(2)).unwrap();
    c.contribute(mid(3)).unwrap();
    let paid = c.claim_payout(mid(3), 1_700_100_000).unwrap();
    assert_eq!(paid, 300);
    assert_eq!(c.total_pool, 0);
    assert!(!c.round_contributions_complete);
    assert_eq!(c.current_round, 2);
    assert_eq!(c.round_start_time, 1_700_100_000);
    assert!(c.has_claimed[2]);
}

#[test]
fn end_to_end_three_member_circle() {
    // Amount 100, period 86400, no minimum score; members with scores
    // [80, 60, 90]; the 90 collects round 1, and cannot collect round 2.
    let mut c = active_circle(80, 60, 90);
    assert_eq!(c.contribute(mid(1)).unwrap(), 100);
    assert_eq!(c.contribute(mid(2)).unwrap(), 100);
    assert_eq!(c.contribute(mid(3)).unwrap(), 100);
    assert_eq!(c.total_pool, 300);
    assert_eq!(c.claim_payout(mid(3), 0).unwrap(), 300);
    assert_eq!(c.total_pool, 0);
    assert_eq!(c.current_round, 2);
    // Round 2 has collected nothing yet, so the completeness guard fires
    // first for any caller.
    let r = c.claim_payout(mid(3), 0);
    assert_eq!(r.unwrap_err(), FairCircleError::RoundNotComplete);
    // Once round 2 is collected, a repeat claim by the round-1 recipient
    // is refused as not the recipient.
    for m in 1..=3 {
        c.contribute(mid(m)).unwrap();
    }
    let r = c.claim_payout(mid(3), 0);
    assert_eq!(r.unwrap_err(), FairCircleError::NotPayoutRecipient);
}

#[test]
fn full_lifecycle_completes_after_last_round() {
    let mut c = active_circle(80, 60, 90);
    // Payout order is [2, 0, 1]: ids 3, 1, 2.
    let recipients = [mid(3), mid(1), mid(2)];
    for round in 0..3 {
        for m in 1..=3 {
            c.contribute(mid(m)).unwrap();
        }
        assert_eq!(c.claim_payout(recipients[round], 0).unwrap(), 300);
    }
    assert_eq!(c.status, CircleStatus::Completed);
    assert_eq!(c.current_round, 3);
    assert_eq!(c.total_pool, 0);
    assert!(c.has_claimed[0] && c.has_claimed[1] && c.has_claimed[2]);
    // Completed is terminal.
    assert_eq!(c.contribute(mid(1)).unwrap_err(), FairCircleError::CircleNotActive);
    assert_eq!(c.claim_payout(mid(1), 0).unwrap_err(), FairCircleError::CircleNotActive);
    assert_eq!(c.join_circle(mid(9), 10).unwrap_err(), FairCircleError::CircleNotForming);
}

#[test]
fn update_score_requires_creator() {
    let mut c = forming_circle(0);
    c.join_circle(mid(2), 10).unwrap();
    let r = c.update_fair_score(mid(2), mid(2), 90);
    assert_eq!(r.unwrap_err(), FairCircleError::Unauthorized);
    assert_eq!(c.fair_scores[1], 10);
}

#[test]
fn update_score_rejects_stranger() {
    let mut c = forming_circle(0);
    let r = c.update_fair_score(mid(1), mid(7), 90);
    assert_eq!(r.unwrap_err(), FairCircleError::NotMember);
}

#[test]
fn update_score_overwrites_in_place() {
    let mut c = forming_circle(0);
    c.join_circle(mid(2), 10).unwrap();
    c.update_fair_score(mid(1), mid(2), 77).unwrap();
    assert_eq!(c.fair_scores[1], 77);
}

#[test]
fn update_score_never_reorders_payouts() {
    let mut c = active_circle(80, 60, 90);
    let before = c.payout_order.clone();
    c.update_fair_score(mid(1), mid(2), 100).unwrap();
    assert_eq!(c.payout_order, before);
    // The round-1 recipient is still the member whose score was highest
    // at activation.
    assert_eq!(c.resolve_recipient(), 2);
}

#[test]
fn resolve_recipient_follows_rounds() {
    let mut c = active_circle(80, 60, 90);
    assert_eq!(c.resolve_recipient(), 2);
    for m in 1..=3 {
        c.contribute(mid(m)).unwrap();
    }
    c.claim_payout(mid(3), 0).unwrap();
    assert_eq!(c.resolve_recipient(), 0);
}

#[test]
fn full_capacity_circle_runs_all_rounds() {
    let mut c = forming_circle(0);
    for n in 2..=MAX_MEMBERS as u64 {
        c.join_circle(mid(n), (100 - n) as u8).unwrap();
    }
    c.start_circle(mid(1), 0).unwrap();
    // Creator has score 0, everyone else descends from 98 to 90: payout
    // order is join order for ids 2..=10, creator last.
    assert_eq!(&c.payout_order[..10], &[1, 2, 3, 4, 5, 6, 7, 8, 9, 0]);
    for round in 0..MAX_MEMBERS {
        for m in 1..=MAX_MEMBERS as u64 {
            c.contribute(mid(m)).unwrap();
        }
        assert_eq!(c.total_pool, 1000);
        let recipient = mid(c.members[c.payout_order[round] as usize].w0);
        assert_eq!(c.claim_payout(recipient, 0).unwrap(), 1000);
    }
    assert_eq!(c.status, CircleStatus::Completed);
    assert!(c.has_claimed.iter().all(|&f| f));
}

#[test]
fn largest_contribution_amount_never_overflows() {
    let amount = u64::MAX / 10;
    let mut c =
        Circle::create_circle(mid(1), String::from("big"), amount, 1, 0, 0).unwrap();
    c.join_circle(mid(2), 1).unwrap();
    c.join_circle(mid(3), 2).unwrap();
    c.start_circle(mid(1), 0).unwrap();
    for m in 1..=3 {
        c.contribute(mid(m)).unwrap();
    }
    assert_eq!(c.total_pool, amount * 3);
    assert_eq!(c.claim_payout(mid(3), 0).unwrap(), amount * 3);
    assert_eq!(c.total_pool, 0);
}

#[test]
fn cancelled_circle_refuses_every_operation() {
    // No operation triggers cancellation; a hand-built state shows the
    // terminal status is inert.
    let mut c = active_circle(80, 60, 90);
    c.status = CircleStatus::Cancelled;
    assert_eq!(c.join_circle(mid(9), 10).unwrap_err(), FairCircleError::CircleNotForming);
    assert_eq!(c.start_circle(mid(1), 0).unwrap_err(), FairCircleError::CircleNotForming);
    assert_eq!(c.contribute(mid(1)).unwrap_err(), FairCircleError::CircleNotActive);
    assert_eq!(c.claim_payout(mid(3), 0).unwrap_err(), FairCircleError::CircleNotActive);
}
