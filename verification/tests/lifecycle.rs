//! Lifecycle tests: project creation, review creation, acceptance, payout.

use chocolate::engine::Engine;
use chocolate::errors::Error;
use chocolate::ledger::Ledger;
use chocolate::projects::Project;
use chocolate::projects::ProposalStatus;
use chocolate::projects::Reason;
use chocolate::projects::Review;
use chocolate::projects::Status;
use chocolate::users::User;

// Currency ids and engine constants shared by the tests.
const NATIVE: u64 = 0;
const COLL: u64 = 1;
const CAP: u128 = 100;
const COLLATERAL: u128 = 25;
const MIN: u128 = 5;
const LIMIT: u32 = 64;

fn test_engine() -> Engine {
    Engine::new(CAP, COLLATERAL, NATIVE, LIMIT, MIN)
}

fn endow(e: &mut Engine, currency: u64, who: u64, amount: u128) {
    let imb = Ledger::issue(currency, amount);
    let credited = e.ledger.resolve_into(imb, who);
    assert_eq!(credited, amount);
}

/// A populated engine: account 1 owns project 1; account 2 has reviewed it;
/// account 6 is funded but has not reviewed.
fn choc_ext() -> Engine {
    let mut e = test_engine();
    endow(&mut e, NATIVE, 1, 1000);
    endow(&mut e, COLL, 2, 1000);
    endow(&mut e, COLL, 6, 1000);
    assert_eq!(e.create_project(1, vec![42u8]), Ok(1));
    assert!(e.create_review(2, (3, vec![42u8]), 1, COLL).is_ok());
    e
}

#[test]
fn create_project_should_work() {
    let mut e = test_engine();
    endow(&mut e, NATIVE, 1, 1000);
    assert!(e.create_project(1, [42u8].to_vec()).is_ok());
}

#[test]
fn create_project_should_fail() {
    let mut e = test_engine();
    endow(&mut e, NATIVE, 1, 1000);
    assert!(e.create_project(1, [40u8].to_vec()).is_ok());
}

#[test]
fn create_review_should_work() {
    let mut e = choc_ext();
    assert!(e.create_review(6, (3, [42u8].to_vec()), 1, COLL).is_ok());
}

#[test]
fn create_review_should_fail() {
    let mut e = choc_ext();
    assert_eq!(
        e.create_review(1, (3, [40u8].to_vec()), 1, COLL),
        Err(Error::OwnerReviewedProject)
    );
    assert_eq!(
        e.create_review(2, (3, [40u8].to_vec()), 1, COLL),
        Err(Error::DuplicateReview)
    );
    assert_eq!(
        e.create_review(6, (60, [40u8].to_vec()), 1, COLL),
        Err(Error::ReviewScoreOutOfRange)
    );
}

#[test]
fn project_creation_scenario() {
    let mut e = test_engine();
    endow(&mut e, NATIVE, 1, 1000);
    // RewardCap = 100, metadata "m": project id 1, reward 100, proposed.
    assert_eq!(e.create_project(1, b"m".to_vec()), Ok(1));
    let p = e.get_project(1).expect("project 1 exists");
    assert_eq!(p.owner_id, 1);
    assert_eq!(p.metadata, b"m".to_vec());
    assert_eq!(p.reward, 100);
    assert_eq!(p.proposal_status.status, Status::Proposed);
    assert_eq!(p.total_user_scores, 0);
    assert_eq!(p.number_of_reviews, 0);
    // The dust-avoidance sizing reserved the cap plus the minimum balance.
    assert_eq!(e.ledger.reserved_balance(NATIVE, 1), CAP + MIN);
    assert_eq!(e.ledger.free_balance(NATIVE, 1), 1000 - CAP - MIN);
    assert_eq!(e.next_project_index, 2);
}

#[test]
fn payout_scenario_with_zero_snapshot_follow_up() {
    let mut e = test_engine();
    endow(&mut e, NATIVE, 1, 1000);
    endow(&mut e, COLL, 10, 1000);
    endow(&mut e, COLL, 11, 1000);
    // Account 10 enters with one rank point, account 11 with none.
    assert!(e.set_user(10, User { rank_points: 1, project_id: None }).is_ok());
    assert_eq!(e.create_project(1, b"m".to_vec()), Ok(1));
    assert!(e.create_review(10, (5, b"r".to_vec()), 1, COLL).is_ok());
    assert!(e.create_review(11, (3, b"r".to_vec()), 1, COLL).is_ok());
    assert_eq!(e.get_project(1).unwrap().total_user_scores, 1);
    let author_free_before = e.ledger.free_balance(NATIVE, 10);

    // Accepting account 10's review (snapshot 1) pays floor(100 / 1) * 1 = 100.
    assert!(e.accept_review(10, 1).is_ok());
    assert_eq!(e.ledger.free_balance(NATIVE, 10), author_free_before + 100);
    assert_eq!(e.get_project(1).unwrap().reward, 0);
    assert_eq!(e.get_user_by_id(10).unwrap().rank_points, 2);
    let rv = e.get_review(10, 1).unwrap();
    assert_eq!(rv.proposal_status.status, Status::Accepted);
    // The collateral came back; only the minimum-balance part of the sized
    // reservation stays locked.
    assert_eq!(e.ledger.reserved_balance(COLL, 10), MIN);

    // Accepting account 11's review (snapshot 0) pays floor(0 / 1) * 0 = 0: the
    // payout can legitimately be zero once the reward is exhausted.
    let free_11 = e.ledger.free_balance(NATIVE, 11);
    assert!(e.accept_review(11, 1).is_ok());
    assert_eq!(e.ledger.free_balance(NATIVE, 11), free_11);
    assert_eq!(e.get_project(1).unwrap().reward, 0);
    assert_eq!(e.get_user_by_id(11).unwrap().rank_points, 1);
}

#[test]
fn owner_cannot_review_own_project() {
    let mut e = test_engine();
    endow(&mut e, NATIVE, 1, 1000);
    endow(&mut e, COLL, 1, 1000);
    assert_eq!(e.create_project(1, b"m".to_vec()), Ok(1));
    assert_eq!(
        e.create_review(1, (4, b"r".to_vec()), 1, COLL),
        Err(Error::OwnerReviewedProject)
    );
    assert!(e.get_review(1, 1).is_none());
}

#[test]
fn reward_release_shortfall_is_compensated() {
    // The reward release primitive meets a ledger shortfall: the owner's
    // funds were partly unreserved behind the engine's back. The release
    // fails with the consistency error, re-reserves what it freed, and
    // leaves the project's bookkeeping untouched.
    let mut e = test_engine();
    endow(&mut e, NATIVE, 1, 100);
    assert!(e.ledger.reserve(NATIVE, 1, 30).is_ok());
    let mut p = Project::new(1, Vec::new());
    p.reward = 50;
    let r = e.reward(&mut p, 50);
    assert_eq!(r, Err(Error::RewardInconsistent));
    assert_eq!(p.reward, 50);
    assert_eq!(e.ledger.reserved_balance(NATIVE, 1), 30);
    assert_eq!(e.ledger.free_balance(NATIVE, 1), 70);
}

#[test]
fn accept_fails_after_external_unreserve() {
    // External interference drains the owner's reserve after the review was
    // created: acceptance aborts with the consistency error and nothing
    // changes.
    let mut e = test_engine();
    endow(&mut e, NATIVE, 1, 1000);
    endow(&mut e, COLL, 10, 1000);
    assert!(e.set_user(10, User { rank_points: 1, project_id: None }).is_ok());
    assert_eq!(e.create_project(1, b"m".to_vec()), Ok(1));
    assert!(e.create_review(10, (5, b"r".to_vec()), 1, COLL).is_ok());
    let shortfall = e.ledger.unreserve(NATIVE, 1, CAP + MIN);
    assert_eq!(shortfall, 0);
    assert_eq!(e.accept_review(10, 1), Err(Error::RewardInconsistent));
    let rv = e.get_review(10, 1).unwrap();
    assert_eq!(rv.proposal_status.status, Status::Proposed);
    assert_eq!(e.get_project(1).unwrap().reward, CAP);
    assert_eq!(e.get_user_by_id(10).unwrap().rank_points, 1);
}

#[test]
fn review_score_boundaries() {
    let mut e = choc_ext();
    endow(&mut e, COLL, 20, 1000);
    endow(&mut e, COLL, 21, 1000);
    assert_eq!(
        e.create_review(6, (0, b"r".to_vec()), 1, COLL),
        Err(Error::ReviewScoreOutOfRange)
    );
    assert_eq!(
        e.create_review(6, (6, b"r".to_vec()), 1, COLL),
        Err(Error::ReviewScoreOutOfRange)
    );
    assert!(e.create_review(20, (1, b"r".to_vec()), 1, COLL).is_ok());
    assert!(e.create_review(21, (5, b"r".to_vec()), 1, COLL).is_ok());
    assert_eq!(e.get_review(20, 1).unwrap().review_score, 1);
    assert_eq!(e.get_review(21, 1).unwrap().review_score, 5);
}

#[test]
fn accepting_same_review_twice_fails() {
    let mut e = test_engine();
    endow(&mut e, NATIVE, 1, 1000);
    endow(&mut e, COLL, 10, 1000);
    assert!(e.set_user(10, User { rank_points: 1, project_id: None }).is_ok());
    assert_eq!(e.create_project(1, b"m".to_vec()), Ok(1));
    assert!(e.create_review(10, (5, b"r".to_vec()), 1, COLL).is_ok());
    assert!(e.accept_review(10, 1).is_ok());
    assert_eq!(e.accept_review(10, 1), Err(Error::AcceptingNotProposed));
}

#[test]
fn accept_project_flips_status_once() {
    let mut e = test_engine();
    endow(&mut e, NATIVE, 1, 1000);
    assert_eq!(e.create_project(1, b"m".to_vec()), Ok(1));
    assert!(e.accept_project(1).is_ok());
    let p = e.get_project(1).unwrap();
    assert_eq!(p.proposal_status.status, Status::Accepted);
    assert!(matches!(p.proposal_status.reason, Reason::PassedRequirements));
    assert_eq!(e.accept_project(1), Err(Error::AcceptingNotProposed));
}

#[test]
fn accept_project_unknown_id() {
    let mut e = test_engine();
    assert_eq!(e.accept_project(9), Err(Error::NoProjectWithId));
}

#[test]
fn accept_review_not_found() {
    let mut e = choc_ext();
    assert_eq!(e.accept_review(99, 1), Err(Error::ReviewNotFound));
}

#[test]
fn project_id_space_exhaustion() {
    let mut e = test_engine();
    endow(&mut e, NATIVE, 1, 1000);
    e.next_project_index = u32::MAX;
    assert_eq!(e.create_project(1, b"m".to_vec()), Err(Error::StorageOverflow));
}

#[test]
fn one_project_per_owner() {
    let mut e = test_engine();
    endow(&mut e, NATIVE, 1, 1000);
    assert_eq!(e.create_project(1, b"m".to_vec()), Ok(1));
    assert_eq!(e.create_project(1, b"n".to_vec()), Err(Error::AlreadyOwnsProject));
}

#[test]
fn create_project_needs_funds() {
    let mut e = test_engine();
    assert_eq!(e.create_project(3, b"m".to_vec()), Err(Error::InsufficientBalance));
}

#[test]
fn native_collateral_rejected() {
    let mut e = choc_ext();
    endow(&mut e, NATIVE, 6, 1000);
    assert_eq!(
        e.create_review(6, (3, b"r".to_vec()), 1, NATIVE),
        Err(Error::NativeCollateral)
    );
}

#[test]
fn create_review_needs_collateral_funds() {
    let mut e = choc_ext();
    assert_eq!(
        e.create_review(30, (3, b"r".to_vec()), 1, COLL),
        Err(Error::InsufficientBalance)
    );
}

#[test]
fn create_review_unknown_project() {
    let mut e = choc_ext();
    assert_eq!(
        e.create_review(6, (3, b"r".to_vec()), 7, COLL),
        Err(Error::NoProjectWithId)
    );
}

#[test]
fn accept_fails_on_drained_collateral() {
    let mut e = test_engine();
    endow(&mut e, NATIVE, 1, 1000);
    endow(&mut e, COLL, 10, 1000);
    assert!(e.set_user(10, User { rank_points: 1, project_id: None }).is_ok());
    assert_eq!(e.create_project(1, b"m".to_vec()), Ok(1));
    assert!(e.create_review(10, (5, b"r".to_vec()), 1, COLL).is_ok());
    let shortfall = e.ledger.unreserve(COLL, 10, COLLATERAL + MIN);
    assert_eq!(shortfall, 0);
    assert_eq!(e.accept_review(10, 1), Err(Error::InconsistentCollateral));
}

#[test]
fn point_snapshot_taken_at_creation_and_immutable() {
    let mut e = test_engine();
    endow(&mut e, NATIVE, 1, 1000);
    endow(&mut e, COLL, 10, 1000);
    assert!(e.set_user(10, User { rank_points: 1, project_id: None }).is_ok());
    assert_eq!(e.create_project(1, b"m".to_vec()), Ok(1));
    assert!(e.create_review(10, (5, b"r".to_vec()), 1, COLL).is_ok());
    assert_eq!(e.get_review(10, 1).unwrap().point_snapshot, 1);
    // The author's rank changes afterwards; the snapshot does not.
    assert!(e.set_user(10, User { rank_points: 7, project_id: None }).is_ok());
    assert_eq!(e.get_review(10, 1).unwrap().point_snapshot, 1);
    assert!(e.accept_review(10, 1).is_ok());
    assert_eq!(e.get_review(10, 1).unwrap().point_snapshot, 1);
    // The payout used the snapshot, not the later rank.
    assert_eq!(e.get_project(1).unwrap().reward, 0);
}

#[test]
fn acceptance_conserves_ledger_total() {
    let mut e = test_engine();
    endow(&mut e, NATIVE, 1, 1000);
    endow(&mut e, COLL, 10, 1000);
    assert!(e.set_user(10, User { rank_points: 1, project_id: None }).is_ok());
    assert_eq!(e.create_project(1, b"m".to_vec()), Ok(1));
    assert!(e.create_review(10, (5, b"r".to_vec()), 1, COLL).is_ok());
    let total_before: u128 = [
        e.ledger.free_balance(NATIVE, 1),
        e.ledger.reserved_balance(NATIVE, 1),
        e.ledger.free_balance(NATIVE, 10),
        e.ledger.reserved_balance(NATIVE, 10),
        e.ledger.free_balance(COLL, 10),
        e.ledger.reserved_balance(COLL, 10),
    ]
    .iter()
    .sum();
    let reward_before = e.get_project(1).unwrap().reward;
    assert!(e.accept_review(10, 1).is_ok());
    let total_after: u128 = [
        e.ledger.free_balance(NATIVE, 1),
        e.ledger.reserved_balance(NATIVE, 1),
        e.ledger.free_balance(NATIVE, 10),
        e.ledger.reserved_balance(NATIVE, 10),
        e.ledger.free_balance(COLL, 10),
        e.ledger.reserved_balance(COLL, 10),
    ]
    .iter()
    .sum();
    // No balance is created or destroyed by an acceptance, and the payout is
    // exactly what left the project's reward.
    assert_eq!(total_before, total_after);
    let reward_after = e.get_project(1).unwrap().reward;
    assert_eq!(reward_before - reward_after, 100);
    assert!(reward_after <= CAP);
}

#[test]
fn dust_sizing_skips_minimum_when_covered() {
    let mut e = test_engine();
    endow(&mut e, NATIVE, 1, 1000);
    // A prior reservation of 7 leaves 7 % 100 = 7 >= 5, so the stake is the
    // bare cap.
    assert!(e.ledger.reserve(NATIVE, 1, 7).is_ok());
    assert_eq!(e.create_project(1, b"m".to_vec()), Ok(1));
    assert_eq!(e.ledger.reserved_balance(NATIVE, 1), 7 + CAP);
}

#[test]
fn payout_overflow_at_receiver_aborts() {
    let mut e = test_engine();
    endow(&mut e, NATIVE, 1, 1000);
    endow(&mut e, COLL, 10, 1000);
    assert!(e.set_user(10, User { rank_points: 1, project_id: None }).is_ok());
    assert_eq!(e.create_project(1, b"m".to_vec()), Ok(1));
    assert!(e.create_review(10, (5, b"r".to_vec()), 1, COLL).is_ok());
    // The author's native entry cannot take another unit.
    endow(&mut e, NATIVE, 10, u128::MAX);
    assert_eq!(e.accept_review(10, 1), Err(Error::Overflow));
    assert_eq!(e.get_project(1).unwrap().reward, CAP);
    assert_eq!(e.ledger.reserved_balance(NATIVE, 1), CAP + MIN);
    assert_eq!(e.get_review(10, 1).unwrap().proposal_status.status, Status::Proposed);
}

#[test]
fn reward_user_without_user_record() {
    let mut e = test_engine();
    let mut p = Project::new(1, Vec::new());
    p.total_user_scores = 1;
    let review = Review {
        proposal_status: ProposalStatus {
            status: Status::Proposed,
            reason: Reason::PassedRequirements,
        },
        user_id: 99,
        content: Vec::new(),
        project_id: 1,
        point_snapshot: 0,
        review_score: 3,
        collateral_currency_id: COLL,
    };
    assert_eq!(e.reward_user(99, &mut p, &review), Err(Error::NoneValue));
}

#[test]
fn reward_user_division_by_zero() {
    let mut e = test_engine();
    let _ = e.get_or_create_default(99);
    let mut p = Project::new(1, Vec::new());
    let review = Review {
        proposal_status: ProposalStatus {
            status: Status::Proposed,
            reason: Reason::PassedRequirements,
        },
        user_id: 99,
        content: Vec::new(),
        project_id: 1,
        point_snapshot: 0,
        review_score: 3,
        collateral_currency_id: COLL,
    };
    assert_eq!(e.reward_user(99, &mut p, &review), Err(Error::DivisionByZero));
}

#[test]
fn user_registry_helpers() {
    let mut e = test_engine();
    assert!(e.get_user_by_id(5).is_none());
    assert!(!e.check_user_exists(5));
    assert_eq!(
        e.update_user(5, User { rank_points: 3, project_id: None }),
        Err(Error::NoneValue)
    );
    let u = e.get_or_create_default(5);
    assert_eq!(u.rank_points, 0);
    assert_eq!(u.project_id, None);
    assert!(e.check_user_exists(5));
    assert!(!e.check_owns_project(5));
    assert!(e.update_user(5, User { rank_points: 3, project_id: None }).is_ok());
    assert_eq!(e.get_user_by_id(5).unwrap().rank_points, 3);
    endow(&mut e, NATIVE, 5, 1000);
    assert_eq!(e.create_project(5, b"m".to_vec()), Ok(1));
    assert!(e.check_owns_project(5));
    assert_eq!(e.get_user_by_id(5).unwrap().project_id, Some(1));
}

#[test]
fn initialize_project_sets_given_status() {
    let mut e = test_engine();
    endow(&mut e, NATIVE, 1, 1000);
    let id = e
        .initialize_project(1, b"m".to_vec(), Status::Accepted, Reason::Malicious)
        .expect("bootstrap creation succeeds");
    assert_eq!(id, 1);
    let p = e.get_project(1).unwrap();
    assert_eq!(p.proposal_status.status, Status::Accepted);
    assert!(matches!(p.proposal_status.reason, Reason::Malicious));
    assert_eq!(p.reward, CAP);
}

#[test]
fn initialize_reviews_creates_and_accepts() {
    let mut e = test_engine();
    endow(&mut e, NATIVE, 1, 1000);
    endow(&mut e, COLL, 10, 1000);
    endow(&mut e, COLL, 11, 1000);
    assert!(e.set_user(10, User { rank_points: 1, project_id: None }).is_ok());
    assert!(e.set_user(11, User { rank_points: 1, project_id: None }).is_ok());
    assert_eq!(e.create_project(1, b"m".to_vec()), Ok(1));
    let acnts = vec![(10u64, COLL), (11u64, COLL)];
    let revs = vec![(5u8, b"a".to_vec()), (3u8, b"b".to_vec())];
    assert!(e.initialize_reviews(acnts, revs).is_ok());
    assert_eq!(e.get_review(10, 1).unwrap().proposal_status.status, Status::Accepted);
    assert_eq!(e.get_review(11, 1).unwrap().proposal_status.status, Status::Accepted);
    // Total of user scores was 2: the first acceptance paid floor(100/2)*1 =
    // 50, the second floor(50/2)*1 = 25.
    assert_eq!(e.get_project(1).unwrap().reward, 25);
    assert_eq!(e.get_project(1).unwrap().number_of_reviews, 2);
    assert_eq!(e.get_project(1).unwrap().total_review_score, 8);
}

#[test]
fn duplicate_takes_precedence_over_score() {
    let mut e = choc_ext();
    // Account 2 already reviewed project 1: the duplicate is reported even
    // though the score is also out of range.
    assert_eq!(
        e.create_review(2, (60, b"r".to_vec()), 1, COLL),
        Err(Error::DuplicateReview)
    );
}

#[test]
fn exhaustion_takes_precedence_over_funds() {
    let mut e = test_engine();
    // Account 3 has no funds, but the id space is checked first.
    e.next_project_index = u32::MAX;
    assert_eq!(e.create_project(3, b"m".to_vec()), Err(Error::StorageOverflow));
}

#[test]
fn missing_project_takes_precedence_over_score() {
    let mut e = test_engine();
    assert_eq!(
        e.create_review(6, (60, b"r".to_vec()), 4, COLL),
        Err(Error::NoProjectWithId)
    );
}
