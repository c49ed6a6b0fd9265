//! Reservation-sizing and consistency-check tests.

use chocolate::engine::Engine;
use chocolate::errors::Error;
use chocolate::ledger::Ledger;
use chocolate::projects::Project;

const NATIVE: u64 = 0;
const COLL: u64 = 1;
const CAP: u128 = 100;
const COLLATERAL: u128 = 25;
const MIN: u128 = 5;

fn engine_with(currency: u64, who: u64, amount: u128) -> Engine {
    let mut e = Engine::new(CAP, COLLATERAL, NATIVE, 64, MIN);
    let imb = Ledger::issue(currency, amount);
    let _ = e.ledger.resolve_into(imb, who);
    e
}

#[test]
fn can_reward_checks_the_sized_stake() {
    let e = engine_with(NATIVE, 1, CAP + MIN);
    assert!(e.can_reward(1));
    let poor = engine_with(NATIVE, 1, CAP + MIN - 1);
    assert!(!poor.can_reward(1));
}

#[test]
fn reserve_reward_sets_the_cap() {
    let mut e = engine_with(NATIVE, 1, 1000);
    let mut p = Project::new(1, b"m".to_vec());
    assert!(e.reserve_reward(&mut p).is_ok());
    assert_eq!(p.reward, CAP);
    assert_eq!(e.ledger.reserved_balance(NATIVE, 1), CAP + MIN);
}

#[test]
fn reserve_reward_fails_without_funds() {
    let mut e = engine_with(NATIVE, 1, 10);
    let mut p = Project::new(1, b"m".to_vec());
    assert_eq!(e.reserve_reward(&mut p), Err(Error::InsufficientBalance));
    assert_eq!(p.reward, 0);
}

#[test]
fn check_reward_classifies_both_failures() {
    let mut e = engine_with(NATIVE, 1, 1000);
    let mut p = Project::new(1, b"m".to_vec());
    assert!(e.reserve_reward(&mut p).is_ok());
    assert!(e.check_reward(&p).is_ok());
    // Drain the reserve: the reward is no longer backed.
    let mut drained = e;
    let _ = drained.ledger.unreserve(NATIVE, 1, CAP + MIN);
    assert_eq!(drained.check_reward(&p), Err(Error::RewardInconsistent));
    // Reserve intact but free balance under the minimum.
    let mut broke = engine_with(NATIVE, 1, CAP + MIN);
    let mut p2 = Project::new(1, b"m".to_vec());
    assert!(broke.reserve_reward(&mut p2).is_ok());
    assert_eq!(broke.ledger.free_balance(NATIVE, 1), 0);
    assert_eq!(broke.check_reward(&p2), Err(Error::InsufficientBalance));
}

#[test]
fn collateral_sizing_and_locking() {
    let mut e = engine_with(COLL, 2, 1000);
    let amount = e.can_collateralise(COLL, 2).expect("affordable");
    assert_eq!(amount, COLLATERAL + MIN);
    assert!(e.collateralise(COLL, 2, amount).is_ok());
    assert_eq!(e.ledger.reserved_balance(COLL, 2), COLLATERAL + MIN);
    assert!(e.check_collateral(COLL, 2));
    e.release_collateral(COLL, 2);
    assert_eq!(e.ledger.reserved_balance(COLL, 2), MIN);
    assert!(!e.check_collateral(COLL, 2));
}

#[test]
fn can_collateralise_without_funds() {
    let e = engine_with(COLL, 2, COLLATERAL);
    assert_eq!(e.can_collateralise(COLL, 2), Err(Error::InsufficientBalance));
}

#[test]
fn check_collateral_boundary() {
    let mut e = engine_with(COLL, 2, 1000);
    assert!(e.collateralise(COLL, 2, COLLATERAL + MIN).is_ok());
    assert!(e.check_collateral(COLL, 2));
    let shortfall = e.ledger.unreserve(COLL, 2, 1);
    assert_eq!(shortfall, 0);
    assert!(!e.check_collateral(COLL, 2));
}

#[test]
fn collateral_sizing_skips_covered_minimum() {
    let mut e = engine_with(COLL, 2, 1000);
    // A prior reservation of 6 leaves 6 % 25 = 6 >= 5: the bare collateral.
    assert!(e.ledger.reserve(COLL, 2, 6).is_ok());
    let amount = e.can_collateralise(COLL, 2).expect("affordable");
    assert_eq!(amount, COLLATERAL);
}
