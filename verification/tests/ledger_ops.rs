//! Ledger and minting tests: reservations, releases, transfers, new supply.

use chocolate::ledger::Ledger;
use chocolate::errors::Error;
use chocolate::minting::Minting;

const NATIVE: u64 = 0;

fn funded_ledger(minimum: u128, who: u64, amount: u128) -> Ledger {
    let mut l = Ledger::new(minimum);
    let imb = Ledger::issue(NATIVE, amount);
    let credited = l.resolve_into(imb, who);
    assert_eq!(credited, amount);
    l
}

#[test]
fn minimum_balance_is_uniform() {
    let l = Ledger::new(5);
    assert_eq!(l.minimum_balance(NATIVE), 5);
    assert_eq!(l.minimum_balance(17), 5);
}

#[test]
fn fresh_accounts_have_zero_balances() {
    let l = Ledger::new(5);
    assert_eq!(l.free_balance(NATIVE, 1), 0);
    assert_eq!(l.reserved_balance(NATIVE, 1), 0);
    assert!(!l.can_reserve(NATIVE, 1, 1));
    assert!(l.can_reserve(NATIVE, 1, 0));
}

#[test]
fn reserve_moves_free_to_reserved() {
    let mut l = funded_ledger(5, 1, 100);
    assert!(l.can_reserve(NATIVE, 1, 40));
    assert!(l.reserve(NATIVE, 1, 40).is_ok());
    assert_eq!(l.free_balance(NATIVE, 1), 60);
    assert_eq!(l.reserved_balance(NATIVE, 1), 40);
}

#[test]
fn reserve_fails_without_funds() {
    let mut l = funded_ledger(5, 1, 100);
    assert_eq!(l.reserve(NATIVE, 1, 200), Err(Error::InsufficientBalance));
    assert_eq!(l.free_balance(NATIVE, 1), 100);
    assert_eq!(l.reserved_balance(NATIVE, 1), 0);
}

#[test]
fn unreserve_reports_shortfall() {
    let mut l = funded_ledger(5, 1, 100);
    assert!(l.reserve(NATIVE, 1, 40).is_ok());
    let shortfall = l.unreserve(NATIVE, 1, 50);
    assert_eq!(shortfall, 10);
    assert_eq!(l.free_balance(NATIVE, 1), 100);
    assert_eq!(l.reserved_balance(NATIVE, 1), 0);
}

#[test]
fn unreserve_full_release_has_no_shortfall() {
    let mut l = funded_ledger(5, 1, 100);
    assert!(l.reserve(NATIVE, 1, 40).is_ok());
    let shortfall = l.unreserve(NATIVE, 1, 40);
    assert_eq!(shortfall, 0);
    assert_eq!(l.free_balance(NATIVE, 1), 100);
}

#[test]
fn transfer_moves_free_balance() {
    let mut l = funded_ledger(5, 1, 100);
    assert!(l.transfer(NATIVE, 1, 2, 90, true).is_ok());
    assert_eq!(l.free_balance(NATIVE, 1), 10);
    assert_eq!(l.free_balance(NATIVE, 2), 90);
}

#[test]
fn keep_alive_transfer_protects_minimum() {
    let mut l = funded_ledger(5, 1, 100);
    // 100 - 96 = 4 would fall under the minimum balance of 5.
    assert_eq!(l.transfer(NATIVE, 1, 2, 96, true), Err(Error::InsufficientBalance));
    assert_eq!(l.free_balance(NATIVE, 1), 100);
    assert_eq!(l.free_balance(NATIVE, 2), 0);
    // Without keep-alive the same transfer goes through.
    assert!(l.transfer(NATIVE, 1, 2, 96, false).is_ok());
    assert_eq!(l.free_balance(NATIVE, 1), 4);
    assert_eq!(l.free_balance(NATIVE, 2), 96);
}

#[test]
fn transfer_fails_when_receiver_saturated() {
    let mut l = funded_ledger(0, 1, 100);
    let imb = Ledger::issue(NATIVE, u128::MAX);
    let credited = l.resolve_into(imb, 2);
    assert_eq!(credited, u128::MAX);
    assert_eq!(l.transfer(NATIVE, 1, 2, 1, false), Err(Error::Overflow));
    assert_eq!(l.free_balance(NATIVE, 1), 100);
}

#[test]
fn issue_and_peek() {
    let imb = Ledger::issue(NATIVE, 42);
    assert_eq!(imb.peek(), 42);
}

#[test]
fn mint_credits_the_treasury() {
    let mut l = Ledger::new(5);
    let minting = Minting::new(7, NATIVE);
    let credited = minting.mint(&mut l, 500);
    assert_eq!(credited, 500);
    assert_eq!(l.free_balance(NATIVE, 7), 500);
    assert_eq!(l.reserved_balance(NATIVE, 7), 0);
}

#[test]
fn do_mint_consumes_an_imbalance() {
    let mut l = Ledger::new(5);
    let minting = Minting::new(7, NATIVE);
    let imb = Ledger::issue(NATIVE, 30);
    let credited = minting.do_mint(&mut l, imb);
    assert_eq!(credited, 30);
    assert_eq!(l.free_balance(NATIVE, 7), 30);
}

#[test]
fn deposit_saturates_at_entry_capacity() {
    let mut l = Ledger::new(0);
    let first = l.resolve_into(Ledger::issue(NATIVE, u128::MAX - 10), 3);
    assert_eq!(first, u128::MAX - 10);
    let second = l.resolve_into(Ledger::issue(NATIVE, 25), 3);
    assert_eq!(second, 10);
    assert_eq!(l.free_balance(NATIVE, 3), u128::MAX);
}

#[test]
fn balances_are_per_currency() {
    let mut l = Ledger::new(0);
    let _ = l.resolve_into(Ledger::issue(NATIVE, 50), 1);
    let _ = l.resolve_into(Ledger::issue(9, 70), 1);
    assert_eq!(l.free_balance(NATIVE, 1), 50);
    assert_eq!(l.free_balance(9, 1), 70);
    assert!(l.reserve(9, 1, 60).is_ok());
    assert_eq!(l.free_balance(NATIVE, 1), 50);
    assert_eq!(l.reserved_balance(9, 1), 60);
}
