//! Tests for the stored counter and the direct reserve/release exercises.

use chocolate::errors::Error;
use chocolate::ledger::Ledger;
use chocolate::template::Template;

const NATIVE: u64 = 0;

fn funded(who: u64, amount: u128) -> Ledger {
    let mut l = Ledger::new(1);
    let _ = l.resolve_into(Ledger::issue(NATIVE, amount), who);
    l
}

#[test]
fn do_something_stores_the_value() {
    let mut t = Template::new();
    assert!(t.something.is_none());
    assert!(t.do_something(41).is_ok());
    assert_eq!(t.something, Some(41));
}

#[test]
fn cause_error_paths() {
    let mut t = Template::new();
    assert_eq!(t.cause_error(), Err(Error::NoneValue));
    assert!(t.do_something(41).is_ok());
    assert!(t.cause_error().is_ok());
    assert_eq!(t.something, Some(42));
    assert!(t.do_something(u32::MAX).is_ok());
    assert_eq!(t.cause_error(), Err(Error::StorageOverflow));
    assert_eq!(t.something, Some(u32::MAX));
}

#[test]
fn test_res_reserves() {
    let mut l = funded(1, 100);
    assert!(Template::test_res(&mut l, NATIVE, 1, 60).is_ok());
    assert_eq!(l.reserved_balance(NATIVE, 1), 60);
    assert_eq!(
        Template::test_res(&mut l, NATIVE, 1, 60),
        Err(Error::InsufficientBalance)
    );
}

#[test]
fn test_unres_requires_full_release() {
    let mut l = funded(1, 100);
    assert!(Template::test_res(&mut l, NATIVE, 1, 60).is_ok());
    // Asking for more than is reserved rolls the partial release back.
    assert_eq!(
        Template::test_unres(&mut l, NATIVE, 1, 70),
        Err(Error::InsufficientBalance)
    );
    assert_eq!(l.reserved_balance(NATIVE, 1), 60);
    assert_eq!(l.free_balance(NATIVE, 1), 40);
    assert!(Template::test_unres(&mut l, NATIVE, 1, 60).is_ok());
    assert_eq!(l.reserved_balance(NATIVE, 1), 0);
    assert_eq!(l.free_balance(NATIVE, 1), 100);
}

#[test]
fn test_unres_to_frees_the_reserve() {
    let mut l = funded(1, 100);
    assert!(Template::test_res(&mut l, NATIVE, 1, 30).is_ok());
    assert!(Template::test_unres_to(&mut l, NATIVE, 1, 30).is_ok());
    assert_eq!(l.free_balance(NATIVE, 1), 100);
    assert_eq!(
        Template::test_unres_to(&mut l, NATIVE, 1, 1),
        Err(Error::InsufficientBalance)
    );
}
