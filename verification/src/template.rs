//! A small exercise surface over the ledger: a stored counter and direct
//! reserve/release calls, with the release variants rolling back when the
//! requested amount was not fully reserved.

use vstd::prelude::*;

use crate::errors::Error;
use crate::ledger::Ledger;

verus! {

/// A stored counter next to the ledger exercises.
pub struct Template {
    /// The stored value, if one was ever stored.
    pub something: Option<u32>,
}

impl Template {
    /// An empty store.
    pub fn new() -> (r: Template)
        ensures
            r.something is None,
    {
        Template { something: None }
    }

    /// Stores the value.
    pub fn do_something(&mut self, something: u32) -> (r: Result<(), Error>)
        ensures
            r is Ok,
            final(self).something == Some(something),
    {
        self.something = Some(something);
        Ok(())
    }

    /// Increments the stored value; fails when nothing was stored or the
    /// counter is exhausted.
    pub fn cause_error(&mut self) -> (r: Result<(), Error>)
        ensures
            match old(self).something {
                None => r == Err::<(), Error>(Error::NoneValue) && final(self).something == old(
                    self,
                ).something,
                Some(v) => {
                    if v == u32::MAX {
                        r == Err::<(), Error>(Error::StorageOverflow) && final(self).something
                            == old(self).something
                    } else {
                        r is Ok && final(self).something == Some((v + 1) as u32)
                    }
                },
            },
    {
        match self.something {
            None => Err(Error::NoneValue),
            Some(old_value) => match old_value.checked_add(1) {
                None => Err(Error::StorageOverflow),
                Some(new) => {
                    self.something = Some(new);
                    Ok(())
                },
            },
        }
    }

    /// Reserves the amount for the account.
    pub fn test_res(ledger: &mut Ledger, currency_id: u64, who: u64, amount: u128) -> (r: Result<
        (),
        Error,
    >)
        requires
            old(ledger).wf(),
        ensures
            final(ledger).wf(),
            final(ledger).minimum_spec() == old(ledger).minimum_spec(),
            final(ledger).total_of() == old(ledger).total_of(),
            r is Ok <==> old(ledger).free_of(currency_id, who) >= amount,
            r is Ok ==> final(ledger).free_of(currency_id, who) == old(ledger).free_of(
                currency_id,
                who,
            ) - amount && final(ledger).reserved_of(currency_id, who) == old(ledger).reserved_of(
                currency_id,
                who,
            ) + amount,
            r is Err ==> r == Err::<(), Error>(Error::InsufficientBalance) && *final(ledger)
                == *old(ledger),
            old(ledger).agrees_except(*final(ledger), currency_id, who),
    {
        ledger.reserve(currency_id, who, amount)
    }

    /// Releases exactly the amount from the account's reserve. When less than
    /// the amount was reserved, the partial release is rolled back and the
    /// call fails, changing nothing.
    pub fn test_unres(ledger: &mut Ledger, currency_id: u64, who: u64, amount: u128) -> (r: Result<
        (),
        Error,
    >)
        requires
            old(ledger).wf(),
        ensures
            final(ledger).wf(),
            final(ledger).minimum_spec() == old(ledger).minimum_spec(),
            final(ledger).total_of() == old(ledger).total_of(),
            r is Ok <==> old(ledger).reserved_of(currency_id, who) >= amount,
            r is Ok ==> final(ledger).free_of(currency_id, who) == old(ledger).free_of(
                currency_id,
                who,
            ) + amount && final(ledger).reserved_of(currency_id, who) == old(ledger).reserved_of(
                currency_id,
                who,
            ) - amount,
            r is Err ==> r == Err::<(), Error>(Error::InsufficientBalance) && old(
                ledger,
            ).agrees_with(*final(ledger)),
            old(ledger).agrees_except(*final(ledger), currency_id, who),
    {
        let ghost l0 = *ledger;
        let remainder = ledger.unreserve(currency_id, who, amount);
        if remainder > 0 {
            let ghost l1 = *ledger;
            let released = amount - remainder;
            let res = ledger.reserve(currency_id, who, released);
            proof {
                assert(res is Ok);
                assert forall|c: u64, a: u64| #[trigger] l0.free_of(c, a) == ledger.free_of(
                    c,
                    a,
                ) by {
                    if !(c == currency_id && a == who) {
                        assert(l0.free_of(c, a) == l1.free_of(c, a));
                        assert(l1.free_of(c, a) == ledger.free_of(c, a));
                    }
                }
                assert forall|c: u64, a: u64| #[trigger] l0.reserved_of(c, a)
                    == ledger.reserved_of(c, a) by {
                    if !(c == currency_id && a == who) {
                        assert(l0.reserved_of(c, a) == l1.reserved_of(c, a));
                        assert(l1.reserved_of(c, a) == ledger.reserved_of(c, a));
                    }
                }
            }
            return Err(Error::InsufficientBalance);
        }
        Ok(())
    }

    /// Releases exactly the amount from the account's reserve into its own
    /// free balance (the repatriation target is the caller itself), rolling
    /// back as [`Template::test_unres`] does when the amount was not fully
    /// reserved.
    pub fn test_unres_to(ledger: &mut Ledger, currency_id: u64, who: u64, amount: u128) -> (r:
        Result<(), Error>)
        requires
            old(ledger).wf(),
        ensures
            final(ledger).wf(),
            final(ledger).minimum_spec() == old(ledger).minimum_spec(),
            final(ledger).total_of() == old(ledger).total_of(),
            r is Ok <==> old(ledger).reserved_of(currency_id, who) >= amount,
            r is Ok ==> final(ledger).free_of(currency_id, who) == old(ledger).free_of(
                currency_id,
                who,
            ) + amount && final(ledger).reserved_of(currency_id, who) == old(ledger).reserved_of(
                currency_id,
                who,
            ) - amount,
            r is Err ==> r == Err::<(), Error>(Error::InsufficientBalance) && old(
                ledger,
            ).agrees_with(*final(ledger)),
            old(ledger).agrees_except(*final(ledger), currency_id, who),
    {
        Self::test_unres(ledger, currency_id, who, amount)
    }
}

} // verus!
