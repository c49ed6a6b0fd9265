//! Minting: creating new supply and absorbing it into the treasury sink.
//!
//! New supply is represented as an [`Imbalance`] claim, created by
//! [`Ledger::issue`] and consumed exactly once by depositing it into the
//! treasury account's free balance.

use vstd::prelude::*;

use crate::ledger::Imbalance;
use crate::ledger::Ledger;
use crate::ledger::min_u128;

verus! {

/// The minting authority: where minted supply goes, and in which currency it
/// is created.
pub struct Minting {
    /// The account that absorbs newly created supply.
    pub treasury: u64,
    /// The currency new supply is created in.
    pub currency_id: u64,
}

impl Minting {
    /// A minting authority for the treasury account and currency.
    pub fn new(treasury: u64, currency_id: u64) -> (r: Minting)
        ensures
            r.treasury == treasury,
            r.currency_id == currency_id,
    {
        Minting { treasury, currency_id }
    }

    /// Takes a claim on new supply to the treasury, consuming it: the
    /// treasury's free balance grows by the claim's amount, saturating at
    /// what its entry can take. Returns the amount actually credited.
    pub fn do_mint(&self, ledger: &mut Ledger, amount: Imbalance) -> (credited: u128)
        requires
            old(ledger).wf(),
        ensures
            final(ledger).wf(),
            final(ledger).minimum_spec() == old(ledger).minimum_spec(),
            credited == min_u128(
                amount.amount_spec(),
                (u128::MAX - old(ledger).free_of(amount.currency_spec(), self.treasury) - old(
                    ledger,
                ).reserved_of(amount.currency_spec(), self.treasury)) as u128,
            ),
            final(ledger).free_of(amount.currency_spec(), self.treasury) == old(ledger).free_of(
                amount.currency_spec(),
                self.treasury,
            ) + credited,
            final(ledger).reserved_of(amount.currency_spec(), self.treasury) == old(
                ledger,
            ).reserved_of(amount.currency_spec(), self.treasury),
            old(ledger).agrees_except(*final(ledger), amount.currency_spec(), self.treasury),
            final(ledger).total_of() == old(ledger).total_of() + credited,
    {
        ledger.resolve_into(amount, self.treasury)
    }

    /// Creates `x` of new supply and takes it to the treasury. Returns the
    /// amount actually credited (the full `x` unless the treasury's entry
    /// saturates).
    pub fn mint(&self, ledger: &mut Ledger, x: u128) -> (credited: u128)
        requires
            old(ledger).wf(),
        ensures
            final(ledger).wf(),
            final(ledger).minimum_spec() == old(ledger).minimum_spec(),
            credited == min_u128(
                x,
                (u128::MAX - old(ledger).free_of(self.currency_id, self.treasury) - old(
                    ledger,
                ).reserved_of(self.currency_id, self.treasury)) as u128,
            ),
            final(ledger).free_of(self.currency_id, self.treasury) == old(ledger).free_of(
                self.currency_id,
                self.treasury,
            ) + credited,
            final(ledger).reserved_of(self.currency_id, self.treasury) == old(ledger).reserved_of(
                self.currency_id,
                self.treasury,
            ),
            old(ledger).agrees_except(*final(ledger), self.currency_id, self.treasury),
            final(ledger).total_of() == old(ledger).total_of() + credited,
    {
        let imbalance = Ledger::issue(self.currency_id, x);
        self.do_mint(ledger, imbalance)
    }
}

} // verus!
