//! A multi-currency balance ledger with free and reserved balances.
//!
//! Each (currency, account) pair holds a free balance (spendable) and a
//! reserved balance (locked, released back explicitly). The engine treats this
//! ledger as its external collaborator: it reserves stakes and collateral on
//! it, releases them, and transfers payouts through it. An account that holds
//! no entry simply has zero balances.
//!
//! The ledger also carries the minimum ("existential") balance: the smallest
//! free balance an entry should keep to avoid being purged; reservation sizing
//! in the engine accounts for it.

use vstd::prelude::*;

use crate::errors::Error;

verus! {

/// One balance entry: the free and reserved amounts that one account holds in
/// one currency.
#[derive(Clone, Copy, Debug)]
struct Cell {
    currency: u64,
    account: u64,
    free: u128,
    reserved: u128,
}

/// No two entries share a (currency, account) key.
spec fn uniq(s: Seq<Cell>) -> bool {
    forall|i: int, j: int|
        0 <= i < j < s.len() ==> !(#[trigger] s[i].currency == #[trigger] s[j].currency
            && s[i].account == s[j].account)
}

/// Some entry carries the key.
spec fn has_key(s: Seq<Cell>, c: u64, a: u64) -> bool {
    exists|i: int| 0 <= i < s.len() && #[trigger] s[i].currency == c && s[i].account == a
}

/// The index of the entry with the key (meaningful only when `has_key`).
spec fn idx_of(s: Seq<Cell>, c: u64, a: u64) -> int {
    choose|i: int| 0 <= i < s.len() && #[trigger] s[i].currency == c && s[i].account == a
}

/// The free balance recorded for the key; zero when no entry carries it.
spec fn free_in(s: Seq<Cell>, c: u64, a: u64) -> u128 {
    if has_key(s, c, a) {
        s[idx_of(s, c, a)].free
    } else {
        0
    }
}

/// The reserved balance recorded for the key; zero when no entry carries it.
spec fn reserved_in(s: Seq<Cell>, c: u64, a: u64) -> u128 {
    if has_key(s, c, a) {
        s[idx_of(s, c, a)].reserved
    } else {
        0
    }
}

/// In a duplicate-free sequence, an entry holding the key pins down the
/// lookup: the key is present and its index is that entry's.
proof fn lemma_uniq_idx(s: Seq<Cell>, c: u64, a: u64, i: int)
    requires
        uniq(s),
        0 <= i < s.len(),
        s[i].currency == c,
        s[i].account == a,
    ensures
        has_key(s, c, a),
        idx_of(s, c, a) == i,
{
    assert(has_key(s, c, a));
    let j = idx_of(s, c, a);
    assert(0 <= j < s.len() && s[j].currency == c && s[j].account == a);
    if i < j {
        assert(!(s[i].currency == s[j].currency && s[i].account == s[j].account));
    } else if j < i {
        assert(!(s[j].currency == s[i].currency && s[j].account == s[i].account));
    }
}

/// Updating an entry in place (keeping its key) keeps the sequence
/// duplicate-free, moves the key's balances to the new entry's, and leaves
/// every other key's balances untouched.
proof fn lemma_update_frame(s: Seq<Cell>, i: int, v: Cell)
    requires
        uniq(s),
        0 <= i < s.len(),
        v.currency == s[i].currency,
        v.account == s[i].account,
    ensures
        uniq(s.update(i, v)),
        free_in(s.update(i, v), v.currency, v.account) == v.free,
        reserved_in(s.update(i, v), v.currency, v.account) == v.reserved,
        forall|c: u64, a: u64|
            !(c == v.currency && a == v.account) ==> #[trigger] free_in(s.update(i, v), c, a)
                == free_in(s, c, a),
        forall|c: u64, a: u64|
            !(c == v.currency && a == v.account) ==> #[trigger] reserved_in(s.update(i, v), c, a)
                == reserved_in(s, c, a),
{
    let s2 = s.update(i, v);
    assert(uniq(s2));
    lemma_uniq_idx(s2, v.currency, v.account, i);
    assert forall|c: u64, a: u64| !(c == v.currency && a == v.account) implies free_in(
        s.update(i, v),
        c,
        a,
    ) == free_in(s, c, a) && reserved_in(s.update(i, v), c, a) == reserved_in(s, c, a) by {
        if has_key(s, c, a) {
            let j = idx_of(s, c, a);
            lemma_uniq_idx(s, c, a, j);
            assert(j != i);
            assert(s2[j] == s[j]);
            lemma_uniq_idx(s2, c, a, j);
        } else {
            assert(!has_key(s2, c, a)) by {
                if has_key(s2, c, a) {
                    let j = idx_of(s2, c, a);
                    assert(0 <= j < s2.len() && s2[j].currency == c && s2[j].account == a);
                    assert(j != i);
                    assert(s[j] == s2[j]);
                    assert(has_key(s, c, a));
                }
            }
        }
    }
}

/// Appending an entry with a fresh key keeps the sequence duplicate-free,
/// makes the new key's balances the entry's, and leaves every other key's
/// balances untouched.
proof fn lemma_push_frame(s: Seq<Cell>, v: Cell)
    requires
        uniq(s),
        !has_key(s, v.currency, v.account),
    ensures
        uniq(s.push(v)),
        free_in(s.push(v), v.currency, v.account) == v.free,
        reserved_in(s.push(v), v.currency, v.account) == v.reserved,
        forall|c: u64, a: u64|
            !(c == v.currency && a == v.account) ==> #[trigger] free_in(s.push(v), c, a)
                == free_in(s, c, a),
        forall|c: u64, a: u64|
            !(c == v.currency && a == v.account) ==> #[trigger] reserved_in(s.push(v), c, a)
                == reserved_in(s, c, a),
{
    let s2 = s.push(v);
    let n = s.len() as int;
    assert(s2[n] == v);
    assert forall|i: int, j: int| 0 <= i < j < s2.len() implies !(#[trigger] s2[i].currency
        == #[trigger] s2[j].currency && s2[i].account == s2[j].account) by {
        if j < n {
            assert(s2[i] == s[i] && s2[j] == s[j]);
        } else {
            assert(j == n);
            assert(s2[i] == s[i]);
            if s[i].currency == v.currency && s[i].account == v.account {
                assert(has_key(s, v.currency, v.account));
            }
        }
    }
    lemma_uniq_idx(s2, v.currency, v.account, n);
    assert forall|c: u64, a: u64| !(c == v.currency && a == v.account) implies free_in(
        s.push(v),
        c,
        a,
    ) == free_in(s, c, a) && reserved_in(s.push(v), c, a) == reserved_in(s, c, a) by {
        if has_key(s, c, a) {
            let j = idx_of(s, c, a);
            lemma_uniq_idx(s, c, a, j);
            assert(s2[j] == s[j]);
            lemma_uniq_idx(s2, c, a, j);
        } else {
            assert(!has_key(s2, c, a)) by {
                if has_key(s2, c, a) {
                    let j = idx_of(s2, c, a);
                    if j < n {
                        assert(s[j] == s2[j]);
                        assert(has_key(s, c, a));
                    } else {
                        assert(s2[j] == v);
                    }
                }
            }
        }
    }
}

/// The smaller of two balances.
pub open spec fn min_u128(a: u128, b: u128) -> u128 {
    if a < b {
        a
    } else {
        b
    }
}

/// The sum of all balances (free and reserved) recorded in the sequence.
spec fn total_in(s: Seq<Cell>) -> nat
    decreases s.len(),
{
    if s.len() == 0 {
        0
    } else {
        (total_in(s.drop_last()) + s.last().free + s.last().reserved) as nat
    }
}

/// Updating one entry moves the recorded total by the difference between the
/// new entry's balances and the old entry's.
proof fn lemma_total_update(s: Seq<Cell>, i: int, v: Cell)
    requires
        0 <= i < s.len(),
    ensures
        total_in(s.update(i, v)) + s[i].free + s[i].reserved == total_in(s) + v.free + v.reserved,
    decreases s.len(),
{
    let s2 = s.update(i, v);
    if i == s.len() - 1 {
        assert(s2.drop_last() =~= s.drop_last());
        assert(s2.last() == v);
    } else {
        assert(s2.drop_last() =~= s.drop_last().update(i, v));
        assert(s2.last() == s.last());
        lemma_total_update(s.drop_last(), i, v);
    }
}

/// Appending an entry adds its balances to the recorded total.
proof fn lemma_total_push(s: Seq<Cell>, v: Cell)
    ensures
        total_in(s.push(v)) == total_in(s) + v.free + v.reserved,
{
    assert(s.push(v).drop_last() =~= s);
    assert(s.push(v).last() == v);
}

/// The frame argument every balance mutation repeats: starting from a ledger
/// `l0`, looking an entry up (possibly inserting a zero entry, giving `mid`)
/// and then replacing that entry with one carrying the same key (giving `fin`)
/// keeps the ledger well-formed, moves the key's balances to the new entry's,
/// leaves every other key's balances untouched, and moves the recorded total
/// by the difference between the new entry's balances and the old entry's.
proof fn lemma_frame_chain(l0: Ledger, mid: Ledger, fin: Ledger, i: int, v: Cell)
    requires
        mid.wf(),
        l0.agrees_with(mid),
        l0.total_of() == mid.total_of(),
        0 <= i < mid.cells@.len(),
        v.currency == mid.cells@[i].currency,
        v.account == mid.cells@[i].account,
        v.free + v.reserved <= u128::MAX,
        fin.cells@ == mid.cells@.update(i, v),
        fin.minimum == mid.minimum,
    ensures
        fin.wf(),
        fin.minimum_spec() == l0.minimum_spec(),
        fin.free_of(v.currency, v.account) == v.free,
        fin.reserved_of(v.currency, v.account) == v.reserved,
        l0.agrees_except(fin, v.currency, v.account),
        fin.total_of() + mid.cells@[i].free + mid.cells@[i].reserved == l0.total_of() + v.free
            + v.reserved,
{
    lemma_update_frame(mid.cells@, i, v);
    lemma_total_update(mid.cells@, i, v);
    assert forall|k: int| 0 <= k < fin.cells@.len() implies (#[trigger] fin.cells@[k].free as int)
        + fin.cells@[k].reserved <= u128::MAX by {
        if k != i {
            assert(fin.cells@[k] == mid.cells@[k]);
        }
    }
    assert forall|c: u64, a: u64| !(c == v.currency && a == v.account)
        implies #[trigger] l0.free_of(c, a) == fin.free_of(c, a) by {
        assert(l0.free_of(c, a) == mid.free_of(c, a));
        assert(free_in(mid.cells@.update(i, v), c, a) == free_in(mid.cells@, c, a));
    }
    assert forall|c: u64, a: u64| !(c == v.currency && a == v.account)
        implies #[trigger] l0.reserved_of(c, a) == fin.reserved_of(c, a) by {
        assert(l0.reserved_of(c, a) == mid.reserved_of(c, a));
        assert(reserved_in(mid.cells@.update(i, v), c, a) == reserved_in(mid.cells@, c, a));
    }
}

/// A claim on newly created supply: consumed exactly once, by depositing it
/// into an account (the treasury sink, ordinarily).
pub struct Imbalance {
    currency_id: u64,
    amount: u128,
}

impl Imbalance {
    /// The currency the supply was created in.
    pub closed spec fn currency_spec(self) -> u64 {
        self.currency_id
    }

    /// The amount of supply the token stands for.
    pub closed spec fn amount_spec(self) -> u128 {
        self.amount
    }

    /// The amount of supply the token stands for.
    pub fn peek(&self) -> (r: u128)
        ensures
            r == self.amount_spec(),
    {
        self.amount
    }
}

/// The balance ledger.
pub struct Ledger {
    minimum: u128,
    cells: Vec<Cell>,
}

impl Ledger {
    /// Well-formed: entries have unique keys, and each entry's total balance
    /// (free plus reserved) fits the balance type.
    pub closed spec fn wf(self) -> bool {
        &&& uniq(self.cells@)
        &&& forall|i: int|
            0 <= i < self.cells@.len() ==> (#[trigger] self.cells@[i].free as int)
                + self.cells@[i].reserved <= u128::MAX
    }

    /// The minimum ("existential") balance.
    pub closed spec fn minimum_spec(self) -> u128 {
        self.minimum
    }

    /// The free balance of the account in the currency.
    pub closed spec fn free_of(self, currency_id: u64, who: u64) -> u128 {
        free_in(self.cells@, currency_id, who)
    }

    /// The reserved balance of the account in the currency.
    pub closed spec fn reserved_of(self, currency_id: u64, who: u64) -> u128 {
        reserved_in(self.cells@, currency_id, who)
    }

    /// The two ledgers record the same balances for every key and carry the
    /// same minimum balance: nothing an observer can read tells them apart.
    pub open spec fn agrees_with(self, other: Ledger) -> bool {
        &&& self.minimum_spec() == other.minimum_spec()
        &&& forall|c: u64, a: u64| #[trigger] self.free_of(c, a) == other.free_of(c, a)
        &&& forall|c: u64, a: u64| #[trigger] self.reserved_of(c, a) == other.reserved_of(c, a)
    }

    /// The two ledgers agree on every key other than the given one.
    pub open spec fn agrees_except(self, other: Ledger, currency_id: u64, who: u64) -> bool {
        &&& self.minimum_spec() == other.minimum_spec()
        &&& forall|c: u64, a: u64|
            !(c == currency_id && a == who) ==> #[trigger] self.free_of(c, a) == other.free_of(c, a)
        &&& forall|c: u64, a: u64|
            !(c == currency_id && a == who) ==> #[trigger] self.reserved_of(c, a)
                == other.reserved_of(c, a)
    }

    /// The two ledgers agree on every key of a currency other than the given
    /// one, and on every account of that currency other than the two given.
    pub open spec fn agrees_except2(
        self,
        other: Ledger,
        currency_id: u64,
        who1: u64,
        who2: u64,
    ) -> bool {
        &&& self.minimum_spec() == other.minimum_spec()
        &&& forall|c: u64, a: u64|
            !(c == currency_id && (a == who1 || a == who2)) ==> #[trigger] self.free_of(c, a)
                == other.free_of(c, a)
        &&& forall|c: u64, a: u64|
            !(c == currency_id && (a == who1 || a == who2)) ==> #[trigger] self.reserved_of(c, a)
                == other.reserved_of(c, a)
    }

    /// An empty ledger with the given minimum balance: every balance is zero.
    pub fn new(minimum: u128) -> (r: Ledger)
        ensures
            r.wf(),
            r.minimum_spec() == minimum,
            forall|c: u64, a: u64| #[trigger] r.free_of(c, a) == 0,
            forall|c: u64, a: u64| #[trigger] r.reserved_of(c, a) == 0,
    {
        let r = Ledger { minimum, cells: Vec::new() };
        proof {
            assert(forall|c: u64, a: u64| !has_key(r.cells@, c, a));
        }
        r
    }

    /// The index of the entry with the key, when one exists.
    fn find_cell(&self, currency_id: u64, who: u64) -> (r: Option<usize>)
        ensures
            match r {
                Some(i) => i < self.cells@.len() && self.cells@[i as int].currency == currency_id
                    && self.cells@[i as int].account == who && has_key(
                    self.cells@,
                    currency_id,
                    who,
                ),
                None => !has_key(self.cells@, currency_id, who),
            },
    {
        let n = self.cells.len();
        let mut i: usize = 0;
        while i < n
            invariant
                n == self.cells@.len(),
                i <= n,
                forall|k: int|
                    0 <= k < i ==> !(#[trigger] self.cells@[k].currency == currency_id
                        && self.cells@[k].account == who),
            decreases n - i,
        {
            if self.cells[i].currency == currency_id && self.cells[i].account == who {
                return Some(i);
            }
            i = i + 1;
        }
        None
    }

    /// The minimum ("existential") balance; the same for every currency.
    pub fn minimum_balance(&self, _currency_id: u64) -> (r: u128)
        ensures
            r == self.minimum_spec(),
    {
        self.minimum
    }

    /// The free balance of the account in the currency.
    pub fn free_balance(&self, currency_id: u64, who: u64) -> (r: u128)
        requires
            self.wf(),
        ensures
            r == self.free_of(currency_id, who),
    {
        match self.find_cell(currency_id, who) {
            Some(i) => {
                proof {
                    lemma_uniq_idx(self.cells@, currency_id, who, i as int);
                }
                self.cells[i].free
            },
            None => 0,
        }
    }

    /// The reserved balance of the account in the currency.
    pub fn reserved_balance(&self, currency_id: u64, who: u64) -> (r: u128)
        requires
            self.wf(),
        ensures
            r == self.reserved_of(currency_id, who),
    {
        match self.find_cell(currency_id, who) {
            Some(i) => {
                proof {
                    lemma_uniq_idx(self.cells@, currency_id, who, i as int);
                }
                self.cells[i].reserved
            },
            None => 0,
        }
    }

    /// Whether the account could move the amount from free to reserved.
    pub fn can_reserve(&self, currency_id: u64, who: u64, amount: u128) -> (r: bool)
        requires
            self.wf(),
        ensures
            r == (self.free_of(currency_id, who) >= amount),
    {
        self.free_balance(currency_id, who) >= amount
    }

    /// The total supply the ledger records, over all currencies and accounts,
    /// free and reserved alike. Reservations, releases and transfers conserve
    /// it; only issued supply increases it.
    pub closed spec fn total_of(self) -> nat {
        total_in(self.cells@)
    }

    /// Replaces the entry at the index.
    fn set_cell(&mut self, i: usize, v: Cell)
        requires
            i < old(self).cells@.len(),
        ensures
            final(self).cells@ == old(self).cells@.update(i as int, v),
            final(self).minimum == old(self).minimum,
    {
        let r = &mut self.cells[i];
        *r = v;
    }

    /// The index of the entry with the key, inserting a zero entry when none
    /// exists. Creating the zero entry changes no recorded balance.
    fn cell_index_or_insert(&mut self, currency_id: u64, who: u64) -> (i: usize)
        requires
            old(self).wf(),
        ensures
            final(self).wf(),
            final(self).minimum == old(self).minimum,
            i < final(self).cells@.len(),
            final(self).cells@[i as int].currency == currency_id,
            final(self).cells@[i as int].account == who,
            idx_of(final(self).cells@, currency_id, who) == i as int,
            has_key(final(self).cells@, currency_id, who),
            final(self).cells@[i as int].free == old(self).free_of(currency_id, who),
            final(self).cells@[i as int].reserved == old(self).reserved_of(currency_id, who),
            old(self).agrees_with(*final(self)),
            final(self).total_of() == old(self).total_of(),
    {
        let ghost l0 = *self;
        match self.find_cell(currency_id, who) {
            Some(i) => {
                proof {
                    lemma_uniq_idx(self.cells@, currency_id, who, i as int);
                }
                i
            },
            None => {
                let n = self.cells.len();
                let v = Cell { currency: currency_id, account: who, free: 0, reserved: 0 };
                self.cells.push(v);
                proof {
                    lemma_push_frame(l0.cells@, v);
                    lemma_total_push(l0.cells@, v);
                    lemma_uniq_idx(self.cells@, currency_id, who, n as int);
                    assert forall|k: int| 0 <= k < self.cells@.len() implies (
                    #[trigger] self.cells@[k].free as int) + self.cells@[k].reserved
                        <= u128::MAX by {
                        if k < n {
                            assert(self.cells@[k] == l0.cells@[k]);
                        }
                    }
                    assert forall|c: u64, a: u64| #[trigger] l0.free_of(c, a) == self.free_of(
                        c,
                        a,
                    ) by {
                        if c == currency_id && a == who {
                            assert(!has_key(l0.cells@, c, a));
                        }
                    }
                    assert forall|c: u64, a: u64| #[trigger] l0.reserved_of(c, a)
                        == self.reserved_of(c, a) by {
                        if c == currency_id && a == who {
                            assert(!has_key(l0.cells@, c, a));
                        }
                    }
                }
                n
            },
        }
    }

    /// Moves the amount from the account's free balance to its reserved
    /// balance. Fails, changing nothing, when the free balance is short.
    pub fn reserve(&mut self, currency_id: u64, who: u64, amount: u128) -> (r: Result<(), Error>)
        requires
            old(self).wf(),
        ensures
            final(self).wf(),
            final(self).minimum_spec() == old(self).minimum_spec(),
            r is Ok <==> old(self).free_of(currency_id, who) >= amount,
            r is Ok ==> final(self).free_of(currency_id, who) == old(self).free_of(
                currency_id,
                who,
            ) - amount && final(self).reserved_of(currency_id, who) == old(self).reserved_of(
                currency_id,
                who,
            ) + amount,
            r is Err ==> *final(self) == *old(self) && r == Err::<(), Error>(
                Error::InsufficientBalance,
            ),
            old(self).agrees_except(*final(self), currency_id, who),
            final(self).total_of() == old(self).total_of(),
    {
        let free = self.free_balance(currency_id, who);
        if free < amount {
            return Err(Error::InsufficientBalance);
        }
        let ghost l0 = *self;
        let i = self.cell_index_or_insert(currency_id, who);
        let ghost mid = *self;
        let cell = self.cells[i];
        proof {
            assert((mid.cells@[i as int].free as int) + mid.cells@[i as int].reserved
                <= u128::MAX);
        }
        let v = Cell {
            currency: cell.currency,
            account: cell.account,
            free: cell.free - amount,
            reserved: cell.reserved + amount,
        };
        self.set_cell(i, v);
        proof {
            lemma_frame_chain(l0, mid, *self, i as int, v);
        }
        Ok(())
    }

    /// Releases up to the amount from the account's reserved balance back to
    /// its free balance. Never fails: returns the shortfall, the part of the
    /// amount that was not reserved and so could not be released.
    pub fn unreserve(&mut self, currency_id: u64, who: u64, amount: u128) -> (shortfall: u128)
        requires
            old(self).wf(),
        ensures
            final(self).wf(),
            final(self).minimum_spec() == old(self).minimum_spec(),
            shortfall == amount - min_u128(old(self).reserved_of(currency_id, who), amount),
            final(self).free_of(currency_id, who) == old(self).free_of(currency_id, who)
                + min_u128(old(self).reserved_of(currency_id, who), amount),
            final(self).reserved_of(currency_id, who) == old(self).reserved_of(currency_id, who)
                - min_u128(old(self).reserved_of(currency_id, who), amount),
            old(self).agrees_except(*final(self), currency_id, who),
            final(self).total_of() == old(self).total_of(),
    {
        let ghost l0 = *self;
        let i = self.cell_index_or_insert(currency_id, who);
        let ghost mid = *self;
        let cell = self.cells[i];
        proof {
            assert((mid.cells@[i as int].free as int) + mid.cells@[i as int].reserved
                <= u128::MAX);
        }
        let actual = if cell.reserved < amount {
            cell.reserved
        } else {
            amount
        };
        let v = Cell {
            currency: cell.currency,
            account: cell.account,
            free: cell.free + actual,
            reserved: cell.reserved - actual,
        };
        self.set_cell(i, v);
        proof {
            lemma_frame_chain(l0, mid, *self, i as int, v);
        }
        amount - actual
    }

    /// Moves the amount between the free balances of two distinct accounts in
    /// one currency. Fails, changing nothing, when the sender's free balance
    /// is short, when a keep-alive transfer would leave the sender under the
    /// minimum balance, or when the receiver's entry cannot take the amount.
    pub fn transfer(
        &mut self,
        currency_id: u64,
        from: u64,
        to: u64,
        amount: u128,
        keep_alive: bool,
    ) -> (r: Result<(), Error>)
        requires
            old(self).wf(),
            from != to,
        ensures
            final(self).wf(),
            final(self).minimum_spec() == old(self).minimum_spec(),
            r is Ok <==> (old(self).free_of(currency_id, from) >= amount && (keep_alive
                ==> old(self).free_of(currency_id, from) - amount >= old(self).minimum_spec()) && (
            old(self).free_of(currency_id, to) + old(self).reserved_of(currency_id, to) + amount
                <= u128::MAX)),
            r is Ok ==> final(self).free_of(currency_id, from) == old(self).free_of(
                currency_id,
                from,
            ) - amount && final(self).free_of(currency_id, to) == old(self).free_of(
                currency_id,
                to,
            ) + amount && final(self).reserved_of(currency_id, from) == old(self).reserved_of(
                currency_id,
                from,
            ) && final(self).reserved_of(currency_id, to) == old(self).reserved_of(
                currency_id,
                to,
            ),
            r is Err ==> *final(self) == *old(self),
            (old(self).free_of(currency_id, from) < amount || (keep_alive && old(self).free_of(
                currency_id,
                from,
            ) - amount < old(self).minimum_spec())) ==> r == Err::<(), Error>(
                Error::InsufficientBalance,
            ),
            r is Err && !(old(self).free_of(currency_id, from) < amount || (keep_alive && old(
                self,
            ).free_of(currency_id, from) - amount < old(self).minimum_spec())) ==> r == Err::<
                (),
                Error,
            >(Error::Overflow),
            old(self).agrees_except2(*final(self), currency_id, from, to),
            final(self).total_of() == old(self).total_of(),
    {
        let free_from = self.free_balance(currency_id, from);
        if free_from < amount {
            return Err(Error::InsufficientBalance);
        }
        if keep_alive && free_from - amount < self.minimum {
            return Err(Error::InsufficientBalance);
        }
        let free_to = self.free_balance(currency_id, to);
        let reserved_to = self.reserved_balance(currency_id, to);
        if amount > u128::MAX - free_to || free_to + amount > u128::MAX - reserved_to {
            return Err(Error::Overflow);
        }
        let ghost l0 = *self;
        let i = self.cell_index_or_insert(currency_id, from);
        let ghost mid1 = *self;
        let cell_from = self.cells[i];
        let v_from = Cell {
            currency: cell_from.currency,
            account: cell_from.account,
            free: cell_from.free - amount,
            reserved: cell_from.reserved,
        };
        self.set_cell(i, v_from);
        proof {
            lemma_frame_chain(l0, mid1, *self, i as int, v_from);
        }
        let ghost mid2 = *self;
        let j = self.cell_index_or_insert(currency_id, to);
        let ghost mid3 = *self;
        let cell_to = self.cells[j];
        proof {
            assert(mid3.cells@[j as int].free == mid2.free_of(currency_id, to));
            assert(mid2.free_of(currency_id, to) == l0.free_of(currency_id, to));
            assert(mid3.cells@[j as int].reserved == l0.reserved_of(currency_id, to));
        }
        let v_to = Cell {
            currency: cell_to.currency,
            account: cell_to.account,
            free: cell_to.free + amount,
            reserved: cell_to.reserved,
        };
        self.set_cell(j, v_to);
        proof {
            lemma_frame_chain(mid2, mid3, *self, j as int, v_to);
            assert(mid2.free_of(currency_id, from) == l0.free_of(currency_id, from) - amount);
            assert(mid2.reserved_of(currency_id, from) == l0.reserved_of(currency_id, from));
            assert(self.free_of(currency_id, from) == mid2.free_of(currency_id, from));
            assert(self.reserved_of(currency_id, from) == mid2.reserved_of(currency_id, from));
            assert(mid2.free_of(currency_id, to) == l0.free_of(currency_id, to));
            assert(mid2.reserved_of(currency_id, to) == l0.reserved_of(currency_id, to));
            assert forall|c: u64, a: u64| !(c == currency_id && (a == from || a == to))
                implies #[trigger] l0.free_of(c, a) == self.free_of(c, a) by {
                assert(l0.free_of(c, a) == mid2.free_of(c, a));
                assert(mid2.free_of(c, a) == self.free_of(c, a));
            }
            assert forall|c: u64, a: u64| !(c == currency_id && (a == from || a == to))
                implies #[trigger] l0.reserved_of(c, a) == self.reserved_of(c, a) by {
                assert(l0.reserved_of(c, a) == mid2.reserved_of(c, a));
                assert(mid2.reserved_of(c, a) == self.reserved_of(c, a));
            }
        }
        Ok(())
    }

    /// Creates a claim on new supply in the currency. The supply enters the
    /// ledger only when the claim is deposited (see [`Ledger::resolve_into`]).
    pub fn issue(currency_id: u64, amount: u128) -> (imb: Imbalance)
        ensures
            imb.currency_spec() == currency_id,
            imb.amount_spec() == amount,
    {
        Imbalance { currency_id, amount }
    }

    /// Deposits a claim on new supply into the account's free balance,
    /// consuming the claim. The deposit saturates at what the entry can still
    /// take; the amount actually credited is returned.
    pub fn resolve_into(&mut self, imb: Imbalance, who: u64) -> (credited: u128)
        requires
            old(self).wf(),
        ensures
            final(self).wf(),
            final(self).minimum_spec() == old(self).minimum_spec(),
            credited == min_u128(
                imb.amount_spec(),
                (u128::MAX - old(self).free_of(imb.currency_spec(), who) - old(self).reserved_of(
                    imb.currency_spec(),
                    who,
                )) as u128,
            ),
            final(self).free_of(imb.currency_spec(), who) == old(self).free_of(
                imb.currency_spec(),
                who,
            ) + credited,
            final(self).reserved_of(imb.currency_spec(), who) == old(self).reserved_of(
                imb.currency_spec(),
                who,
            ),
            old(self).agrees_except(*final(self), imb.currency_spec(), who),
            final(self).total_of() == old(self).total_of() + credited,
    {
        let ghost l0 = *self;
        let currency_id = imb.currency_id;
        let amount = imb.amount;
        let i = self.cell_index_or_insert(currency_id, who);
        let ghost mid = *self;
        let cell = self.cells[i];
        proof {
            assert((mid.cells@[i as int].free as int) + mid.cells@[i as int].reserved
                <= u128::MAX);
        }
        let room = u128::MAX - cell.free - cell.reserved;
        let credited = if amount < room {
            amount
        } else {
            room
        };
        let v = Cell {
            currency: cell.currency,
            account: cell.account,
            free: cell.free + credited,
            reserved: cell.reserved,
        };
        self.set_cell(i, v);
        proof {
            lemma_frame_chain(l0, mid, *self, i as int, v);
        }
        credited
    }
}

} // verus!
