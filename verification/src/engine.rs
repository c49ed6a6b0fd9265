//! The reward/collateral engine: the project and review registries, the user
//! registry, and the reservation/release/payout protocol that ties them to the
//! balance ledger.
//!
//! Every public operation runs as one transaction: it checks its preconditions
//! first, mutates afterwards, and compensates any ledger step it cannot keep,
//! so that a failed call leaves every registry and every balance as it found
//! them.

use vstd::prelude::*;

use crate::errors::Error;
use crate::ledger::Ledger;
use crate::ledger::min_u128;
use crate::projects::Project;
use crate::projects::ProjectID;
use crate::projects::ProposalStatus;
use crate::projects::Reason;
use crate::projects::Review;
use crate::projects::Status;
use crate::users::User;

verus! {

/// One user-registry entry.
#[derive(Clone, Copy)]
pub struct UserEntry {
    pub account: u64,
    pub user: User,
}

/// No two reviews share an (author, project) key.
pub open spec fn rev_uniq(s: Seq<Review>) -> bool {
    forall|i: int, j: int|
        0 <= i < j < s.len() ==> !(#[trigger] s[i].user_id == #[trigger] s[j].user_id
            && s[i].project_id == s[j].project_id)
}

/// Some review carries the key.
pub open spec fn rev_has(s: Seq<Review>, who: u64, pid: ProjectID) -> bool {
    exists|i: int| 0 <= i < s.len() && #[trigger] s[i].user_id == who && s[i].project_id == pid
}

/// The index of the review with the key (meaningful only when `rev_has`).
pub open spec fn rev_idx(s: Seq<Review>, who: u64, pid: ProjectID) -> int {
    choose|i: int| 0 <= i < s.len() && #[trigger] s[i].user_id == who && s[i].project_id == pid
}

/// In a duplicate-free review sequence, a review holding the key pins down the
/// lookup.
proof fn lemma_rev_uniq_idx(s: Seq<Review>, who: u64, pid: ProjectID, i: int)
    requires
        rev_uniq(s),
        0 <= i < s.len(),
        s[i].user_id == who,
        s[i].project_id == pid,
    ensures
        rev_has(s, who, pid),
        rev_idx(s, who, pid) == i,
{
    assert(rev_has(s, who, pid));
    let j = rev_idx(s, who, pid);
    if i < j {
        assert(!(s[i].user_id == s[j].user_id && s[i].project_id == s[j].project_id));
    } else if j < i {
        assert(!(s[j].user_id == s[i].user_id && s[j].project_id == s[i].project_id));
    }
}

/// No two user entries share an account.
pub open spec fn user_uniq(s: Seq<UserEntry>) -> bool {
    forall|i: int, j: int| 0 <= i < j < s.len() ==> #[trigger] s[i].account != #[trigger] s[j].account
}

/// Some entry carries the account.
pub open spec fn user_has(s: Seq<UserEntry>, who: u64) -> bool {
    exists|i: int| 0 <= i < s.len() && #[trigger] s[i].account == who
}

/// The index of the entry with the account (meaningful only when `user_has`).
pub open spec fn user_idx(s: Seq<UserEntry>, who: u64) -> int {
    choose|i: int| 0 <= i < s.len() && #[trigger] s[i].account == who
}

/// In a duplicate-free user sequence, an entry holding the account pins down
/// the lookup.
proof fn lemma_user_uniq_idx(s: Seq<UserEntry>, who: u64, i: int)
    requires
        user_uniq(s),
        0 <= i < s.len(),
        s[i].account == who,
    ensures
        user_has(s, who),
        user_idx(s, who) == i,
{
    assert(user_has(s, who));
    let j = user_idx(s, who);
    if i < j {
        assert(s[i].account != s[j].account);
    } else if j < i {
        assert(s[j].account != s[i].account);
    }
}

/// Updating a review in place (keeping its key) keeps the sequence
/// duplicate-free, moves the key's lookup to the new review, and leaves every
/// other key's lookup untouched.
proof fn lemma_rev_update_frame(s: Seq<Review>, i: int, v: Review)
    requires
        rev_uniq(s),
        0 <= i < s.len(),
        v.user_id == s[i].user_id,
        v.project_id == s[i].project_id,
    ensures
        rev_uniq(s.update(i, v)),
        rev_has(s.update(i, v), v.user_id, v.project_id),
        rev_idx(s.update(i, v), v.user_id, v.project_id) == i,
        forall|w: u64, p: ProjectID|
            !(w == v.user_id && p == v.project_id) ==> #[trigger] rev_has(s.update(i, v), w, p)
                == rev_has(s, w, p),
        forall|w: u64, p: ProjectID|
            !(w == v.user_id && p == v.project_id) && #[trigger] rev_has(s, w, p) ==> s.update(
                i,
                v,
            )[rev_idx(s.update(i, v), w, p)] == s[rev_idx(s, w, p)],
{
    let s2 = s.update(i, v);
    assert(rev_uniq(s2));
    lemma_rev_uniq_idx(s2, v.user_id, v.project_id, i);
    assert forall|w: u64, p: ProjectID| !(w == v.user_id && p == v.project_id)
        implies #[trigger] rev_has(s.update(i, v), w, p) == rev_has(s, w, p) by {
        if rev_has(s, w, p) {
            let j = rev_idx(s, w, p);
            lemma_rev_uniq_idx(s, w, p, j);
            assert(j != i);
            assert(s2[j] == s[j]);
            lemma_rev_uniq_idx(s2, w, p, j);
        } else {
            assert(!rev_has(s2, w, p)) by {
                if rev_has(s2, w, p) {
                    let j = rev_idx(s2, w, p);
                    assert(j != i);
                    assert(s[j] == s2[j]);
                    assert(rev_has(s, w, p));
                }
            }
        }
    }
    assert forall|w: u64, p: ProjectID| !(w == v.user_id && p == v.project_id)
        && #[trigger] rev_has(s, w, p) implies s.update(i, v)[rev_idx(s.update(i, v), w, p)]
        == s[rev_idx(s, w, p)] by {
        let j = rev_idx(s, w, p);
        lemma_rev_uniq_idx(s, w, p, j);
        assert(j != i);
        assert(s2[j] == s[j]);
        lemma_rev_uniq_idx(s2, w, p, j);
    }
}

/// Appending a review with a fresh key keeps the sequence duplicate-free,
/// makes the new key's lookup the appended review, and leaves every other
/// key's lookup untouched.
proof fn lemma_rev_push_frame(s: Seq<Review>, v: Review)
    requires
        rev_uniq(s),
        !rev_has(s, v.user_id, v.project_id),
    ensures
        rev_uniq(s.push(v)),
        rev_has(s.push(v), v.user_id, v.project_id),
        s.push(v)[rev_idx(s.push(v), v.user_id, v.project_id)] == v,
        forall|w: u64, p: ProjectID|
            !(w == v.user_id && p == v.project_id) ==> #[trigger] rev_has(s.push(v), w, p)
                == rev_has(s, w, p),
        forall|w: u64, p: ProjectID|
            !(w == v.user_id && p == v.project_id) && #[trigger] rev_has(s, w, p) ==> s.push(
                v,
            )[rev_idx(s.push(v), w, p)] == s[rev_idx(s, w, p)],
{
    let s2 = s.push(v);
    let n = s.len() as int;
    assert(s2[n] == v);
    assert forall|i: int, j: int| 0 <= i < j < s2.len() implies !(#[trigger] s2[i].user_id
        == #[trigger] s2[j].user_id && s2[i].project_id == s2[j].project_id) by {
        if j < n {
            assert(s2[i] == s[i] && s2[j] == s[j]);
        } else {
            assert(j == n);
            assert(s2[i] == s[i]);
            if s[i].user_id == v.user_id && s[i].project_id == v.project_id {
                assert(rev_has(s, v.user_id, v.project_id));
            }
        }
    }
    lemma_rev_uniq_idx(s2, v.user_id, v.project_id, n);
    assert forall|w: u64, p: ProjectID| !(w == v.user_id && p == v.project_id)
        implies #[trigger] rev_has(s.push(v), w, p) == rev_has(s, w, p) by {
        if rev_has(s, w, p) {
            let j = rev_idx(s, w, p);
            lemma_rev_uniq_idx(s, w, p, j);
            assert(s2[j] == s[j]);
            lemma_rev_uniq_idx(s2, w, p, j);
        } else {
            assert(!rev_has(s2, w, p)) by {
                if rev_has(s2, w, p) {
                    let j = rev_idx(s2, w, p);
                    if j < n {
                        assert(s[j] == s2[j]);
                        assert(rev_has(s, w, p));
                    } else {
                        assert(s2[j] == v);
                    }
                }
            }
        }
    }
    assert forall|w: u64, p: ProjectID| !(w == v.user_id && p == v.project_id)
        && #[trigger] rev_has(s, w, p) implies s.push(v)[rev_idx(s.push(v), w, p)] == s[rev_idx(
        s,
        w,
        p,
    )] by {
        let j = rev_idx(s, w, p);
        lemma_rev_uniq_idx(s, w, p, j);
        assert(s2[j] == s[j]);
        lemma_rev_uniq_idx(s2, w, p, j);
    }
}

/// Updating a user entry in place (keeping its account) keeps the sequence
/// duplicate-free, moves the account's lookup to the new entry, and leaves
/// every other account's lookup untouched.
proof fn lemma_user_update_frame(s: Seq<UserEntry>, i: int, v: UserEntry)
    requires
        user_uniq(s),
        0 <= i < s.len(),
        v.account == s[i].account,
    ensures
        user_uniq(s.update(i, v)),
        user_has(s.update(i, v), v.account),
        user_idx(s.update(i, v), v.account) == i,
        forall|w: u64|
            w != v.account ==> #[trigger] user_has(s.update(i, v), w) == user_has(s, w),
        forall|w: u64|
            w != v.account && #[trigger] user_has(s, w) ==> s.update(i, v)[user_idx(
                s.update(i, v),
                w,
            )] == s[user_idx(s, w)],
{
    let s2 = s.update(i, v);
    assert(user_uniq(s2));
    lemma_user_uniq_idx(s2, v.account, i);
    assert forall|w: u64| w != v.account implies #[trigger] user_has(s.update(i, v), w)
        == user_has(s, w) by {
        if user_has(s, w) {
            let j = user_idx(s, w);
            lemma_user_uniq_idx(s, w, j);
            assert(j != i);
            assert(s2[j] == s[j]);
            lemma_user_uniq_idx(s2, w, j);
        } else {
            assert(!user_has(s2, w)) by {
                if user_has(s2, w) {
                    let j = user_idx(s2, w);
                    assert(j != i);
                    assert(s[j] == s2[j]);
                    assert(user_has(s, w));
                }
            }
        }
    }
    assert forall|w: u64| w != v.account && #[trigger] user_has(s, w) implies s.update(
        i,
        v,
    )[user_idx(s.update(i, v), w)] == s[user_idx(s, w)] by {
        let j = user_idx(s, w);
        lemma_user_uniq_idx(s, w, j);
        assert(j != i);
        assert(s2[j] == s[j]);
        lemma_user_uniq_idx(s2, w, j);
    }
}

/// Appending a user entry with a fresh account keeps the sequence
/// duplicate-free, makes the account's lookup the appended entry, and leaves
/// every other account's lookup untouched.
proof fn lemma_user_push_frame(s: Seq<UserEntry>, v: UserEntry)
    requires
        user_uniq(s),
        !user_has(s, v.account),
    ensures
        user_uniq(s.push(v)),
        user_has(s.push(v), v.account),
        s.push(v)[user_idx(s.push(v), v.account)] == v,
        forall|w: u64| w != v.account ==> #[trigger] user_has(s.push(v), w) == user_has(s, w),
        forall|w: u64|
            w != v.account && #[trigger] user_has(s, w) ==> s.push(v)[user_idx(s.push(v), w)]
                == s[user_idx(s, w)],
{
    let s2 = s.push(v);
    let n = s.len() as int;
    assert(s2[n] == v);
    assert forall|i: int, j: int| 0 <= i < j < s2.len() implies #[trigger] s2[i].account
        != #[trigger] s2[j].account by {
        if j < n {
            assert(s2[i] == s[i] && s2[j] == s[j]);
        } else {
            assert(j == n);
            assert(s2[i] == s[i]);
            if s[i].account == v.account {
                assert(user_has(s, v.account));
            }
        }
    }
    lemma_user_uniq_idx(s2, v.account, n);
    assert forall|w: u64| w != v.account implies #[trigger] user_has(s.push(v), w) == user_has(
        s,
        w,
    ) by {
        if user_has(s, w) {
            let j = user_idx(s, w);
            lemma_user_uniq_idx(s, w, j);
            assert(s2[j] == s[j]);
            lemma_user_uniq_idx(s2, w, j);
        } else {
            assert(!user_has(s2, w)) by {
                if user_has(s2, w) {
                    let j = user_idx(s2, w);
                    if j < n {
                        assert(s[j] == s2[j]);
                        assert(user_has(s, w));
                    } else {
                        assert(s2[j] == v);
                    }
                }
            }
        }
    }
    assert forall|w: u64| w != v.account && #[trigger] user_has(s, w) implies s.push(v)[user_idx(
        s.push(v),
        w,
    )] == s[user_idx(s, w)] by {
        let j = user_idx(s, w);
        lemma_user_uniq_idx(s, w, j);
        assert(s2[j] == s[j]);
        lemma_user_uniq_idx(s2, w, j);
    }
}

/// Saturating addition on balances.
pub open spec fn sat_add_u128(a: u128, b: u128) -> u128 {
    if a + b > u128::MAX {
        u128::MAX
    } else {
        (a + b) as u128
    }
}

/// Saturating addition on 32-bit counters.
pub open spec fn sat_add_u32(a: u32, b: u32) -> u32 {
    if a + b > u32::MAX {
        u32::MAX
    } else {
        (a + b) as u32
    }
}

/// Saturating addition on 64-bit counters.
pub open spec fn sat_add_u64(a: u64, b: u64) -> u64 {
    if a + b > u64::MAX {
        u64::MAX
    } else {
        (a + b) as u64
    }
}

/// Saturating multiplication on balances.
pub open spec fn sat_mul_u128(a: u128, b: u128) -> u128 {
    if a * b > u128::MAX {
        u128::MAX
    } else {
        (a * b) as u128
    }
}

/// Computes [`sat_mul_u128`].
fn sat_mul(a: u128, b: u128) -> (r: u128)
    ensures
        r == sat_mul_u128(a, b),
{
    match a.checked_mul(b) {
        Some(v) => v,
        None => u128::MAX,
    }
}

/// The reservation-sizing rule shared by reward staking and collateral
/// locking: reserve the base amount, plus the minimum balance when the
/// account's reserved balance modulo the base does not already cover the
/// minimum (so the reservation does not leave an un-spendable dust balance).
/// The rule is exact only for an account with at most one active reservation
/// of the base; it is kept as specified.
pub open spec fn sized_amount(reserved: u128, base: u128, minimum: u128) -> u128
    recommends
        base > 0,
{
    if reserved % base < minimum {
        if base + minimum > u128::MAX {
            u128::MAX
        } else {
            (base + minimum) as u128
        }
    } else {
        base
    }
}

/// Computes [`sized_amount`].
fn sized(reserved: u128, base: u128, minimum: u128) -> (r: u128)
    requires
        base > 0,
    ensures
        r == sized_amount(reserved, base, minimum),
{
    if reserved % base < minimum {
        base.saturating_add(minimum)
    } else {
        base
    }
}

/// The reward/collateral engine: registries, their ledger, and the constants
/// the operations are parameterized over.
pub struct Engine {
    /// The amount a project owner stakes, and the cap on a project's reward.
    pub reward_cap: u128,
    /// The amount a review author locks as collateral.
    pub user_collateral: u128,
    /// The currency rewards are staked and paid in; collateral must be locked
    /// in some other currency.
    pub native_currency_id: u64,
    /// The bound on metadata and review-content blobs.
    pub string_limit: u32,
    /// The balance ledger the engine reserves, releases and transfers on.
    pub ledger: Ledger,
    pub projects: Vec<Project>,
    pub next_project_index: ProjectID,
    pub reviews: Vec<Review>,
    pub users: Vec<UserEntry>,
}

impl Engine {
    /// The id the next created project will get.
    pub open spec fn next_index_spec(self) -> ProjectID {
        self.next_project_index
    }

    /// Whether a project with the id exists.
    pub open spec fn has_project(self, pid: ProjectID) -> bool {
        1 <= pid && pid as int <= self.projects@.len()
    }

    /// The project with the id (meaningful only when `has_project`).
    pub open spec fn project_of(self, pid: ProjectID) -> Project {
        self.projects@[pid as int - 1]
    }

    /// Whether the account has reviewed the project.
    pub open spec fn has_review(self, who: u64, pid: ProjectID) -> bool {
        rev_has(self.reviews@, who, pid)
    }

    /// The review the account placed on the project (meaningful only when
    /// `has_review`).
    pub open spec fn review_of(self, who: u64, pid: ProjectID) -> Review {
        self.reviews@[rev_idx(self.reviews@, who, pid)]
    }

    /// Whether the account has a user record.
    pub open spec fn has_user(self, who: u64) -> bool {
        user_has(self.users@, who)
    }

    /// The account's user record (meaningful only when `has_user`).
    pub open spec fn user_of(self, who: u64) -> User {
        self.users@[user_idx(self.users@, who)].user
    }

    /// The user registry holds at most one entry per account.
    pub open spec fn users_wf(self) -> bool {
        user_uniq(self.users@)
    }

    /// The structural half of well-formedness: constants positive, the id
    /// counter in step with the registry, keys unique.
    pub closed spec fn wf_base(self) -> bool {
        &&& self.ledger.wf()
        &&& self.reward_cap > 0
        &&& self.user_collateral > 0
        &&& self.next_project_index as int == self.projects@.len() + 1
        &&& rev_uniq(self.reviews@)
        &&& self.users_wf()
    }

    /// Every review on record refers to an existing project, did not come
    /// from the project's owner, carries a score in range and a collateral
    /// currency other than the native one, has an author with a user record,
    /// and its snapshot is covered by the project's total of user scores.
    pub closed spec fn wf_reviews(self) -> bool {
        forall|k: int|
            0 <= k < self.reviews@.len() ==> {
                let r = #[trigger] self.reviews@[k];
                &&& 1 <= r.project_id && r.project_id as int <= self.projects@.len()
                &&& r.user_id != self.projects@[r.project_id as int - 1].owner_id
                &&& 1 <= r.review_score <= 5
                &&& r.collateral_currency_id != self.native_currency_id
                &&& user_has(self.users@, r.user_id)
                &&& r.point_snapshot <= self.projects@[r.project_id as int - 1].total_user_scores
            }
    }

    /// Every project on record keeps its payout accounting and stays within
    /// the reward cap, and its owner's user record points back at it.
    pub closed spec fn wf_projects(self) -> bool {
        forall|k: int|
            0 <= k < self.projects@.len() ==> {
                let p = #[trigger] self.projects@[k];
                &&& p.wf()
                &&& p.initial_reward@ <= self.reward_cap
                &&& user_has(self.users@, p.owner_id)
                &&& self.users@[user_idx(self.users@, p.owner_id)].user.project_id == Some(
                    (k + 1) as ProjectID,
                )
            }
    }

    /// The engine's invariant, established by the constructor and preserved by
    /// every operation.
    pub closed spec fn wf(self) -> bool {
        &&& self.wf_base()
        &&& self.wf_reviews()
        &&& self.wf_projects()
    }

    /// The two engines run over the same constants.
    pub open spec fn same_config(self, other: Engine) -> bool {
        &&& other.reward_cap == self.reward_cap
        &&& other.user_collateral == self.user_collateral
        &&& other.native_currency_id == self.native_currency_id
        &&& other.string_limit == self.string_limit
    }

    /// The two engines hold the same projects, reviews and users: nothing an
    /// observer can read of the registries tells them apart.
    pub open spec fn same_registries(self, other: Engine) -> bool {
        &&& other.next_index_spec() == self.next_index_spec()
        &&& forall|p: ProjectID| #[trigger] other.has_project(p) == self.has_project(p)
        &&& forall|p: ProjectID|
            self.has_project(p) ==> #[trigger] other.project_of(p) == self.project_of(p)
        &&& forall|w: u64, p: ProjectID| #[trigger] other.has_review(w, p) == self.has_review(w, p)
        &&& forall|w: u64, p: ProjectID|
            self.has_review(w, p) ==> #[trigger] other.review_of(w, p) == self.review_of(w, p)
        &&& forall|w: u64| #[trigger] other.has_user(w) == self.has_user(w)
        &&& forall|w: u64| self.has_user(w) ==> #[trigger] other.user_of(w) == self.user_of(w)
    }

    /// Nothing observable distinguishes the two engines: same constants, same
    /// registries, same balances. This is what a failed operation leaves
    /// behind.
    pub open spec fn unchanged(self, other: Engine) -> bool {
        &&& self.same_config(other)
        &&& self.same_registries(other)
        &&& self.ledger.agrees_with(other.ledger)
    }

    /// A fresh engine over an empty ledger: no projects, no reviews, no users,
    /// the id counter at 1.
    pub fn new(
        reward_cap: u128,
        user_collateral: u128,
        native_currency_id: u64,
        string_limit: u32,
        minimum_balance: u128,
    ) -> (e: Engine)
        requires
            reward_cap > 0,
            user_collateral > 0,
        ensures
            e.wf(),
            e.reward_cap == reward_cap,
            e.user_collateral == user_collateral,
            e.native_currency_id == native_currency_id,
            e.string_limit == string_limit,
            e.next_index_spec() == 1,
            forall|p: ProjectID| !(#[trigger] e.has_project(p)),
            forall|w: u64, p: ProjectID| !(#[trigger] e.has_review(w, p)),
            forall|w: u64| !(#[trigger] e.has_user(w)),
            e.ledger.minimum_spec() == minimum_balance,
            forall|c: u64, a: u64| #[trigger] e.ledger.free_of(c, a) == 0,
            forall|c: u64, a: u64| #[trigger] e.ledger.reserved_of(c, a) == 0,
    {
        Engine {
            reward_cap,
            user_collateral,
            native_currency_id,
            string_limit,
            ledger: Ledger::new(minimum_balance),
            projects: Vec::new(),
            next_project_index: 1,
            reviews: Vec::new(),
            users: Vec::new(),
        }
    }

    /// The index of the review with the key, when one exists.
    fn find_review(&self, who: u64, pid: ProjectID) -> (r: Option<usize>)
        ensures
            match r {
                Some(i) => i < self.reviews@.len() && self.reviews@[i as int].user_id == who
                    && self.reviews@[i as int].project_id == pid && rev_has(self.reviews@, who, pid),
                None => !rev_has(self.reviews@, who, pid),
            },
    {
        let n = self.reviews.len();
        let mut i: usize = 0;
        while i < n
            invariant
                n == self.reviews@.len(),
                i <= n,
                forall|k: int|
                    0 <= k < i ==> !(#[trigger] self.reviews@[k].user_id == who
                        && self.reviews@[k].project_id == pid),
            decreases n - i,
        {
            if self.reviews[i].user_id == who && self.reviews[i].project_id == pid {
                return Some(i);
            }
            i = i + 1;
        }
        None
    }

    /// The index of the user entry with the account, when one exists.
    fn find_user(&self, who: u64) -> (r: Option<usize>)
        ensures
            match r {
                Some(i) => i < self.users@.len() && self.users@[i as int].account == who
                    && user_has(self.users@, who),
                None => !user_has(self.users@, who),
            },
    {
        let n = self.users.len();
        let mut i: usize = 0;
        while i < n
            invariant
                n == self.users@.len(),
                i <= n,
                forall|k: int| 0 <= k < i ==> #[trigger] self.users@[k].account != who,
            decreases n - i,
        {
            if self.users[i].account == who {
                return Some(i);
            }
            i = i + 1;
        }
        None
    }

    /// The account's user record, when one exists.
    pub fn get_user_by_id(&self, who: u64) -> (r: Option<User>)
        requires
            self.users_wf(),
        ensures
            match r {
                Some(u) => self.has_user(who) && u == self.user_of(who),
                None => !self.has_user(who),
            },
    {
        match self.find_user(who) {
            Some(i) => {
                proof {
                    lemma_user_uniq_idx(self.users@, who, i as int);
                }
                Some(self.users[i].user)
            },
            None => None,
        }
    }

    /// Whether the account's user record exists.
    pub fn check_user_exists(&self, who: u64) -> (r: bool)
        requires
            self.users_wf(),
        ensures
            r == self.has_user(who),
    {
        self.find_user(who).is_some()
    }

    /// Whether the account owns a project, per its user record.
    pub fn check_owns_project(&self, who: u64) -> (r: bool)
        requires
            self.users_wf(),
        ensures
            r == (self.has_user(who) && self.user_of(who).project_id is Some),
    {
        match self.get_user_by_id(who) {
            Some(u) => u.project_id.is_some(),
            None => false,
        }
    }

    /// The project with the id, when one exists.
    pub fn get_project(&self, pid: ProjectID) -> (r: Option<&Project>)
        requires
            self.wf(),
        ensures
            match r {
                Some(p) => self.has_project(pid) && *p == self.project_of(pid),
                None => !self.has_project(pid),
            },
    {
        if pid >= 1 && (pid as usize) <= self.projects.len() {
            Some(&self.projects[(pid - 1) as usize])
        } else {
            None
        }
    }

    /// The amount a reservation of the reward stake must move for the
    /// account, per the sizing rule.
    pub open spec fn reward_stake_amount(self, who: u64) -> u128 {
        sized_amount(
            self.ledger.reserved_of(self.native_currency_id, who),
            self.reward_cap,
            self.ledger.minimum_spec(),
        )
    }

    /// The amount a collateral reservation must move for the account in the
    /// currency, per the sizing rule.
    pub open spec fn collateral_amount(self, currency_id: u64, who: u64) -> u128 {
        sized_amount(
            self.ledger.reserved_of(currency_id, who),
            self.user_collateral,
            self.ledger.minimum_spec(),
        )
    }

    /// Whether the account can afford the reward stake.
    pub open spec fn can_reward_spec(self, who: u64) -> bool {
        self.ledger.free_of(self.native_currency_id, who) >= self.reward_stake_amount(who)
    }

    /// The project's advertised reward is backed by the owner's reserved
    /// balance, minimum balance included.
    pub open spec fn reward_consistent(self, p: Project) -> bool {
        self.ledger.reserved_of(self.native_currency_id, p.owner_id) >= sat_add_u128(
            p.reward,
            self.ledger.minimum_spec(),
        )
    }

    /// The project's owner keeps at least the minimum balance free, so a
    /// keep-alive payout transfer can follow.
    pub open spec fn owner_free_ok(self, p: Project) -> bool {
        self.ledger.free_of(self.native_currency_id, p.owner_id) >= self.ledger.minimum_spec()
    }

    /// The review author's collateral is still fully reserved, minimum balance
    /// included.
    pub open spec fn collateral_consistent(self, currency_id: u64, who: u64) -> bool {
        self.ledger.reserved_of(currency_id, who) >= sat_add_u128(
            self.user_collateral,
            self.ledger.minimum_spec(),
        )
    }

    /// Whether the account can afford to stake a project reward: sizes the
    /// reservation per the dust-avoidance rule and asks the ledger. Mutates
    /// nothing.
    pub fn can_reward(&self, who: u64) -> (r: bool)
        requires
            self.wf(),
        ensures
            r == self.can_reward_spec(who),
    {
        let currency_id = self.native_currency_id;
        let existential = self.ledger.minimum_balance(currency_id);
        let reserved = self.ledger.reserved_balance(currency_id, who);
        let amount = sized(reserved, self.reward_cap, existential);
        self.ledger.can_reserve(currency_id, who, amount)
    }

    /// The pure consistency check run before any payout or acceptance: the
    /// owner's reserved balance must back the project's reward plus the
    /// minimum balance, and the owner's free balance must cover the minimum
    /// balance. Mutates nothing.
    pub fn check_reward(&self, project: &Project) -> (r: Result<(), Error>)
        requires
            self.wf(),
        ensures
            r is Ok <==> self.reward_consistent(*project) && self.owner_free_ok(*project),
            !self.reward_consistent(*project) ==> r == Err::<(), Error>(Error::RewardInconsistent),
            self.reward_consistent(*project) && !self.owner_free_ok(*project) ==> r == Err::<
                (),
                Error,
            >(Error::InsufficientBalance),
    {
        let currency_id = self.native_currency_id;
        let reserve = self.ledger.reserved_balance(currency_id, project.owner_id);
        let existential = self.ledger.minimum_balance(currency_id);
        let is_sufficient = reserve >= project.reward.saturating_add(existential);
        if !is_sufficient {
            return Err(Error::RewardInconsistent);
        }
        let free_balance = self.ledger.free_balance(currency_id, project.owner_id);
        if free_balance < existential {
            return Err(Error::InsufficientBalance);
        }
        Ok(())
    }

    /// Sizes the reward stake, reserves it against the project's owner, and
    /// on success records the reward cap as the project's reward. On failure
    /// nothing changes. To be called once, when the project is initialised:
    /// nothing may have been paid out of the project yet.
    pub fn reserve_reward(&mut self, project: &mut Project) -> (r: Result<(), Error>)
        requires
            old(self).wf(),
            old(project).paid_out@ == 0,
        ensures
            final(self).wf(),
            old(self).same_config(*final(self)),
            final(self).projects@ == old(self).projects@,
            final(self).reviews@ == old(self).reviews@,
            final(self).users@ == old(self).users@,
            final(self).next_project_index == old(self).next_project_index,
            final(self).ledger.minimum_spec() == old(self).ledger.minimum_spec(),
            r is Ok <==> old(self).can_reward_spec(old(project).owner_id),
            r is Ok ==> ({
                let native = old(self).native_currency_id;
                let owner = old(project).owner_id;
                let stake = old(self).reward_stake_amount(owner);
                &&& final(self).ledger.free_of(native, owner) == old(self).ledger.free_of(
                    native,
                    owner,
                ) - stake
                &&& final(self).ledger.reserved_of(native, owner) == old(self).ledger.reserved_of(
                    native,
                    owner,
                ) + stake
                &&& old(self).ledger.agrees_except(final(self).ledger, native, owner)
                &&& final(self).ledger.total_of() == old(self).ledger.total_of()
                &&& final(project).reward == old(self).reward_cap
                &&& final(project).initial_reward@ == old(self).reward_cap
                &&& final(project).paid_out@ == 0
                &&& final(project).owner_id == old(project).owner_id
                &&& final(project).badge == old(project).badge
                &&& final(project).metadata == old(project).metadata
                &&& final(project).proposal_status == old(project).proposal_status
                &&& final(project).total_user_scores == old(project).total_user_scores
                &&& final(project).total_review_score == old(project).total_review_score
                &&& final(project).number_of_reviews == old(project).number_of_reviews
            }),
            r is Err ==> r == Err::<(), Error>(Error::InsufficientBalance) && final(self).ledger
                == old(self).ledger && *final(project) == *old(project),
    {
        let currency_id = self.native_currency_id;
        let existential = self.ledger.minimum_balance(currency_id);
        let reserved = self.ledger.reserved_balance(currency_id, project.owner_id);
        let amount = sized(reserved, self.reward_cap, existential);
        match self.ledger.reserve(currency_id, project.owner_id, amount) {
            Ok(()) => {
                project.reward = self.reward_cap;
                project.initial_reward = Ghost(self.reward_cap as nat);
                Ok(())
            },
            Err(e) => Err(e),
        }
    }

    /// The reward release primitive: releases the amount from the owner's
    /// reserved reward balance and decrements the project's reward by the same
    /// amount. The ledger release happens first; the in-memory decrement only
    /// follows a release with no shortfall. On a shortfall the released part
    /// is re-reserved, the project is left untouched, and the call fails with
    /// a consistency error. The caller must have validated that the amount is
    /// covered by the project's reward; the primitive does not check it.
    pub fn reward(&mut self, project: &mut Project, amount: u128) -> (r: Result<(), Error>)
        requires
            old(self).ledger.wf(),
            amount <= old(project).reward,
        ensures
            final(self).ledger.wf(),
            old(self).same_config(*final(self)),
            final(self).projects@ == old(self).projects@,
            final(self).reviews@ == old(self).reviews@,
            final(self).users@ == old(self).users@,
            final(self).next_project_index == old(self).next_project_index,
            final(self).ledger.minimum_spec() == old(self).ledger.minimum_spec(),
            final(self).ledger.total_of() == old(self).ledger.total_of(),
            r is Ok <==> old(self).ledger.reserved_of(
                old(self).native_currency_id,
                old(project).owner_id,
            ) >= amount,
            r is Ok ==> ({
                let native = old(self).native_currency_id;
                let owner = old(project).owner_id;
                &&& final(self).ledger.free_of(native, owner) == old(self).ledger.free_of(
                    native,
                    owner,
                ) + amount
                &&& final(self).ledger.reserved_of(native, owner) == old(self).ledger.reserved_of(
                    native,
                    owner,
                ) - amount
                &&& old(self).ledger.agrees_except(final(self).ledger, native, owner)
                &&& final(project).reward == old(project).reward - amount
                &&& final(project).paid_out@ == old(project).paid_out@ + amount
                &&& final(project).initial_reward@ == old(project).initial_reward@
                &&& final(project).owner_id == old(project).owner_id
                &&& final(project).badge == old(project).badge
                &&& final(project).metadata == old(project).metadata
                &&& final(project).proposal_status == old(project).proposal_status
                &&& final(project).total_user_scores == old(project).total_user_scores
                &&& final(project).total_review_score == old(project).total_review_score
                &&& final(project).number_of_reviews == old(project).number_of_reviews
            }),
            r is Err ==> r == Err::<(), Error>(Error::RewardInconsistent) && *final(project)
                == *old(project) && old(self).ledger.agrees_with(final(self).ledger),
    {
        let currency_id = self.native_currency_id;
        let owner = project.owner_id;
        let ghost l0 = self.ledger;
        let missing_reward = self.ledger.unreserve(currency_id, owner, amount);
        if missing_reward > 0 {
            let ghost lmid = self.ledger;
            let restore = amount - missing_reward;
            let res = self.ledger.reserve(currency_id, owner, restore);
            proof {
                assert(res is Ok);
                assert forall|c: u64, a: u64| #[trigger] l0.free_of(c, a)
                    == self.ledger.free_of(c, a) by {
                    if !(c == currency_id && a == owner) {
                        assert(l0.free_of(c, a) == lmid.free_of(c, a));
                        assert(lmid.free_of(c, a) == self.ledger.free_of(c, a));
                    }
                }
                assert forall|c: u64, a: u64| #[trigger] l0.reserved_of(c, a)
                    == self.ledger.reserved_of(c, a) by {
                    if !(c == currency_id && a == owner) {
                        assert(l0.reserved_of(c, a) == lmid.reserved_of(c, a));
                        assert(lmid.reserved_of(c, a) == self.ledger.reserved_of(c, a));
                    }
                }
            }
            return Err(Error::RewardInconsistent);
        }
        let ghost paid0 = project.paid_out@;
        project.reward = project.reward - amount;
        project.paid_out = Ghost((paid0 + amount) as nat);
        Ok(())
    }

    /// Whether the account's collateral is complete and sufficient for the
    /// rewarding process: its reserved balance in the currency covers the
    /// collateral plus the minimum balance. Mutates nothing.
    pub fn check_collateral(&self, currency_id: u64, who: u64) -> (r: bool)
        requires
            self.wf(),
        ensures
            r == self.collateral_consistent(currency_id, who),
    {
        let collateral = self.user_collateral;
        let existential_deposit = self.ledger.minimum_balance(currency_id);
        let reserve = self.ledger.reserved_balance(currency_id, who);
        reserve >= collateral.saturating_add(existential_deposit)
    }

    /// Releases the collateral held by the account: releases up to the
    /// collateral amount from its reserved balance, without checks. To be
    /// called only in the context of an acceptance, after the collateral was
    /// checked.
    pub fn release_collateral(&mut self, currency_id: u64, who: u64)
        requires
            old(self).ledger.wf(),
        ensures
            final(self).ledger.wf(),
            old(self).same_config(*final(self)),
            final(self).projects@ == old(self).projects@,
            final(self).reviews@ == old(self).reviews@,
            final(self).users@ == old(self).users@,
            final(self).next_project_index == old(self).next_project_index,
            final(self).ledger.minimum_spec() == old(self).ledger.minimum_spec(),
            final(self).ledger.total_of() == old(self).ledger.total_of(),
            ({
                let released = min_u128(
                    old(self).ledger.reserved_of(currency_id, who),
                    old(self).user_collateral,
                );
                &&& final(self).ledger.free_of(currency_id, who) == old(self).ledger.free_of(
                    currency_id,
                    who,
                ) + released
                &&& final(self).ledger.reserved_of(currency_id, who)
                    == old(self).ledger.reserved_of(currency_id, who) - released
            }),
            old(self).ledger.agrees_except(final(self).ledger, currency_id, who),
    {
        let _ = self.ledger.unreserve(currency_id, who, self.user_collateral);
    }

    /// Whether the account can serve up the required collateral in the
    /// currency: sizes the reservation per the dust-avoidance rule and asks
    /// the ledger. Returns the sized amount to reserve; mutates nothing.
    pub fn can_collateralise(&self, currency_id: u64, id: u64) -> (r: Result<u128, Error>)
        requires
            self.wf(),
        ensures
            r is Ok <==> self.ledger.free_of(currency_id, id) >= self.collateral_amount(
                currency_id,
                id,
            ),
            r is Ok ==> r == Ok::<u128, Error>(self.collateral_amount(currency_id, id)),
            r is Err ==> r == Err::<u128, Error>(Error::InsufficientBalance),
    {
        let existential_deposit = self.ledger.minimum_balance(currency_id);
        let reserved = self.ledger.reserved_balance(currency_id, id);
        let reserve = sized(reserved, self.user_collateral, existential_deposit);
        let can_reserve = self.ledger.can_reserve(currency_id, id, reserve);
        if can_reserve {
            Ok(reserve)
        } else {
            Err(Error::InsufficientBalance)
        }
    }

    /// Reserves the given collateral amount for the account. Assumes the
    /// amount was sized and checked (see [`Engine::can_collateralise`]); the
    /// reservation itself can still fail, changing nothing.
    pub fn collateralise(
        &mut self,
        collateral_currency_id: u64,
        id: u64,
        reserve: u128,
    ) -> (r: Result<(), Error>)
        requires
            old(self).wf(),
        ensures
            final(self).wf(),
            old(self).same_config(*final(self)),
            final(self).projects@ == old(self).projects@,
            final(self).reviews@ == old(self).reviews@,
            final(self).users@ == old(self).users@,
            final(self).next_project_index == old(self).next_project_index,
            final(self).ledger.minimum_spec() == old(self).ledger.minimum_spec(),
            final(self).ledger.total_of() == old(self).ledger.total_of(),
            r is Ok <==> old(self).ledger.free_of(collateral_currency_id, id) >= reserve,
            r is Ok ==> final(self).ledger.free_of(collateral_currency_id, id)
                == old(self).ledger.free_of(collateral_currency_id, id) - reserve
                && final(self).ledger.reserved_of(collateral_currency_id, id)
                == old(self).ledger.reserved_of(collateral_currency_id, id) + reserve,
            r is Err ==> r == Err::<(), Error>(Error::InsufficientBalance) && final(self).ledger
                == old(self).ledger,
            old(self).ledger.agrees_except(final(self).ledger, collateral_currency_id, id),
    {
        self.ledger.reserve(collateral_currency_id, id, reserve)
    }

    /// Writes the account's user record, inserting it when absent.
    fn upsert_user(&mut self, who: u64, user: User)
        requires
            old(self).users_wf(),
        ensures
            final(self).users_wf(),
            final(self).has_user(who),
            final(self).user_of(who) == user,
            forall|w: u64| w != who ==> final(self).has_user(w) == old(self).has_user(w),
            forall|w: u64|
                w != who && old(self).has_user(w) ==> final(self).user_of(w) == old(self).user_of(
                    w,
                ),
            old(self).same_config(*final(self)),
            final(self).projects@ == old(self).projects@,
            final(self).reviews@ == old(self).reviews@,
            final(self).next_project_index == old(self).next_project_index,
            final(self).ledger == old(self).ledger,
    {
        let ghost s0 = self.users@;
        let v = UserEntry { account: who, user };
        match self.find_user(who) {
            Some(i) => {
                let r = &mut self.users[i];
                *r = v;
                proof {
                    lemma_user_update_frame(s0, i as int, v);
                }
            },
            None => {
                self.users.push(v);
                proof {
                    lemma_user_push_frame(s0, v);
                }
            },
        }
    }

    /// The account's user record; a default record (no reputation, no owned
    /// project) is created and stored when none exists.
    pub fn get_or_create_default(&mut self, who: u64) -> (r: User)
        requires
            old(self).users_wf(),
        ensures
            final(self).users_wf(),
            r == (if old(self).has_user(who) {
                old(self).user_of(who)
            } else {
                User { rank_points: 0, project_id: None }
            }),
            final(self).has_user(who),
            final(self).user_of(who) == r,
            forall|w: u64| w != who ==> final(self).has_user(w) == old(self).has_user(w),
            forall|w: u64|
                w != who && old(self).has_user(w) ==> final(self).user_of(w) == old(self).user_of(
                    w,
                ),
            old(self).same_config(*final(self)),
            final(self).projects@ == old(self).projects@,
            final(self).reviews@ == old(self).reviews@,
            final(self).next_project_index == old(self).next_project_index,
            final(self).ledger == old(self).ledger,
    {
        match self.get_user_by_id(who) {
            Some(u) => u,
            None => {
                let u = User::default();
                self.upsert_user(who, u);
                u
            },
        }
    }

    /// Overwrites the account's user record; fails when none exists.
    pub fn update_user(&mut self, who: u64, user: User) -> (r: Result<(), Error>)
        requires
            old(self).users_wf(),
        ensures
            final(self).users_wf(),
            r is Ok <==> old(self).has_user(who),
            r is Err ==> r == Err::<(), Error>(Error::NoneValue) && final(self).users@ == old(
                self,
            ).users@,
            r is Ok ==> final(self).has_user(who) && final(self).user_of(who) == user,
            forall|w: u64| w != who ==> final(self).has_user(w) == old(self).has_user(w),
            forall|w: u64|
                w != who && old(self).has_user(w) ==> final(self).user_of(w) == old(self).user_of(
                    w,
                ),
            old(self).same_config(*final(self)),
            final(self).projects@ == old(self).projects@,
            final(self).reviews@ == old(self).reviews@,
            final(self).next_project_index == old(self).next_project_index,
            final(self).ledger == old(self).ledger,
    {
        if self.check_user_exists(who) {
            self.upsert_user(who, user);
            Ok(())
        } else {
            Err(Error::NoneValue)
        }
    }

    /// Writes the account's user record outright, inserting it when absent.
    /// Bootstrap wiring, for seeding users before ordinary calls; the record
    /// must keep pointing at any project the account owns.
    pub fn set_user(&mut self, who: u64, user: User) -> (r: Result<(), Error>)
        requires
            old(self).wf(),
            forall|k: ProjectID|
                old(self).has_project(k) && (#[trigger] old(self).project_of(k)).owner_id == who
                    ==> user.project_id == Some(k),
        ensures
            final(self).wf(),
            r is Ok,
            old(self).same_config(*final(self)),
            final(self).projects@ == old(self).projects@,
            final(self).reviews@ == old(self).reviews@,
            final(self).next_project_index == old(self).next_project_index,
            final(self).ledger == old(self).ledger,
            final(self).has_user(who),
            final(self).user_of(who) == user,
            forall|w: u64| w != who ==> final(self).has_user(w) == old(self).has_user(w),
            forall|w: u64|
                w != who && old(self).has_user(w) ==> final(self).user_of(w) == old(self).user_of(
                    w,
                ),
    {
        let ghost e0 = *self;
        self.upsert_user(who, user);
        proof {
            assert(self.wf_reviews()) by {
                assert forall|k: int| 0 <= k < self.reviews@.len() implies {
                    let r = #[trigger] self.reviews@[k];
                    &&& 1 <= r.project_id && r.project_id as int <= self.projects@.len()
                    &&& r.user_id != self.projects@[r.project_id as int - 1].owner_id
                    &&& 1 <= r.review_score <= 5
                    &&& r.collateral_currency_id != self.native_currency_id
                    &&& user_has(self.users@, r.user_id)
                    &&& r.point_snapshot <= self.projects@[r.project_id as int
                        - 1].total_user_scores
                } by {
                    let r = e0.reviews@[k];
                    assert(self.reviews@[k] == r);
                    assert(user_has(e0.users@, r.user_id));
                    assert(e0.has_user(r.user_id));
                    if r.user_id != who {
                        assert(self.has_user(r.user_id) == e0.has_user(r.user_id));
                    } else {
                        assert(self.has_user(who));
                    }
                    assert(user_has(self.users@, r.user_id));
                }
            }
            assert(self.wf_projects()) by {
                assert forall|k: int| 0 <= k < self.projects@.len() implies {
                    let p = #[trigger] self.projects@[k];
                    &&& p.wf()
                    &&& p.initial_reward@ <= self.reward_cap
                    &&& user_has(self.users@, p.owner_id)
                    &&& self.users@[user_idx(self.users@, p.owner_id)].user.project_id == Some(
                        (k + 1) as ProjectID,
                    )
                } by {
                    let p = e0.projects@[k];
                    assert(self.projects@[k] == p);
                    assert(p.wf() && p.initial_reward@ <= e0.reward_cap);
                    assert(user_has(e0.users@, p.owner_id));
                    assert(e0.users@[user_idx(e0.users@, p.owner_id)].user.project_id == Some(
                        (k + 1) as ProjectID,
                    ));
                    assert(e0.user_of(p.owner_id).project_id == Some((k + 1) as ProjectID));
                    if p.owner_id == who {
                        assert(e0.has_project((k + 1) as ProjectID));
                        assert(e0.project_of((k + 1) as ProjectID) == p);
                        assert(user.project_id == Some((k + 1) as ProjectID));
                        assert(self.user_of(who) == user);
                    } else {
                        assert(self.has_user(p.owner_id) == e0.has_user(p.owner_id));
                        assert(self.user_of(p.owner_id) == e0.user_of(p.owner_id));
                    }
                    assert(user_has(self.users@, p.owner_id));
                    lemma_user_uniq_idx(
                        self.users@,
                        p.owner_id,
                        user_idx(self.users@, p.owner_id),
                    );
                }
            }
            assert(self.wf());
        }
        Ok(())
    }

    /// The error a project creation by the account would fail with, if any:
    /// the id space must not be exhausted, the account must not already own a
    /// project, and it must afford the reward stake.
    pub open spec fn create_project_err(self, who: u64) -> Option<Error> {
        if self.next_index_spec() == u32::MAX {
            Some(Error::StorageOverflow)
        } else if self.has_user(who) && self.user_of(who).project_id is Some {
            Some(Error::AlreadyOwnsProject)
        } else if !self.can_reward_spec(who) {
            Some(Error::InsufficientBalance)
        } else {
            None
        }
    }

    /// Creates a project owned by the caller: allocates the next project id,
    /// reserves the reward stake against the caller, inserts the project with
    /// proposed status and zeroed aggregates, and records the ownership on the
    /// caller's user record. All mutations follow every fallible step: a
    /// failed call changes nothing. Returns the new project's id.
    pub fn create_project(&mut self, who: u64, project_meta: Vec<u8>) -> (r: Result<
        ProjectID,
        Error,
    >)
        requires
            old(self).wf(),
            project_meta@.len() <= old(self).string_limit,
        ensures
            final(self).wf(),
            old(self).same_config(*final(self)),
            final(self).ledger.minimum_spec() == old(self).ledger.minimum_spec(),
            final(self).ledger.total_of() == old(self).ledger.total_of(),
            r is Err <==> old(self).create_project_err(who) is Some,
            r is Err ==> r == Err::<ProjectID, Error>(old(self).create_project_err(who)->Some_0)
                && old(self).unchanged(*final(self)),
            r is Ok ==> r == Ok::<ProjectID, Error>(old(self).next_index_spec()) && ({
                let index = old(self).next_index_spec();
                let native = old(self).native_currency_id;
                let stake = old(self).reward_stake_amount(who);
                &&& final(self).next_index_spec() == index + 1
                &&& !old(self).has_project(index)
                &&& final(self).has_project(index)
                &&& ({
                    let p = final(self).project_of(index);
                    &&& p.owner_id == who
                    &&& p.badge is None
                    &&& p.metadata == project_meta
                    &&& p.proposal_status.status == Status::Proposed
                    &&& p.proposal_status.reason is PassedRequirements
                    &&& p.reward == old(self).reward_cap
                    &&& p.total_user_scores == 0
                    &&& p.total_review_score == 0
                    &&& p.number_of_reviews == 0
                    &&& p.initial_reward@ == old(self).reward_cap
                    &&& p.paid_out@ == 0
                })
                &&& forall|p2: ProjectID|
                    p2 != index ==> final(self).has_project(p2) == old(self).has_project(p2)
                &&& forall|p2: ProjectID|
                    p2 != index && old(self).has_project(p2) ==> final(self).project_of(p2) == old(
                        self,
                    ).project_of(p2)
                &&& final(self).reviews@ == old(self).reviews@
                &&& final(self).has_user(who)
                &&& final(self).user_of(who).project_id == Some(index)
                &&& final(self).user_of(who).rank_points == (if old(self).has_user(who) {
                    old(self).user_of(who).rank_points
                } else {
                    0u32
                })
                &&& forall|w: u64| w != who ==> final(self).has_user(w) == old(self).has_user(w)
                &&& forall|w: u64|
                    w != who && old(self).has_user(w) ==> final(self).user_of(w) == old(
                        self,
                    ).user_of(w)
                &&& final(self).ledger.free_of(native, who) == old(self).ledger.free_of(
                    native,
                    who,
                ) - stake
                &&& final(self).ledger.reserved_of(native, who) == old(self).ledger.reserved_of(
                    native,
                    who,
                ) + stake
                &&& old(self).ledger.agrees_except(final(self).ledger, native, who)
            }),
    {
        let ghost e0 = *self;
        let index = self.next_project_index;
        if index == u32::MAX {
            return Err(Error::StorageOverflow);
        }
        let mut user = match self.get_user_by_id(who) {
            Some(u) => u,
            None => User::default(),
        };
        if user.project_id.is_some() {
            return Err(Error::AlreadyOwnsProject);
        }
        if !self.can_reward(who) {
            return Err(Error::InsufficientBalance);
        }
        let mut project = Project::new(who, project_meta);
        match self.reserve_reward(&mut project) {
            Ok(()) => {},
            Err(e) => {
                return Err(e);
            },
        }
        user.project_id = Some(index);
        let ghost mid = *self;
        let ghost p_final = project;
        self.projects.push(project);
        self.next_project_index = index + 1;
        self.upsert_user(who, user);
        proof {
            assert(self.projects@ == mid.projects@.push(p_final));
            assert forall|p2: ProjectID| p2 != index && e0.has_project(p2) implies self.project_of(
                p2,
            ) == e0.project_of(p2) by {
                assert(self.projects@[p2 as int - 1] == e0.projects@[p2 as int - 1]);
            }
            assert(self.wf_reviews()) by {
                assert forall|k: int| 0 <= k < self.reviews@.len() implies {
                    let r = #[trigger] self.reviews@[k];
                    &&& 1 <= r.project_id && r.project_id as int <= self.projects@.len()
                    &&& r.user_id != self.projects@[r.project_id as int - 1].owner_id
                    &&& 1 <= r.review_score <= 5
                    &&& r.collateral_currency_id != self.native_currency_id
                    &&& user_has(self.users@, r.user_id)
                    &&& r.point_snapshot <= self.projects@[r.project_id as int
                        - 1].total_user_scores
                } by {
                    assert(self.reviews@[k] == e0.reviews@[k]);
                    let r = e0.reviews@[k];
                    assert(1 <= r.project_id && r.project_id as int <= e0.projects@.len());
                    assert(self.projects@[r.project_id as int - 1] == e0.projects@[r.project_id
                        as int - 1]);
                    assert(user_has(e0.users@, r.user_id));
                    if r.user_id != who {
                        assert(self.has_user(r.user_id) == mid.has_user(r.user_id));
                    }
                    assert(user_has(self.users@, r.user_id));
                }
            }
            assert(self.wf_projects()) by {
                assert forall|k: int| 0 <= k < self.projects@.len() implies {
                    let p = #[trigger] self.projects@[k];
                    &&& p.wf()
                    &&& p.initial_reward@ <= self.reward_cap
                    &&& user_has(self.users@, p.owner_id)
                    &&& self.users@[user_idx(self.users@, p.owner_id)].user.project_id == Some(
                        (k + 1) as ProjectID,
                    )
                } by {
                    if k < e0.projects@.len() {
                        assert(self.projects@[k] == e0.projects@[k]);
                        let p = e0.projects@[k];
                        assert(p.wf() && p.initial_reward@ <= e0.reward_cap);
                        assert(user_has(e0.users@, p.owner_id));
                        assert(e0.users@[user_idx(e0.users@, p.owner_id)].user.project_id == Some(
                            (k + 1) as ProjectID,
                        ));
                        assert(e0.user_of(p.owner_id).project_id == Some((k + 1) as ProjectID));
                        if p.owner_id == who {
                            assert(e0.has_user(who) && e0.user_of(who).project_id is Some);
                            assert(false);
                        }
                        assert(self.has_user(p.owner_id) == mid.has_user(p.owner_id));
                        assert(self.user_of(p.owner_id) == mid.user_of(p.owner_id));
                        assert(user_has(self.users@, p.owner_id));
                        lemma_user_uniq_idx(
                            self.users@,
                            p.owner_id,
                            user_idx(self.users@, p.owner_id),
                        );
                    } else {
                        assert(self.projects@[k] == p_final);
                        assert(k == e0.projects@.len());
                        assert(self.user_of(who).project_id == Some(index));
                        assert(self.users@[user_idx(self.users@, who)].user.project_id == Some(
                            (k + 1) as ProjectID,
                        ));
                    }
                }
            }
            assert(self.wf());
        }
        Ok(index)
    }

    /// The error a review by the account on the project would fail with, if
    /// any: the project must exist, the account must not have reviewed it
    /// already and must not own it, the score must be in range, the collateral
    /// currency must not be the native one, and the account must afford the
    /// sized collateral.
    pub open spec fn create_review_err(
        self,
        who: u64,
        review_score: u8,
        project_id: ProjectID,
        collateral_currency_id: u64,
    ) -> Option<Error> {
        if !self.has_project(project_id) {
            Some(Error::NoProjectWithId)
        } else if self.has_review(who, project_id) {
            Some(Error::DuplicateReview)
        } else if self.project_of(project_id).owner_id == who {
            Some(Error::OwnerReviewedProject)
        } else if !(1 <= review_score && review_score <= 5) {
            Some(Error::ReviewScoreOutOfRange)
        } else if collateral_currency_id == self.native_currency_id {
            Some(Error::NativeCollateral)
        } else if self.ledger.free_of(collateral_currency_id, who) < self.collateral_amount(
            collateral_currency_id,
            who,
        ) {
            Some(Error::InsufficientBalance)
        } else {
            None
        }
    }

    /// The rank-point snapshot a review created now by the account would
    /// carry: the account's current rank points, or zero for a fresh account.
    pub open spec fn snapshot_of(self, who: u64) -> u32 {
        if self.has_user(who) {
            self.user_of(who).rank_points
        } else {
            0
        }
    }

    /// Creates a review by the caller on the project: reserves the sized
    /// collateral in the chosen currency, snapshots the caller's rank points
    /// into the review and adds them to the project's total of user scores
    /// (saturating), and inserts the review with proposed status. All
    /// mutations follow every fallible step: a failed call changes nothing.
    pub fn create_review(
        &mut self,
        who: u64,
        review_meta: (u8, Vec<u8>),
        project_id: ProjectID,
        collateral_currency_id: u64,
    ) -> (r: Result<(), Error>)
        requires
            old(self).wf(),
            review_meta.1@.len() <= old(self).string_limit,
        ensures
            final(self).wf(),
            old(self).same_config(*final(self)),
            final(self).ledger.minimum_spec() == old(self).ledger.minimum_spec(),
            final(self).ledger.total_of() == old(self).ledger.total_of(),
            final(self).next_index_spec() == old(self).next_index_spec(),
            r is Err <==> old(self).create_review_err(
                who,
                review_meta.0,
                project_id,
                collateral_currency_id,
            ) is Some,
            r is Err ==> r == Err::<(), Error>(
                old(self).create_review_err(
                    who,
                    review_meta.0,
                    project_id,
                    collateral_currency_id,
                )->Some_0,
            ) && old(self).unchanged(*final(self)),
            r is Ok ==> ({
                let snapshot = old(self).snapshot_of(who);
                let reserve = old(self).collateral_amount(collateral_currency_id, who);
                &&& !old(self).has_review(who, project_id)
                &&& final(self).has_review(who, project_id)
                &&& ({
                    let rv = final(self).review_of(who, project_id);
                    &&& rv.proposal_status.status == Status::Proposed
                    &&& rv.proposal_status.reason is PassedRequirements
                    &&& rv.user_id == who
                    &&& rv.content == review_meta.1
                    &&& rv.project_id == project_id
                    &&& rv.point_snapshot == snapshot
                    &&& rv.review_score == review_meta.0
                    &&& rv.collateral_currency_id == collateral_currency_id
                })
                &&& forall|w: u64, p: ProjectID|
                    !(w == who && p == project_id) ==> final(self).has_review(w, p) == old(
                        self,
                    ).has_review(w, p)
                &&& forall|w: u64, p: ProjectID|
                    !(w == who && p == project_id) && old(self).has_review(w, p)
                        ==> final(self).review_of(w, p) == old(self).review_of(w, p)
                &&& ({
                    let p0 = old(self).project_of(project_id);
                    let p1 = final(self).project_of(project_id);
                    &&& p1.total_user_scores == sat_add_u32(p0.total_user_scores, snapshot)
                    &&& p1.owner_id == p0.owner_id
                    &&& p1.badge == p0.badge
                    &&& p1.metadata == p0.metadata
                    &&& p1.proposal_status == p0.proposal_status
                    &&& p1.reward == p0.reward
                    &&& p1.total_review_score == p0.total_review_score
                    &&& p1.number_of_reviews == p0.number_of_reviews
                    &&& p1.initial_reward@ == p0.initial_reward@
                    &&& p1.paid_out@ == p0.paid_out@
                })
                &&& forall|p2: ProjectID|
                    final(self).has_project(p2) == old(self).has_project(p2)
                &&& forall|p2: ProjectID|
                    p2 != project_id && old(self).has_project(p2) ==> final(self).project_of(p2)
                        == old(self).project_of(p2)
                &&& final(self).has_user(who)
                &&& final(self).user_of(who) == (if old(self).has_user(who) {
                    old(self).user_of(who)
                } else {
                    User { rank_points: 0, project_id: None }
                })
                &&& forall|w: u64| w != who ==> final(self).has_user(w) == old(self).has_user(w)
                &&& forall|w: u64|
                    w != who && old(self).has_user(w) ==> final(self).user_of(w) == old(
                        self,
                    ).user_of(w)
                &&& final(self).ledger.free_of(collateral_currency_id, who) == old(
                    self,
                ).ledger.free_of(collateral_currency_id, who) - reserve
                &&& final(self).ledger.reserved_of(collateral_currency_id, who) == old(
                    self,
                ).ledger.reserved_of(collateral_currency_id, who) + reserve
                &&& old(self).ledger.agrees_except(
                    final(self).ledger,
                    collateral_currency_id,
                    who,
                )
            }),
    {
        let ghost e0 = *self;
        let native_id = self.native_currency_id;
        if !(project_id >= 1 && (project_id as usize) <= self.projects.len()) {
            return Err(Error::NoProjectWithId);
        }
        let i = (project_id - 1) as usize;
        match self.find_review(who, project_id) {
            Some(_) => {
                return Err(Error::DuplicateReview);
            },
            None => {},
        }
        if self.projects[i].owner_id == who {
            return Err(Error::OwnerReviewedProject);
        }
        if !(review_meta.0 <= 5 && review_meta.0 >= 1) {
            return Err(Error::ReviewScoreOutOfRange);
        }
        if collateral_currency_id == native_id {
            return Err(Error::NativeCollateral);
        }
        let reserve = match self.can_collateralise(collateral_currency_id, who) {
            Ok(amount) => amount,
            Err(e) => {
                return Err(e);
            },
        };
        match self.collateralise(collateral_currency_id, who, reserve) {
            Ok(()) => {},
            Err(e) => {
                return Err(e);
            },
        }
        let ghost mid = *self;
        let user = self.get_or_create_default(who);
        let ghost mid2 = *self;
        let pr = &mut self.projects[i];
        pr.total_user_scores = pr.total_user_scores.saturating_add(user.rank_points);
        let ghost p_new = self.projects@[i as int];
        let ghost mid3 = *self;
        let review = Review {
            user_id: who,
            content: review_meta.1,
            project_id,
            proposal_status: ProposalStatus {
                status: Status::Proposed,
                reason: Reason::PassedRequirements,
            },
            point_snapshot: user.rank_points,
            review_score: review_meta.0,
            collateral_currency_id,
        };
        let ghost rv = review;
        self.reviews.push(review);
        proof {
            assert(mid3.projects@ == mid2.projects@.update(i as int, p_new));
            assert(self.reviews@ == mid3.reviews@.push(rv));
            lemma_rev_push_frame(mid3.reviews@, rv);
            assert forall|p2: ProjectID| p2 != project_id && e0.has_project(p2)
                implies self.project_of(p2) == e0.project_of(p2) by {
                assert(self.projects@[p2 as int - 1] == e0.projects@[p2 as int - 1]);
            }
            assert forall|w: u64| w != who implies self.has_user(w) == e0.has_user(w) by {
                assert(mid2.has_user(w) == mid.has_user(w));
                assert(self.has_user(w) == mid2.has_user(w));
            }
            assert forall|w: u64| w != who && e0.has_user(w) implies self.user_of(w)
                == e0.user_of(w) by {
                assert(mid.has_user(w) == e0.has_user(w));
                assert(mid2.user_of(w) == mid.user_of(w));
                assert(self.user_of(w) == mid2.user_of(w));
            }
            assert(self.wf_reviews()) by {
                assert forall|k: int| 0 <= k < self.reviews@.len() implies {
                    let r = #[trigger] self.reviews@[k];
                    &&& 1 <= r.project_id && r.project_id as int <= self.projects@.len()
                    &&& r.user_id != self.projects@[r.project_id as int - 1].owner_id
                    &&& 1 <= r.review_score <= 5
                    &&& r.collateral_currency_id != self.native_currency_id
                    &&& user_has(self.users@, r.user_id)
                    &&& r.point_snapshot <= self.projects@[r.project_id as int
                        - 1].total_user_scores
                } by {
                    if k < e0.reviews@.len() {
                        assert(self.reviews@[k] == e0.reviews@[k]);
                        let r = e0.reviews@[k];
                        assert(1 <= r.project_id && r.project_id as int <= e0.projects@.len());
                        if r.project_id == project_id {
                            assert(self.projects@[r.project_id as int - 1] == p_new);
                            assert(p_new.owner_id == e0.project_of(project_id).owner_id);
                            assert(p_new.total_user_scores >= e0.project_of(
                                project_id,
                            ).total_user_scores);
                        } else {
                            assert(self.projects@[r.project_id as int - 1]
                                == e0.projects@[r.project_id as int - 1]);
                        }
                        assert(user_has(e0.users@, r.user_id));
                        if r.user_id != who {
                            assert(self.has_user(r.user_id) == mid.has_user(r.user_id));
                        }
                        assert(user_has(self.users@, r.user_id));
                    } else {
                        assert(self.reviews@[k] == rv);
                        assert(self.projects@[project_id as int - 1] == p_new);
                        assert(p_new.total_user_scores >= rv.point_snapshot);
                        assert(user_has(self.users@, who));
                    }
                }
            }
            assert(self.wf_projects()) by {
                assert forall|k: int| 0 <= k < self.projects@.len() implies {
                    let p = #[trigger] self.projects@[k];
                    &&& p.wf()
                    &&& p.initial_reward@ <= self.reward_cap
                    &&& user_has(self.users@, p.owner_id)
                    &&& self.users@[user_idx(self.users@, p.owner_id)].user.project_id == Some(
                        (k + 1) as ProjectID,
                    )
                } by {
                    let p0 = e0.projects@[k];
                    assert(p0.wf() && p0.initial_reward@ <= e0.reward_cap);
                    assert(user_has(e0.users@, p0.owner_id));
                    assert(e0.users@[user_idx(e0.users@, p0.owner_id)].user.project_id == Some(
                        (k + 1) as ProjectID,
                    ));
                    assert(e0.user_of(p0.owner_id).project_id == Some((k + 1) as ProjectID));
                    let p = self.projects@[k];
                    if k == i as int {
                        assert(p == p_new);
                        assert(p.wf() && p.initial_reward@ <= self.reward_cap);
                    } else {
                        assert(p == p0);
                    }
                    assert(p.owner_id == p0.owner_id);
                    if p0.owner_id == who {
                        assert(self.user_of(who).project_id == e0.user_of(who).project_id);
                    } else {
                        assert(self.has_user(p0.owner_id) == mid.has_user(p0.owner_id));
                        assert(self.user_of(p0.owner_id) == mid.user_of(p0.owner_id));
                    }
                    assert(user_has(self.users@, p.owner_id));
                    lemma_user_uniq_idx(
                        self.users@,
                        p.owner_id,
                        user_idx(self.users@, p.owner_id),
                    );
                }
            }
            assert(self.wf());
        }
        Ok(())
    }

    /// The share of the remaining reward a review with the snapshot is paid
    /// when the project's total of user scores is as given: the floor of
    /// reward over total, times the snapshot, saturating. The share can be
    /// zero — for a zero snapshot, or once earlier payouts have exhausted the
    /// reward — and a zero share is paid (as nothing), not an error.
    pub open spec fn payout_for(reward: u128, total_scores: u32, snapshot: u32) -> u128
        recommends
            total_scores > 0,
    {
        sat_mul_u128(reward / (total_scores as u128), snapshot as u128)
    }

    /// The error rewarding the account for the review on the project would
    /// fail with, if any: the account must have a user record, the project's
    /// total of user scores must not be zero, the owner's reserve must cover
    /// the payout, the owner must keep the minimum balance free for the
    /// keep-alive transfer, and the receiving entry must be able to take the
    /// payout.
    pub open spec fn reward_user_err(self, who: u64, p: Project, rv: Review) -> Option<Error> {
        let native = self.native_currency_id;
        let fraction = Self::payout_for(p.reward, p.total_user_scores, rv.point_snapshot);
        if !self.has_user(who) {
            Some(Error::NoneValue)
        } else if p.total_user_scores == 0 {
            Some(Error::DivisionByZero)
        } else if self.ledger.reserved_of(native, p.owner_id) < fraction {
            Some(Error::RewardInconsistent)
        } else if self.ledger.free_of(native, p.owner_id) < self.ledger.minimum_spec() {
            Some(Error::InsufficientBalance)
        } else if self.ledger.free_of(native, who) + self.ledger.reserved_of(native, who)
            + fraction > u128::MAX {
            Some(Error::Overflow)
        } else {
            None
        }
    }

    /// Rewards the account for its review on the project: computes the payout
    /// share, increments the account's rank points by one (saturating),
    /// releases the payout from the owner's reserved reward, transfers it
    /// from the owner's free balance to the account with keep-alive
    /// semantics, and releases the account's collateral. Assumed to be called
    /// from the acceptance protocol, after its checks; a failed ledger step is
    /// compensated, so a failed call changes nothing.
    pub fn reward_user(&mut self, who: u64, project: &mut Project, review: &Review) -> (r: Result<
        (),
        Error,
    >)
        requires
            old(self).ledger.wf(),
            old(self).users_wf(),
            review.point_snapshot <= old(project).total_user_scores,
            who != old(project).owner_id,
            review.collateral_currency_id != old(self).native_currency_id,
        ensures
            final(self).ledger.wf(),
            final(self).users_wf(),
            old(self).same_config(*final(self)),
            final(self).projects@ == old(self).projects@,
            final(self).reviews@ == old(self).reviews@,
            final(self).next_project_index == old(self).next_project_index,
            final(self).ledger.minimum_spec() == old(self).ledger.minimum_spec(),
            final(self).ledger.total_of() == old(self).ledger.total_of(),
            r is Err <==> old(self).reward_user_err(who, *old(project), *review) is Some,
            r is Err ==> r == Err::<(), Error>(
                old(self).reward_user_err(who, *old(project), *review)->Some_0,
            ) && *final(project) == *old(project) && final(self).users@ == old(self).users@ && old(
                self,
            ).ledger.agrees_with(final(self).ledger),
            r is Ok ==> ({
                let native = old(self).native_currency_id;
                let owner = old(project).owner_id;
                let fraction = Self::payout_for(
                    old(project).reward,
                    old(project).total_user_scores,
                    review.point_snapshot,
                );
                let coll = review.collateral_currency_id;
                let released = min_u128(
                    old(self).ledger.reserved_of(coll, who),
                    old(self).user_collateral,
                );
                &&& fraction <= old(project).reward
                &&& final(project).reward == old(project).reward - fraction
                &&& final(project).paid_out@ == old(project).paid_out@ + fraction
                &&& final(project).initial_reward@ == old(project).initial_reward@
                &&& final(project).owner_id == old(project).owner_id
                &&& final(project).badge == old(project).badge
                &&& final(project).metadata == old(project).metadata
                &&& final(project).proposal_status == old(project).proposal_status
                &&& final(project).total_user_scores == old(project).total_user_scores
                &&& final(project).total_review_score == old(project).total_review_score
                &&& final(project).number_of_reviews == old(project).number_of_reviews
                &&& final(self).has_user(who)
                &&& final(self).user_of(who).rank_points == sat_add_u32(
                    old(self).user_of(who).rank_points,
                    1,
                )
                &&& final(self).user_of(who).project_id == old(self).user_of(who).project_id
                &&& forall|w: u64| w != who ==> final(self).has_user(w) == old(self).has_user(w)
                &&& forall|w: u64|
                    w != who && old(self).has_user(w) ==> final(self).user_of(w) == old(
                        self,
                    ).user_of(w)
                &&& final(self).ledger.free_of(native, owner) == old(self).ledger.free_of(
                    native,
                    owner,
                )
                &&& final(self).ledger.reserved_of(native, owner) == old(self).ledger.reserved_of(
                    native,
                    owner,
                ) - fraction
                &&& final(self).ledger.free_of(native, who) == old(self).ledger.free_of(
                    native,
                    who,
                ) + fraction
                &&& final(self).ledger.reserved_of(native, who) == old(self).ledger.reserved_of(
                    native,
                    who,
                )
                &&& final(self).ledger.free_of(coll, who) == old(self).ledger.free_of(coll, who)
                    + released
                &&& final(self).ledger.reserved_of(coll, who) == old(self).ledger.reserved_of(
                    coll,
                    who,
                ) - released
                &&& forall|c: u64, a: u64|
                    !((c == native && (a == owner || a == who)) || (c == coll && a == who))
                        ==> #[trigger] final(self).ledger.free_of(c, a) == old(
                        self,
                    ).ledger.free_of(c, a)
                &&& forall|c: u64, a: u64|
                    !((c == native && (a == owner || a == who)) || (c == coll && a == who))
                        ==> #[trigger] final(self).ledger.reserved_of(c, a) == old(
                        self,
                    ).ledger.reserved_of(c, a)
            }),
    {
        let ghost e0 = *self;
        let native_currency = self.native_currency_id;
        let reward = project.reward;
        let mut user = match self.get_user_by_id(who) {
            Some(u) => u,
            None => {
                return Err(Error::NoneValue);
            },
        };
        let balance_prj_score = project.total_user_scores as u128;
        let balance_rev_sshot = review.point_snapshot as u128;
        let balance_div = match reward.checked_div(balance_prj_score) {
            Some(d) => d,
            None => {
                let e = if balance_prj_score == 0 {
                    Error::DivisionByZero
                } else if reward > balance_prj_score {
                    Error::Underflow
                } else {
                    Error::Overflow
                };
                return Err(e);
            },
        };
        let reward_fraction = sat_mul(balance_div, balance_rev_sshot);
        proof {
            assert(balance_div * balance_rev_sshot <= reward) by (nonlinear_arith)
                requires
                    balance_prj_score > 0,
                    balance_div == reward / balance_prj_score,
                    balance_rev_sshot <= balance_prj_score,
            ;
            assert(reward_fraction == balance_div * balance_rev_sshot);
            assert(reward_fraction <= project.reward);
        }
        user.rank_points = user.rank_points.saturating_add(1);
        let ghost l0 = self.ledger;
        match self.reward(project, reward_fraction) {
            Ok(()) => {},
            Err(e) => {
                return Err(e);
            },
        }
        let ghost l1 = self.ledger;
        let owner = project.owner_id;
        match self.ledger.transfer(native_currency, owner, who, reward_fraction, true) {
            Ok(()) => {},
            Err(e) => {
                let ghost l2 = self.ledger;
                let res2 = self.ledger.reserve(native_currency, owner, reward_fraction);
                proof {
                    assert(res2 is Ok);
                    assert forall|c: u64, a: u64| #[trigger] l0.free_of(c, a)
                        == self.ledger.free_of(c, a) by {
                        if !(c == native_currency && a == owner) {
                            assert(l0.free_of(c, a) == l1.free_of(c, a));
                            assert(l1.free_of(c, a) == l2.free_of(c, a));
                            assert(l2.free_of(c, a) == self.ledger.free_of(c, a));
                        }
                    }
                    assert forall|c: u64, a: u64| #[trigger] l0.reserved_of(c, a)
                        == self.ledger.reserved_of(c, a) by {
                        if !(c == native_currency && a == owner) {
                            assert(l0.reserved_of(c, a) == l1.reserved_of(c, a));
                            assert(l1.reserved_of(c, a) == l2.reserved_of(c, a));
                            assert(l2.reserved_of(c, a) == self.ledger.reserved_of(c, a));
                        }
                    }
                }
                let ghost paid1 = project.paid_out@;
                project.reward = project.reward + reward_fraction;
                project.paid_out = Ghost((paid1 - reward_fraction) as nat);
                proof {
                    assert(*project =~= *old(project));
                }
                return Err(e);
            },
        }
        let ghost eu0 = *self;
        match self.update_user(who, user) {
            Ok(()) => {},
            Err(e) => {
                return Err(e);
            },
        }
        let ghost eu1 = *self;
        let ghost l2 = self.ledger;
        self.release_collateral(review.collateral_currency_id, who);
        proof {
            assert forall|w: u64| w != who implies self.has_user(w) == e0.has_user(w) by {
                assert(eu0.has_user(w) == e0.has_user(w));
                assert(eu1.has_user(w) == eu0.has_user(w));
                assert(self.has_user(w) == eu1.has_user(w));
            }
            assert forall|w: u64| w != who && e0.has_user(w) implies self.user_of(w) == e0.user_of(
                w,
            ) by {
                assert(eu0.has_user(w) == e0.has_user(w));
                assert(eu0.user_of(w) == e0.user_of(w));
                assert(eu1.user_of(w) == eu0.user_of(w));
                assert(self.user_of(w) == eu1.user_of(w));
            }
            assert(self.user_of(who) == eu1.user_of(who));
            let native = native_currency;
            let coll = review.collateral_currency_id;
            assert(l2.reserved_of(coll, who) == l0.reserved_of(coll, who)) by {
                assert(l1.reserved_of(coll, who) == l0.reserved_of(coll, who));
                assert(l2.reserved_of(coll, who) == l1.reserved_of(coll, who));
            }
            assert(l2.free_of(coll, who) == l0.free_of(coll, who)) by {
                assert(l1.free_of(coll, who) == l0.free_of(coll, who));
            }
            assert(self.ledger.free_of(native, owner) == l0.free_of(native, owner)) by {
                assert(self.ledger.free_of(native, owner) == l2.free_of(native, owner));
            }
            assert(self.ledger.reserved_of(native, owner) == l0.reserved_of(native, owner)
                - reward_fraction) by {
                assert(l2.reserved_of(native, owner) == l1.reserved_of(native, owner));
                assert(self.ledger.reserved_of(native, owner) == l2.reserved_of(native, owner));
            }
            assert(self.ledger.free_of(native, who) == l0.free_of(native, who)
                + reward_fraction) by {
                assert(l1.free_of(native, who) == l0.free_of(native, who));
                assert(self.ledger.free_of(native, who) == l2.free_of(native, who));
            }
            assert(self.ledger.reserved_of(native, who) == l0.reserved_of(native, who)) by {
                assert(l1.reserved_of(native, who) == l0.reserved_of(native, who));
                assert(l2.reserved_of(native, who) == l1.reserved_of(native, who));
                assert(self.ledger.reserved_of(native, who) == l2.reserved_of(native, who));
            }
            assert forall|c: u64, a: u64| !((c == native && (a == owner || a == who)) || (c == coll
                && a == who)) implies #[trigger] self.ledger.free_of(c, a) == l0.free_of(c, a) by {
                assert(l1.free_of(c, a) == l0.free_of(c, a));
                assert(l2.free_of(c, a) == l1.free_of(c, a));
                assert(self.ledger.free_of(c, a) == l2.free_of(c, a));
            }
            assert forall|c: u64, a: u64| !((c == native && (a == owner || a == who)) || (c == coll
                && a == who)) implies #[trigger] self.ledger.reserved_of(c, a) == l0.reserved_of(
                c,
                a,
            ) by {
                assert(l1.reserved_of(c, a) == l0.reserved_of(c, a));
                assert(l2.reserved_of(c, a) == l1.reserved_of(c, a));
                assert(self.ledger.reserved_of(c, a) == l2.reserved_of(c, a));
            }
        }
        Ok(())
    }

    /// The payout accepting the account's review on the project would
    /// release now.
    pub open spec fn payout_amount(self, user_id: u64, project_id: ProjectID) -> u128 {
        Self::payout_for(
            self.project_of(project_id).reward,
            self.project_of(project_id).total_user_scores,
            self.review_of(user_id, project_id).point_snapshot,
        )
    }

    /// The error accepting the account's review on the project would fail
    /// with, if any. The review must exist, on an existing project, in
    /// proposed status; the author's collateral and the project's reward
    /// reservation must still be consistent; and the payout itself must go
    /// through (see [`Engine::reward_user_err`]).
    pub open spec fn accept_review_err(self, user_id: u64, project_id: ProjectID) -> Option<
        Error,
    > {
        if !self.has_review(user_id, project_id) {
            Some(Error::ReviewNotFound)
        } else if !self.has_project(project_id) {
            Some(Error::NoProjectWithId)
        } else if self.review_of(user_id, project_id).proposal_status.status != Status::Proposed {
            Some(Error::AcceptingNotProposed)
        } else if !self.collateral_consistent(
            self.review_of(user_id, project_id).collateral_currency_id,
            user_id,
        ) {
            Some(Error::InconsistentCollateral)
        } else if !self.reward_consistent(self.project_of(project_id)) {
            Some(Error::RewardInconsistent)
        } else if !self.owner_free_ok(self.project_of(project_id)) {
            Some(Error::InsufficientBalance)
        } else {
            self.reward_user_err(
                user_id,
                self.project_of(project_id),
                self.review_of(user_id, project_id),
            )
        }
    }

    /// Accepts a proposed review: validates its status, the author's
    /// collateral and the project's reward reservation, pays the author
    /// their share of the reward, releases their collateral, flips the review
    /// to accepted, and updates the project's review aggregates. All of it is
    /// one transaction: a failed call changes nothing.
    pub fn accept_review(&mut self, user_id: u64, project_id: ProjectID) -> (r: Result<(), Error>)
        requires
            old(self).wf(),
        ensures
            final(self).wf(),
            old(self).same_config(*final(self)),
            final(self).ledger.minimum_spec() == old(self).ledger.minimum_spec(),
            final(self).ledger.total_of() == old(self).ledger.total_of(),
            final(self).next_index_spec() == old(self).next_index_spec(),
            r is Err <==> old(self).accept_review_err(user_id, project_id) is Some,
            r is Err ==> r == Err::<(), Error>(
                old(self).accept_review_err(user_id, project_id)->Some_0,
            ) && old(self).unchanged(*final(self)),
            r is Ok ==> ({
                let payout = old(self).payout_amount(user_id, project_id);
                let p0 = old(self).project_of(project_id);
                let rv0 = old(self).review_of(user_id, project_id);
                let native = old(self).native_currency_id;
                let owner = p0.owner_id;
                let coll = rv0.collateral_currency_id;
                let released = min_u128(
                    old(self).ledger.reserved_of(coll, user_id),
                    old(self).user_collateral,
                );
                &&& payout <= p0.reward
                &&& ({
                    let rv1 = final(self).review_of(user_id, project_id);
                    &&& final(self).has_review(user_id, project_id)
                    &&& rv1.proposal_status.status == Status::Accepted
                    &&& rv1.proposal_status.reason is PassedRequirements
                    &&& rv1.user_id == rv0.user_id
                    &&& rv1.content == rv0.content
                    &&& rv1.project_id == rv0.project_id
                    &&& rv1.point_snapshot == rv0.point_snapshot
                    &&& rv1.review_score == rv0.review_score
                    &&& rv1.collateral_currency_id == rv0.collateral_currency_id
                })
                &&& forall|w: u64, p: ProjectID|
                    !(w == user_id && p == project_id) ==> final(self).has_review(w, p) == old(
                        self,
                    ).has_review(w, p)
                &&& forall|w: u64, p: ProjectID|
                    !(w == user_id && p == project_id) && old(self).has_review(w, p)
                        ==> final(self).review_of(w, p) == old(self).review_of(w, p)
                &&& ({
                    let p1 = final(self).project_of(project_id);
                    &&& p1.reward == p0.reward - payout
                    &&& p1.paid_out@ == p0.paid_out@ + payout
                    &&& p1.initial_reward@ == p0.initial_reward@
                    &&& p1.number_of_reviews == sat_add_u32(p0.number_of_reviews, 1)
                    &&& p1.total_review_score == sat_add_u64(
                        p0.total_review_score,
                        rv0.review_score as u64,
                    )
                    &&& p1.total_user_scores == p0.total_user_scores
                    &&& p1.owner_id == p0.owner_id
                    &&& p1.badge == p0.badge
                    &&& p1.metadata == p0.metadata
                    &&& p1.proposal_status == p0.proposal_status
                })
                &&& forall|p2: ProjectID|
                    final(self).has_project(p2) == old(self).has_project(p2)
                &&& forall|p2: ProjectID|
                    p2 != project_id && old(self).has_project(p2) ==> final(self).project_of(p2)
                        == old(self).project_of(p2)
                &&& final(self).has_user(user_id)
                &&& final(self).user_of(user_id).rank_points == sat_add_u32(
                    old(self).user_of(user_id).rank_points,
                    1,
                )
                &&& final(self).user_of(user_id).project_id == old(self).user_of(
                    user_id,
                ).project_id
                &&& forall|w: u64| w != user_id ==> final(self).has_user(w) == old(self).has_user(w)
                &&& forall|w: u64|
                    w != user_id && old(self).has_user(w) ==> final(self).user_of(w) == old(
                        self,
                    ).user_of(w)
                &&& final(self).ledger.free_of(native, owner) == old(self).ledger.free_of(
                    native,
                    owner,
                )
                &&& final(self).ledger.reserved_of(native, owner) == old(self).ledger.reserved_of(
                    native,
                    owner,
                ) - payout
                &&& final(self).ledger.free_of(native, user_id) == old(self).ledger.free_of(
                    native,
                    user_id,
                ) + payout
                &&& final(self).ledger.reserved_of(native, user_id) == old(
                    self,
                ).ledger.reserved_of(native, user_id)
                &&& final(self).ledger.free_of(coll, user_id) == old(self).ledger.free_of(
                    coll,
                    user_id,
                ) + released
                &&& final(self).ledger.reserved_of(coll, user_id) == old(self).ledger.reserved_of(
                    coll,
                    user_id,
                ) - released
                &&& forall|c: u64, a: u64|
                    !((c == native && (a == owner || a == user_id)) || (c == coll && a == user_id))
                        ==> #[trigger] final(self).ledger.free_of(c, a) == old(
                        self,
                    ).ledger.free_of(c, a)
                &&& forall|c: u64, a: u64|
                    !((c == native && (a == owner || a == user_id)) || (c == coll && a == user_id))
                        ==> #[trigger] final(self).ledger.reserved_of(c, a) == old(
                        self,
                    ).ledger.reserved_of(c, a)
            }),
    {
        let ghost e0 = *self;
        let j = match self.find_review(user_id, project_id) {
            Some(j) => j,
            None => {
                return Err(Error::ReviewNotFound);
            },
        };
        proof {
            lemma_rev_uniq_idx(self.reviews@, user_id, project_id, j as int);
        }
        if !(project_id >= 1 && (project_id as usize) <= self.projects.len()) {
            return Err(Error::NoProjectWithId);
        }
        let i = (project_id - 1) as usize;
        if self.reviews[j].proposal_status.status != Status::Proposed {
            return Err(Error::AcceptingNotProposed);
        }
        let coll_currency = self.reviews[j].collateral_currency_id;
        if !self.check_collateral(coll_currency, user_id) {
            return Err(Error::InconsistentCollateral);
        }
        match self.check_reward(&self.projects[i]) {
            Ok(()) => {},
            Err(e) => {
                return Err(e);
            },
        }
        let mut review = self.reviews.remove(j);
        let mut project = self.projects.remove(i);
        proof {
            assert(review == e0.review_of(user_id, project_id));
            assert(project == e0.project_of(project_id));
        }
        let ghost e1 = *self;
        match self.reward_user(user_id, &mut project, &review) {
            Ok(()) => {},
            Err(e) => {
                self.projects.insert(i, project);
                self.reviews.insert(j, review);
                proof {
                    assert(self.projects@ =~= e0.projects@);
                    assert(self.reviews@ =~= e0.reviews@);
                }
                return Err(e);
            },
        }
        let ghost e2 = *self;
        review.proposal_status.status = Status::Accepted;
        review.proposal_status.reason = Reason::PassedRequirements;
        project.number_of_reviews = project.number_of_reviews.saturating_add(1);
        project.total_review_score = project.total_review_score.saturating_add(
            review.review_score as u64,
        );
        let ghost rv_fin = review;
        let ghost p_fin = project;
        self.reviews.insert(j, review);
        self.projects.insert(i, project);
        proof {
            assert(self.reviews@ =~= e0.reviews@.update(j as int, rv_fin));
            assert(self.projects@ =~= e0.projects@.update(i as int, p_fin));
            lemma_rev_update_frame(e0.reviews@, j as int, rv_fin);
            assert forall|w: u64| w != user_id implies self.has_user(w) == e0.has_user(w) by {
                assert(e1.has_user(w) == e0.has_user(w));
                assert(e2.has_user(w) == e1.has_user(w));
                assert(self.has_user(w) == e2.has_user(w));
            }
            assert forall|w: u64| w != user_id && e0.has_user(w) implies self.user_of(w)
                == e0.user_of(w) by {
                assert(e1.has_user(w) == e0.has_user(w));
                assert(e1.user_of(w) == e0.user_of(w));
                assert(e2.user_of(w) == e1.user_of(w));
                assert(self.user_of(w) == e2.user_of(w));
            }
            assert(self.has_user(user_id) == e2.has_user(user_id));
            assert(self.user_of(user_id) == e2.user_of(user_id));
            assert(e1.user_of(user_id) == e0.user_of(user_id));
            assert forall|p2: ProjectID| p2 != project_id && e0.has_project(p2)
                implies self.project_of(p2) == e0.project_of(p2) by {
                assert(self.projects@[p2 as int - 1] == e0.projects@[p2 as int - 1]);
            }
            assert(self.wf_reviews()) by {
                assert forall|k: int| 0 <= k < self.reviews@.len() implies {
                    let r = #[trigger] self.reviews@[k];
                    &&& 1 <= r.project_id && r.project_id as int <= self.projects@.len()
                    &&& r.user_id != self.projects@[r.project_id as int - 1].owner_id
                    &&& 1 <= r.review_score <= 5
                    &&& r.collateral_currency_id != self.native_currency_id
                    &&& user_has(self.users@, r.user_id)
                    &&& r.point_snapshot <= self.projects@[r.project_id as int
                        - 1].total_user_scores
                } by {
                    let r0 = e0.reviews@[k];
                    assert(1 <= r0.project_id && r0.project_id as int <= e0.projects@.len());
                    let r = self.reviews@[k];
                    assert(r.project_id == r0.project_id && r.user_id == r0.user_id
                        && r.review_score == r0.review_score && r.point_snapshot
                        == r0.point_snapshot && r.collateral_currency_id
                        == r0.collateral_currency_id);
                    let pk = self.projects@[r.project_id as int - 1];
                    let pk0 = e0.projects@[r.project_id as int - 1];
                    assert(pk.owner_id == pk0.owner_id && pk.total_user_scores
                        == pk0.total_user_scores);
                    assert(user_has(e0.users@, r0.user_id));
                    assert(e0.has_user(r0.user_id));
                    if r0.user_id != user_id {
                        assert(self.has_user(r0.user_id) == e0.has_user(r0.user_id));
                    } else {
                        assert(self.has_user(user_id));
                    }
                    assert(user_has(self.users@, r.user_id));
                }
            }
            assert(self.wf_projects()) by {
                assert forall|k: int| 0 <= k < self.projects@.len() implies {
                    let p = #[trigger] self.projects@[k];
                    &&& p.wf()
                    &&& p.initial_reward@ <= self.reward_cap
                    &&& user_has(self.users@, p.owner_id)
                    &&& self.users@[user_idx(self.users@, p.owner_id)].user.project_id == Some(
                        (k + 1) as ProjectID,
                    )
                } by {
                    let p0 = e0.projects@[k];
                    assert(p0.wf() && p0.initial_reward@ <= e0.reward_cap);
                    assert(user_has(e0.users@, p0.owner_id));
                    assert(e0.users@[user_idx(e0.users@, p0.owner_id)].user.project_id == Some(
                        (k + 1) as ProjectID,
                    ));
                    assert(e0.user_of(p0.owner_id).project_id == Some((k + 1) as ProjectID));
                    let p = self.projects@[k];
                    if k == i as int {
                        assert(p == p_fin);
                        assert(p.wf() && p.initial_reward@ <= self.reward_cap);
                    } else {
                        assert(p == p0);
                    }
                    assert(p.owner_id == p0.owner_id);
                    if p0.owner_id == user_id {
                        assert(self.user_of(user_id).project_id == e0.user_of(
                            user_id,
                        ).project_id);
                    } else {
                        assert(self.has_user(p0.owner_id) == e0.has_user(p0.owner_id));
                        assert(self.user_of(p0.owner_id) == e0.user_of(p0.owner_id));
                    }
                    assert(user_has(self.users@, p.owner_id));
                    lemma_user_uniq_idx(
                        self.users@,
                        p.owner_id,
                        user_idx(self.users@, p.owner_id),
                    );
                }
            }
            assert(self.wf());
        }
        Ok(())
    }

    /// The error accepting the project would fail with, if any: the project
    /// must exist, be in proposed status, and its reward reservation must
    /// still be consistent.
    pub open spec fn accept_project_err(self, project_id: ProjectID) -> Option<Error> {
        if !self.has_project(project_id) {
            Some(Error::NoProjectWithId)
        } else if self.project_of(project_id).proposal_status.status != Status::Proposed {
            Some(Error::AcceptingNotProposed)
        } else if !self.reward_consistent(self.project_of(project_id)) {
            Some(Error::RewardInconsistent)
        } else if !self.owner_free_ok(self.project_of(project_id)) {
            Some(Error::InsufficientBalance)
        } else {
            None
        }
    }

    /// Accepts a proposed project: a pure status transition, gated on the
    /// reward reservation still being consistent. No balance moves.
    pub fn accept_project(&mut self, project_id: ProjectID) -> (r: Result<(), Error>)
        requires
            old(self).wf(),
        ensures
            final(self).wf(),
            old(self).same_config(*final(self)),
            final(self).ledger == old(self).ledger,
            final(self).reviews@ == old(self).reviews@,
            final(self).users@ == old(self).users@,
            final(self).next_index_spec() == old(self).next_index_spec(),
            r is Err <==> old(self).accept_project_err(project_id) is Some,
            r is Err ==> r == Err::<(), Error>(old(self).accept_project_err(project_id)->Some_0)
                && old(self).unchanged(*final(self)),
            r is Ok ==> ({
                let p0 = old(self).project_of(project_id);
                let p1 = final(self).project_of(project_id);
                &&& p1.proposal_status.status == Status::Accepted
                &&& p1.proposal_status.reason is PassedRequirements
                &&& p1.owner_id == p0.owner_id
                &&& p1.badge == p0.badge
                &&& p1.metadata == p0.metadata
                &&& p1.reward == p0.reward
                &&& p1.paid_out@ == p0.paid_out@
                &&& p1.initial_reward@ == p0.initial_reward@
                &&& p1.total_user_scores == p0.total_user_scores
                &&& p1.total_review_score == p0.total_review_score
                &&& p1.number_of_reviews == p0.number_of_reviews
                &&& forall|p2: ProjectID|
                    final(self).has_project(p2) == old(self).has_project(p2)
                &&& forall|p2: ProjectID|
                    p2 != project_id && old(self).has_project(p2) ==> final(self).project_of(p2)
                        == old(self).project_of(p2)
            }),
    {
        let ghost e0 = *self;
        if !(project_id >= 1 && (project_id as usize) <= self.projects.len()) {
            return Err(Error::NoProjectWithId);
        }
        let i = (project_id - 1) as usize;
        if self.projects[i].proposal_status.status != Status::Proposed {
            return Err(Error::AcceptingNotProposed);
        }
        match self.check_reward(&self.projects[i]) {
            Ok(()) => {},
            Err(e) => {
                return Err(e);
            },
        }
        let pr = &mut self.projects[i];
        pr.proposal_status.status = Status::Accepted;
        pr.proposal_status.reason = Reason::PassedRequirements;
        let ghost p_fin = self.projects@[i as int];
        proof {
            assert(self.projects@ == e0.projects@.update(i as int, p_fin));
            assert forall|p2: ProjectID| p2 != project_id && e0.has_project(p2)
                implies self.project_of(p2) == e0.project_of(p2) by {
                assert(self.projects@[p2 as int - 1] == e0.projects@[p2 as int - 1]);
            }
            assert(self.wf_reviews()) by {
                assert forall|k: int| 0 <= k < self.reviews@.len() implies {
                    let r = #[trigger] self.reviews@[k];
                    &&& 1 <= r.project_id && r.project_id as int <= self.projects@.len()
                    &&& r.user_id != self.projects@[r.project_id as int - 1].owner_id
                    &&& 1 <= r.review_score <= 5
                    &&& r.collateral_currency_id != self.native_currency_id
                    &&& user_has(self.users@, r.user_id)
                    &&& r.point_snapshot <= self.projects@[r.project_id as int
                        - 1].total_user_scores
                } by {
                    let r = e0.reviews@[k];
                    assert(self.reviews@[k] == r);
                    assert(1 <= r.project_id && r.project_id as int <= e0.projects@.len());
                    let pk = self.projects@[r.project_id as int - 1];
                    let pk0 = e0.projects@[r.project_id as int - 1];
                    assert(pk.owner_id == pk0.owner_id && pk.total_user_scores
                        == pk0.total_user_scores);
                }
            }
            assert(self.wf_projects()) by {
                assert forall|k: int| 0 <= k < self.projects@.len() implies {
                    let p = #[trigger] self.projects@[k];
                    &&& p.wf()
                    &&& p.initial_reward@ <= self.reward_cap
                    &&& user_has(self.users@, p.owner_id)
                    &&& self.users@[user_idx(self.users@, p.owner_id)].user.project_id == Some(
                        (k + 1) as ProjectID,
                    )
                } by {
                    let p0 = e0.projects@[k];
                    assert(p0.wf() && p0.initial_reward@ <= e0.reward_cap);
                    assert(user_has(e0.users@, p0.owner_id));
                    assert(e0.users@[user_idx(e0.users@, p0.owner_id)].user.project_id == Some(
                        (k + 1) as ProjectID,
                    ));
                    let p = self.projects@[k];
                    assert(p.owner_id == p0.owner_id && p.reward == p0.reward && p.paid_out@
                        == p0.paid_out@ && p.initial_reward@ == p0.initial_reward@);
                }
            }
            assert(self.wf());
        }
        Ok(())
    }

    /// What well-formedness gives away about the parts a caller can reach
    /// directly: the ledger and the user registry are well-formed too.
    pub proof fn lemma_wf_parts(e: Engine)
        requires
            e.wf(),
        ensures
            e.ledger.wf(),
            e.users_wf(),
    {
    }

    /// The interference-tolerance law: the engine's invariant does not pin
    /// the ledger's balances down. A caller that goes past the engine and
    /// reserves, releases or transfers on the ledger directly — external
    /// interference, which the consistency checks and the compensating
    /// rollbacks exist for — leaves the engine well-formed, as long as the
    /// ledger itself stays well-formed and the registries and constants are
    /// untouched.
    pub proof fn lemma_wf_tolerates_ledger_interference(e1: Engine, e2: Engine)
        requires
            e1.wf(),
            e2.ledger.wf(),
            e1.same_config(e2),
            e2.projects@ == e1.projects@,
            e2.reviews@ == e1.reviews@,
            e2.users@ == e1.users@,
            e2.next_project_index == e1.next_project_index,
        ensures
            e2.wf(),
    {
        assert(e2.wf_reviews()) by {
            assert forall|k: int| 0 <= k < e2.reviews@.len() implies {
                let r = #[trigger] e2.reviews@[k];
                &&& 1 <= r.project_id && r.project_id as int <= e2.projects@.len()
                &&& r.user_id != e2.projects@[r.project_id as int - 1].owner_id
                &&& 1 <= r.review_score <= 5
                &&& r.collateral_currency_id != e2.native_currency_id
                &&& user_has(e2.users@, r.user_id)
                &&& r.point_snapshot <= e2.projects@[r.project_id as int - 1].total_user_scores
            } by {
                assert(e2.reviews@[k] == e1.reviews@[k]);
            }
        }
        assert(e2.wf_projects()) by {
            assert forall|k: int| 0 <= k < e2.projects@.len() implies {
                let p = #[trigger] e2.projects@[k];
                &&& p.wf()
                &&& p.initial_reward@ <= e2.reward_cap
                &&& user_has(e2.users@, p.owner_id)
                &&& e2.users@[user_idx(e2.users@, p.owner_id)].user.project_id == Some(
                    (k + 1) as ProjectID,
                )
            } by {
                assert(e2.projects@[k] == e1.projects@[k]);
            }
        }
    }

    /// The payout-conservation law: for every project on record, what was
    /// ever staked on it equals what was ever paid out of it plus what is
    /// still reserved as its reward. In particular the sum of all payouts
    /// never exceeds the initial stake, and the remaining reward never
    /// exceeds the reward cap (and, being unsigned, is never negative).
    pub proof fn lemma_reward_conservation(e: Engine, pid: ProjectID)
        requires
            e.wf(),
            e.has_project(pid),
        ensures
            e.project_of(pid).paid_out@ + e.project_of(pid).reward == e.project_of(
                pid,
            ).initial_reward@,
            e.project_of(pid).initial_reward@ <= e.reward_cap,
            e.project_of(pid).reward <= e.reward_cap,
    {
        assert(e.projects@[pid as int - 1].wf());
        assert(e.projects@[pid as int - 1].initial_reward@ <= e.reward_cap);
    }

    /// The acceptance-exclusivity law: once a review has been accepted,
    /// accepting the same (author, project) pair again is bound to fail
    /// with the not-proposed error. Together with
    /// [`Engine::accept_review`]'s contract — acceptance flips the review's
    /// status to accepted, and the call fails exactly when
    /// [`Engine::accept_review_err`] names an error — a second acceptance of
    /// the same pair always fails this way.
    pub proof fn lemma_accept_review_exclusive(e: Engine, user_id: u64, project_id: ProjectID)
        requires
            e.wf(),
            e.has_review(user_id, project_id),
            e.review_of(user_id, project_id).proposal_status.status == Status::Accepted,
        ensures
            e.accept_review_err(user_id, project_id) == Some(Error::AcceptingNotProposed),
    {
        let k = rev_idx(e.reviews@, user_id, project_id);
        assert(0 <= k < e.reviews@.len() && e.reviews@[k].user_id == user_id
            && e.reviews@[k].project_id == project_id);
        assert(1 <= e.reviews@[k].project_id && e.reviews@[k].project_id as int
            <= e.projects@.len());
    }

    /// The review-exclusivity law: once an account has reviewed a project,
    /// creating another review for the same (author, project) pair is bound
    /// to fail as a duplicate, whatever score and collateral currency it
    /// offers. Together with [`Engine::create_review`]'s contract — creation
    /// records the review, and the call fails exactly when
    /// [`Engine::create_review_err`] names an error — a second review of the
    /// same pair always fails this way.
    pub proof fn lemma_create_review_exclusive(
        e: Engine,
        who: u64,
        review_score: u8,
        project_id: ProjectID,
        collateral_currency_id: u64,
    )
        requires
            e.wf(),
            e.has_review(who, project_id),
        ensures
            e.create_review_err(who, review_score, project_id, collateral_currency_id) == Some(
                Error::DuplicateReview,
            ),
    {
        let k = rev_idx(e.reviews@, who, project_id);
        assert(0 <= k < e.reviews@.len() && e.reviews@[k].user_id == who
            && e.reviews@[k].project_id == project_id);
        assert(1 <= e.reviews@[k].project_id && e.reviews@[k].project_id as int
            <= e.projects@.len());
    }

    /// Creates a project as [`Engine::create_project`] does and then puts it
    /// directly into the given status, with the given reason. Bootstrap
    /// wiring: it invokes the same creation path as ordinary callers, and a
    /// failure there is surfaced rather than committed around.
    pub fn initialize_project(
        &mut self,
        who: u64,
        metadata: Vec<u8>,
        status: Status,
        reason: Reason,
    ) -> (r: Result<ProjectID, Error>)
        requires
            old(self).wf(),
            metadata@.len() <= old(self).string_limit,
        ensures
            final(self).wf(),
            old(self).same_config(*final(self)),
            final(self).ledger.minimum_spec() == old(self).ledger.minimum_spec(),
            final(self).ledger.total_of() == old(self).ledger.total_of(),
            r is Err <==> old(self).create_project_err(who) is Some,
            r is Err ==> r == Err::<ProjectID, Error>(old(self).create_project_err(who)->Some_0)
                && old(self).unchanged(*final(self)),
            r is Ok ==> r == Ok::<ProjectID, Error>(old(self).next_index_spec()) && ({
                let index = old(self).next_index_spec();
                let p = final(self).project_of(index);
                &&& final(self).next_index_spec() == index + 1
                &&& final(self).has_project(index)
                &&& p.owner_id == who
                &&& p.metadata == metadata
                &&& p.proposal_status.status == status
                &&& p.reward == old(self).reward_cap
                &&& forall|p2: ProjectID|
                    p2 != index ==> final(self).has_project(p2) == old(self).has_project(p2)
                &&& forall|p2: ProjectID|
                    p2 != index && old(self).has_project(p2) ==> final(self).project_of(p2) == old(
                        self,
                    ).project_of(p2)
                &&& final(self).reviews@ == old(self).reviews@
            }),
    {
        let ghost e0 = *self;
        let index = match self.create_project(who, metadata) {
            Ok(ix) => ix,
            Err(e) => {
                return Err(e);
            },
        };
        let ghost e1 = *self;
        let i = (index - 1) as usize;
        let pr = &mut self.projects[i];
        pr.proposal_status.status = status;
        pr.proposal_status.reason = reason;
        let ghost p_fin = self.projects@[i as int];
        proof {
            assert(self.projects@ == e1.projects@.update(i as int, p_fin));
            assert forall|p2: ProjectID| p2 != index && e0.has_project(p2)
                implies self.project_of(p2) == e0.project_of(p2) by {
                assert(e1.has_project(p2) == e0.has_project(p2));
                assert(e1.project_of(p2) == e0.project_of(p2));
                assert(self.projects@[p2 as int - 1] == e1.projects@[p2 as int - 1]);
            }
            assert(self.wf_reviews()) by {
                assert forall|k: int| 0 <= k < self.reviews@.len() implies {
                    let r = #[trigger] self.reviews@[k];
                    &&& 1 <= r.project_id && r.project_id as int <= self.projects@.len()
                    &&& r.user_id != self.projects@[r.project_id as int - 1].owner_id
                    &&& 1 <= r.review_score <= 5
                    &&& r.collateral_currency_id != self.native_currency_id
                    &&& user_has(self.users@, r.user_id)
                    &&& r.point_snapshot <= self.projects@[r.project_id as int
                        - 1].total_user_scores
                } by {
                    let r = e1.reviews@[k];
                    assert(self.reviews@[k] == r);
                    assert(1 <= r.project_id && r.project_id as int <= e1.projects@.len());
                    let pk = self.projects@[r.project_id as int - 1];
                    let pk0 = e1.projects@[r.project_id as int - 1];
                    assert(pk.owner_id == pk0.owner_id && pk.total_user_scores
                        == pk0.total_user_scores);
                }
            }
            assert(self.wf_projects()) by {
                assert forall|k: int| 0 <= k < self.projects@.len() implies {
                    let p = #[trigger] self.projects@[k];
                    &&& p.wf()
                    &&& p.initial_reward@ <= self.reward_cap
                    &&& user_has(self.users@, p.owner_id)
                    &&& self.users@[user_idx(self.users@, p.owner_id)].user.project_id == Some(
                        (k + 1) as ProjectID,
                    )
                } by {
                    let p0 = e1.projects@[k];
                    assert(p0.wf() && p0.initial_reward@ <= e1.reward_cap);
                    assert(user_has(e1.users@, p0.owner_id));
                    assert(e1.users@[user_idx(e1.users@, p0.owner_id)].user.project_id == Some(
                        (k + 1) as ProjectID,
                    ));
                    let p = self.projects@[k];
                    assert(p.owner_id == p0.owner_id && p.reward == p0.reward && p.paid_out@
                        == p0.paid_out@ && p.initial_reward@ == p0.initial_reward@);
                }
            }
            assert(self.wf());
        }
        Ok(index)
    }

    /// Creates and then accepts one review per account on the most recently
    /// created project, pairing accounts with the given scores and contents
    /// in order. Bootstrap wiring: it invokes the same create and accept
    /// operations as ordinary callers, and the first failure is surfaced
    /// rather than committed around.
    pub fn initialize_reviews(&mut self, acnts: Vec<(u64, u64)>, revs: Vec<(u8, Vec<u8>)>) -> (r:
        Result<(), Error>)
        requires
            old(self).wf(),
            forall|k: int|
                0 <= k < revs@.len() ==> (#[trigger] revs@[k].1)@.len() <= old(self).string_limit,
        ensures
            final(self).wf(),
            old(self).same_config(*final(self)),
            final(self).ledger.minimum_spec() == old(self).ledger.minimum_spec(),
            final(self).ledger.total_of() == old(self).ledger.total_of(),
            final(self).next_index_spec() == old(self).next_index_spec(),
    {
        let ghost e0 = *self;
        let project_id = self.next_project_index - 1;
        let n = if acnts.len() < revs.len() {
            acnts.len()
        } else {
            revs.len()
        };
        let mut revs = revs;
        let mut k: usize = 0;
        while k < n
            invariant
                e0 == *old(self),
                self.wf(),
                e0.same_config(*self),
                self.ledger.minimum_spec() == e0.ledger.minimum_spec(),
                self.ledger.total_of() == e0.ledger.total_of(),
                self.next_index_spec() == e0.next_index_spec(),
                k <= n,
                n <= acnts@.len(),
                revs@.len() >= n - k,
                forall|t: int|
                    0 <= t < revs@.len() ==> (#[trigger] revs@[t].1)@.len() <= e0.string_limit,
            decreases n - k,
        {
            let ghost revs0 = revs@;
            let (score, content) = revs.remove(0);
            proof {
                assert forall|t: int| 0 <= t < revs@.len() implies (#[trigger] revs@[t].1)@.len()
                    <= e0.string_limit by {
                    assert(revs@[t] == revs0[t + 1]);
                }
            }
            let (id, currency_id) = acnts[k];
            match self.create_review(id, (score, content), project_id, currency_id) {
                Ok(()) => {},
                Err(e) => {
                    return Err(e);
                },
            }
            k = k + 1;
        }
        let mut k2: usize = 0;
        while k2 < n
            invariant
                e0 == *old(self),
                self.wf(),
                e0.same_config(*self),
                self.ledger.minimum_spec() == e0.ledger.minimum_spec(),
                self.ledger.total_of() == e0.ledger.total_of(),
                self.next_index_spec() == e0.next_index_spec(),
                k2 <= n,
                n <= acnts@.len(),
            decreases n - k2,
        {
            let (id, _) = acnts[k2];
            match self.accept_review(id, project_id) {
                Ok(()) => {},
                Err(e) => {
                    return Err(e);
                },
            }
            k2 = k2 + 1;
        }
        Ok(())
    }

    /// The review the account placed on the project, when one exists.
    pub fn get_review(&self, who: u64, pid: ProjectID) -> (r: Option<&Review>)
        requires
            self.wf(),
        ensures
            match r {
                Some(rv) => self.has_review(who, pid) && *rv == self.review_of(who, pid),
                None => !self.has_review(who, pid),
            },
    {
        match self.find_review(who, pid) {
            Some(i) => {
                proof {
                    lemma_rev_uniq_idx(self.reviews@, who, pid, i as int);
                }
                Some(&self.reviews[i])
            },
            None => None,
        }
    }
}

} // verus!
