//! The project and review records and their lifecycle status.

use vstd::prelude::*;

verus! {

/// Identifier of a project: dense, starting at 1, never reused.
pub type ProjectID = u32;

/// The lifecycle status of a project or review proposal.
#[derive(Clone, Copy, Debug, PartialEq, Eq, Structural)]
pub enum Status {
    /// The proposal was created and awaits a decision.
    Proposed,
    /// The proposal was accepted.
    Accepted,
}

impl Default for Status {
    fn default() -> (r: Status)
        ensures
            r == Status::Proposed,
    {
        Status::Proposed
    }
}

/// The reason attached to a proposal's current status.
#[derive(Clone, Debug)]
pub enum Reason {
    /// A custom reason, as an opaque bounded blob.
    Other(Vec<u8>),
    /// Base conditions for the project missing, or the review lacking detail.
    InsufficientMetaData,
    /// The project or review is malicious.
    Malicious,
    /// Positive: the record passed the requirements for its transition.
    PassedRequirements,
}

impl Default for Reason {
    fn default() -> (r: Reason)
        ensures
            r is PassedRequirements,
    {
        Reason::PassedRequirements
    }
}

/// The status of a proposal together with the reason for it.
#[derive(Clone, Debug)]
pub struct ProposalStatus {
    pub status: Status,
    pub reason: Reason,
}

impl Default for ProposalStatus {
    fn default() -> (r: ProposalStatus)
        ensures
            r.status == Status::Proposed,
            r.reason is PassedRequirements,
    {
        ProposalStatus { status: Status::Proposed, reason: Reason::PassedRequirements }
    }
}

/// A review, identified by the pair of its author and the reviewed project.
#[derive(Clone, Debug)]
pub struct Review {
    pub proposal_status: ProposalStatus,
    /// The author of the review.
    pub user_id: u64,
    /// Opaque bounded review content.
    pub content: Vec<u8>,
    /// The project this review is about.
    pub project_id: ProjectID,
    /// The author's rank points at the time the review was created;
    /// immutable afterwards.
    pub point_snapshot: u32,
    /// The score given by the review, in the range 1 to 5.
    pub review_score: u8,
    /// The currency the author locked as collateral; never the native
    /// (reward) currency.
    pub collateral_currency_id: u64,
}

/// A project record.
///
/// `reward` is the amount currently reserved for review authors and not yet
/// paid out; it starts at the reward cap when the stake is reserved and only
/// ever
/// decreases through the payout protocol. The two ghost fields account for
/// that discipline: `initial_reward` is the amount ever staked and `paid_out`
/// the sum of all payouts released, so that
/// `paid_out + reward == initial_reward` always holds (see [`Project::wf`]).
#[derive(Clone)]
#[verifier::ext_equal]
pub struct Project {
    /// The owner of the project.
    pub owner_id: u64,
    /// Reserved for a future distinction badge; never set by the engine.
    pub badge: Option<bool>,
    /// Opaque bounded project metadata.
    pub metadata: Vec<u8>,
    /// The status of the project's proposal.
    pub proposal_status: ProposalStatus,
    /// The reward amount still reserved and not yet paid out.
    pub reward: u128,
    /// Sum of the rank-point snapshots taken by this project's reviews;
    /// saturating.
    pub total_user_scores: u32,
    /// Sum of the scores of the accepted reviews; saturating.
    pub total_review_score: u64,
    /// The number of accepted reviews; saturating.
    pub number_of_reviews: u32,
    /// Ghost: the total amount ever staked as reward on this project.
    pub initial_reward: Ghost<nat>,
    /// Ghost: the sum of all payout amounts ever released from the reward.
    pub paid_out: Ghost<nat>,
}

impl Project {
    /// The payout-accounting invariant: what was staked is exactly what was
    /// paid out plus what is still reserved. In particular the sum of all
    /// payouts never exceeds the initial stake, and the remaining reward never
    /// exceeds it either.
    pub open spec fn wf(self) -> bool {
        self.paid_out@ + self.reward == self.initial_reward@
    }

    /// Initialises a project with defaults on everything except the owner and
    /// the metadata. The reward is zero until the stake is reserved.
    pub fn new(owner_id: u64, metadata: Vec<u8>) -> (r: Project)
        ensures
            r.owner_id == owner_id,
            r.badge is None,
            r.metadata == metadata,
            r.proposal_status.status == Status::Proposed,
            r.proposal_status.reason is PassedRequirements,
            r.reward == 0,
            r.total_user_scores == 0,
            r.total_review_score == 0,
            r.number_of_reviews == 0,
            r.initial_reward@ == 0,
            r.paid_out@ == 0,
            r.wf(),
    {
        Project {
            owner_id,
            badge: None,
            metadata,
            proposal_status: ProposalStatus {
                status: Status::Proposed,
                reason: Reason::PassedRequirements,
            },
            reward: 0,
            total_user_scores: 0,
            total_review_score: 0,
            number_of_reviews: 0,
            initial_reward: Ghost(0),
            paid_out: Ghost(0),
        }
    }
}

} // verus!
