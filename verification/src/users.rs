//! The user record: a reputation counter and an optional back-reference to the
//! one project the user owns.

use vstd::prelude::*;

verus! {

/// A user of the review economy.
///
/// `rank_points` is a saturating reputation counter, incremented by exactly
/// one each time a review authored by this user is accepted. `project_id` is
/// a back-reference to the project the user owns, if any; the engine enforces
/// that a user owns at most one project at a time.
#[derive(Clone, Copy, Debug)]
pub struct User {
    pub rank_points: u32,
    pub project_id: Option<u32>,
}

impl Default for User {
    /// A fresh user: no reputation, no owned project.
    fn default() -> (r: User)
        ensures
            r.rank_points == 0,
            r.project_id is None,
    {
        User { rank_points: 0, project_id: None }
    }
}

} // verus!
