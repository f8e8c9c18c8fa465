//! The contribution generator.

use vstd::prelude::*;
use crate::models::ContributionConfig;

verus! {

/// Generates code contributions from findings.
pub struct ContributionGenerator<'a> {
    pub config: &'a ContributionConfig,
    /// Whether a contribution has to pass a review before it is handed out.
    pub self_review_enabled: bool,
}

impl<'a> ContributionGenerator<'a> {
    /// A generator with the review switched on.
    pub fn new(config: &'a ContributionConfig) -> (r: Self)
        ensures
            r.config == config,
            r.self_review_enabled,
    {
        ContributionGenerator { config, self_review_enabled: true }
    }

    /// The same generator with the review switched off.
    pub fn without_self_review(self) -> (r: Self)
        ensures
            r.config == self.config,
            !r.self_review_enabled,
    {
        ContributionGenerator { config: self.config, self_review_enabled: false }
    }
}

} // verus!
