//! Parts that several records share.

use vstd::prelude::*;
use crate::decimal::Amount;

verus! {

/// A rating that many users gave together.
#[derive(Debug)]
pub struct Rating {
    /// The rating as a share of the best rating, between 0 and 1.
    pub fraction: Amount,
    pub reviewers: Option<u32>,
}

} // verus!
