//! The configuration-section row the client keeps per repository
//! configuration file: core, remote, branch and the like.

use vstd::prelude::*;

verus! {

/// One configuration-section row.
#[derive(Debug, Clone, PartialEq, Eq)]
pub struct Model {
    pub section_id: i64,
    pub section_name: String,
    pub unique_name: String,
}

} // verus!
