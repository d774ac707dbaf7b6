//! Submitters: the anonymous identities that hand in records.

use vstd::prelude::*;

verus! {

/// A submitter: an id and whether it has been banned from submitting.
#[derive(Debug, Clone, Copy, PartialEq, Eq, Structural, Hash)]
pub struct Submitter {
    pub id: i32,
    pub banned: bool,
}

} // verus!
