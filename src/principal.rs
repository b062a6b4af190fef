use vstd::prelude::*;

verus! {

/// An opaque account identity: a creator, a member or a payout recipient.
#[derive(Clone, Copy, Debug, PartialEq, Eq, Structural)]
pub struct Principal(pub u64);

} // verus!
