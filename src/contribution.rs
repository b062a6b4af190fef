use vstd::prelude::*;
use crate::principal::Principal;

verus! {

/// One member's contribution to one cycle of one group.
#[derive(Clone, Copy, Debug, PartialEq, Eq, Structural)]
pub struct ContributionRecord {
    pub group_id: u64,
    pub cycle: u32,
    pub member: Principal,
    pub amount: u64,
    pub timestamp: u64,
    pub paid: bool,
}

} // verus!
