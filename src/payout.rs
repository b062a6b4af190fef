use vstd::prelude::*;
use crate::principal::Principal;

verus! {

/// The pool paid out to one recipient at the close of one cycle.
#[derive(Clone, Copy, Debug, PartialEq, Eq, Structural)]
pub struct PayoutRecord {
    pub group_id: u64,
    pub cycle: u32,
    pub recipient: Principal,
    pub amount: u128,
    pub timestamp: u64,
}

} // verus!
