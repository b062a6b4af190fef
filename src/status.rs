use vstd::prelude::*;

verus! {

/// Lifecycle phase of a savings group.
#[derive(Clone, Copy, Debug, PartialEq, Eq, Structural)]
pub enum GroupStatus {
    /// Created and accepting members; rotation has not started.
    Forming,
    /// Membership is full; contributions and payouts proceed.
    Active,
    /// Every member has received a payout. Terminal.
    Completed,
    /// Aborted before completion. Terminal.
    Cancelled,
}

/// Error raised by a status change that the edge table does not allow.
#[derive(Clone, Copy, Debug, PartialEq, Eq, Structural)]
pub enum StatusError {
    InvalidTransition,
}

/// The edge table of the lifecycle.
pub open spec fn transition_allowed(from: GroupStatus, to: GroupStatus) -> bool {
    match (from, to) {
        (GroupStatus::Forming, GroupStatus::Active) => true,
        (GroupStatus::Forming, GroupStatus::Cancelled) => true,
        (GroupStatus::Active, GroupStatus::Cancelled) => true,
        (GroupStatus::Active, GroupStatus::Completed) => true,
        _ => false,
    }
}

pub open spec fn is_terminal(s: GroupStatus) -> bool {
    s == GroupStatus::Completed || s == GroupStatus::Cancelled
}

impl GroupStatus {
    /// Whether the lifecycle allows moving from `from` to `to`.
    pub fn can_transition(from: GroupStatus, to: GroupStatus) -> (r: bool)
        ensures
            r == transition_allowed(from, to),
    {
        match (from, to) {
            (GroupStatus::Forming, GroupStatus::Active) => true,
            (GroupStatus::Forming, GroupStatus::Cancelled) => true,
            (GroupStatus::Active, GroupStatus::Cancelled) => true,
            (GroupStatus::Active, GroupStatus::Completed) => true,
            _ => false,
        }
    }

    /// Moves to `to` when the edge table allows it; otherwise leaves the
    /// status unchanged and reports `InvalidTransition`.
    pub fn transition(&mut self, to: GroupStatus) -> (r: Result<(), StatusError>)
        ensures
            transition_allowed(*old(self), to) ==> r is Ok && *final(self) == to,
            !transition_allowed(*old(self), to) ==> r == Err::<(), StatusError>(
                StatusError::InvalidTransition,
            ) && *final(self) == *old(self),
    {
        if GroupStatus::can_transition(*self, to) {
            *self = to;
            Ok(())
        } else {
            Err(StatusError::InvalidTransition)
        }
    }

    pub fn is_terminal(&self) -> (r: bool)
        ensures
            r == is_terminal(*self),
    {
        match self {
            GroupStatus::Completed | GroupStatus::Cancelled => true,
            _ => false,
        }
    }
}

/// No status change leaves a terminal state, whatever the target.
pub proof fn lemma_terminal_states_closed(from: GroupStatus, to: GroupStatus)
    requires
        is_terminal(from),
    ensures
        !transition_allowed(from, to),
{
}

/// Every allowed change moves strictly forward in the lifecycle, so no
/// sequence of changes returns to an earlier state.
pub proof fn lemma_transitions_forward(from: GroupStatus, to: GroupStatus)
    requires
        transition_allowed(from, to),
    ensures
        phase_rank(from) < phase_rank(to),
        from != to,
{
}

/// Position of a status in the lifecycle order.
pub open spec fn phase_rank(s: GroupStatus) -> int {
    match s {
        GroupStatus::Forming => 0,
        GroupStatus::Active => 1,
        GroupStatus::Completed => 2,
        GroupStatus::Cancelled => 2,
    }
}

} // verus!
