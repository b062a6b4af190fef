use vstd::prelude::*;
use crate::principal::Principal;

verus! {

#[derive(Clone, Copy, Debug, PartialEq, Eq, Structural)]
pub enum EventKind {
    GroupCreated,
    MemberJoined,
    GroupActivated,
    ContributionRecorded,
    CycleAdvanced,
    GroupCompleted,
    GroupCancelled,
}

/// A structured record of one state change.
#[derive(Clone, Copy, Debug, PartialEq, Eq, Structural)]
pub struct Event {
    pub kind: EventKind,
    pub group_id: u64,
    pub cycle: u32,
    pub member: Option<Principal>,
    pub amount: u128,
    /// Time of the change, where the operation was given one.
    pub timestamp: Option<u64>,
}

/// Sink that receives events in the order they are emitted. It neither
/// filters nor reorders.
pub struct EventEmitter {
    pub events: Vec<Event>,
}

impl EventEmitter {
    pub fn new() -> (r: EventEmitter)
        ensures
            r.events@ == Seq::<Event>::empty(),
    {
        EventEmitter { events: Vec::new() }
    }

    pub fn emit(&mut self, e: Event)
        ensures
            final(self).events@ == old(self).events@.push(e),
    {
        self.events.push(e);
    }
}

} // verus!
