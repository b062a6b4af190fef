use vstd::prelude::*;
use crate::contribution::ContributionRecord;
use crate::error::StellarSaveError;
use crate::events::{Event, EventEmitter, EventKind};
use crate::group::{config_valid, lemma_duplicate_contribution_rejected, new_group, Group, GroupModel};
use crate::payout::PayoutRecord;
use crate::principal::Principal;
use crate::status::GroupStatus;

verus! {

/// The engine: every group together with the contribution and payout
/// ledgers and the events emitted so far. Each operation is one atomic
/// step over this state; a failed operation changes nothing.
pub struct StellarSaveContract {
    pub groups: Vec<Group>,
    pub contributions: Vec<ContributionRecord>,
    pub payouts: Vec<PayoutRecord>,
    pub emitter: EventEmitter,
    pub next_group_id: u64,
}

/// Mathematical model of the engine's state.
pub struct EngineModel {
    pub groups: Seq<GroupModel>,
    pub contributions: Seq<ContributionRecord>,
    pub payouts: Seq<PayoutRecord>,
    pub events: Seq<Event>,
    pub next_group_id: u64,
}

impl View for StellarSaveContract {
    type V = EngineModel;

    open spec fn view(&self) -> EngineModel {
        EngineModel {
            groups: self.groups@.map_values(|g: Group| g@),
            contributions: self.contributions@,
            payouts: self.payouts@,
            events: self.emitter.events@,
            next_group_id: self.next_group_id,
        }
    }
}

pub open spec fn created_event(g: GroupModel) -> Event {
    Event {
        kind: EventKind::GroupCreated,
        group_id: g.id,
        cycle: 0,
        member: Some(g.creator),
        amount: g.contribution_amount as u128,
        timestamp: Some(g.created_at),
    }
}

/// `after` is the group once `m` has joined.
pub open spec fn joined_event(after: GroupModel, m: Principal) -> Event {
    Event {
        kind: if after.status == GroupStatus::Active {
            EventKind::GroupActivated
        } else {
            EventKind::MemberJoined
        },
        group_id: after.id,
        cycle: after.current_cycle,
        member: Some(m),
        amount: 0,
        timestamp: None,
    }
}

pub open spec fn contributed_event(c: ContributionRecord) -> Event {
    Event {
        kind: EventKind::ContributionRecorded,
        group_id: c.group_id,
        cycle: c.cycle,
        member: Some(c.member),
        amount: c.amount as u128,
        timestamp: Some(c.timestamp),
    }
}

/// `after` is the group once the cycle that `p` pays out is closed.
pub open spec fn advanced_event(after: GroupModel, p: PayoutRecord) -> Event {
    Event {
        kind: if after.status == GroupStatus::Completed {
            EventKind::GroupCompleted
        } else {
            EventKind::CycleAdvanced
        },
        group_id: p.group_id,
        cycle: p.cycle,
        member: Some(p.recipient),
        amount: p.amount,
        timestamp: Some(p.timestamp),
    }
}

pub open spec fn cancelled_event(g: GroupModel) -> Event {
    Event {
        kind: EventKind::GroupCancelled,
        group_id: g.id,
        cycle: g.current_cycle,
        member: Some(g.creator),
        amount: 0,
        timestamp: None,
    }
}

pub open spec fn contribution_key_is(c: ContributionRecord, group_id: u64, cycle: u32, member: Principal) -> bool {
    c.group_id == group_id && c.cycle == cycle && c.member == member
}

pub open spec fn payout_key_is(p: PayoutRecord, group_id: u64, cycle: u32) -> bool {
    p.group_id == group_id && p.cycle == cycle
}

impl EngineModel {
    pub open spec fn has_group(self, id: u64) -> bool {
        exists|i: int| 0 <= i < self.groups.len() && (#[trigger] self.groups[i]).id == id
    }

    pub open spec fn group_index(self, id: u64) -> int {
        choose|i: int| 0 <= i < self.groups.len() && (#[trigger] self.groups[i]).id == id
    }

    /// The group with id `id`; meaningful where `has_group(id)`.
    pub open spec fn group(self, id: u64) -> GroupModel {
        self.groups[self.group_index(id)]
    }

    pub open spec fn has_contribution(self, group_id: u64, cycle: u32, member: Principal) -> bool {
        exists|i: int|
            0 <= i < self.contributions.len() && contribution_key_is(
                #[trigger] self.contributions[i],
                group_id,
                cycle,
                member,
            )
    }

    pub open spec fn has_payout(self, group_id: u64, cycle: u32) -> bool {
        exists|i: int|
            0 <= i < self.payouts.len() && payout_key_is(#[trigger] self.payouts[i], group_id, cycle)
    }

    pub open spec fn ids_unique(self) -> bool {
        forall|i: int, j: int|
            0 <= i < self.groups.len() && 0 <= j < self.groups.len() && i != j ==> (
            #[trigger] self.groups[i]).id != (#[trigger] self.groups[j]).id
    }

    /// A contribution is logged for a past cycle of its group, or for the
    /// current one by a member who is counted as having contributed.
    pub open spec fn contribution_consistent(self, c: ContributionRecord) -> bool {
        &&& self.has_group(c.group_id)
        &&& c.cycle <= self.group(c.group_id).current_cycle
        &&& c.cycle == self.group(c.group_id).current_cycle ==> self.group(
            c.group_id,
        ).contributors.contains(c.member)
    }

    /// A payout is logged only for a closed cycle of its group.
    pub open spec fn payout_consistent(self, p: PayoutRecord) -> bool {
        self.has_group(p.group_id) && p.cycle < self.group(p.group_id).current_cycle
    }

    pub open spec fn wf(self) -> bool {
        &&& forall|i: int|
            0 <= i < self.groups.len() ==> (#[trigger] self.groups[i]).wf() && self.groups[i].id
                < self.next_group_id
        &&& self.ids_unique()
        &&& forall|i: int|
            0 <= i < self.contributions.len() ==> self.contribution_consistent(
                #[trigger] self.contributions[i],
            )
        &&& forall|i: int, j: int|
            0 <= i < self.contributions.len() && 0 <= j < self.contributions.len() && i != j
                ==> !contribution_key_is(
                #[trigger] self.contributions[i],
                (#[trigger] self.contributions[j]).group_id,
                self.contributions[j].cycle,
                self.contributions[j].member,
            )
        &&& forall|i: int|
            0 <= i < self.payouts.len() ==> self.payout_consistent(#[trigger] self.payouts[i])
        &&& forall|i: int, j: int|
            0 <= i < self.payouts.len() && 0 <= j < self.payouts.len() && i != j
                ==> !payout_key_is(
                #[trigger] self.payouts[i],
                (#[trigger] self.payouts[j]).group_id,
                self.payouts[j].cycle,
            )
    }

    /// The state after `groups[i]` is replaced by `g` and `e` is emitted.
    pub open spec fn with_group(self, i: int, g: GroupModel, e: Event) -> EngineModel {
        EngineModel { groups: self.groups.update(i, g), events: self.events.push(e), ..self }
    }

    pub open spec fn step_create(
        self,
        creator: Principal,
        contribution_amount: u64,
        cycle_duration_seconds: u64,
        max_members: u32,
        created_at: u64,
    ) -> (EngineModel, Result<u64, StellarSaveError>) {
        if !config_valid(contribution_amount, cycle_duration_seconds, max_members) {
            (self, Err(StellarSaveError::InvalidConfiguration))
        } else {
            let g = new_group(
                self.next_group_id,
                creator,
                contribution_amount,
                cycle_duration_seconds,
                max_members,
                created_at,
            );
            (
                EngineModel {
                    groups: self.groups.push(g),
                    events: self.events.push(created_event(g)),
                    next_group_id: (self.next_group_id + 1) as u64,
                    ..self
                },
                Ok(self.next_group_id),
            )
        }
    }

    pub open spec fn step_join(self, group_id: u64, m: Principal) -> (EngineModel, Result<(), StellarSaveError>) {
        if !self.has_group(group_id) {
            (self, Err(StellarSaveError::GroupNotFound))
        } else {
            let g = self.group(group_id);
            match g.join_error(m) {
                Some(e) => (self, Err(e)),
                None => (
                    self.with_group(self.group_index(group_id), g.joined(m), joined_event(g.joined(m), m)),
                    Ok(()),
                ),
            }
        }
    }

    pub open spec fn step_contribute(self, group_id: u64, m: Principal, amount: u64, timestamp: u64)
        -> (EngineModel, Result<ContributionRecord, StellarSaveError>) {
        if !self.has_group(group_id) {
            (self, Err(StellarSaveError::GroupNotFound))
        } else {
            let g = self.group(group_id);
            match g.contribute_error(m, amount) {
                Some(e) => (self, Err(e)),
                None => {
                    let c = g.contribution_record(m, amount, timestamp);
                    (
                        EngineModel {
                            contributions: self.contributions.push(c),
                            ..self.with_group(self.group_index(group_id), g.contributed(m), contributed_event(c))
                        },
                        Ok(c),
                    )
                },
            }
        }
    }

    pub open spec fn step_advance(self, group_id: u64) -> (EngineModel, Result<PayoutRecord, StellarSaveError>) {
        if !self.has_group(group_id) {
            (self, Err(StellarSaveError::GroupNotFound))
        } else {
            let g = self.group(group_id);
            match g.advance_error() {
                Some(e) => (self, Err(e)),
                None => {
                    let p = g.payout();
                    (
                        EngineModel {
                            payouts: self.payouts.push(p),
                            ..self.with_group(self.group_index(group_id), g.advanced(), advanced_event(g.advanced(), p))
                        },
                        Ok(p),
                    )
                },
            }
        }
    }

    pub open spec fn step_cancel(self, group_id: u64, caller: Principal) -> (EngineModel, Result<(), StellarSaveError>) {
        if !self.has_group(group_id) {
            (self, Err(StellarSaveError::GroupNotFound))
        } else {
            let g = self.group(group_id);
            match g.cancel_error(caller) {
                Some(e) => (self, Err(e)),
                None => {
                    let ng = GroupModel { status: GroupStatus::Cancelled, ..g };
                    (self.with_group(self.group_index(group_id), ng, cancelled_event(ng)), Ok(()))
                },
            }
        }
    }
}

/// With unique ids, the group found by id is the one at its index.
proof fn lemma_group_at(s: EngineModel, i: int)
    requires
        s.ids_unique(),
        0 <= i < s.groups.len(),
    ensures
        s.has_group(s.groups[i].id),
        s.group_index(s.groups[i].id) == i,
        s.group(s.groups[i].id) == s.groups[i],
{
    let id = s.groups[i].id;
    assert(s.groups[i].id == id);
    let j = s.group_index(id);
    assert(s.groups[j].id == id);
}

/// Replacing a group by one with the same id keeps every lookup by id but
/// that one.
proof fn lemma_update_lookup(s: EngineModel, i: int, g: GroupModel, e: Event)
    requires
        s.ids_unique(),
        0 <= i < s.groups.len(),
        g.id == s.groups[i].id,
    ensures
        s.with_group(i, g, e).ids_unique(),
        forall|id: u64| #[trigger] s.with_group(i, g, e).has_group(id) == s.has_group(id),
        forall|id: u64|
            s.has_group(id) ==> #[trigger] s.with_group(i, g, e).group(id) == if id == g.id {
                g
            } else {
                s.group(id)
            },
{
    let t = s.with_group(i, g, e);
    assert forall|a: int, b: int|
        0 <= a < t.groups.len() && 0 <= b < t.groups.len() && a != b implies (
        #[trigger] t.groups[a]).id != (#[trigger] t.groups[b]).id by {
        assert(s.groups[a].id == t.groups[a].id);
        assert(s.groups[b].id == t.groups[b].id);
    }
    assert forall|id: u64| #[trigger] t.has_group(id) == s.has_group(id) by {
        if s.has_group(id) {
            let k = s.group_index(id);
            assert(t.groups[k].id == id);
        }
        if t.has_group(id) {
            let k = t.group_index(id);
            assert(s.groups[k].id == id);
        }
    }
    assert forall|id: u64| s.has_group(id) implies #[trigger] t.group(id) == if id == g.id {
        g
    } else {
        s.group(id)
    } by {
        let k = s.group_index(id);
        lemma_group_at(s, k);
        lemma_group_at(t, k);
        assert(t.groups[k].id == id);
    }
}

/// Replacing a group by a well-formed one with the same id, cycle and
/// contributors keeps the engine well formed.
proof fn lemma_replace_same_cycle_wf(s: EngineModel, i: int, g: GroupModel, e: Event)
    requires
        s.wf(),
        0 <= i < s.groups.len(),
        g.wf(),
        g.id == s.groups[i].id,
        g.current_cycle == s.groups[i].current_cycle,
        g.contributors == s.groups[i].contributors,
    ensures
        s.with_group(i, g, e).wf(),
{
    let t = s.with_group(i, g, e);
    lemma_update_lookup(s, i, g, e);
    lemma_group_at(s, i);
    assert forall|k: int| 0 <= k < t.contributions.len() implies t.contribution_consistent(
        #[trigger] t.contributions[k],
    ) by {
        assert(s.contribution_consistent(s.contributions[k]));
    }
    assert forall|k: int| 0 <= k < t.payouts.len() implies t.payout_consistent(
        #[trigger] t.payouts[k],
    ) by {
        assert(s.payout_consistent(s.payouts[k]));
    }
    assert forall|k: int| 0 <= k < t.groups.len() implies (#[trigger] t.groups[k]).wf()
        && t.groups[k].id < t.next_group_id by {
        assert(s.groups[k].wf());
    }
}

proof fn lemma_step_create_wf(
    s: EngineModel,
    creator: Principal,
    contribution_amount: u64,
    cycle_duration_seconds: u64,
    max_members: u32,
    created_at: u64,
)
    requires
        s.wf(),
        s.next_group_id < u64::MAX,
    ensures
        s.step_create(creator, contribution_amount, cycle_duration_seconds, max_members, created_at).0.wf(),
{
    if config_valid(contribution_amount, cycle_duration_seconds, max_members) {
        let t = s.step_create(creator, contribution_amount, cycle_duration_seconds, max_members, created_at).0;
        let g = t.groups.last();
        assert(g.members =~= seq![creator]);
        assert forall|a: int, b: int|
            0 <= a < t.groups.len() && 0 <= b < t.groups.len() && a != b implies (
            #[trigger] t.groups[a]).id != (#[trigger] t.groups[b]).id by {
            if a < s.groups.len() {
                assert(s.groups[a].id < s.next_group_id);
            }
            if b < s.groups.len() {
                assert(s.groups[b].id < s.next_group_id);
            }
        }
        assert forall|id: u64| s.has_group(id) implies #[trigger] t.has_group(id) && t.group(id)
            == s.group(id) by {
            let k = s.group_index(id);
            lemma_group_at(s, k);
            assert(t.groups[k] == s.groups[k]);
            lemma_group_at(t, k);
        }
        assert forall|k: int| 0 <= k < t.contributions.len() implies t.contribution_consistent(
            #[trigger] t.contributions[k],
        ) by {
            assert(s.contribution_consistent(s.contributions[k]));
        }
        assert forall|k: int| 0 <= k < t.payouts.len() implies t.payout_consistent(
            #[trigger] t.payouts[k],
        ) by {
            assert(s.payout_consistent(s.payouts[k]));
        }
        assert forall|k: int| 0 <= k < t.groups.len() implies (#[trigger] t.groups[k]).wf()
            && t.groups[k].id < t.next_group_id by {
            if k < s.groups.len() {
                assert(s.groups[k].wf());
            }
        }
    }
}

proof fn lemma_step_join_wf(s: EngineModel, group_id: u64, m: Principal)
    requires
        s.wf(),
        s.has_group(group_id),
        s.group(group_id).join_error(m) is None,
    ensures
        s.step_join(group_id, m).0.wf(),
{
    let i = s.group_index(group_id);
    let g = s.group(group_id);
    assert(g.wf());
    let ng = g.joined(m);
    assert(ng.wf()) by {
        let mm = ng.members;
        assert forall|a: int, b: int| 0 <= a < mm.len() && 0 <= b < mm.len() && a != b
            implies mm[a] != mm[b] by {
            if a < mm.len() - 1 && b < mm.len() - 1 {
                assert(g.members[a] == mm[a]);
                assert(g.members[b] == mm[b]);
            } else if a < mm.len() - 1 {
                assert(g.members.contains(mm[a]));
            } else {
                assert(g.members.contains(mm[b]));
            }
        }
        assert forall|k: int| 0 <= k < ng.contributors.len() implies #[trigger] mm.contains(
            ng.contributors[k],
        ) by {
            assert(g.members.contains(g.contributors[k]));
            let w = choose|w: int| 0 <= w < g.members.len() && g.members[w] == g.contributors[k];
            assert(mm[w] == g.members[w]);
        }
    }
    lemma_replace_same_cycle_wf(s, i, ng, joined_event(ng, m));
}

proof fn lemma_step_cancel_wf(s: EngineModel, group_id: u64, caller: Principal)
    requires
        s.wf(),
        s.has_group(group_id),
        s.group(group_id).cancel_error(caller) is None,
    ensures
        s.step_cancel(group_id, caller).0.wf(),
{
    let i = s.group_index(group_id);
    let g = s.group(group_id);
    assert(g.wf());
    let ng = GroupModel { status: GroupStatus::Cancelled, ..g };
    lemma_replace_same_cycle_wf(s, i, ng, cancelled_event(ng));
}

proof fn lemma_step_contribute_wf(s: EngineModel, group_id: u64, m: Principal, amount: u64, timestamp: u64)
    requires
        s.wf(),
        s.has_group(group_id),
        s.group(group_id).contribute_error(m, amount) is None,
    ensures
        s.step_contribute(group_id, m, amount, timestamp).0.wf(),
{
    let i = s.group_index(group_id);
    let g = s.group(group_id);
    assert(g.wf());
    let ng = g.contributed(m);
    let c = g.contribution_record(m, amount, timestamp);
    let w = s.with_group(i, ng, contributed_event(c));
    let t = s.step_contribute(group_id, m, amount, timestamp).0;
    assert(t == EngineModel { contributions: s.contributions.push(c), ..w });
    lemma_update_lookup(s, i, ng, contributed_event(c));
    lemma_group_at(s, i);
    assert(ng.wf()) by {
        let cc = ng.contributors;
        assert forall|a: int| 0 <= a < cc.len() implies #[trigger] ng.members.contains(cc[a]) by {
            if a < cc.len() - 1 {
                assert(g.contributors[a] == cc[a]);
            }
        }
        assert forall|a: int, b: int| 0 <= a < cc.len() && 0 <= b < cc.len() && a != b
            implies cc[a] != cc[b] by {
            if a < cc.len() - 1 && b < cc.len() - 1 {
                assert(g.contributors[a] == cc[a]);
                assert(g.contributors[b] == cc[b]);
            } else if a < cc.len() - 1 {
                assert(g.contributors.contains(cc[a]));
            } else {
                assert(g.contributors.contains(cc[b]));
            }
        }
    }
    assert forall|id: u64| #[trigger] t.has_group(id) == s.has_group(id) by {
        assert(t.has_group(id) == w.has_group(id));
    }
    assert forall|k: int| 0 <= k < t.contributions.len() implies t.contribution_consistent(
        #[trigger] t.contributions[k],
    ) by {
        let r = t.contributions[k];
        assert(t.group(r.group_id) == w.group(r.group_id));
        if k < s.contributions.len() {
            assert(s.contribution_consistent(s.contributions[k]));
            if r.group_id == group_id && r.cycle == g.current_cycle {
                assert(g.contributors.contains(r.member));
                let x = choose|x: int| 0 <= x < g.contributors.len() && g.contributors[x] == r.member;
                assert(ng.contributors[x] == r.member);
            }
        } else {
            assert(ng.contributors[ng.contributors.len() - 1] == m);
        }
    }
    assert forall|a: int, b: int|
        0 <= a < t.contributions.len() && 0 <= b < t.contributions.len() && a != b
            implies !contribution_key_is(
            #[trigger] t.contributions[a],
            (#[trigger] t.contributions[b]).group_id,
            t.contributions[b].cycle,
            t.contributions[b].member,
        ) by {
        if a == s.contributions.len() as int {
            assert(s.contribution_consistent(s.contributions[b]));
        } else if b == s.contributions.len() as int {
            assert(s.contribution_consistent(s.contributions[a]));
        }
    }
    assert forall|k: int| 0 <= k < t.payouts.len() implies t.payout_consistent(
        #[trigger] t.payouts[k],
    ) by {
        assert(s.payout_consistent(s.payouts[k]));
        assert(t.group(t.payouts[k].group_id) == w.group(t.payouts[k].group_id));
    }
    assert forall|k: int| 0 <= k < t.groups.len() implies (#[trigger] t.groups[k]).wf()
        && t.groups[k].id < t.next_group_id by {
        assert(s.groups[k].wf());
    }
}

proof fn lemma_step_advance_wf(s: EngineModel, group_id: u64)
    requires
        s.wf(),
        s.has_group(group_id),
        s.group(group_id).advance_error() is None,
    ensures
        s.step_advance(group_id).0.wf(),
{
    let i = s.group_index(group_id);
    let g = s.group(group_id);
    assert(g.wf());
    let ng = g.advanced();
    let p = g.payout();
    let w = s.with_group(i, ng, advanced_event(ng, p));
    let t = s.step_advance(group_id).0;
    assert(t == EngineModel { payouts: s.payouts.push(p), ..w });
    lemma_update_lookup(s, i, ng, advanced_event(ng, p));
    lemma_group_at(s, i);
    assert(ng.wf());
    assert forall|id: u64| #[trigger] t.has_group(id) == s.has_group(id) by {
        assert(t.has_group(id) == w.has_group(id));
    }
    assert forall|k: int| 0 <= k < t.contributions.len() implies t.contribution_consistent(
        #[trigger] t.contributions[k],
    ) by {
        let r = t.contributions[k];
        assert(t.group(r.group_id) == w.group(r.group_id));
        assert(s.contribution_consistent(s.contributions[k]));
    }
    assert forall|k: int| 0 <= k < t.payouts.len() implies t.payout_consistent(
        #[trigger] t.payouts[k],
    ) by {
        assert(t.group(t.payouts[k].group_id) == w.group(t.payouts[k].group_id));
        if k < s.payouts.len() {
            assert(s.payout_consistent(s.payouts[k]));
        }
    }
    assert forall|a: int, b: int|
        0 <= a < t.payouts.len() && 0 <= b < t.payouts.len() && a != b implies !payout_key_is(
            #[trigger] t.payouts[a],
            (#[trigger] t.payouts[b]).group_id,
            t.payouts[b].cycle,
        ) by {
        if a == s.payouts.len() as int {
            assert(s.payout_consistent(s.payouts[b]));
        } else if b == s.payouts.len() as int {
            assert(s.payout_consistent(s.payouts[a]));
        }
    }
    assert forall|k: int| 0 <= k < t.groups.len() implies (#[trigger] t.groups[k]).wf()
        && t.groups[k].id < t.next_group_id by {
        assert(s.groups[k].wf());
    }
}

impl StellarSaveContract {
    /// An engine with no groups and empty ledgers.
    pub fn new() -> (r: StellarSaveContract)
        ensures
            r@.wf(),
            r@.groups == Seq::<GroupModel>::empty(),
            r@.contributions == Seq::<ContributionRecord>::empty(),
            r@.payouts == Seq::<PayoutRecord>::empty(),
            r@.events == Seq::<Event>::empty(),
            r@.next_group_id == 0,
    {
        let r = StellarSaveContract {
            groups: Vec::new(),
            contributions: Vec::new(),
            payouts: Vec::new(),
            emitter: EventEmitter::new(),
            next_group_id: 0,
        };
        assert(r@.groups =~= Seq::<GroupModel>::empty());
        r
    }

    /// Index of the group with id `group_id`.
    fn find_group(&self, group_id: u64) -> (r: Option<usize>)
        requires
            self@.ids_unique(),
        ensures
            match r {
                Some(i) => i < self.groups@.len() && self@.has_group(group_id) && i
                    == self@.group_index(group_id),
                None => !self@.has_group(group_id),
            },
    {
        let mut i: usize = 0;
        while i < self.groups.len()
            invariant
                i <= self.groups@.len(),
                self@.ids_unique(),
                forall|j: int| 0 <= j < i ==> self.groups@[j].id != group_id,
            decreases self.groups.len() - i,
        {
            if self.groups[i].id == group_id {
                proof {
                    assert(self@.groups[i as int] == self.groups@[i as int]@);
                    lemma_group_at(self@, i as int);
                }
                return Some(i);
            }
            i = i + 1;
        }
        proof {
            assert forall|j: int| 0 <= j < self@.groups.len() implies (
            #[trigger] self@.groups[j]).id != group_id by {
                assert(self@.groups[j] == self.groups@[j]@);
            }
        }
        None
    }

    /// Creates a group whose id is the next in sequence, with its creator
    /// as first member.
    pub fn create_group(
        &mut self,
        creator: Principal,
        contribution_amount: u64,
        cycle_duration_seconds: u64,
        max_members: u32,
        created_at: u64,
    ) -> (r: Result<u64, StellarSaveError>)
        requires
            old(self)@.wf(),
            old(self)@.next_group_id < u64::MAX,
        ensures
            final(self)@.wf(),
            (final(self)@, r) == old(self)@.step_create(
                creator,
                contribution_amount,
                cycle_duration_seconds,
                max_members,
                created_at,
            ),
    {
        proof {
            lemma_step_create_wf(
                self@,
                creator,
                contribution_amount,
                cycle_duration_seconds,
                max_members,
                created_at,
            );
        }
        let id = self.next_group_id;
        let g = match Group::new(
            id,
            creator,
            contribution_amount,
            cycle_duration_seconds,
            max_members,
            created_at,
        ) {
            Ok(g) => g,
            Err(e) => {
                return Err(e);
            },
        };
        self.emitter.emit(
            Event {
                kind: EventKind::GroupCreated,
                group_id: id,
                cycle: 0,
                member: Some(creator),
                amount: contribution_amount as u128,
                timestamp: Some(created_at),
            },
        );
        self.groups.push(g);
        self.next_group_id = id + 1;
        proof {
            assert(self@.groups =~= old(self)@.groups.push(g@));
        }
        Ok(id)
    }

    /// Adds `member` to the group's rotation.
    pub fn join_group(&mut self, group_id: u64, member: Principal) -> (r: Result<(), StellarSaveError>)
        requires
            old(self)@.wf(),
        ensures
            final(self)@.wf(),
            (final(self)@, r) == old(self)@.step_join(group_id, member),
    {
        let i = match self.find_group(group_id) {
            Some(i) => i,
            None => {
                return Err(StellarSaveError::GroupNotFound);
            },
        };
        let ghost before = self@;
        proof {
            assert(before.groups[i as int] == self.groups@[i as int]@);
            assert(before.groups[i as int].wf());
        }
        let mut g = self.groups.remove(i);
        let r = g.join(member);
        let activated = g.status == GroupStatus::Active;
        let cycle = g.current_cycle;
        self.groups.insert(i, g);
        proof {
            assert(self@.groups =~= before.groups.update(i as int, g@));
        }
        match r {
            Ok(()) => {
                self.emitter.emit(
                    Event {
                        kind: if activated {
                            EventKind::GroupActivated
                        } else {
                            EventKind::MemberJoined
                        },
                        group_id,
                        cycle,
                        member: Some(member),
                        amount: 0,
                        timestamp: None,
                    },
                );
                proof {
                    lemma_step_join_wf(before, group_id, member);
                }
                Ok(())
            },
            Err(e) => {
                proof {
                    assert(self@.groups =~= before.groups);
                }
                Err(e)
            },
        }
    }

    /// Records `member`'s contribution of `amount` to the group's current
    /// cycle and logs it in the contribution ledger.
    pub fn contribute(&mut self, group_id: u64, member: Principal, amount: u64, timestamp: u64) -> (r:
        Result<ContributionRecord, StellarSaveError>)
        requires
            old(self)@.wf(),
        ensures
            final(self)@.wf(),
            (final(self)@, r) == old(self)@.step_contribute(group_id, member, amount, timestamp),
    {
        let i = match self.find_group(group_id) {
            Some(i) => i,
            None => {
                return Err(StellarSaveError::GroupNotFound);
            },
        };
        let ghost before = self@;
        proof {
            assert(before.groups[i as int] == self.groups@[i as int]@);
            assert(before.groups[i as int].wf());
        }
        let mut g = self.groups.remove(i);
        let r = g.record_contribution(member, amount, timestamp);
        self.groups.insert(i, g);
        proof {
            assert(self@.groups =~= before.groups.update(i as int, g@));
        }
        match r {
            Ok(c) => {
                self.emitter.emit(
                    Event {
                        kind: EventKind::ContributionRecorded,
                        group_id: c.group_id,
                        cycle: c.cycle,
                        member: Some(c.member),
                        amount: c.amount as u128,
                        timestamp: Some(c.timestamp),
                    },
                );
                self.contributions.push(c);
                proof {
                    lemma_step_contribute_wf(before, group_id, member, amount, timestamp);
                }
                Ok(c)
            },
            Err(e) => {
                proof {
                    assert(self@.groups =~= before.groups);
                }
                Err(e)
            },
        }
    }

    /// Closes the group's current cycle and logs its payout in the payout
    /// ledger. The transfer of the pool itself is left to the caller.
    pub fn advance_cycle(&mut self, group_id: u64) -> (r: Result<PayoutRecord, StellarSaveError>)
        requires
            old(self)@.wf(),
        ensures
            final(self)@.wf(),
            (final(self)@, r) == old(self)@.step_advance(group_id),
    {
        let i = match self.find_group(group_id) {
            Some(i) => i,
            None => {
                return Err(StellarSaveError::GroupNotFound);
            },
        };
        let ghost before = self@;
        proof {
            assert(before.groups[i as int] == self.groups@[i as int]@);
            assert(before.groups[i as int].wf());
        }
        let mut g = self.groups.remove(i);
        let r = g.advance_cycle();
        let completed = g.status == GroupStatus::Completed;
        self.groups.insert(i, g);
        proof {
            assert(self@.groups =~= before.groups.update(i as int, g@));
        }
        match r {
            Ok(p) => {
                self.emitter.emit(
                    Event {
                        kind: if completed {
                            EventKind::GroupCompleted
                        } else {
                            EventKind::CycleAdvanced
                        },
                        group_id: p.group_id,
                        cycle: p.cycle,
                        member: Some(p.recipient),
                        amount: p.amount,
                        timestamp: Some(p.timestamp),
                    },
                );
                self.payouts.push(p);
                proof {
                    lemma_step_advance_wf(before, group_id);
                }
                Ok(p)
            },
            Err(e) => {
                proof {
                    assert(self@.groups =~= before.groups);
                }
                Err(e)
            },
        }
    }

    /// The current cycle of the group, counted from zero.
    pub fn get_current_cycle(&self, group_id: u64) -> (r: Result<u32, StellarSaveError>)
        requires
            self@.wf(),
        ensures
            r == if self@.has_group(group_id) {
                Ok::<u32, StellarSaveError>(self@.group(group_id).current_cycle)
            } else {
                Err(StellarSaveError::GroupNotFound)
            },
    {
        match self.find_group(group_id) {
            Some(i) => {
                proof {
                    assert(self@.groups[i as int] == self.groups@[i as int]@);
                }
                Ok(self.groups[i].get_current_cycle())
            },
            None => Err(StellarSaveError::GroupNotFound),
        }
    }

    pub fn get_group_status(&self, group_id: u64) -> (r: Result<GroupStatus, StellarSaveError>)
        requires
            self@.wf(),
        ensures
            r == if self@.has_group(group_id) {
                Ok::<GroupStatus, StellarSaveError>(self@.group(group_id).status)
            } else {
                Err(StellarSaveError::GroupNotFound)
            },
    {
        match self.find_group(group_id) {
            Some(i) => {
                proof {
                    assert(self@.groups[i as int] == self.groups@[i as int]@);
                }
                Ok(self.groups[i].status)
            },
            None => Err(StellarSaveError::GroupNotFound),
        }
    }

    /// The logged contribution of `member` to `cycle` of the group; there is
    /// at most one.
    pub fn get_contribution(&self, group_id: u64, cycle: u32, member: Principal) -> (r: Result<
        ContributionRecord,
        StellarSaveError,
    >)
        requires
            self@.wf(),
        ensures
            match r {
                Ok(c) => self@.contributions.contains(c) && contribution_key_is(c, group_id, cycle, member),
                Err(e) => e == StellarSaveError::ContributionNotFound && !self@.has_contribution(
                    group_id,
                    cycle,
                    member,
                ),
            },
    {
        let mut i: usize = 0;
        while i < self.contributions.len()
            invariant
                i <= self.contributions@.len(),
                forall|j: int|
                    0 <= j < i ==> !contribution_key_is(self.contributions@[j], group_id, cycle, member),
            decreases self.contributions.len() - i,
        {
            let c = self.contributions[i];
            if c.group_id == group_id && c.cycle == cycle && c.member == member {
                assert(self@.contributions[i as int] == c);
                return Ok(c);
            }
            i = i + 1;
        }
        Err(StellarSaveError::ContributionNotFound)
    }

    /// The logged payout of `cycle` of the group; there is at most one.
    pub fn get_payout(&self, group_id: u64, cycle: u32) -> (r: Result<PayoutRecord, StellarSaveError>)
        requires
            self@.wf(),
        ensures
            match r {
                Ok(p) => self@.payouts.contains(p) && payout_key_is(p, group_id, cycle),
                Err(e) => e == StellarSaveError::PayoutNotFound && !self@.has_payout(group_id, cycle),
            },
    {
        let mut i: usize = 0;
        while i < self.payouts.len()
            invariant
                i <= self.payouts@.len(),
                forall|j: int| 0 <= j < i ==> !payout_key_is(self.payouts@[j], group_id, cycle),
            decreases self.payouts.len() - i,
        {
            let p = self.payouts[i];
            if p.group_id == group_id && p.cycle == cycle {
                assert(self@.payouts[i as int] == p);
                return Ok(p);
            }
            i = i + 1;
        }
        Err(StellarSaveError::PayoutNotFound)
    }

    /// Whether every member of the group has a logged contribution to
    /// `cycle`. Closing a cycle does not require it; callers that want to
    /// enforce it ask here first.
    pub fn contributions_complete_for_cycle(&self, group_id: u64, cycle: u32) -> (r: Result<
        bool,
        StellarSaveError,
    >)
        requires
            self@.wf(),
        ensures
            r == if self@.has_group(group_id) {
                Ok::<bool, StellarSaveError>(
                    forall|k: int|
                        0 <= k < self@.group(group_id).members.len() ==> self@.has_contribution(
                            group_id,
                            cycle,
                            #[trigger] self@.group(group_id).members[k],
                        ),
                )
            } else {
                Err(StellarSaveError::GroupNotFound)
            },
    {
        let gi = match self.find_group(group_id) {
            Some(gi) => gi,
            None => {
                return Err(StellarSaveError::GroupNotFound);
            },
        };
        let g = &self.groups[gi];
        proof {
            assert(self@.groups[gi as int] == g@);
        }
        let mut k: usize = 0;
        while k < g.members.len()
            invariant
                k <= g.members@.len(),
                self@.wf(),
                self@.has_group(group_id),
                g@ == self@.group(group_id),
                forall|x: int|
                    0 <= x < k ==> self@.has_contribution(group_id, cycle, #[trigger] g.members@[x]),
            decreases g.members.len() - k,
        {
            match self.get_contribution(group_id, cycle, g.members[k]) {
                Ok(c) => {
                    proof {
                        let w = choose|w: int| 0 <= w < self@.contributions.len() && self@.contributions[w] == c;
                        assert(contribution_key_is(self@.contributions[w], group_id, cycle, g.members@[k as int]));
                    }
                },
                Err(_) => {
                    proof {
                        let mk = self@.group(group_id).members[k as int];
                        assert(!self@.has_contribution(group_id, cycle, mk));
                    }
                    return Ok(false);
                },
            }
            k = k + 1;
        }
        Ok(true)
    }

    /// Cancels the group; only its creator may, and only before it completes.
    pub fn cancel_group(&mut self, group_id: u64, caller: Principal) -> (r: Result<(), StellarSaveError>)
        requires
            old(self)@.wf(),
        ensures
            final(self)@.wf(),
            (final(self)@, r) == old(self)@.step_cancel(group_id, caller),
    {
        let i = match self.find_group(group_id) {
            Some(i) => i,
            None => {
                return Err(StellarSaveError::GroupNotFound);
            },
        };
        let ghost before = self@;
        proof {
            assert(before.groups[i as int] == self.groups@[i as int]@);
            assert(before.groups[i as int].wf());
        }
        let mut g = self.groups.remove(i);
        let r = g.cancel(caller);
        let cycle = g.current_cycle;
        let creator = g.creator;
        self.groups.insert(i, g);
        proof {
            assert(self@.groups =~= before.groups.update(i as int, g@));
        }
        match r {
            Ok(()) => {
                self.emitter.emit(
                    Event {
                        kind: EventKind::GroupCancelled,
                        group_id,
                        cycle,
                        member: Some(creator),
                        amount: 0,
                        timestamp: None,
                    },
                );
                proof {
                    lemma_step_cancel_wf(before, group_id, caller);
                }
                Ok(())
            },
            Err(e) => {
                proof {
                    assert(self@.groups =~= before.groups);
                }
                Err(e)
            },
        }
    }
}

/// Contributing twice with the same group, member and cycle: once the first
/// call is accepted, the second is refused as a duplicate and changes
/// nothing, so the ledger keeps the amount and time of the first call.
pub proof fn lemma_contribute_twice(
    s: EngineModel,
    group_id: u64,
    m: Principal,
    first_amount: u64,
    first_time: u64,
    second_amount: u64,
    second_time: u64,
)
    requires
        s.wf(),
        s.step_contribute(group_id, m, first_amount, first_time).1 is Ok,
    ensures
        ({
            let (s1, r1) = s.step_contribute(group_id, m, first_amount, first_time);
            let (s2, r2) = s1.step_contribute(group_id, m, second_amount, second_time);
            &&& s1.group(group_id).current_cycle == s.group(group_id).current_cycle
            &&& r2 == Err::<ContributionRecord, StellarSaveError>(
                StellarSaveError::DuplicateContribution,
            )
            &&& s2 == s1
            &&& s1.contributions.last() == r1->Ok_0
            &&& r1->Ok_0.amount == first_amount
            &&& r1->Ok_0.timestamp == first_time
            &&& contribution_key_is(r1->Ok_0, group_id, s.group(group_id).current_cycle, m)
        }),
{
    let i = s.group_index(group_id);
    let g = s.group(group_id);
    let c = g.contribution_record(m, first_amount, first_time);
    lemma_update_lookup(s, i, g.contributed(m), contributed_event(c));
    let s1 = s.step_contribute(group_id, m, first_amount, first_time).0;
    let w = s.with_group(i, g.contributed(m), contributed_event(c));
    assert(s1.has_group(group_id) == w.has_group(group_id));
    assert(s1.group(group_id) == w.group(group_id));
    assert(g.wf());
    lemma_duplicate_contribution_rejected(g, m, first_amount, second_amount);
}

/// Groups are independent: closing a cycle of one group leaves every other
/// group exactly as it was.
pub proof fn lemma_advance_isolated(s: EngineModel, group_id: u64, other: u64)
    requires
        s.wf(),
        s.has_group(other),
        other != group_id,
    ensures
        s.step_advance(group_id).0.has_group(other),
        s.step_advance(group_id).0.group(other) == s.group(other),
{
    if s.has_group(group_id) && s.group(group_id).advance_error() is None {
        let i = s.group_index(group_id);
        let g = s.group(group_id);
        let e = advanced_event(g.advanced(), g.payout());
        lemma_group_at(s, i);
        lemma_update_lookup(s, i, g.advanced(), e);
        let t = s.step_advance(group_id).0;
        let w = s.with_group(i, g.advanced(), e);
        assert(t.has_group(other) == w.has_group(other));
        assert(t.group(other) == w.group(other));
    }
}

} // verus!
