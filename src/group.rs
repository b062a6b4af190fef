use vstd::prelude::*;
use crate::contribution::ContributionRecord;
use crate::error::StellarSaveError;
use crate::payout::PayoutRecord;
use crate::principal::Principal;
use crate::status::GroupStatus;

verus! {

/// A savings group: fixed configuration plus the state of its rotation.
pub struct Group {
    pub id: u64,
    pub creator: Principal,
    pub contribution_amount: u64,
    pub cycle_duration_seconds: u64,
    pub max_members: u32,
    pub created_at: u64,
    pub current_cycle: u32,
    pub status: GroupStatus,
    /// Members in join order, which is also the payout order.
    pub members: Vec<Principal>,
    /// Members who have contributed to the current cycle.
    pub contributors: Vec<Principal>,
}

/// Mathematical model of a `Group`.
pub struct GroupModel {
    pub id: u64,
    pub creator: Principal,
    pub contribution_amount: u64,
    pub cycle_duration_seconds: u64,
    pub max_members: u32,
    pub created_at: u64,
    pub current_cycle: u32,
    pub status: GroupStatus,
    pub members: Seq<Principal>,
    pub contributors: Seq<Principal>,
}

impl View for Group {
    type V = GroupModel;

    open spec fn view(&self) -> GroupModel {
        GroupModel {
            id: self.id,
            creator: self.creator,
            contribution_amount: self.contribution_amount,
            cycle_duration_seconds: self.cycle_duration_seconds,
            max_members: self.max_members,
            created_at: self.created_at,
            current_cycle: self.current_cycle,
            status: self.status,
            members: self.members@,
            contributors: self.contributors@,
        }
    }
}

/// A configuration that a group can be created with.
pub open spec fn config_valid(contribution_amount: u64, cycle_duration_seconds: u64, max_members: u32) -> bool {
    max_members >= 2 && contribution_amount > 0 && cycle_duration_seconds > 0
}

/// The group that creation yields: cycle zero, forming, the creator as
/// its only member.
pub open spec fn new_group(
    id: u64,
    creator: Principal,
    contribution_amount: u64,
    cycle_duration_seconds: u64,
    max_members: u32,
    created_at: u64,
) -> GroupModel {
    GroupModel {
        id,
        creator,
        contribution_amount,
        cycle_duration_seconds,
        max_members,
        created_at,
        current_cycle: 0,
        status: GroupStatus::Forming,
        members: seq![creator],
        contributors: Seq::empty(),
    }
}

/// Scheduled end of a cycle, in seconds since the epoch, saturating at the
/// largest timestamp.
pub open spec fn cycle_end(created_at: u64, cycle_duration_seconds: u64, cycle: u32) -> u64 {
    let e = created_at + (cycle + 1) * cycle_duration_seconds;
    if e <= u64::MAX {
        e as u64
    } else {
        u64::MAX
    }
}

impl GroupModel {
    pub open spec fn wf(self) -> bool {
        &&& config_valid(self.contribution_amount, self.cycle_duration_seconds, self.max_members)
        &&& self.current_cycle <= self.max_members
        &&& 1 <= self.members.len() <= self.max_members
        &&& self.members[0] == self.creator
        &&& self.members.no_duplicates()
        &&& self.contributors.no_duplicates()
        &&& forall|i: int|
            0 <= i < self.contributors.len() ==> #[trigger] self.members.contains(
                self.contributors[i],
            )
        &&& (self.status == GroupStatus::Completed <==> self.current_cycle == self.max_members)
        &&& self.status == GroupStatus::Forming ==> {
            &&& self.current_cycle == 0
            &&& self.members.len() < self.max_members
            &&& self.contributors.len() == 0
        }
        &&& (self.status == GroupStatus::Active || self.status == GroupStatus::Completed)
            ==> self.members.len() == self.max_members
    }

    pub open spec fn is_complete(self) -> bool {
        self.current_cycle == self.max_members
    }

    /// Why `join` refuses `m`, if it does.
    pub open spec fn join_error(self, m: Principal) -> Option<StellarSaveError> {
        if self.members.contains(m) {
            Some(StellarSaveError::AlreadyMember)
        } else if self.members.len() == self.max_members {
            Some(StellarSaveError::GroupFull)
        } else if self.status != GroupStatus::Forming {
            Some(StellarSaveError::InvalidStatus)
        } else {
            None
        }
    }

    /// The group after `m` joins; filling the last seat activates it.
    pub open spec fn joined(self, m: Principal) -> GroupModel {
        GroupModel {
            members: self.members.push(m),
            status: if self.members.len() + 1 == self.max_members {
                GroupStatus::Active
            } else {
                self.status
            },
            ..self
        }
    }

    /// Why a contribution of `amount` by `m` is refused, if it is.
    pub open spec fn contribute_error(self, m: Principal, amount: u64) -> Option<StellarSaveError> {
        if self.status != GroupStatus::Active {
            Some(StellarSaveError::InvalidStatus)
        } else if !self.members.contains(m) {
            Some(StellarSaveError::NotMember)
        } else if self.contributors.contains(m) {
            Some(StellarSaveError::DuplicateContribution)
        } else if amount != self.contribution_amount {
            Some(StellarSaveError::WrongAmount)
        } else {
            None
        }
    }

    /// The group after `m` has contributed to the current cycle.
    pub open spec fn contributed(self, m: Principal) -> GroupModel {
        GroupModel { contributors: self.contributors.push(m), ..self }
    }

    /// The record of a contribution by `m` to the current cycle.
    pub open spec fn contribution_record(self, m: Principal, amount: u64, timestamp: u64) -> ContributionRecord {
        ContributionRecord {
            group_id: self.id,
            cycle: self.current_cycle,
            member: m,
            amount,
            timestamp,
            paid: true,
        }
    }

    /// Whether every member has contributed to the current cycle.
    pub open spec fn all_contributed(self) -> bool {
        forall|i: int| 0 <= i < self.members.len() ==> #[trigger] self.contributors.contains(self.members[i])
    }

    /// Why the cycle cannot be closed, if it cannot.
    pub open spec fn advance_error(self) -> Option<StellarSaveError> {
        if self.current_cycle == self.max_members {
            Some(StellarSaveError::AlreadyComplete)
        } else if self.status != GroupStatus::Active {
            Some(StellarSaveError::InvalidStatus)
        } else {
            None
        }
    }

    /// Recipient of the current cycle's pool: members take turns in join order.
    pub open spec fn recipient(self) -> Principal {
        self.members[self.current_cycle as int % self.members.len() as int]
    }

    /// The payout that closes the current cycle.
    pub open spec fn payout(self) -> PayoutRecord {
        PayoutRecord {
            group_id: self.id,
            cycle: self.current_cycle,
            recipient: self.recipient(),
            amount: (self.contribution_amount * self.members.len()) as u128,
            timestamp: cycle_end(self.created_at, self.cycle_duration_seconds, self.current_cycle),
        }
    }

    /// The group after its current cycle is closed; closing the last cycle
    /// completes it.
    pub open spec fn advanced(self) -> GroupModel {
        GroupModel {
            current_cycle: (self.current_cycle + 1) as u32,
            contributors: Seq::empty(),
            status: if self.current_cycle + 1 == self.max_members {
                GroupStatus::Completed
            } else {
                self.status
            },
            ..self
        }
    }

    /// Why `caller` cannot cancel the group, if they cannot.
    pub open spec fn cancel_error(self, caller: Principal) -> Option<StellarSaveError> {
        if caller != self.creator {
            Some(StellarSaveError::Unauthorized)
        } else if self.status != GroupStatus::Forming && self.status != GroupStatus::Active {
            Some(StellarSaveError::InvalidStatus)
        } else {
            None
        }
    }

    /// The group closed `k` cycles later, each close taken as successful.
    pub open spec fn advanced_times(self, k: nat) -> GroupModel
        decreases k,
    {
        if k == 0 {
            self
        } else {
            self.advanced_times((k - 1) as nat).advanced()
        }
    }
}

/// Whether `m` occurs in `v`.
fn contains_principal(v: &Vec<Principal>, m: Principal) -> (r: bool)
    ensures
        r == v@.contains(m),
{
    let mut i: usize = 0;
    while i < v.len()
        invariant
            i <= v.len(),
            forall|j: int| 0 <= j < i ==> v@[j] != m,
        decreases v.len() - i,
    {
        if v[i] == m {
            return true;
        }
        i = i + 1;
    }
    false
}

impl Group {
    /// Creates a group with `creator` as its first member, or reports
    /// `InvalidConfiguration`.
    pub fn new(
        id: u64,
        creator: Principal,
        contribution_amount: u64,
        cycle_duration_seconds: u64,
        max_members: u32,
        created_at: u64,
    ) -> (r: Result<Group, StellarSaveError>)
        ensures
            config_valid(contribution_amount, cycle_duration_seconds, max_members) ==> r is Ok
                && r->Ok_0@ == new_group(
                id,
                creator,
                contribution_amount,
                cycle_duration_seconds,
                max_members,
                created_at,
            ) && r->Ok_0@.wf(),
            !config_valid(contribution_amount, cycle_duration_seconds, max_members) ==> r
                == Err::<Group, StellarSaveError>(StellarSaveError::InvalidConfiguration),
    {
        if max_members < 2 || contribution_amount == 0 || cycle_duration_seconds == 0 {
            return Err(StellarSaveError::InvalidConfiguration);
        }
        let mut members: Vec<Principal> = Vec::new();
        members.push(creator);
        let g = Group {
            id,
            creator,
            contribution_amount,
            cycle_duration_seconds,
            max_members,
            created_at,
            current_cycle: 0,
            status: GroupStatus::Forming,
            members,
            contributors: Vec::new(),
        };
        assert(g@.members =~= seq![creator]);
        assert(g@.contributors =~= Seq::<Principal>::empty());
        Ok(g)
    }

    /// Adds `member` at the end of the rotation. Filling the last seat moves
    /// the group from forming to active.
    pub fn join(&mut self, member: Principal) -> (r: Result<(), StellarSaveError>)
        requires
            old(self)@.wf(),
        ensures
            final(self)@.wf(),
            match old(self)@.join_error(member) {
                Some(e) => r == Err::<(), StellarSaveError>(e) && final(self)@ == old(self)@,
                None => r is Ok && final(self)@ == old(self)@.joined(member),
            },
    {
        if contains_principal(&self.members, member) {
            return Err(StellarSaveError::AlreadyMember);
        }
        if self.members.len() == self.max_members as usize {
            return Err(StellarSaveError::GroupFull);
        }
        if self.status != GroupStatus::Forming {
            return Err(StellarSaveError::InvalidStatus);
        }
        self.members.push(member);
        if self.members.len() == self.max_members as usize {
            let _ = self.status.transition(GroupStatus::Active);
        }
        proof {
            let m = self.members@;
            assert(m[m.len() - 1] == member);
            assert forall|i: int, j: int| 0 <= i < m.len() && 0 <= j < m.len() && i != j
                implies m[i] != m[j] by {
                if i < m.len() - 1 && j < m.len() - 1 {
                    assert(old(self)@.members[i] == m[i]);
                    assert(old(self)@.members[j] == m[j]);
                } else if i < m.len() - 1 {
                    assert(old(self)@.members.contains(m[i]));
                } else {
                    assert(old(self)@.members.contains(m[j]));
                }
            }
        }
        Ok(())
    }

    /// Records `member`'s contribution of `amount` to the current cycle.
    pub fn record_contribution(&mut self, member: Principal, amount: u64, timestamp: u64) -> (r:
        Result<ContributionRecord, StellarSaveError>)
        requires
            old(self)@.wf(),
        ensures
            final(self)@.wf(),
            match old(self)@.contribute_error(member, amount) {
                Some(e) => r == Err::<ContributionRecord, StellarSaveError>(e) && final(self)@
                    == old(self)@,
                None => r == Ok::<ContributionRecord, StellarSaveError>(
                    old(self)@.contribution_record(member, amount, timestamp),
                ) && final(self)@ == old(self)@.contributed(member),
            },
    {
        if self.status != GroupStatus::Active {
            return Err(StellarSaveError::InvalidStatus);
        }
        if !contains_principal(&self.members, member) {
            return Err(StellarSaveError::NotMember);
        }
        if contains_principal(&self.contributors, member) {
            return Err(StellarSaveError::DuplicateContribution);
        }
        if amount != self.contribution_amount {
            return Err(StellarSaveError::WrongAmount);
        }
        self.contributors.push(member);
        proof {
            let c = self.contributors@;
            let oc = old(self)@.contributors;
            assert forall|i: int| 0 <= i < c.len() implies #[trigger] self.members@.contains(c[i]) by {
                if i < c.len() - 1 {
                    assert(oc[i] == c[i]);
                }
            }
            assert forall|i: int, j: int| 0 <= i < c.len() && 0 <= j < c.len() && i != j
                implies c[i] != c[j] by {
                if i < c.len() - 1 && j < c.len() - 1 {
                    assert(oc[i] == c[i]);
                    assert(oc[j] == c[j]);
                } else if i < c.len() - 1 {
                    assert(oc.contains(c[i]));
                } else {
                    assert(oc.contains(c[j]));
                }
            }
        }
        Ok(
            ContributionRecord {
                group_id: self.id,
                cycle: self.current_cycle,
                member,
                amount,
                timestamp,
                paid: true,
            },
        )
    }

    /// Scheduled end of the current cycle.
    fn current_cycle_end(&self) -> (r: u64)
        requires
            self.current_cycle < u32::MAX,
        ensures
            r == cycle_end(self.created_at, self.cycle_duration_seconds, self.current_cycle),
    {
        let next: u128 = self.current_cycle as u128 + 1;
        let d: u128 = self.cycle_duration_seconds as u128;
        assert(next * d <= 0x1_0000_0000u128 * 0xffff_ffff_ffff_ffffu128) by (nonlinear_arith)
            requires
                next <= 0x1_0000_0000u128,
                d <= 0xffff_ffff_ffff_ffffu128,
        ;
        let end: u128 = self.created_at as u128 + next * d;
        if end <= u64::MAX as u128 {
            end as u64
        } else {
            u64::MAX
        }
    }

    /// Closes the current cycle: pays the whole pool to the member whose
    /// turn it is and moves to the next cycle. Closing the last cycle
    /// completes the group.
    pub fn advance_cycle(&mut self) -> (r: Result<PayoutRecord, StellarSaveError>)
        requires
            old(self)@.wf(),
        ensures
            final(self)@.wf(),
            match old(self)@.advance_error() {
                Some(e) => r == Err::<PayoutRecord, StellarSaveError>(e) && final(self)@
                    == old(self)@,
                None => r == Ok::<PayoutRecord, StellarSaveError>(old(self)@.payout())
                    && final(self)@ == old(self)@.advanced(),
            },
    {
        if self.current_cycle == self.max_members {
            return Err(StellarSaveError::AlreadyComplete);
        }
        if self.status != GroupStatus::Active {
            return Err(StellarSaveError::InvalidStatus);
        }
        let n = self.members.len();
        let recipient = self.members[self.current_cycle as usize % n];
        let a: u128 = self.contribution_amount as u128;
        assert(a * (n as u128) <= 0xffff_ffff_ffff_ffffu128 * 0xffff_ffffu128) by (nonlinear_arith)
            requires
                a <= 0xffff_ffff_ffff_ffffu128,
                n <= 0xffff_ffff,
        ;
        let payout = PayoutRecord {
            group_id: self.id,
            cycle: self.current_cycle,
            recipient,
            amount: a * (n as u128),
            timestamp: self.current_cycle_end(),
        };
        self.current_cycle = self.current_cycle + 1;
        self.contributors = Vec::new();
        if self.current_cycle == self.max_members {
            let _ = self.status.transition(GroupStatus::Completed);
        }
        assert(self@.contributors =~= Seq::<Principal>::empty());
        Ok(payout)
    }

    /// Aborts the group before completion; only its creator may.
    pub fn cancel(&mut self, caller: Principal) -> (r: Result<(), StellarSaveError>)
        requires
            old(self)@.wf(),
        ensures
            final(self)@.wf(),
            match old(self)@.cancel_error(caller) {
                Some(e) => r == Err::<(), StellarSaveError>(e) && final(self)@ == old(self)@,
                None => r is Ok && final(self)@ == (GroupModel {
                    status: GroupStatus::Cancelled,
                    ..old(self)@
                }),
            },
    {
        if caller != self.creator {
            return Err(StellarSaveError::Unauthorized);
        }
        match self.status.transition(GroupStatus::Cancelled) {
            Ok(()) => Ok(()),
            Err(_) => Err(StellarSaveError::InvalidStatus),
        }
    }

    /// Whether every member has contributed to the current cycle.
    pub fn contributions_complete(&self) -> (r: bool)
        ensures
            r == self@.all_contributed(),
    {
        let mut i: usize = 0;
        while i < self.members.len()
            invariant
                i <= self.members.len(),
                forall|j: int| 0 <= j < i ==> #[trigger] self.contributors@.contains(self.members@[j]),
            decreases self.members.len() - i,
        {
            if !contains_principal(&self.contributors, self.members[i]) {
                assert(!self@.contributors.contains(self@.members[i as int]));
                assert(!self@.all_contributed());
                return false;
            }
            i = i + 1;
        }
        true
    }

    pub fn is_complete(&self) -> (r: bool)
        ensures
            r == self@.is_complete(),
    {
        self.current_cycle == self.max_members
    }

    pub fn get_current_cycle(&self) -> (r: u32)
        ensures
            r == self.current_cycle,
    {
        self.current_cycle
    }
}

/// What `k` successive closes do to a fully joined group at cycle zero,
/// while `k` is at most its size.
proof fn lemma_advanced_times(g: GroupModel, k: nat)
    requires
        g.wf(),
        g.status == GroupStatus::Active,
        g.current_cycle == 0,
        k <= g.max_members,
    ensures
        g.advanced_times(k).wf(),
        g.advanced_times(k).current_cycle == k,
        g.advanced_times(k).members == g.members,
        g.advanced_times(k).id == g.id,
        g.advanced_times(k).contribution_amount == g.contribution_amount,
        g.advanced_times(k).max_members == g.max_members,
        k < g.max_members ==> g.advanced_times(k).status == GroupStatus::Active,
        k == g.max_members ==> g.advanced_times(k).status == GroupStatus::Completed,
    decreases k,
{
    if k > 0 {
        lemma_advanced_times(g, (k - 1) as nat);
        let p = g.advanced_times((k - 1) as nat);
        assert(p.advanced().contributors.len() == 0);
    }
}

/// A fully joined group at cycle zero can close exactly as many cycles as
/// it has seats: each of the first `max_members` closes succeeds, after
/// them the group is at cycle `max_members` and complete, and one more
/// close is refused as already complete.
pub proof fn lemma_full_rotation(g: GroupModel)
    requires
        g.wf(),
        g.status == GroupStatus::Active,
        g.current_cycle == 0,
    ensures
        forall|k: nat| k < g.max_members ==> (#[trigger] g.advanced_times(k)).advance_error() is None,
        g.advanced_times(g.max_members as nat).current_cycle == g.max_members,
        g.advanced_times(g.max_members as nat).is_complete(),
        g.advanced_times(g.max_members as nat).advance_error() == Some(
            StellarSaveError::AlreadyComplete,
        ),
{
    assert forall|k: nat| k < g.max_members implies (#[trigger] g.advanced_times(
        k,
    )).advance_error() is None by {
        lemma_advanced_times(g, k);
    }
    lemma_advanced_times(g, g.max_members as nat);
}

/// In a fully joined group of `m` members, the payout that closes cycle `c`
/// goes to `members[c % m]`, for every cycle `c` below `m`.
pub proof fn lemma_rotation_recipient(g: GroupModel, c: nat)
    requires
        g.wf(),
        g.status == GroupStatus::Active,
        g.current_cycle == 0,
        c < g.max_members,
    ensures
        g.advanced_times(c).advance_error() is None,
        g.advanced_times(c).payout().cycle == c,
        g.advanced_times(c).payout().recipient == g.members[(c as int) % (g.max_members as int)],
{
    lemma_advanced_times(g, c);
}

/// Contributions do not touch the rotation: after one, the same close is
/// possible or refused alike, pays the same recipient the same pool, and
/// leads to the same group.
pub proof fn lemma_contribution_keeps_rotation(g: GroupModel, m: Principal)
    ensures
        g.contributed(m).advance_error() == g.advance_error(),
        g.contributed(m).payout() == g.payout(),
        g.contributed(m).advanced() == g.advanced(),
{
}

/// Once a member's contribution to the current cycle is accepted, a second
/// one by the same member to the same cycle is refused as a duplicate,
/// whatever its amount.
pub proof fn lemma_duplicate_contribution_rejected(g: GroupModel, m: Principal, first: u64, second: u64)
    requires
        g.wf(),
        g.contribute_error(m, first) is None,
    ensures
        g.contributed(m).contribute_error(m, second) == Some(StellarSaveError::DuplicateContribution),
{
    assert(g.contributed(m).contributors.last() == m);
}

} // verus!
