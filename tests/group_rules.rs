use stellar_save::{ContributionRecord, Group, GroupStatus, Principal, StellarSaveError};

fn filled_group(max_members: u32) -> Group {
    let mut g = Group::new(7, Principal(1), 100, 60, max_members, 1_000).unwrap();
    let mut next: u64 = 2;
    while (g.members.len() as u32) < max_members {
        g.join(Principal(next)).unwrap();
        next += 1;
    }
    g
}

#[test]
fn new_group_starts_forming_at_cycle_zero() {
    for (amount, duration, max) in [(1u64, 1u64, 2u32), (10_000_000, 604800, 5), (u64::MAX, u64::MAX, u32::MAX)] {
        let g = Group::new(3, Principal(9), amount, duration, max, 42).unwrap();
        assert_eq!(g.current_cycle, 0);
        assert_eq!(g.status, GroupStatus::Forming);
        assert_eq!(g.members, vec![Principal(9)]);
        assert!(!g.is_complete());
    }
}

#[test]
fn new_group_rejects_invalid_configuration() {
    assert_eq!(Group::new(1, Principal(1), 100, 60, 1, 0).err(), Some(StellarSaveError::InvalidConfiguration));
    assert_eq!(Group::new(1, Principal(1), 100, 60, 0, 0).err(), Some(StellarSaveError::InvalidConfiguration));
    assert_eq!(Group::new(1, Principal(1), 0, 60, 5, 0).err(), Some(StellarSaveError::InvalidConfiguration));
    assert_eq!(Group::new(1, Principal(1), 100, 0, 5, 0).err(), Some(StellarSaveError::InvalidConfiguration));
}

#[test]
fn scenario_five_member_rotation() {
    let mut g = filled_group(5);
    assert_eq!(g.current_cycle, 0);
    assert!(g.advance_cycle().is_ok());
    assert_eq!(g.current_cycle, 1);
    assert!(!g.is_complete());
    for _ in 0..4 {
        assert!(g.advance_cycle().is_ok());
    }
    assert_eq!(g.current_cycle, 5);
    assert!(g.is_complete());
    assert_eq!(g.status, GroupStatus::Completed);
}

#[test]
fn scenario_two_member_boundary() {
    let mut g = filled_group(2);
    assert!(g.advance_cycle().is_ok());
    assert!(g.advance_cycle().is_ok());
    assert_eq!(g.current_cycle, 2);
    assert!(g.is_complete());
    assert_eq!(g.advance_cycle(), Err(StellarSaveError::AlreadyComplete));
    assert_eq!(g.current_cycle, 2);
}

#[test]
fn closing_takes_exactly_max_members_cycles() {
    for m in 2u32..7 {
        let mut g = filled_group(m);
        for _ in 0..m {
            assert!(g.advance_cycle().is_ok());
        }
        assert_eq!(g.current_cycle, m);
        assert!(g.is_complete());
        assert_eq!(g.advance_cycle(), Err(StellarSaveError::AlreadyComplete));
    }
}

#[test]
fn recipients_follow_join_order() {
    let mut g = filled_group(4);
    let members = g.members.clone();
    for c in 0..4usize {
        // contributions in between do not disturb the rotation
        g.record_contribution(members[(c + 1) % 4], 100, 5).unwrap();
        let p = g.advance_cycle().unwrap();
        assert_eq!(p.cycle, c as u32);
        assert_eq!(p.recipient, members[c % 4]);
        assert_eq!(p.group_id, 7);
    }
}

#[test]
fn payout_is_whole_pool_at_cycle_end() {
    let mut g = filled_group(3);
    let p = g.advance_cycle().unwrap();
    assert_eq!(p.amount, 300);
    assert_eq!(p.timestamp, 1_060);
    let p = g.advance_cycle().unwrap();
    assert_eq!(p.timestamp, 1_120);

    let mut big = Group::new(1, Principal(1), u64::MAX, u64::MAX, 2, u64::MAX).unwrap();
    big.join(Principal(2)).unwrap();
    let p = big.advance_cycle().unwrap();
    assert_eq!(p.amount, 2 * (u64::MAX as u128));
    assert_eq!(p.timestamp, u64::MAX);
}

#[test]
fn closing_a_forming_group_is_refused() {
    let mut g = Group::new(1, Principal(1), 100, 60, 3, 0).unwrap();
    assert_eq!(g.advance_cycle(), Err(StellarSaveError::InvalidStatus));
    assert_eq!(g.current_cycle, 0);
}

#[test]
fn join_fills_and_activates() {
    let mut g = Group::new(1, Principal(1), 100, 60, 3, 0).unwrap();
    assert_eq!(g.join(Principal(1)), Err(StellarSaveError::AlreadyMember));
    g.join(Principal(2)).unwrap();
    assert_eq!(g.status, GroupStatus::Forming);
    g.join(Principal(3)).unwrap();
    assert_eq!(g.status, GroupStatus::Active);
    assert_eq!(g.members, vec![Principal(1), Principal(2), Principal(3)]);
    assert_eq!(g.join(Principal(4)), Err(StellarSaveError::GroupFull));
    assert_eq!(g.join(Principal(2)), Err(StellarSaveError::AlreadyMember));
}

#[test]
fn join_after_cancel_is_refused() {
    let mut g = Group::new(1, Principal(1), 100, 60, 3, 0).unwrap();
    assert_eq!(g.cancel(Principal(2)), Err(StellarSaveError::Unauthorized));
    g.cancel(Principal(1)).unwrap();
    assert_eq!(g.status, GroupStatus::Cancelled);
    assert_eq!(g.join(Principal(2)), Err(StellarSaveError::InvalidStatus));
    assert_eq!(g.cancel(Principal(1)), Err(StellarSaveError::InvalidStatus));
}

#[test]
fn contribution_rules() {
    let mut forming = Group::new(1, Principal(1), 100, 60, 3, 0).unwrap();
    assert_eq!(forming.record_contribution(Principal(1), 100, 5), Err(StellarSaveError::InvalidStatus));

    let mut g = filled_group(3);
    assert_eq!(g.record_contribution(Principal(50), 100, 5), Err(StellarSaveError::NotMember));
    assert_eq!(g.record_contribution(Principal(2), 99, 5), Err(StellarSaveError::WrongAmount));
    assert!(g.contributors.is_empty());
    let rec = g.record_contribution(Principal(2), 100, 5).unwrap();
    assert_eq!(
        rec,
        ContributionRecord { group_id: 7, cycle: 0, member: Principal(2), amount: 100, timestamp: 5, paid: true }
    );
    assert_eq!(g.record_contribution(Principal(2), 100, 6), Err(StellarSaveError::DuplicateContribution));
    assert_eq!(g.record_contribution(Principal(2), 1, 6), Err(StellarSaveError::DuplicateContribution));
    assert!(!g.contributions_complete());
    g.record_contribution(Principal(1), 100, 7).unwrap();
    g.record_contribution(Principal(3), 100, 8).unwrap();
    assert!(g.contributions_complete());
    g.advance_cycle().unwrap();
    assert!(!g.contributions_complete());
    assert!(g.record_contribution(Principal(2), 100, 9).is_ok());
}
