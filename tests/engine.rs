use stellar_save::GroupStatus::{Active, Cancelled, Completed, Forming};
use stellar_save::{
    ErrorCategory, EventKind, GroupStatus, Principal, StellarSaveContract, StellarSaveError, StorageKey,
    StorageKeyBuilder,
};

fn engine_with_active_group(max_members: u32) -> (StellarSaveContract, u64) {
    let mut e = StellarSaveContract::new();
    let id = e.create_group(Principal(1), 10_000_000, 604800, max_members, 1234567890).unwrap();
    for k in 2..=(max_members as u64) {
        e.join_group(id, Principal(k)).unwrap();
    }
    (e, id)
}

#[test]
fn groups_advance_independently() {
    let (mut e, g1) = engine_with_active_group(5);
    let g2 = e.create_group(Principal(20), 10_000_000, 604800, 5, 1234567890).unwrap();
    assert_ne!(g1, g2);
    for k in 21..25u64 {
        e.join_group(g2, Principal(k)).unwrap();
    }
    e.advance_cycle(g1).unwrap();
    e.advance_cycle(g1).unwrap();
    e.advance_cycle(g2).unwrap();
    assert_eq!(e.get_current_cycle(g1), Ok(2));
    assert_eq!(e.get_current_cycle(g2), Ok(1));
    assert_eq!(e.get_payout(g1, 1).unwrap().group_id, g1);
    assert_eq!(e.get_payout(g2, 1), Err(StellarSaveError::PayoutNotFound));
    assert_ne!(StorageKeyBuilder::payout(g1, 0), StorageKeyBuilder::payout(g2, 0));
}

#[test]
fn duplicate_contribution_keeps_first_record() {
    let (mut e, id) = engine_with_active_group(3);
    let first = e.contribute(id, Principal(2), 10_000_000, 111).unwrap();
    let events = e.emitter.events.len();
    assert_eq!(e.contribute(id, Principal(2), 10_000_000, 222), Err(StellarSaveError::DuplicateContribution));
    assert_eq!(e.emitter.events.len(), events);
    assert_eq!(e.contributions.len(), 1);
    let stored = e.get_contribution(id, 0, Principal(2)).unwrap();
    assert_eq!(stored, first);
    assert_eq!(stored.amount, 10_000_000);
    assert_eq!(stored.timestamp, 111);
}

#[test]
fn wrong_amount_leaves_no_record() {
    let (mut e, id) = engine_with_active_group(3);
    assert_eq!(e.contribute(id, Principal(2), 5, 111), Err(StellarSaveError::WrongAmount));
    assert!(e.contributions.is_empty());
    assert_eq!(e.get_contribution(id, 0, Principal(2)), Err(StellarSaveError::ContributionNotFound));
}

#[test]
fn unknown_group_is_not_found() {
    let mut e = StellarSaveContract::new();
    assert_eq!(e.get_current_cycle(9), Err(StellarSaveError::GroupNotFound));
    assert_eq!(e.get_group_status(9), Err(StellarSaveError::GroupNotFound));
    assert_eq!(e.join_group(9, Principal(1)), Err(StellarSaveError::GroupNotFound));
    assert_eq!(e.contribute(9, Principal(1), 1, 1), Err(StellarSaveError::GroupNotFound));
    assert_eq!(e.advance_cycle(9), Err(StellarSaveError::GroupNotFound));
    assert_eq!(e.cancel_group(9, Principal(1)), Err(StellarSaveError::GroupNotFound));
    assert_eq!(e.contributions_complete_for_cycle(9, 0), Err(StellarSaveError::GroupNotFound));
    assert!(e.emitter.events.is_empty());
}

#[test]
fn create_rejects_bad_configuration() {
    let mut e = StellarSaveContract::new();
    assert_eq!(e.create_group(Principal(1), 0, 60, 3, 0), Err(StellarSaveError::InvalidConfiguration));
    assert!(e.groups.is_empty());
    assert_eq!(e.create_group(Principal(1), 1, 60, 3, 0), Ok(0));
    assert_eq!(e.create_group(Principal(1), 1, 60, 3, 0), Ok(1));
}

#[test]
fn one_event_per_change() {
    let (mut e, id) = engine_with_active_group(2);
    let kinds: Vec<EventKind> = e.emitter.events.iter().map(|ev| ev.kind).collect();
    assert_eq!(kinds, vec![EventKind::GroupCreated, EventKind::GroupActivated]);
    e.contribute(id, Principal(1), 10_000_000, 5).unwrap();
    e.advance_cycle(id).unwrap();
    e.advance_cycle(id).unwrap();
    assert_eq!(e.advance_cycle(id), Err(StellarSaveError::AlreadyComplete));
    let kinds: Vec<EventKind> = e.emitter.events.iter().map(|ev| ev.kind).collect();
    assert_eq!(
        kinds,
        vec![
            EventKind::GroupCreated,
            EventKind::GroupActivated,
            EventKind::ContributionRecorded,
            EventKind::CycleAdvanced,
            EventKind::GroupCompleted,
        ]
    );
    assert_eq!(e.get_group_status(id), Ok(GroupStatus::Completed));
    let last = e.emitter.events[4];
    assert_eq!(last.member, Some(Principal(2)));
    assert_eq!(last.amount, 20_000_000);
}

#[test]
fn member_joined_event_before_full() {
    let mut e = StellarSaveContract::new();
    let id = e.create_group(Principal(1), 5, 60, 3, 0).unwrap();
    e.join_group(id, Principal(2)).unwrap();
    assert_eq!(e.emitter.events[1].kind, EventKind::MemberJoined);
    assert_eq!(e.join_group(id, Principal(2)), Err(StellarSaveError::AlreadyMember));
    assert_eq!(e.emitter.events.len(), 2);
    assert_eq!(e.cancel_group(id, Principal(2)), Err(StellarSaveError::Unauthorized));
    e.cancel_group(id, Principal(1)).unwrap();
    assert_eq!(e.emitter.events[2].kind, EventKind::GroupCancelled);
    assert_eq!(e.get_group_status(id), Ok(GroupStatus::Cancelled));
}

#[test]
fn completeness_of_contributions() {
    let (mut e, id) = engine_with_active_group(2);
    assert_eq!(e.contributions_complete_for_cycle(id, 0), Ok(false));
    e.contribute(id, Principal(1), 10_000_000, 5).unwrap();
    assert_eq!(e.contributions_complete_for_cycle(id, 0), Ok(false));
    e.contribute(id, Principal(2), 10_000_000, 6).unwrap();
    assert_eq!(e.contributions_complete_for_cycle(id, 0), Ok(true));
    assert_eq!(e.contributions_complete_for_cycle(id, 1), Ok(false));
}

#[test]
fn payout_ledger_records_rotation() {
    let (mut e, id) = engine_with_active_group(3);
    for _ in 0..3 {
        e.advance_cycle(id).unwrap();
    }
    for c in 0..3u32 {
        let p = e.get_payout(id, c).unwrap();
        assert_eq!(p.recipient, Principal(c as u64 + 1));
        assert_eq!(p.amount, 30_000_000);
    }
}

#[test]
fn error_categories() {
    assert_eq!(StellarSaveError::GroupNotFound.category(), ErrorCategory::NotFound);
    assert_eq!(StellarSaveError::PayoutNotFound.category(), ErrorCategory::NotFound);
    assert_eq!(StellarSaveError::WrongAmount.category(), ErrorCategory::Validation);
    assert_eq!(StellarSaveError::InvalidConfiguration.category(), ErrorCategory::Validation);
    assert_eq!(StellarSaveError::DuplicateContribution.category(), ErrorCategory::StateConflict);
    assert_eq!(StellarSaveError::AlreadyComplete.category(), ErrorCategory::StateConflict);
    assert_eq!(StellarSaveError::Unauthorized.category(), ErrorCategory::Authorization);
}

#[test]
fn storage_keys_are_distinct() {
    assert_eq!(StorageKeyBuilder::group_data(4), StorageKey::GroupData(4));
    assert_ne!(StorageKeyBuilder::group_data(4), StorageKeyBuilder::group_data(5));
    assert_ne!(StorageKeyBuilder::payout(4, 0), StorageKeyBuilder::payout(4, 1));
    assert_eq!(StorageKeyBuilder::contribution(4, 1, Principal(2)), StorageKey::Contribution(4, 1, Principal(2)));
    assert_ne!(StorageKeyBuilder::contribution(4, 1, Principal(2)), StorageKeyBuilder::contribution(4, 1, Principal(3)));
}

#[test]
fn status_edges() {
    let all = [Forming, Active, Completed, Cancelled];
    for from in all {
        for to in all {
            let expected = matches!(
                (from, to),
                (Forming, Active) | (Forming, Cancelled) | (Active, Cancelled) | (Active, Completed)
            );
            assert_eq!(GroupStatus::can_transition(from, to), expected);
            let mut s = from;
            let r = s.transition(to);
            if expected {
                assert_eq!(r, Ok(()));
                assert_eq!(s, to);
            } else {
                assert_eq!(r, Err(stellar_save::StatusError::InvalidTransition));
                assert_eq!(s, from);
            }
        }
    }
    for to in all {
        assert!(!GroupStatus::can_transition(Completed, to));
        assert!(!GroupStatus::can_transition(Cancelled, to));
    }
    assert!(Completed.is_terminal());
    assert!(!Active.is_terminal());
}
