use stellar_save::{Group, Principal, StellarSaveError};

/// Creates a group and joins members until its seats are full, which makes
/// it active so that its cycles can be closed.
fn filled(id: u64, creator: Principal, max_members: u32) -> Group {
    let mut group = Group::new(id, creator, 10_000_000, 604800, max_members, 1234567890).unwrap();
    let mut next: u64 = 1000;
    while (group.members.len() as u32) < max_members {
        group.join(Principal(next)).unwrap();
        next += 1;
    }
    group
}

#[test]
fn test_get_current_cycle_returns_correct_value() {
    let creator = Principal(1);
    let group = Group::new(1, creator, 10_000_000, 604800, 5, 1234567890).unwrap();
    assert_eq!(group.current_cycle, 0);
}

#[test]
fn test_get_current_cycle_after_advance() {
    let mut group = filled(1, Principal(1), 5);
    let _ = group.advance_cycle();
    assert_eq!(group.current_cycle, 1);
}

#[test]
fn test_get_current_cycle_multiple_advances() {
    let mut group = filled(1, Principal(1), 5);
    let _ = group.advance_cycle();
    let _ = group.advance_cycle();
    let _ = group.advance_cycle();
    assert_eq!(group.current_cycle, 3);
}

#[test]
fn test_get_current_cycle_at_completion() {
    let mut group = filled(1, Principal(1), 3);
    let _ = group.advance_cycle();
    let _ = group.advance_cycle();
    let _ = group.advance_cycle();
    assert_eq!(group.current_cycle, 3);
    assert!(group.is_complete());
}

#[test]
fn test_get_current_cycle_multiple_groups_independent() {
    let mut group1 = filled(1, Principal(1), 5);
    let mut group2 = filled(2, Principal(2), 5);
    let _ = group1.advance_cycle();
    let _ = group1.advance_cycle();
    let _ = group2.advance_cycle();
    assert_eq!(group1.current_cycle, 2);
    assert_eq!(group2.current_cycle, 1);
}

#[test]
fn test_get_current_cycle_large_group_id() {
    let large_id = u64::MAX - 1;
    let group = Group::new(large_id, Principal(1), 10_000_000, 604800, 5, 1234567890).unwrap();
    assert_eq!(group.current_cycle, 0);
}

#[test]
fn test_get_current_cycle_zero_group_id() {
    let group = Group::new(0, Principal(1), 10_000_000, 604800, 5, 1234567890).unwrap();
    assert_eq!(group.current_cycle, 0);
}

#[test]
fn test_get_current_cycle_error_handling() {
    let error = StellarSaveError::GroupNotFound;
    assert_eq!(error, StellarSaveError::GroupNotFound);
}

#[test]
fn test_get_current_cycle_boundary_values() {
    let creator = Principal(1);
    let mut group = Group::new(1, creator, 10_000_000, 604800, 2, 1234567890).unwrap();
    assert_eq!(group.current_cycle, 0);
    group.join(Principal(2)).unwrap();

    let _ = group.advance_cycle();
    assert_eq!(group.current_cycle, 1);

    let _ = group.advance_cycle();
    assert_eq!(group.current_cycle, 2);
    assert!(group.is_complete());
}
