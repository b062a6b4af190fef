use vstd::prelude::*;
use crate::principal::Principal;

verus! {

/// Address of one persisted record. The variant tags the kind of entity, so
/// keys of different kinds never coincide.
#[derive(Clone, Copy, Debug, PartialEq, Eq, Structural)]
pub enum StorageKey {
    GroupData(u64),
    Contribution(u64, u32, Principal),
    Payout(u64, u32),
}

/// Builds the key of each kind of record.
pub struct StorageKeyBuilder;

impl StorageKeyBuilder {
    pub fn group_data(group_id: u64) -> (r: StorageKey)
        ensures
            r == StorageKey::GroupData(group_id),
    {
        StorageKey::GroupData(group_id)
    }

    pub fn contribution(group_id: u64, cycle: u32, member: Principal) -> (r: StorageKey)
        ensures
            r == StorageKey::Contribution(group_id, cycle, member),
    {
        StorageKey::Contribution(group_id, cycle, member)
    }

    pub fn payout(group_id: u64, cycle: u32) -> (r: StorageKey)
        ensures
            r == StorageKey::Payout(group_id, cycle),
    {
        StorageKey::Payout(group_id, cycle)
    }
}

/// Distinct entities get distinct keys: two keys are equal only when they
/// are of the same kind and built from the same arguments.
pub proof fn lemma_keys_collision_free(
    g1: u64,
    g2: u64,
    c1: u32,
    c2: u32,
    m1: Principal,
    m2: Principal,
)
    ensures
        (StorageKey::GroupData(g1) == StorageKey::GroupData(g2)) == (g1 == g2),
        (StorageKey::Payout(g1, c1) == StorageKey::Payout(g2, c2)) == (g1 == g2 && c1 == c2),
        (StorageKey::Contribution(g1, c1, m1) == StorageKey::Contribution(g2, c2, m2)) == (g1
            == g2 && c1 == c2 && m1 == m2),
        StorageKey::GroupData(g1) != StorageKey::Payout(g2, c2),
        StorageKey::GroupData(g1) != StorageKey::Contribution(g2, c2, m2),
        StorageKey::Payout(g1, c1) != StorageKey::Contribution(g2, c2, m2),
{
}

} // verus!
