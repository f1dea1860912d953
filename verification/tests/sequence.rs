use cmppprotocol::connection::sequence::{SequenceRegistry, MAX_RETIRED_SEQUENCE_IDS};

#[test]
fn ids_are_handed_out_in_order() {
    let mut registry = SequenceRegistry::new(2);
    assert_eq!(registry.reserve_next().unwrap().id(), 2);
    assert_eq!(registry.reserve_next().unwrap().id(), 3);
    let mut from_zero = SequenceRegistry::new(0);
    assert_eq!(from_zero.reserve_next().unwrap().id(), 1);
}

#[test]
fn an_id_in_order_does_not_come_back() {
    let mut registry = SequenceRegistry::new(2);
    let lease = registry.reserve_next().unwrap();
    assert!(registry.owns(&lease));
    lease.give_up(&mut registry);
    assert_eq!(registry.reserve_next().unwrap().id(), 3);
    assert!(registry.reserve_batch(2, 1).is_none());
}

#[test]
fn a_run_of_ids_can_be_named() {
    let mut registry = SequenceRegistry::new(2);
    let leases = registry.reserve_batch(u32::MAX, 3).unwrap();
    let ids: Vec<u32> = leases.iter().map(|l| l.id()).collect();
    assert_eq!(ids, vec![u32::MAX, 0, 1]);
    assert!(leases.iter().all(|l| l.is_manual()));
    assert!(registry.reserve_batch(0, 1).is_none());
    assert!(registry.reserve_batch(5, 256).is_none());
    assert_eq!(registry.reserve_batch(5, 255).unwrap().len(), 255);
}

#[test]
fn a_named_id_that_is_given_up_can_be_named_again() {
    let mut registry = SequenceRegistry::new(2);
    for lease in registry.reserve_batch(100, 2).unwrap() {
        lease.give_up(&mut registry);
    }
    assert_eq!(registry.reserve_batch(100, 2).unwrap().len(), 2);
}

#[test]
fn a_retired_id_is_skipped_and_never_named_again() {
    let mut registry = SequenceRegistry::new(2);
    let mut leases = registry.reserve_batch(3, 2).unwrap();
    let held = leases.pop().unwrap();
    let mut retired = leases.pop().unwrap();
    assert!(retired.retire(&mut registry));
    retired.give_up(&mut registry);
    assert!(registry.reserve_batch(3, 1).is_none());
    assert_eq!(registry.reserve_next().unwrap().id(), 2);
    assert_eq!(held.id(), 4);
    assert_eq!(registry.reserve_next().unwrap().id(), 5);
}

#[test]
fn ids_run_out() {
    let mut registry = SequenceRegistry::new(u32::MAX);
    assert_eq!(registry.reserve_next().unwrap().id(), u32::MAX);
    assert!(registry.reserve_next().is_none());
    assert!(registry.reserve_next().is_none());
}

#[test]
fn only_so_many_ids_can_be_retired() {
    let mut registry = SequenceRegistry::new(1);
    let base = 1_000_000u32;
    for i in 0..MAX_RETIRED_SEQUENCE_IDS as u32 {
        let mut leases = registry.reserve_batch(base + i, 1).unwrap();
        let mut lease = leases.pop().unwrap();
        assert!(lease.retire(&mut registry));
    }
    let mut leases = registry.reserve_batch(7, 1).unwrap();
    let mut lease = leases.pop().unwrap();
    assert!(!lease.retire(&mut registry));
    assert!(registry.reserve_batch(7, 1).is_none());
}
