use fress_guest::boundary::{Boundary, Shape};

#[test]
fn a_lent_buffer_is_released_exactly_once() {
    let mut ledger = Boundary::new();
    assert!(ledger.can_admit(0x1000, 16));
    ledger.lend(0x1000, 16, Shape::Bytes);
    assert!(ledger.owns(0x1000, 16));
    assert_eq!(ledger.outstanding(), 1);
    assert_eq!(ledger.release(0x1000, 16), Shape::Bytes);
    assert!(!ledger.owns(0x1000, 16));
    assert_eq!(ledger.outstanding(), 0);
}

#[test]
fn a_release_needs_the_length_that_was_lent() {
    let mut ledger = Boundary::new();
    ledger.lend(0x1000, 16, Shape::Bytes);
    assert!(!ledger.owns(0x1000, 15));
    assert!(!ledger.owns(0x1001, 16));
}

#[test]
fn two_buffers_are_independent() {
    let mut ledger = Boundary::new();
    ledger.lend(0x1000, 16, Shape::Bytes);
    assert!(!ledger.can_admit(0x1000, 16));
    assert!(!ledger.can_admit(0x100F, 1));
    assert!(!ledger.can_admit(0x0FFF, 2));
    assert!(ledger.can_admit(0x1010, 16));
    ledger.lend(0x1010, 16, Shape::Text);
    assert_eq!(ledger.release(0x1000, 16), Shape::Bytes);
    assert!(ledger.owns(0x1010, 16));
    assert_eq!(ledger.release(0x1010, 16), Shape::Text);
}

#[test]
fn an_address_can_be_lent_again_after_its_release() {
    let mut ledger = Boundary::new();
    ledger.lend(0x1000, 16, Shape::Bytes);
    ledger.release(0x1000, 16);
    assert!(ledger.can_admit(0x1000, 8));
    ledger.lend(0x1000, 8, Shape::Bytes);
    assert!(ledger.owns(0x1000, 8));
    assert!(!ledger.owns(0x1000, 16));
}

#[test]
fn an_empty_or_overlong_region_is_not_admitted() {
    let ledger = Boundary::new();
    assert!(!ledger.can_admit(0x1000, 0));
    assert!(!ledger.can_admit(usize::MAX, 1));
    assert!(ledger.can_admit(usize::MAX - 1, 1));
}

#[test]
fn after_a_fault_nothing_is_owned_or_admitted() {
    let mut ledger = Boundary::new();
    ledger.lend(0x1000, 16, Shape::Bytes);
    ledger.fault();
    assert!(ledger.has_faulted());
    assert!(!ledger.owns(0x1000, 16));
    assert!(!ledger.can_admit(0x2000, 16));
    assert_eq!(ledger.outstanding(), 1);
    assert!(ledger.is_sound());
}

#[test]
fn a_buffer_of_the_guest_is_not_the_host_s_until_handed_over() {
    let mut ledger = Boundary::new();
    ledger.create(0x4000, 32, Shape::Text);
    assert!(ledger.keeps(0x4000, 32));
    assert!(!ledger.owns(0x4000, 32));
    assert!(!ledger.can_admit(0x4010, 4));
    ledger.hand_over(0x4000, 32);
    assert!(!ledger.keeps(0x4000, 32));
    assert!(ledger.owns(0x4000, 32));
    assert_eq!(ledger.release(0x4000, 32), Shape::Text);
    assert_eq!(ledger.outstanding(), 0);
}

#[test]
fn evicting_a_region_strikes_what_overlaps_it_and_nothing_else() {
    let mut ledger = Boundary::new();
    ledger.lend(0x1000, 16, Shape::Bytes);
    ledger.lend(0x1010, 16, Shape::Bytes);
    ledger.lend(0x2000, 8, Shape::Text);
    ledger.evict(0x100F, 2);
    assert!(!ledger.owns(0x1000, 16));
    assert!(!ledger.owns(0x1010, 16));
    assert!(ledger.owns(0x2000, 8));
    assert_eq!(ledger.outstanding(), 1);
    assert!(ledger.can_admit(0x1000, 32));
    ledger.evict(0x3000, 0);
    assert_eq!(ledger.outstanding(), 1);
    assert!(ledger.is_sound());
}
