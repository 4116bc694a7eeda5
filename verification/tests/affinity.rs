use ticklog::affinity::{core_position, pin_target, pin_thread, PinOutcome};

#[test]
fn empty_slice_is_noop() {
    assert_eq!(pin_thread(&[]), PinOutcome::NoCore);
}

#[test]
fn core_id_stores_index() {
    let id = core_affinity::CoreId { id: 7 };
    assert_eq!(id.id, 7);
}

#[test]
fn current_thread_can_pin_to_known_cores() {
    let ids = core_affinity::get_core_ids().unwrap_or_default();
    assert!(!ids.is_empty(), "expected at least one usable core");
    // The first pin narrows the thread to one core, so later ones may find
    // their core no longer listed; none may be refused by the OS.
    for (k, id) in ids.iter().enumerate() {
        let r = pin_thread(&[id.id]);
        if k == 0 {
            assert_eq!(r, PinOutcome::Pinned(id.id));
        }
        assert!(r != PinOutcome::Refused(id.id));
    }
}

#[test]
fn invalid_core_does_not_panic() {
    assert_eq!(pin_thread(&[usize::MAX]), PinOutcome::NotListed(usize::MAX));
}

#[test]
fn only_the_first_requested_core_is_used() {
    let usable = Some(vec![4usize, 1, 2]);
    assert_eq!(pin_target(&[2, 0], &usable), Ok(2));
    assert_eq!(pin_target(&[4, 0], &usable), Ok(0));
    assert_eq!(pin_target(&[5, 0], &usable), Err(PinOutcome::NotListed(5)));
    assert_eq!(pin_target(&[], &usable), Err(PinOutcome::NoCore));
    assert_eq!(pin_target(&[0], &None), Err(PinOutcome::NotListed(0)));
}

#[test]
fn core_position_finds_the_first_occurrence() {
    assert_eq!(core_position(&[3, 9, 4, 9], 9), Some(1));
    assert_eq!(core_position(&[3, 9, 4], 5), None);
    assert_eq!(core_position(&[], 0), None);
}
