use emu6502::interrupt::{Interrupt, InterruptController, InterruptSpecs, Keyboard};

#[test]
fn keyboard_buffer_round_trip() {
    let mut kb = Keyboard::new();
    assert_eq!(kb.get_out_buf(), 0);
    kb.set_out_buf(b'q');
    assert_eq!(kb.get_out_buf(), b'q');
    assert_eq!(kb.get_interrupt_specs().iqr, 0);
}

#[test]
fn controller_pops_by_priority() {
    let mut c = InterruptController::new();
    c.raise(InterruptSpecs::new(0, 1, "low"));
    c.raise(InterruptSpecs::new(0, 7, "high"));
    c.raise(InterruptSpecs::new(0, 4, "mid"));
    let first = c.pop_highest().unwrap();
    assert_eq!(first.priority, 7);
    assert_eq!(first.name, "high");
    let second = c.pop_highest().unwrap();
    assert_eq!(second.priority, 4);
    let third = c.pop_highest().unwrap();
    assert_eq!(third.priority, 1);
    assert!(c.pop_highest().is_none());
}

#[test]
fn equal_priorities_leave_in_arrival_order() {
    let mut c = InterruptController::new();
    c.raise(InterruptSpecs::new(0, 3, "first"));
    c.raise(InterruptSpecs::new(0, 3, "second"));
    assert_eq!(c.pop_highest().unwrap().name, "first");
    assert_eq!(c.pop_highest().unwrap().name, "second");
}

#[test]
fn device_lookup_by_iqr() {
    let c = InterruptController::new();
    assert!(c.find_device(0).is_some());
    assert!(c.find_device(3).is_none());
}
