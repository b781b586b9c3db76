use uifs::dispatch::Presentation;
use uifs::supervisor::{ListenMode, Supervisor};

#[test]
fn consecutive_starts_leave_one_reader_and_cancel_the_rest() {
    let mut sup: Supervisor<u32> = Supervisor::new();
    let mut cancelled = Vec::new();
    for h in 1..=4u32 {
        if let Some(prev) = sup.start(h, ListenMode::Echo) {
            cancelled.push(prev);
        }
    }
    assert!(sup.is_running());
    assert_eq!(cancelled, vec![1, 2, 3]);
    assert_eq!(sup.stop(), Some(4));
    assert!(!sup.is_running());
    assert_eq!(sup.stop(), None);
}

#[test]
fn first_start_cancels_nothing() {
    let mut sup: Supervisor<&str> = Supervisor::new();
    assert_eq!(sup.mode(), None);
    assert_eq!(sup.start("reader", ListenMode::Observe), None);
    assert_eq!(sup.mode(), Some(ListenMode::Observe));
}

#[test]
fn restart_is_needed_only_on_a_change_or_for_parsing() {
    let mut sup: Supervisor<u8> = Supervisor::new();
    assert!(sup.needs_restart(ListenMode::Echo));
    sup.start(0, ListenMode::Echo);
    assert!(!sup.needs_restart(ListenMode::Echo));
    assert!(sup.needs_restart(ListenMode::Observe));
    assert!(sup.needs_restart(ListenMode::Parse(Presentation::Raw)));
    sup.start(1, ListenMode::Parse(Presentation::Raw));
    assert!(sup.needs_restart(ListenMode::Parse(Presentation::Raw)));
    assert!(sup.needs_restart(ListenMode::Echo));
}
