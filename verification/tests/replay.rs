use hushwire::replay::{ReplayWindow, DEFAULT_WINDOW_SIZE};

#[test]
fn accepts_first_new_and_out_of_order_counters_once() {
    let mut window = ReplayWindow::new();
    assert!(window.mark_authenticated(10));
    assert!(window.mark_authenticated(12));
    assert!(window.mark_authenticated(11));
    assert!(!window.mark_authenticated(10));
    assert!(!window.mark_authenticated(11));
    assert!(!window.mark_authenticated(12));
}

#[test]
fn rejects_counters_older_than_the_window() {
    let mut window = ReplayWindow::new();
    assert!(window.mark_authenticated(0));
    assert!(window.mark_authenticated(DEFAULT_WINDOW_SIZE as u64));
    assert!(!window.would_accept(0));
    assert!(!window.mark_authenticated(0));
    assert!(window.mark_authenticated(1));
}

#[test]
fn large_jump_clears_old_history() {
    let mut window = ReplayWindow::new();
    assert!(window.mark_authenticated(20));
    assert!(window.mark_authenticated(10_000));
    assert_eq!(window.highest(), Some(10_000));
    assert!(!window.would_accept(20));
    assert!(window.mark_authenticated(9_999));
}

#[test]
fn unauthenticated_precheck_does_not_advance_window() {
    let mut window = ReplayWindow::new();
    assert!(window.mark_authenticated(50));
    assert!(window.would_accept(u64::MAX));
    assert_eq!(window.highest(), Some(50));
    assert!(window.mark_authenticated(49));
}

#[test]
fn shifts_across_word_and_window_boundaries() {
    let mut window = ReplayWindow::new();
    for counter in [0, 1, 63, 64, 65, 4094, 4095] {
        assert!(window.mark_authenticated(counter));
    }
    assert!(window.mark_authenticated(4096));
    assert!(!window.would_accept(0));
    for counter in [1, 63, 64, 65, 4094, 4095, 4096] {
        assert!(!window.would_accept(counter), "counter {counter}");
    }
}

#[test]
fn an_empty_window_accepts_everything() {
    let window = ReplayWindow::default();
    assert_eq!(window.highest(), None);
    assert!(window.would_accept(0));
    assert!(window.would_accept(u64::MAX));
}

#[test]
fn a_cloned_window_remembers_the_same_counters() {
    let mut window = ReplayWindow::new();
    assert!(window.mark_authenticated(7));
    let mut copy = window.clone();
    assert!(!copy.mark_authenticated(7));
    assert!(copy.mark_authenticated(8));
    assert!(window.would_accept(8));
}

#[test]
fn unseen_counters_inside_the_window_are_all_accepted() {
    let mut window = ReplayWindow::new();
    assert!(window.mark_authenticated(5_000));
    for counter in 905..5_000 {
        assert!(window.mark_authenticated(counter), "counter {counter}");
    }
    assert!(!window.would_accept(904));
    assert_eq!(window.highest(), Some(5_000));
}
