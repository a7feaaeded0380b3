use pikpak::limiter::SpeedLimiter;

#[test]
fn test_unlimited_never_suspends() {
    // With the limit unset, receive_len books the bytes but never asks
    // for a wait.
    let mut lim = SpeedLimiter::new(None, 0);
    for _ in 0..100 {
        assert_eq!(lim.receive_len(1_000_000, 0), None);
    }
    assert_eq!(lim.consumed, 100_000_000);

    let mut lim = SpeedLimiter::new(Some(0), 5);
    assert_eq!(lim.receive_len(123, 5), None);
}

#[test]
fn test_under_budget_returns_at_once() {
    let mut lim = SpeedLimiter::new(Some(10), 0);
    assert_eq!(lim.receive_len(4, 0), None);
    assert_eq!(lim.receive_len(5, 0), None);
    assert_eq!(lim.consumed, 9);
    // The byte that reaches the budget waits the window out.
    assert_eq!(lim.receive_len(1, 0), Some(1000));
    assert_eq!(lim.consumed, 0);
    assert_eq!(lim.window_start_ms, 1000);
}

#[test]
fn test_burst_throttled_one_window_per_budget() {
    // A burst of 3 * 10 bytes in 10-byte buffers: every buffer fills
    // the window exactly, so each call waits one full window — well
    // past the two-window lower bound for a three-budget burst.
    let mut lim = SpeedLimiter::new(Some(10), 0);
    assert_eq!(lim.receive_len(10, 0), Some(1000));
    assert_eq!(lim.consumed, 0);
    assert_eq!(lim.window_start_ms, 1000);

    assert_eq!(lim.receive_len(10, 1000), Some(2000));
    assert_eq!(lim.receive_len(10, 2000), Some(3000));
    assert_eq!(lim.consumed, 0);
}

#[test]
fn test_no_sleep_when_window_already_elapsed() {
    let mut lim = SpeedLimiter::new(Some(10), 0);
    assert_eq!(lim.receive_len(10, 0), Some(1000));
    // The next budget-filling call comes five seconds later: the
    // window has long elapsed, so the wake time is now — no sleep.
    assert_eq!(lim.receive_len(10, 5000), Some(5000));
    assert_eq!(lim.window_start_ms, 5000);
}

#[test]
fn test_overshoot_carries_as_debt() {
    // One oversized buffer books far past the budget; the reset
    // subtracts only the budget, keeping the overshoot against the
    // following windows.
    let mut lim = SpeedLimiter::new(Some(5), 0);
    assert_eq!(lim.receive_len(20, 0), Some(1000));
    assert_eq!(lim.consumed, 15);
    assert_eq!(lim.receive_len(1, 1000), Some(2000));
    assert_eq!(lim.consumed, 11);
}

#[test]
fn test_change_resets_window() {
    let mut lim = SpeedLimiter::new(Some(5), 0);
    assert_eq!(lim.receive_len(20, 0), Some(1000));
    lim.change(Some(50), 1700);
    assert_eq!(lim.limit, 50);
    assert_eq!(lim.consumed, 0);
    assert_eq!(lim.window_start_ms, 1700);
    assert_eq!(lim.receive_len(49, 1700), None);

    lim.change(None, 1800);
    assert_eq!(lim.limit, 0);
}
