use stress_client::ticker::{poll_time, Ticker, SECOND, TICK_RATE};

#[test]
fn a_wait_lasts_up_to_the_tick() {
    assert_eq!(poll_time(0), Some(16_000_000));
    assert_eq!(poll_time(TICK_RATE), Some(0));
    assert_eq!(poll_time(TICK_RATE + 1), None);
    assert_eq!(poll_time(1_000_000), Some(15_000_000));
}

#[test]
fn a_tick_comes_after_its_time() {
    let mut ticker = Ticker::new();
    assert_eq!(ticker.tick(true, TICK_RATE), None);
    assert_eq!(ticker.tick(true, TICK_RATE + 1), Some(TICK_RATE + 1));
    assert_eq!(ticker.tick(false, 5), Some(TICK_RATE + 6));
    assert_eq!(ticker.elapsed_time_up_to_1s, TICK_RATE + 6);
}

#[test]
fn seconds_add_up_over_many_ticks() {
    let mut ticker = Ticker::new();
    let mut passed = 0u128;
    let mut full = 0u128;
    for _ in 0..1000 {
        passed += 17_000_001;
        let elapsed = ticker.tick(true, 17_000_001).unwrap();
        if elapsed >= SECOND {
            full += 1;
        }
        ticker.end_round();
        assert!(ticker.elapsed_time_up_to_1s < SECOND);
        assert_eq!(passed, full * SECOND + ticker.elapsed_time_up_to_1s);
    }
    assert_eq!(full, 17);
}

#[test]
fn late_seconds_are_made_up_one_by_one() {
    let mut ticker = Ticker::new();
    assert_eq!(ticker.tick(false, 3 * SECOND + 5), Some(3 * SECOND + 5));
    ticker.end_round();
    assert_eq!(ticker.elapsed_time_up_to_1s, 2 * SECOND + 5);
    ticker.end_round();
    ticker.end_round();
    assert_eq!(ticker.elapsed_time_up_to_1s, 5);
    ticker.end_round();
    assert_eq!(ticker.elapsed_time_up_to_1s, 5);
}

#[test]
fn ticks_are_more_than_the_rate_apart() {
    for before in [0, TICK_RATE - 1, TICK_RATE, TICK_RATE + 1, SECOND] {
        for later in [0, 1, TICK_RATE] {
            let mut ticker = Ticker::new();
            let waited = poll_time(before).is_some();
            if let Some(elapsed) = ticker.tick(waited, before + later) {
                assert!(elapsed > TICK_RATE);
            }
        }
    }
}
