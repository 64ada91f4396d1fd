use stress_client::session::{after_read, after_write, pauses, Step};

#[test]
fn a_failed_write_is_the_last() {
    assert_eq!(after_write(true, true), Step { report: false, go_on: true });
    assert_eq!(after_write(true, false), Step { report: false, go_on: false });
    assert_eq!(after_write(false, true), Step { report: true, go_on: false });
    assert_eq!(after_write(false, false), Step { report: true, go_on: false });
}

#[test]
fn a_failed_read_is_reported_and_passed_over() {
    assert_eq!(after_read(true, true), Step { report: false, go_on: true });
    assert_eq!(after_read(true, false), Step { report: false, go_on: false });
    assert_eq!(after_read(false, true), Step { report: true, go_on: true });
    assert_eq!(after_read(false, false), Step { report: true, go_on: false });
}

#[test]
fn only_moves_that_were_written_are_followed_by_a_pause() {
    assert!(pauses(true, true));
    assert!(!pauses(true, false));
    assert!(!pauses(false, true));
    assert!(!pauses(false, false));
}
