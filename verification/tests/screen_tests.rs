use stress_client::screen::{is_quit, shown_errors};

#[test]
fn the_latest_errors_are_shown_first() {
    assert!(shown_errors(0).is_empty());
    assert_eq!(shown_errors(3), vec![2, 1, 0]);
    assert_eq!(shown_errors(10), vec![9, 8, 7, 6, 5, 4, 3, 2, 1, 0]);
    assert_eq!(shown_errors(25), vec![24, 23, 22, 21, 20, 19, 18, 17, 16, 15]);
}

#[test]
fn q_and_control_c_end_the_program() {
    assert!(is_quit('q', false));
    assert!(is_quit('q', true));
    assert!(is_quit('c', true));
    assert!(!is_quit('c', false));
    assert!(!is_quit('x', true));
}
