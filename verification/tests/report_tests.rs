use stress_client::delay::{DelayStats, Settings, Source};
use stress_client::report::DelayLine;
use stress_client::ticker::SECOND;

fn books(server_thread_num: Option<usize>) -> DelayStats {
    let mut stats = DelayStats::new(Settings {
        calc_external_delay: true,
        log_all_delay: false,
        server_thread_num,
    });
    stats.measure(Source::Internal, 1, 41);
    stats.count(0, Source::Internal, 40);
    stats.count(1, Source::Internal, 20);
    stats.measure(Source::External, 1, 8);
    stats.count(-1, Source::External, 7);
    stats.count_packet();
    stats.count_packet();
    stats.count_packet();
    stats
}

#[test]
fn a_line_shows_the_sums_and_clears_them() {
    let mut stats = books(None);
    assert_eq!(
        stats.log_delay(10, 10, SECOND),
        Some(DelayLine {
            internal_total: 60,
            internal_count: 2,
            external_total: 7,
            external_count: 1,
            packets: 3,
        })
    );
    assert_eq!(stats.internal_delay, 40);
    assert_eq!(stats.external_delay, 7);
    assert_eq!(
        stats.log_delay(11, 10, 2 * SECOND),
        Some(DelayLine {
            internal_total: 0,
            internal_count: 1,
            external_total: 0,
            external_count: 1,
            packets: 0,
        })
    );
}

#[test]
fn no_line_before_everybody_plays_or_the_second_is_over() {
    let mut stats = books(None);
    assert_eq!(stats.log_delay(9, 10, SECOND), None);
    assert_eq!(stats.log_delay(10, 10, SECOND - 1), None);
    assert_eq!(stats.total_internal_delay_in_1s, 60);
    assert_eq!(stats.total_packet_count_in_1s, 3);
}

#[test]
fn a_thread_has_its_own_line() {
    let mut stats = books(Some(2));
    stats.count(3, Source::Internal, 2);
    assert_eq!(stats.log_delay_per_thread(1, 9, 10, SECOND), None);
    assert_eq!(stats.log_delay_per_thread(1, 10, 10, SECOND), Some((22, 2)));
    assert_eq!(stats.total_internal_delay_per_thread, vec![40, 0]);
    assert_eq!(stats.total_internal_delay_count_per_thread, vec![1, 0]);
    assert_eq!(stats.total_external_delay_in_1s, 0);
    assert_eq!(stats.total_external_delay_count_in_1s, 0);
    assert_eq!(stats.total_packet_count_in_1s, 0);
    assert_eq!(stats.log_delay_per_thread(1, 10, 10, SECOND), Some((0, 1)));
    assert_eq!(stats.log_delay_per_thread(0, 10, 10, SECOND), Some((40, 1)));
}

#[test]
fn the_sums_of_no_thread_outlive_a_threads_line() {
    let mut stats = books(Some(2));
    stats.count(-4, Source::Internal, 5);
    assert_eq!(stats.log_delay_per_thread(0, 10, 10, SECOND), Some((40, 1)));
    assert_eq!(stats.total_internal_delay_in_1s, 5);
    assert_eq!(stats.total_internal_delay_count_in_1s, 1);
}

#[test]
fn single_delays_are_written_once_somebody_plays() {
    let mut stats = books(None);
    assert!(!stats.log_all_delay(0, SECOND));
    assert!(!stats.log_all_delay(1, SECOND - 1));
    assert_eq!(stats.total_internal_delay_in_1s, 60);
    assert!(stats.log_all_delay(1, SECOND));
    assert_eq!(stats.total_internal_delay_in_1s, 0);
    assert_eq!(stats.total_internal_delay_count_in_1s, 0);
    assert_eq!(stats.total_external_delay_in_1s, 0);
    assert_eq!(stats.total_external_delay_count_in_1s, 0);
    assert_eq!(stats.total_packet_count_in_1s, 0);
    assert_eq!(stats.internal_delay, 40);
}

#[test]
fn a_thread_reports_what_came_since_its_last_line() {
    let mut stats = books(Some(2));
    assert_eq!(stats.log_delay_per_thread(1, 10, 10, SECOND), Some((20, 1)));
    stats.count(5, Source::Internal, 33);
    assert_eq!(stats.log_delay_per_thread(1, 10, 10, SECOND), Some((33, 1)));
    assert_eq!(stats.total_internal_delay_per_thread, vec![40, 0]);
}

#[test]
fn a_line_sums_up_all_delays_since_the_last() {
    let mut stats = books(None);
    assert!(stats.log_delay(1, 1, SECOND).is_some());
    for d_ms in [5, 7, 11] {
        stats.measure(Source::Internal, 1, 1 + d_ms);
        stats.count(3, Source::Internal, d_ms as i64);
        stats.count_packet();
    }
    stats.count(-1, Source::External, 4);
    stats.count(-1, Source::External, 6);
    assert_eq!(
        stats.log_delay(1, 1, SECOND),
        Some(DelayLine {
            internal_total: 23,
            internal_count: 3,
            external_total: 10,
            external_count: 2,
            packets: 3,
        })
    );
}
