use std::sync::mpsc::channel;
use std::time::UNIX_EPOCH;
use stress_client::delay::{stamp, DelaySender, DelayStats, Settings, Source};
use stress_client::error::ClientError;

fn settings(log_all_delay: bool, server_thread_num: Option<usize>) -> Settings {
    Settings { calc_external_delay: false, log_all_delay, server_thread_num }
}

fn now() -> u32 {
    stamp(UNIX_EPOCH.elapsed().unwrap().as_millis())
}

#[test]
fn a_stamp_is_the_low_half_of_the_time() {
    assert_eq!(stamp(0), 0);
    assert_eq!(stamp(0xffff_ffff), 0xffff_ffff);
    assert_eq!(stamp(0x1_0000_0000), 0);
    assert_eq!(stamp(1_600_000_000_000), 2_272_165_888);
}

#[test]
fn new_books_are_empty() {
    let stats = DelayStats::new(settings(false, Some(3)));
    assert_eq!(stats.internal_delay, 0);
    assert_eq!(stats.external_delay, 0);
    assert_eq!(stats.total_internal_delay_in_1s, 0);
    assert_eq!(stats.total_internal_delay_count_in_1s, 0);
    assert_eq!(stats.total_external_delay_in_1s, 0);
    assert_eq!(stats.total_external_delay_count_in_1s, 0);
    assert_eq!(stats.total_packet_count_in_1s, 0);
    assert_eq!(stats.total_internal_delay_per_thread, vec![0, 0, 0]);
    assert_eq!(stats.total_internal_delay_count_per_thread, vec![0, 0, 0]);
    let plain = DelayStats::new(settings(false, None));
    assert!(plain.total_internal_delay_per_thread.is_empty());
    assert!(plain.total_internal_delay_count_per_thread.is_empty());
}

#[test]
fn a_delay_is_the_time_since_the_move() {
    let mut stats = DelayStats::new(settings(false, None));
    assert_eq!(stats.measure(Source::Internal, 100, 150), Some(50));
    assert_eq!(stats.internal_delay, 50);
    assert_eq!(stats.measure(Source::Internal, 100, 130), Some(30));
    assert_eq!(stats.internal_delay, 30);
    assert_eq!(stats.measure(Source::Internal, 100, 130), Some(30));
    assert_eq!(stats.measure(Source::External, 0, u32::MAX), Some(u32::MAX as i64));
    assert_eq!(stats.external_delay, u32::MAX as i64);
    assert_eq!(stats.internal_delay, 30);
}

#[test]
fn a_move_from_the_future_is_passed_over() {
    let mut stats = DelayStats::new(settings(false, None));
    stats.measure(Source::Internal, 1, 11);
    assert_eq!(stats.measure(Source::Internal, 12, 11), None);
    assert_eq!(stats.internal_delay, 10);
    assert_eq!(stats.measure(Source::Internal, 11, 11), Some(0));
    assert_eq!(stats.internal_delay, 0);
}

#[test]
fn delays_add_up_by_source() {
    let mut stats = DelayStats::new(settings(false, None));
    stats.count(7, Source::Internal, 10);
    stats.count(8, Source::Internal, 5);
    stats.count(-1, Source::External, 3);
    assert_eq!(stats.total_internal_delay_in_1s, 15);
    assert_eq!(stats.total_internal_delay_count_in_1s, 2);
    assert_eq!(stats.total_external_delay_in_1s, 3);
    assert_eq!(stats.total_external_delay_count_in_1s, 1);
}

#[test]
fn delays_add_up_by_thread() {
    let mut stats = DelayStats::new(settings(false, Some(4)));
    stats.count(6, Source::Internal, 10);
    stats.count(2, Source::Internal, 1);
    stats.count(3, Source::Internal, 4);
    assert_eq!(stats.total_internal_delay_per_thread, vec![0, 0, 11, 4]);
    assert_eq!(stats.total_internal_delay_count_per_thread, vec![0, 0, 2, 1]);
    assert_eq!(stats.total_internal_delay_in_1s, 0);
    stats.count(-1, Source::External, 9);
    stats.count(-5, Source::Internal, 8);
    assert_eq!(stats.total_external_delay_in_1s, 9);
    assert_eq!(stats.total_internal_delay_in_1s, 8);
    assert_eq!(stats.total_internal_delay_per_thread, vec![0, 0, 11, 4]);
}

#[test]
fn sums_wrap_around() {
    let mut stats = DelayStats::new(settings(false, None));
    stats.total_internal_delay_in_1s = i64::MAX;
    stats.total_internal_delay_count_in_1s = i64::MAX;
    stats.total_packet_count_in_1s = i64::MAX;
    stats.count(0, Source::Internal, 2);
    stats.count_packet();
    assert_eq!(stats.total_internal_delay_in_1s, i64::MIN + 1);
    assert_eq!(stats.total_internal_delay_count_in_1s, i64::MIN);
    assert_eq!(stats.total_packet_count_in_1s, i64::MIN);
}

#[test]
fn a_delay_that_the_log_refuses_is_not_added_up() {
    let mut stats = DelayStats::new(settings(true, None));
    assert_eq!(
        stats.settle(1, Source::Internal, 40, false),
        Err(ClientError::DelayLogClosed)
    );
    assert_eq!(stats.total_internal_delay_count_in_1s, 0);
    assert_eq!(stats.settle(1, Source::Internal, 40, true), Ok(()));
    assert_eq!(stats.total_internal_delay_count_in_1s, 1);
    let mut silent = DelayStats::new(settings(false, None));
    assert_eq!(silent.settle(1, Source::Internal, 40, false), Ok(()));
    assert_eq!(silent.total_internal_delay_in_1s, 40);
}

#[test]
fn a_delay_is_measured_by_the_clock() {
    let (send, _recv) = channel();
    let mut sender = DelaySender::new(send);
    let mut stats = DelayStats::new(settings(false, None));
    let moved = now().wrapping_sub(5000);
    assert_eq!(stats.adjust_delay(1, Source::Internal, moved, &mut sender), Ok(()));
    assert!(stats.internal_delay >= 5000);
    assert!(stats.internal_delay < 25_000);
    assert_eq!(stats.total_internal_delay_in_1s, stats.internal_delay);
    assert_eq!(stats.total_internal_delay_count_in_1s, 1);
}

#[test]
fn every_delay_can_go_to_the_log() {
    let (send, recv) = channel();
    let mut sender = DelaySender::new(send);
    let mut stats = DelayStats::new(settings(true, None));
    let moved = now().wrapping_sub(100);
    assert_eq!(stats.adjust_delay(1, Source::External, moved, &mut sender), Ok(()));
    assert_eq!(recv.try_iter().collect::<Vec<i64>>(), vec![stats.external_delay]);
    assert_eq!(stats.total_external_delay_in_1s, stats.external_delay);
}

#[test]
fn without_the_setting_nothing_goes_to_the_log() {
    let (send, recv) = channel();
    let mut sender = DelaySender::new(send);
    let mut stats = DelayStats::new(settings(false, None));
    let moved = now().wrapping_sub(100);
    assert_eq!(stats.adjust_delay(1, Source::Internal, moved, &mut sender), Ok(()));
    assert_eq!(recv.try_iter().count(), 0);
}

#[test]
fn a_closed_log_stops_the_adding_up() {
    let (send, recv) = channel();
    drop(recv);
    let mut sender = DelaySender::new(send);
    let mut stats = DelayStats::new(settings(true, Some(2)));
    let moved = now().wrapping_sub(700);
    assert_eq!(
        stats.adjust_delay(1, Source::Internal, moved, &mut sender),
        Err(ClientError::DelayLogClosed)
    );
    assert!(stats.internal_delay >= 700);
    assert_eq!(stats.total_internal_delay_per_thread, vec![0, 0]);
}

#[test]
fn sending_tells_whether_somebody_listens() {
    let (send, recv) = channel();
    let mut sender = DelaySender::new(send);
    assert!(sender.send(12));
    assert_eq!(recv.recv().unwrap(), 12);
    drop(recv);
    assert!(!sender.send(13));
}
