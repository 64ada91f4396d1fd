use std::sync::mpsc::{channel, Receiver};
use std::time::UNIX_EPOCH;
use stress_client::delay::{stamp, DelaySender, DelayStats, Settings, Source};
use stress_client::error::ClientError;
use stress_client::player::Player;
use stress_client::receive::{
    assemble_packet, delay_to_measure, fitting_len, handle_received, process_packet, read_packet, RECV_SIZE,
};

struct Client {
    player: Player,
    stats: DelayStats,
    buf: Vec<u8>,
    pending: usize,
    sender: DelaySender,
    log: Receiver<i64>,
}

impl Client {
    fn new(calc_external_delay: bool) -> Client {
        let (send, log) = channel();
        Client {
            player: Player::new(5, 1, 1),
            stats: DelayStats::new(Settings {
                calc_external_delay,
                log_all_delay: true,
                server_thread_num: None,
            }),
            buf: vec![0; RECV_SIZE],
            pending: 0,
            sender: DelaySender::new(send),
            log,
        }
    }

    fn feed(&mut self, bytes: &[u8]) -> Result<(), ClientError> {
        self.buf[self.pending..self.pending + bytes.len()].copy_from_slice(bytes);
        assert_eq!(
            fitting_len(&self.buf, self.pending + bytes.len()),
            self.pending + bytes.len()
        );
        assemble_packet(
            &mut self.player,
            &mut self.stats,
            &mut self.buf,
            &mut self.pending,
            bytes.len(),
            &mut self.sender,
        )
    }

    fn packet(&mut self, bytes: &[u8]) -> Result<(), ClientError> {
        process_packet(bytes, &mut self.player, &mut self.stats, &mut self.sender)
    }
}

fn position(id: i32, x: i16, y: i16, move_time: u32) -> Vec<u8> {
    let mut bytes = vec![14, 3];
    bytes.extend_from_slice(&id.to_le_bytes());
    bytes.extend_from_slice(&x.to_le_bytes());
    bytes.extend_from_slice(&y.to_le_bytes());
    bytes.extend_from_slice(&move_time.to_le_bytes());
    bytes
}

fn ago(millis: u32) -> u32 {
    stamp(UNIX_EPOCH.elapsed().unwrap().as_millis()).wrapping_sub(millis)
}

#[test]
fn ones_own_position_moves_the_player() {
    let mut client = Client::new(false);
    assert_eq!(client.packet(&position(5, 40, 50, 0)), Ok(()));
    assert_eq!(client.player.get_pos(), (40, 50));
    assert_eq!(client.stats.total_internal_delay_count_in_1s, 0);
    assert_eq!(client.log.try_iter().count(), 0);
}

#[test]
fn an_answered_step_is_measured() {
    let mut client = Client::new(false);
    assert_eq!(client.packet(&position(5, 2, 3, ago(3000))), Ok(()));
    assert_eq!(client.player.get_pos(), (2, 3));
    assert!(client.stats.internal_delay >= 3000 && client.stats.internal_delay < 23_000);
    assert_eq!(client.stats.total_internal_delay_count_in_1s, 1);
    assert_eq!(client.log.try_iter().collect::<Vec<i64>>(), vec![client.stats.internal_delay]);
    assert_eq!(client.stats.external_delay, 0);
}

#[test]
fn another_players_position_moves_nobody() {
    let mut client = Client::new(false);
    assert_eq!(client.packet(&position(6, 40, 50, ago(500))), Ok(()));
    assert_eq!(client.player.get_pos(), (1, 1));
    assert_eq!(client.stats.external_delay, 0);
    assert_eq!(client.stats.total_external_delay_count_in_1s, 0);
}

#[test]
fn another_players_step_is_measured_if_wanted() {
    let mut client = Client::new(true);
    assert_eq!(client.packet(&position(6, 40, 50, ago(500))), Ok(()));
    assert_eq!(client.player.get_pos(), (1, 1));
    assert!(client.stats.external_delay >= 500);
    assert_eq!(client.stats.total_external_delay_count_in_1s, 1);
    assert_eq!(client.stats.internal_delay, 0);
    assert_eq!(client.packet(&position(6, 40, 50, 0)), Ok(()));
    assert_eq!(client.stats.total_external_delay_count_in_1s, 1);
}

#[test]
fn a_packet_needs_a_type() {
    let mut client = Client::new(false);
    assert_eq!(client.packet(&[1]), Err(ClientError::NoTypeField));
    assert_eq!(client.packet(&[]), Err(ClientError::NoTypeField));
}

#[test]
fn other_packets_change_nothing() {
    let mut client = Client::new(true);
    for kind in [0u8, 1, 2, 4, 5, 6, 7, 255] {
        assert_eq!(client.packet(&[4, kind, 9, 9]), Ok(()));
    }
    assert_eq!(client.player.get_pos(), (1, 1));
    assert_eq!(client.stats.total_packet_count_in_1s, 0);
}

#[test]
fn packets_are_cut_by_their_sizes() {
    let mut client = Client::new(false);
    let mut bytes = vec![3, 4, 9];
    bytes.extend(position(5, 7, 8, 0));
    bytes.extend([2, 6]);
    assert_eq!(client.feed(&bytes), Ok(()));
    assert_eq!(client.stats.total_packet_count_in_1s, 3);
    assert_eq!(client.pending, 0);
    assert_eq!(client.player.get_pos(), (7, 8));
}

#[test]
fn the_beginning_of_a_packet_waits_at_the_front() {
    let mut client = Client::new(false);
    assert_eq!(client.feed(&[2, 6, 5, 4, 11]), Ok(()));
    assert_eq!(client.pending, 3);
    assert_eq!(client.buf[0..3], [5, 4, 11]);
    assert_eq!(client.buf[3..5], [4, 11]);
    assert_eq!(client.stats.total_packet_count_in_1s, 1);
    assert_eq!(client.feed(&[12]), Ok(()));
    assert_eq!(client.pending, 4);
    assert_eq!(client.feed(&[13, 2]), Ok(()));
    assert_eq!(client.pending, 1);
    assert_eq!(client.buf[0], 2);
    assert_eq!(client.stats.total_packet_count_in_1s, 2);
}

#[test]
fn it_does_not_matter_how_a_stream_is_chopped_up() {
    let mut stream = Vec::new();
    stream.extend(position(5, 10, 20, 0));
    stream.extend([6, 4, 1, 2, 3, 4]);
    stream.extend(position(9, 1, 2, 0));
    stream.extend(position(5, 11, 21, 0));
    stream.extend([200, 6, 1]);
    let mut once = Client::new(false);
    assert_eq!(once.feed(&stream), Ok(()));
    for first in 0..stream.len() {
        for second in first..stream.len() {
            let mut client = Client::new(false);
            assert_eq!(client.feed(&stream[..first]), Ok(()));
            assert_eq!(client.feed(&stream[first..second]), Ok(()));
            assert_eq!(client.feed(&stream[second..]), Ok(()));
            assert_eq!(client.pending, once.pending);
            assert_eq!(client.buf[..client.pending], once.buf[..once.pending]);
            assert_eq!(client.player.get_pos(), (11, 21));
            assert_eq!(client.stats.total_packet_count_in_1s, 4);
        }
    }
    assert_eq!(once.pending, 3);
}

#[test]
fn a_size_below_two_is_an_error() {
    let mut client = Client::new(false);
    assert_eq!(client.feed(&[0, 6]), Err(ClientError::PacketTooSmall(0)));
    assert_eq!(client.pending, 0);
    assert_eq!(client.stats.total_packet_count_in_1s, 0);
    assert_eq!(client.feed(&[2, 6, 1, 9]), Err(ClientError::PacketTooSmall(1)));
    assert_eq!(client.stats.total_packet_count_in_1s, 1);
    assert_eq!(client.pending, 0);
}

#[test]
fn a_failed_packet_stops_the_rest() {
    let mut client = Client::new(false);
    let (send, log) = channel();
    drop(log);
    client.sender = DelaySender::new(send);
    let mut bytes = vec![2, 6];
    bytes.extend(position(5, 7, 8, ago(10)));
    bytes.extend(position(5, 9, 9, 0));
    assert_eq!(client.feed(&bytes), Err(ClientError::DelayLogClosed));
    assert_eq!(client.player.get_pos(), (7, 8));
    assert_eq!(client.stats.total_packet_count_in_1s, 1);
    assert_eq!(client.pending, 0);
}

#[test]
fn what_waits_stays_when_its_packet_fails() {
    let mut client = Client::new(false);
    let bytes = position(5, 7, 8, ago(10));
    assert_eq!(client.feed(&bytes[..6]), Ok(()));
    assert_eq!(client.pending, 6);
    let (send, log) = channel();
    drop(log);
    client.sender = DelaySender::new(send);
    assert_eq!(client.feed(&bytes[6..]), Err(ClientError::DelayLogClosed));
    assert_eq!(client.pending, 6);
}

#[test]
fn the_longest_packet_leaves_room() {
    let mut client = Client::new(false);
    let mut bytes = vec![9u8; 254];
    bytes[0] = 255;
    bytes[1] = 6;
    assert_eq!(client.feed(&bytes), Ok(()));
    assert_eq!(client.pending, 254);
    assert_eq!(client.feed(&[9]), Ok(()));
    assert_eq!(client.pending, 0);
    assert_eq!(client.stats.total_packet_count_in_1s, 1);
}

#[test]
fn positions_must_have_their_size() {
    assert_eq!(fitting_len(&[2, 6, 3, 4, 0], 5), 5);
    assert_eq!(fitting_len(&[2, 6, 3, 3, 0], 5), 2);
    assert_eq!(fitting_len(&[2, 6, 3, 3, 0], 4), 4);
    assert_eq!(fitting_len(&[2, 3], 2), 0);
    assert_eq!(fitting_len(&[1, 3, 2, 3], 4), 4);
    assert_eq!(fitting_len(&position(1, 2, 3, 4), 14), 14);
    assert_eq!(fitting_len(&[], 0), 0);
}

#[test]
fn a_read_of_nothing_is_an_error() {
    assert_eq!(read_packet(0), Err(ClientError::ReadZero));
    assert_eq!(read_packet(1), Ok(1));
    assert_eq!(read_packet(1024), Ok(1024));
}

#[test]
fn received_bytes_are_handled_up_to_a_misfit() {
    let mut client = Client::new(false);
    let mut bytes = vec![2, 6];
    bytes.extend(position(5, 7, 8, 0));
    bytes.extend([3, 3, 0, 2, 6]);
    client.buf[..bytes.len()].copy_from_slice(&bytes);
    let handled = handle_received(
        &mut client.player,
        &mut client.stats,
        &mut client.buf,
        &mut client.pending,
        bytes.len(),
        &mut client.sender,
    );
    assert_eq!(handled, (Ok(()), true));
    assert_eq!(client.player.get_pos(), (7, 8));
    assert_eq!(client.stats.total_packet_count_in_1s, 2);
    assert_eq!(client.pending, 0);
    assert_eq!(fitting_len(&client.buf, bytes.len()), 16);
}

#[test]
fn a_misfit_behind_what_waits_leaves_it_waiting() {
    let mut client = Client::new(false);
    client.buf[..3].copy_from_slice(&[4, 3, 0]);
    client.pending = 2;
    let mut handle = |read_size: usize| {
        handle_received(
            &mut client.player,
            &mut client.stats,
            &mut client.buf,
            &mut client.pending,
            read_size,
            &mut client.sender,
        )
    };
    assert_eq!(handle(1), (Ok(()), false));
    assert_eq!(handle(1), (Ok(()), true));
    assert_eq!(client.pending, 3);
    assert_eq!(client.stats.total_packet_count_in_1s, 0);
}

#[test]
fn an_error_before_a_misfit_comes_first() {
    let mut client = Client::new(false);
    let (send, log) = channel();
    drop(log);
    client.sender = DelaySender::new(send);
    let mut bytes = position(5, 7, 8, ago(10));
    bytes.extend([3, 3, 0]);
    client.buf[..bytes.len()].copy_from_slice(&bytes);
    let handled = handle_received(
        &mut client.player,
        &mut client.stats,
        &mut client.buf,
        &mut client.pending,
        bytes.len(),
        &mut client.sender,
    );
    assert_eq!(handled, (Err(ClientError::DelayLogClosed), true));
    assert_eq!(client.player.get_pos(), (7, 8));
}

#[test]
fn the_player_is_where_the_last_packet_said() {
    let mut stream = Vec::new();
    for (id, x, y) in [(5, 1, 2), (6, 90, 90), (5, 3, 4), (7, 80, 80)] {
        stream.extend(position(id, x, y, 0));
        stream.extend([2, 4]);
    }
    for size in 1..=stream.len() {
        let mut client = Client::new(true);
        for chunk in stream.chunks(size) {
            client.buf[client.pending..client.pending + chunk.len()].copy_from_slice(chunk);
            let handled = handle_received(
                &mut client.player,
                &mut client.stats,
                &mut client.buf,
                &mut client.pending,
                chunk.len(),
                &mut client.sender,
            );
            assert_eq!(handled, (Ok(()), false));
        }
        assert_eq!(client.player.get_pos(), (3, 4));
        assert_eq!(client.player.id, 5);
        assert!(client.player.is_alive);
        assert_eq!(client.pending, 0);
        assert_eq!(client.stats.total_packet_count_in_1s, 8);
    }
}

#[test]
fn a_move_from_the_future_is_not_logged() {
    let mut client = Client::new(true);
    assert_eq!(client.packet(&position(5, 2, 2, ago(0).wrapping_add(600_000))), Ok(()));
    assert_eq!(client.packet(&position(6, 2, 2, ago(0).wrapping_add(600_000))), Ok(()));
    assert_eq!(client.log.try_iter().count(), 0);
    assert_eq!(client.stats.total_internal_delay_count_in_1s, 0);
    drop(client.log);
    let (send, log) = channel();
    drop(log);
    client.sender = DelaySender::new(send);
    assert_eq!(
        process_packet(
            &position(5, 2, 2, ago(0).wrapping_add(600_000)),
            &mut client.player,
            &mut client.stats,
            &mut client.sender,
        ),
        Ok(())
    );
}

#[test]
fn stamped_positions_ask_for_a_delay() {
    let player = Player::new(5, 0, 0);
    let alone = Settings {
        calc_external_delay: false,
        log_all_delay: false,
        server_thread_num: None,
    };
    let all = Settings { calc_external_delay: true, ..alone };
    for settings in [&alone, &all] {
        assert_eq!(
            delay_to_measure(&position(5, 1, 1, 99), &player, settings),
            Some((5, Source::Internal, 99))
        );
        assert_eq!(delay_to_measure(&position(5, 1, 1, 0), &player, settings), None);
        assert_eq!(delay_to_measure(&position(6, 1, 1, 0), &player, settings), None);
        assert_eq!(delay_to_measure(&[2, 4], &player, settings), None);
        assert_eq!(delay_to_measure(&[1], &player, settings), None);
    }
    assert_eq!(delay_to_measure(&position(6, 1, 1, 99), &player, &alone), None);
    assert_eq!(
        delay_to_measure(&position(6, 1, 1, u32::MAX), &player, &all),
        Some((-1, Source::External, u32::MAX))
    );
}
