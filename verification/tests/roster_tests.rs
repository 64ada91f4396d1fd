use stress_client::error::LoginError;
use stress_client::packet::SCPacketType;
use stress_client::player::Player;
use stress_client::roster::{
    check_login, disconnect_client, list_players, new_player_map, process_login, Roster,
};

fn answer(id: i32, x: i16, y: i16) -> Vec<u8> {
    let mut bytes = vec![18, 1];
    bytes.extend_from_slice(&id.to_le_bytes());
    bytes.extend_from_slice(&x.to_le_bytes());
    bytes.extend_from_slice(&y.to_le_bytes());
    bytes.resize(256, 0);
    bytes
}

#[test]
fn a_login_puts_the_player_on_the_roster_and_the_map() {
    let (readers, mut map) = new_player_map(10);
    let mut roster = Roster::new();
    assert!(list_players(&readers).is_empty());
    assert_eq!(process_login(&answer(40, 3, 4), &mut map, &mut roster), Ok(0));
    assert_eq!(process_login(&answer(41, 5, 6), &mut map, &mut roster), Ok(1));
    assert_eq!(roster.players.len(), 2);
    assert_eq!(roster.players[0].id, 40);
    assert_eq!(roster.players[0].get_pos(), (3, 4));
    assert!(roster.players[0].is_alive);
    assert_eq!(roster.players[1].id, 41);
    assert_eq!(roster.player_num, 0);
    let mut entries = list_players(&readers);
    entries.sort();
    assert_eq!(entries, vec![(40, Some(0)), (41, Some(1))]);
}

#[test]
fn other_answers_let_nobody_in() {
    let (readers, mut map) = new_player_map(10);
    let mut roster = Roster::new();
    let mut read_buf = vec![0u8; 256];
    read_buf[0] = 3;
    read_buf[1] = 2;
    assert_eq!(
        process_login(&read_buf, &mut map, &mut roster),
        Err(LoginError::NotLogin(SCPacketType::SC_LOGIN_FAIL))
    );
    read_buf[1] = 9;
    assert_eq!(
        process_login(&read_buf, &mut map, &mut roster),
        Err(LoginError::UnknownType(9))
    );
    read_buf[0] = 1;
    read_buf[1] = 0;
    assert_eq!(
        process_login(&read_buf, &mut map, &mut roster),
        Err(LoginError::UnknownType(0))
    );
    assert!(roster.players.is_empty());
    assert!(list_players(&readers).is_empty());
}

#[test]
fn answers_must_have_their_size() {
    let good = answer(1, 2, 3);
    assert!(check_login(&good));
    let mut bad = good.clone();
    bad[0] = 17;
    assert!(!check_login(&bad));
    bad[0] = 0;
    assert!(!check_login(&bad));
    bad[1] = 6;
    assert!(!check_login(&bad));
    bad[0] = 1;
    assert!(check_login(&bad));
    assert!(!check_login(&[1]));
    assert!(!check_login(&[3, 6]));
}

#[test]
fn a_client_is_looked_up_and_disconnected() {
    let (_readers, mut map) = new_player_map(10);
    let mut roster = Roster::new();
    for id in 0..3 {
        process_login(&answer(id, 1, 1), &mut map, &mut roster).unwrap();
        roster.join();
    }
    assert_eq!(roster.player_num, 3);
    disconnect_client(1, &map, &mut roster);
    assert_eq!(roster.player_num, 2);
    assert!(roster.players[0].is_alive);
    assert!(!roster.players[1].is_alive);
    assert!(roster.players[2].is_alive);
    disconnect_client(77, &map, &mut roster);
    assert_eq!(roster.player_num, 2);
    disconnect_client(1, &map, &mut roster);
    assert_eq!(roster.player_num, 1);
}

#[test]
fn the_first_under_an_id_is_found() {
    let (readers, mut map) = new_player_map(10);
    let mut roster = Roster::new();
    for _ in 0..31 {
        process_login(&answer(8, 1, 1), &mut map, &mut roster).unwrap();
        assert_eq!(list_players(&readers), vec![(8, Some(0))]);
    }
    disconnect_client(8, &map, &mut roster);
    assert!(!roster.players[0].is_alive);
    assert!(roster.players[1..].iter().all(|p| p.is_alive));
    for _ in 0..9 {
        process_login(&answer(8, 1, 1), &mut map, &mut roster).unwrap();
        assert_eq!(list_players(&readers), vec![(8, Some(0))]);
    }
    roster.players[0].is_alive = true;
    disconnect_client(8, &map, &mut roster);
    assert_eq!(roster.player_num, usize::MAX - 1);
    assert!(!roster.players[0].is_alive);
    assert!(roster.players[1..].iter().all(|p| p.is_alive));
}

#[test]
fn the_living_are_shown() {
    let mut roster = Roster::new();
    for id in 0..4 {
        roster.players.push(Player::new(id, id as i16, 10));
    }
    roster.players[2].is_alive = false;
    let entries = vec![(3, Some(3)), (2, Some(2)), (9, None), (0, Some(0)), (7, Some(4))];
    assert_eq!(roster.alive_positions(&entries), vec![(3, 10), (0, 10)]);
}

#[test]
fn the_disconnected_are_not_shown_any_more() {
    let mut roster = Roster::new();
    for id in 0..3 {
        roster.players.push(Player::new(id, id as i16, 10));
        roster.join();
    }
    let entries = vec![(2, Some(2)), (0, Some(0)), (5, None), (6, Some(9))];
    roster.disconnect_all(&entries);
    assert_eq!(roster.player_num, 1);
    assert!(!roster.players[0].is_alive);
    assert!(roster.players[1].is_alive);
    assert!(!roster.players[2].is_alive);
    assert!(roster.alive_positions(&entries).is_empty());
    assert_eq!(roster.alive_positions(&vec![(1, Some(1))]), vec![(1, 10)]);
}

#[test]
fn the_number_of_players_wraps_around() {
    let mut roster = Roster::new();
    roster.players.push(Player::new(0, 0, 0));
    roster.end(0);
    assert_eq!(roster.player_num, usize::MAX);
    roster.join();
    assert_eq!(roster.player_num, 0);
}

#[test]
fn the_listed_players_are_on_the_roster() {
    let (readers, mut map) = new_player_map(4);
    let mut roster = Roster::new();
    for id in [30, 10, 20, 10] {
        process_login(&answer(id, 1, 1), &mut map, &mut roster).unwrap();
        roster.join();
    }
    let entries = list_players(&readers);
    process_login(&answer(50, 1, 1), &mut map, &mut roster).unwrap();
    roster.join();
    let mut ids: Vec<i32> = entries.iter().map(|e| e.0).collect();
    ids.sort();
    assert_eq!(ids, vec![10, 20, 30]);
    for (id, slot) in &entries {
        assert_eq!(roster.players[slot.unwrap()].id, *id);
    }
    roster.disconnect_all(&entries);
    let alive: Vec<bool> = roster.players.iter().map(|p| p.is_alive).collect();
    assert_eq!(alive, vec![false, false, false, true, true]);
    assert_eq!(roster.player_num, 2);
    drop(map);
    assert!(list_players(&readers).is_empty());
}
