use std::collections::hash_map::DefaultHasher;
use std::hash::{Hash, Hasher};
use stress_client::player::Player;

fn digest(player: &Player) -> u64 {
    let mut hasher = DefaultHasher::new();
    player.hash(&mut hasher);
    hasher.finish()
}

#[test]
fn a_new_player_lives_where_it_was_put() {
    let player = Player::new(4, 30, 12);
    assert_eq!(player.id, 4);
    assert!(player.is_alive);
    assert_eq!(player.position, 30 * 0x1_0000 + 12);
    assert_eq!(player.get_pos(), (30, 12));
}

#[test]
fn a_player_is_found_where_it_was_moved() {
    let mut player = Player::new(4, 0, 0);
    for (x, y) in [(0, 0), (399, 399), (-1, -1), (-5, 7), (i16::MIN, 0), (i16::MAX, i16::MAX)] {
        player.set_pos(x, y);
        assert_eq!(player.get_pos(), (x, y));
    }
    assert_eq!(player.id, 4);
    assert!(player.is_alive);
}

#[test]
fn below_zero_only_y_is_kept() {
    let mut player = Player::new(4, 12, -3);
    assert_eq!(player.position, 0xffff_fffd);
    assert_eq!(player.get_pos(), (-1, -3));
    player.set_pos(7, i16::MIN);
    assert_eq!(player.get_pos(), (-1, i16::MIN));
}

#[test]
fn coordinates_share_one_word() {
    assert_eq!(Player::compose_position(1, 2), 0x0001_0002);
    assert_eq!(Player::compose_position(-1, 2), 0xffff_0002);
    assert_eq!(Player::compose_position(1, -1), 0xffff_ffff);
}

#[test]
fn players_are_equal_by_id() {
    let mut a = Player::new(1, 5, 5);
    let b = Player::new(1, 9, 9);
    a.is_alive = false;
    assert!(a == b);
    assert_eq!(digest(&a), digest(&b));
    assert!(a != Player::new(2, 5, 5));
}

#[test]
fn a_player_hashes_as_its_id() {
    let player = Player::new(11, 5, 5);
    let mut hasher = DefaultHasher::new();
    11i32.hash(&mut hasher);
    assert_eq!(digest(&player), hasher.finish());
}
