use rand::rngs::StdRng;
use rand::SeedableRng;
use std::time::UNIX_EPOCH;
use stress_client::delay::stamp;
use stress_client::packet::{CSMove, Direction};
use stress_client::send::{greeting, move_packets, next_move, stamp_move};

#[test]
fn there_are_four_steps() {
    assert_eq!(
        move_packets(),
        vec![
            CSMove::new(Direction::D_UP, 0),
            CSMove::new(Direction::D_DOWN, 0),
            CSMove::new(Direction::D_LEFT, 0),
            CSMove::new(Direction::D_RIGHT, 0),
        ]
    );
}

#[test]
fn a_client_may_ask_for_another_place_first() {
    assert_eq!(greeting(true), Some(vec![2, 6]));
    assert_eq!(greeting(false), None);
}

#[test]
fn only_the_chosen_step_is_stamped() {
    let mut packets = move_packets();
    let bytes = stamp_move(&mut packets, 2, 0x8000_0001);
    assert_eq!(bytes, vec![7, 2, 2, 1, 0, 0, 0x80]);
    assert_eq!(packets[2].seq_no, i32::MIN + 1);
    assert_eq!(packets[0].seq_no, 0);
    assert_eq!(packets[1].seq_no, 0);
    assert_eq!(packets[3].seq_no, 0);
}

#[test]
fn steps_are_chosen_by_chance_and_stamped_with_the_time() {
    let mut rng = StdRng::seed_from_u64(7);
    let mut packets = move_packets();
    let mut chosen = [0usize; 4];
    let before = stamp(UNIX_EPOCH.elapsed().unwrap().as_millis());
    for _ in 0..400 {
        let bytes = next_move(&mut packets, &mut rng).unwrap();
        assert_eq!(bytes.len(), 7);
        assert_eq!(bytes[..2], [7, 2]);
        let direction = bytes[2] as usize;
        chosen[direction] += 1;
        let time = u32::from_le_bytes([bytes[3], bytes[4], bytes[5], bytes[6]]);
        assert!(time.wrapping_sub(before) < 20_000);
        assert_eq!(packets[direction].to_bytes(), bytes);
    }
    assert!(chosen.iter().all(|n| *n > 20));
}
