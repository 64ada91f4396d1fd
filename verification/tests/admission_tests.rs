use stress_client::admission::{Action, Admission};

fn rule() -> Admission {
    Admission::new(1000, 50, 2, 100, 150)
}

#[test]
fn a_rule_starts_with_no_overload() {
    let rule = rule();
    assert_eq!(rule.delay_multiplier, 1);
    assert!(rule.is_increasing);
    assert_eq!(rule.client_to_disconnect, 0);
    assert_eq!(rule.max_player_num, 1000);
}

#[test]
fn players_come_one_after_the_other() {
    let mut rule = rule();
    assert_eq!(rule.next(0, 49, 0), Action::Wait);
    assert_eq!(rule.next(0, 50, 0), Action::Connect);
    assert_eq!(rule.next(999, 50, 100), Action::Connect);
    assert_eq!(rule.next(1000, 50, 0), Action::Finish);
    assert_eq!(rule.next(1001, 0, 900), Action::Finish);
}

#[test]
fn a_slow_server_gets_more_time_for_good() {
    let mut rule = rule();
    assert_eq!(rule.next(10, 60, 101), Action::Wait);
    assert_eq!(rule.delay_multiplier, 2);
    assert_eq!(rule.next(10, 99, 10), Action::Wait);
    assert_eq!(rule.next(10, 100, 10), Action::Connect);
    assert_eq!(rule.delay_multiplier, 2);
    assert_eq!(rule.max_player_num, 1000);
}

#[test]
fn an_overloaded_server_loses_players_in_order() {
    let mut rule = rule();
    assert_eq!(rule.next(200, 60, 150), Action::Wait);
    assert_eq!(rule.delay_multiplier, 2);
    let mut rule = self::rule();
    assert_eq!(rule.next(200, 60, 151), Action::Wait);
    assert_eq!(rule.max_player_num, 200);
    assert!(!rule.is_increasing);
    assert_eq!(rule.next(200, 100, 151), Action::Disconnect(0));
    assert_eq!(rule.next(199, 100, 151), Action::Disconnect(1));
    assert_eq!(rule.next(198, 99, 151), Action::Wait);
    assert_eq!(rule.client_to_disconnect, 2);
    assert_eq!(rule.max_player_num, 200);
}

#[test]
fn few_players_are_never_dropped() {
    let mut rule = rule();
    assert_eq!(rule.next(99, 100_000, 10_000), Action::Wait);
    assert_eq!(rule.max_player_num, 99);
    assert_eq!(rule.next(100, 100_000, 10_000), Action::Disconnect(0));
}

#[test]
fn after_an_overload_players_come_back_up_to_the_limit() {
    let mut rule = rule();
    assert_eq!(rule.next(200, 100, 151), Action::Disconnect(0));
    assert_eq!(rule.next(191, 100, 10), Action::Wait);
    assert_eq!(rule.next(190, 100, 10), Action::Connect);
    assert!(rule.is_increasing);
    assert_eq!(rule.max_player_num, 200);
    assert_eq!(rule.next(180, 100, 151), Action::Disconnect(1));
    assert_eq!(rule.max_player_num, 180);
}

#[test]
fn without_a_threshold_delays_do_not_matter() {
    let mut rule = Admission::new(1000, 50, 2, 0, 0);
    assert_eq!(rule.next(500, 50, 1_000_000), Action::Connect);
    assert_eq!(rule, Admission::new(1000, 50, 2, 0, 0));
}

#[test]
fn a_negative_delay_counts_as_very_large() {
    let mut rule = rule();
    assert_eq!(rule.next(500, 100, -1), Action::Disconnect(0));
}
