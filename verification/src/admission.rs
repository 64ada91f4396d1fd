//! When to let another player in, and when to drop one.
use vstd::prelude::*;

verus! {

/// From how many players on a player is dropped when the server is overloaded.
pub const DROP_FROM: u64 = 100;

/// What to do next.
#[derive(Copy, Clone, Debug, PartialEq, Eq, Structural)]
pub enum Action {
    /// As many players play as there should be: stop admitting.
    Finish,
    /// Do nothing now, and ask again.
    Wait,
    /// Drop the player with this id, and measure the time from now on.
    Disconnect(i32),
    /// Let another player in, and measure the time from now on.
    Connect,
}

/// The rule by which players are admitted and dropped.
#[derive(Copy, Clone, Debug, PartialEq, Eq, Structural)]
pub struct Admission {
    /// How many players there should be.
    pub max_test: u64,
    /// How many milliseconds to wait between players, times the multiplier.
    pub accept_delay: u64,
    /// What the multiplier becomes once the server is slow.
    pub accept_delay_multiplier: u64,
    /// The delay in milliseconds above which the server is slow, or 0 if delays do
    /// not matter.
    pub delay_threshold: u64,
    /// The delay in milliseconds above which the server is overloaded.
    pub delay_threshold2: u64,
    /// What the time between players is multiplied by.
    pub delay_multiplier: u64,
    /// Whether the server has not been overloaded since a player was let in.
    pub is_increasing: bool,
    /// Who is dropped next.
    pub client_to_disconnect: i32,
    /// How many played when the server became overloaded, at first `max_test`.
    pub max_player_num: u64,
}

/// A delay, read as an unsigned number: a negative one counts as very large.
pub open spec fn unsigned(delay: i64) -> int {
    if delay >= 0 {
        delay as int
    } else {
        delay + 0x1_0000_0000_0000_0000
    }
}

impl Admission {
    /// The time since the last player is too short.
    pub open spec fn too_early(self, elapsed: u128) -> bool {
        elapsed < self.accept_delay * self.delay_multiplier
    }

    /// Delays matter and this one is above the upper threshold.
    pub open spec fn overloaded(self, delay: i64) -> bool {
        self.delay_threshold > 0 && unsigned(delay) > self.delay_threshold2
    }

    /// Delays matter and this one is above the lower threshold.
    pub open spec fn slow(self, delay: i64) -> bool {
        self.delay_threshold > 0 && unsigned(delay) > self.delay_threshold
    }

    /// The server was overloaded before, and the players are more than nineteen in
    /// twenty of those who played then.
    pub open spec fn near_limit(self, players: u64) -> bool {
        &&& self.delay_threshold > 0
        &&& self.max_player_num != self.max_test
        &&& self.max_player_num - self.max_player_num / 20 < players
    }

    /// Remembers how many play when the server becomes overloaded.
    pub open spec fn noted(self, players: u64) -> Admission {
        if self.is_increasing {
            Admission { max_player_num: players, is_increasing: false, ..self }
        } else {
            self
        }
    }

    /// What to do, and how the rule stands afterwards, when so many players play,
    /// so many milliseconds have passed, and the delay is this.
    pub open spec fn decided(self, players: u64, elapsed: u128, delay: i64) -> (Admission, Action) {
        if players >= self.max_test {
            (self, Action::Finish)
        } else if self.too_early(elapsed) {
            (self, Action::Wait)
        } else if self.overloaded(delay) {
            if players < DROP_FROM || elapsed < self.accept_delay * 2 {
                (self.noted(players), Action::Wait)
            } else {
                (
                    Admission {
                        client_to_disconnect: (self.client_to_disconnect + 1) as i32,
                        ..self.noted(players)
                    },
                    Action::Disconnect(self.client_to_disconnect),
                )
            }
        } else if self.slow(delay) {
            (
                Admission { delay_multiplier: self.accept_delay_multiplier, ..self },
                Action::Wait,
            )
        } else if self.near_limit(players) {
            (self, Action::Wait)
        } else {
            (
                Admission { is_increasing: self.is_increasing || self.delay_threshold > 0, ..self },
                Action::Connect,
            )
        }
    }

    /// The rule at the start.
    pub fn new(
        max_test: u64,
        accept_delay: u64,
        accept_delay_multiplier: u64,
        delay_threshold: u64,
        delay_threshold2: u64,
    ) -> (rule: Admission)
        ensures
            rule == (Admission {
                max_test,
                accept_delay,
                accept_delay_multiplier,
                delay_threshold,
                delay_threshold2,
                delay_multiplier: 1,
                is_increasing: true,
                client_to_disconnect: 0,
                max_player_num: max_test,
            }),
    {
        Admission {
            max_test,
            accept_delay,
            accept_delay_multiplier,
            delay_threshold,
            delay_threshold2,
            delay_multiplier: 1,
            is_increasing: true,
            client_to_disconnect: 0,
            max_player_num: max_test,
        }
    }

    /// Decides what to do next.
    pub fn next(&mut self, player_num: u64, elapsed_time: u128, internal_delay: i64) -> (action:
        Action)
        requires
            old(self).decided(player_num, elapsed_time, internal_delay).1 is Disconnect ==> old(
                self,
            ).client_to_disconnect < i32::MAX,
        ensures
            (*final(self), action) == old(self).decided(player_num, elapsed_time, internal_delay),
    {
        if player_num >= self.max_test {
            return Action::Finish;
        }
        let accept_delay: u128 = self.accept_delay as u128;
        let delay_multiplier: u128 = self.delay_multiplier as u128;
        assert(accept_delay * delay_multiplier <= u128::MAX) by (nonlinear_arith)
            requires
                accept_delay <= 0xffff_ffff_ffff_ffff,
                delay_multiplier <= 0xffff_ffff_ffff_ffff,
        ;
        if elapsed_time < accept_delay * delay_multiplier {
            return Action::Wait;
        }
        if self.delay_threshold > 0 {
            let delay: u64 = if internal_delay >= 0 {
                internal_delay as u64
            } else {
                (internal_delay as i128 + 0x1_0000_0000_0000_0000) as u64
            };
            if self.delay_threshold2 < delay {
                if self.is_increasing {
                    self.max_player_num = player_num;
                    self.is_increasing = false;
                }
                if player_num < DROP_FROM {
                    return Action::Wait;
                }
                if elapsed_time < accept_delay * 2 {
                    return Action::Wait;
                }
                let client: i32 = self.client_to_disconnect;
                self.client_to_disconnect = client + 1;
                return Action::Disconnect(client);
            } else if self.delay_threshold < delay {
                self.delay_multiplier = self.accept_delay_multiplier;
                return Action::Wait;
            }
            if self.max_player_num != self.max_test && self.max_player_num - (self.max_player_num
                / 20) < player_num {
                return Action::Wait;
            }
            self.is_increasing = true;
        }
        Action::Connect
    }
}

/// Nobody is let in while the server is slow or overloaded, while enough players
/// play, or before it is time.
pub proof fn connects_only_when_calm(rule: Admission, players: u64, elapsed: u128, delay: i64)
    requires
        rule.decided(players, elapsed, delay).1 == Action::Connect,
    ensures
        players < rule.max_test,
        elapsed >= rule.accept_delay * rule.delay_multiplier,
        rule.delay_threshold > 0 ==> unsigned(delay) <= rule.delay_threshold && unsigned(delay)
            <= rule.delay_threshold2,
{
}

/// After an overload the players grow again only up to nineteen in twenty of those
/// who played when it came.
pub proof fn connects_below_limit(rule: Admission, players: u64, elapsed: u128, delay: i64)
    requires
        rule.decided(players, elapsed, delay).1 == Action::Connect,
        rule.delay_threshold > 0,
        rule.max_player_num != rule.max_test,
    ensures
        players <= rule.max_player_num - rule.max_player_num / 20,
{
}

/// A player is dropped only while the server is overloaded, only from a hundred
/// players on, and only after twice the time between players. Who is dropped
/// follows on who was dropped last.
pub proof fn drops_only_when_overloaded(
    rule: Admission,
    players: u64,
    elapsed: u128,
    delay: i64,
    client: i32,
)
    requires
        rule.decided(players, elapsed, delay).1 == Action::Disconnect(client),
        rule.client_to_disconnect < i32::MAX,
    ensures
        rule.overloaded(delay),
        players >= DROP_FROM,
        elapsed >= rule.accept_delay * 2,
        client == rule.client_to_disconnect,
        rule.decided(players, elapsed, delay).0.client_to_disconnect == client + 1,
{
}

/// Only dropping a player moves on to the next one to be dropped.
pub proof fn next_drop_stays(rule: Admission, players: u64, elapsed: u128, delay: i64)
    ensures
        rule.decided(players, elapsed, delay).1 !is Disconnect ==> rule.decided(
            players,
            elapsed,
            delay,
        ).0.client_to_disconnect == rule.client_to_disconnect,
{
}

/// What was given at the start never changes. The multiplier stays what it was or
/// becomes the given one, and never goes back.
pub proof fn rule_keeps_its_terms(rule: Admission, players: u64, elapsed: u128, delay: i64)
    ensures
        ({
            let after = rule.decided(players, elapsed, delay).0;
            &&& after.max_test == rule.max_test
            &&& after.accept_delay == rule.accept_delay
            &&& after.accept_delay_multiplier == rule.accept_delay_multiplier
            &&& after.delay_threshold == rule.delay_threshold
            &&& after.delay_threshold2 == rule.delay_threshold2
            &&& after.delay_multiplier == rule.delay_multiplier || after.delay_multiplier
                == rule.accept_delay_multiplier
            &&& rule.delay_multiplier == rule.accept_delay_multiplier ==> after.delay_multiplier
                == rule.accept_delay_multiplier
        }),
{
}

/// The limit is noted when an overload begins and stands until the next one: it
/// changes only while the server is overloaded and was not before. It is never above
/// the number of players that there should be.
pub proof fn limit_is_noted_once(rule: Admission, players: u64, elapsed: u128, delay: i64)
    requires
        rule.max_player_num <= rule.max_test,
    ensures
        ({
            let after = rule.decided(players, elapsed, delay).0;
            &&& after.max_player_num <= after.max_test
            &&& after.max_player_num != rule.max_player_num ==> {
                &&& rule.is_increasing
                &&& rule.overloaded(delay)
                &&& after.max_player_num == players
                &&& !after.is_increasing
            }
            &&& !rule.is_increasing && after.is_increasing ==> rule.decided(
                players,
                elapsed,
                delay,
            ).1 == Action::Connect
        }),
{
}

/// Without a threshold the delay does not matter: a player is let in whenever it is
/// time, until there are enough.
pub proof fn delay_can_be_ignored(rule: Admission, players: u64, elapsed: u128, delay: i64)
    requires
        rule.delay_threshold == 0,
    ensures
        rule.decided(players, elapsed, delay) == (rule, if players >= rule.max_test {
            Action::Finish
        } else if rule.too_early(elapsed) {
            Action::Wait
        } else {
            Action::Connect
        }),
{
}

/// Nobody waits in vain: while there are too few players, the time is up, the delay is
/// at most both thresholds and the players are not above nineteen in twenty of those of
/// the last overload, a player is let in. The rule then goes on from a calm server.
pub proof fn calm_servers_get_players(rule: Admission, players: u64, elapsed: u128, delay: i64)
    requires
        players < rule.max_test,
        elapsed >= rule.accept_delay * rule.delay_multiplier,
        rule.delay_threshold > 0 ==> {
            &&& 0 <= delay <= rule.delay_threshold
            &&& delay <= rule.delay_threshold2
            &&& rule.max_player_num == rule.max_test || players <= rule.max_player_num
                - rule.max_player_num / 20
        },
    ensures
        rule.decided(players, elapsed, delay) == (
            Admission {
                is_increasing: if rule.delay_threshold > 0 {
                    true
                } else {
                    rule.is_increasing
                },
                ..rule
            },
            Action::Connect,
        ),
{
}

/// Admitting ends exactly when there are enough players.
pub proof fn enough_players_end_it(rule: Admission, players: u64, elapsed: u128, delay: i64)
    ensures
        players >= rule.max_test ==> rule.decided(players, elapsed, delay) == (
            rule,
            Action::Finish,
        ),
        players < rule.max_test ==> rule.decided(players, elapsed, delay).1 != Action::Finish,
{
}

/// Before the time is up, nothing happens.
pub proof fn nothing_happens_too_early(rule: Admission, players: u64, elapsed: u128, delay: i64)
    requires
        players < rule.max_test,
        elapsed < rule.accept_delay * rule.delay_multiplier,
    ensures
        rule.decided(players, elapsed, delay) == (rule, Action::Wait),
{
}

/// An overloaded server loses a player, if at least a hundred play and twice the time
/// between players has passed, and else it is waited for. When the overload begins, the
/// number of players is noted. A negative delay counts as an unsigned number.
pub proof fn overloaded_servers_lose_players(
    rule: Admission,
    players: u64,
    elapsed: u128,
    delay: i64,
)
    requires
        players < rule.max_test,
        elapsed >= rule.accept_delay * rule.delay_multiplier,
        rule.delay_threshold > 0,
        (if delay >= 0 {
            delay as int
        } else {
            delay + 0x1_0000_0000_0000_0000
        }) > rule.delay_threshold2,
        rule.client_to_disconnect < i32::MAX,
    ensures
        ({
            let (after, action) = rule.decided(players, elapsed, delay);
            let drops = players >= 100 && elapsed >= 2 * rule.accept_delay;
            &&& drops ==> action == Action::Disconnect(rule.client_to_disconnect)
            &&& !drops ==> action == Action::Wait
            &&& after == Admission {
                max_player_num: if rule.is_increasing {
                    players
                } else {
                    rule.max_player_num
                },
                is_increasing: false,
                client_to_disconnect: (rule.client_to_disconnect + if drops {
                    1int
                } else {
                    0
                }) as i32,
                ..rule
            }
        }),
{
}

/// A slow server is waited for, and gets more time between players from then on.
pub proof fn slow_servers_get_time(rule: Admission, players: u64, elapsed: u128, delay: i64)
    requires
        players < rule.max_test,
        elapsed >= rule.accept_delay * rule.delay_multiplier,
        rule.delay_threshold > 0,
        (if delay >= 0 {
            delay as int
        } else {
            delay + 0x1_0000_0000_0000_0000
        }) > rule.delay_threshold,
        (if delay >= 0 {
            delay as int
        } else {
            delay + 0x1_0000_0000_0000_0000
        }) <= rule.delay_threshold2,
    ensures
        rule.decided(players, elapsed, delay) == (
            Admission { delay_multiplier: rule.accept_delay_multiplier, ..rule },
            Action::Wait,
        ),
{
}

/// After an overload nobody is let in above nineteen in twenty of those who played when
/// it came.
pub proof fn nobody_comes_above_the_limit(
    rule: Admission,
    players: u64,
    elapsed: u128,
    delay: i64,
)
    requires
        players < rule.max_test,
        elapsed >= rule.accept_delay * rule.delay_multiplier,
        rule.delay_threshold > 0,
        0 <= delay <= rule.delay_threshold,
        delay <= rule.delay_threshold2,
        rule.max_player_num != rule.max_test,
        players > rule.max_player_num - rule.max_player_num / 20,
    ensures
        rule.decided(players, elapsed, delay) == (rule, Action::Wait),
{
}

} // verus!
