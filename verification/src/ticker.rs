//! The clock that drives the screen and the reports. Times are in nanoseconds.
use vstd::prelude::*;

verus! {

/// The time from one tick to the next, sixteen milliseconds.
pub const TICK_RATE: u128 = 16_000_000;

/// One second.
pub const SECOND: u128 = 1_000_000_000;

/// The longest time that can be measured.
pub const LONGEST: u128 = 18_446_744_073_709_551_615_999_999_999;

/// How much of the time to the next tick is left, or nothing if it is overdue.
pub open spec fn wait_left(since_tick: u128) -> Option<u128> {
    if since_tick <= TICK_RATE {
        Some((TICK_RATE - since_tick) as u128)
    } else {
        None
    }
}

/// How much longer to wait for a key when so much time has passed since the last
/// tick, or nothing if the next tick is overdue.
pub fn poll_time(since_tick: u128) -> (wait: Option<u128>)
    ensures
        wait == wait_left(since_tick),
{
    if since_tick <= TICK_RATE {
        Some(TICK_RATE - since_tick)
    } else {
        None
    }
}

/// Adds up the time between ticks, a second at a time.
#[derive(Copy, Clone, Debug, PartialEq, Eq, Structural)]
pub struct Ticker {
    pub elapsed_time_up_to_1s: u128,
}

impl Ticker {
    /// A tick is due: the wait for a key did not end before the tick, or there was
    /// no wait because the tick was overdue.
    pub open spec fn due(waited: bool, since_tick: u128) -> bool {
        !waited || since_tick > TICK_RATE
    }

    /// No time has passed.
    pub fn new() -> (ticker: Ticker)
        ensures
            ticker.elapsed_time_up_to_1s == 0,
    {
        Ticker { elapsed_time_up_to_1s: 0 }
    }

    /// Ticks if it is time to, and gives the time that the reports go by. `waited`
    /// says whether there was a wait for a key, and `since_tick` how much time has
    /// passed since the last tick.
    pub fn tick(&mut self, waited: bool, since_tick: u128) -> (elapsed: Option<u128>)
        requires
            Ticker::due(waited, since_tick) ==> old(self).elapsed_time_up_to_1s + since_tick
                <= LONGEST,
        ensures
            Ticker::due(waited, since_tick) ==> {
                &&& final(self).elapsed_time_up_to_1s == old(self).elapsed_time_up_to_1s
                    + since_tick
                &&& elapsed == Some(final(self).elapsed_time_up_to_1s)
            },
            !Ticker::due(waited, since_tick) ==> *final(self) == *old(self) && elapsed is None,
    {
        if !waited || since_tick > TICK_RATE {
            self.elapsed_time_up_to_1s = self.elapsed_time_up_to_1s + since_tick;
            Some(self.elapsed_time_up_to_1s)
        } else {
            None
        }
    }

    /// Takes one full second off, if there is one.
    pub fn end_round(&mut self)
        ensures
            final(self).elapsed_time_up_to_1s == taken_off(old(self).elapsed_time_up_to_1s),
    {
        if self.elapsed_time_up_to_1s >= SECOND {
            self.elapsed_time_up_to_1s = self.elapsed_time_up_to_1s - SECOND;
        }
    }
}

/// One full second is taken off, if there is one.
pub open spec fn taken_off(elapsed: u128) -> u128 {
    if elapsed >= SECOND {
        (elapsed - SECOND) as u128
    } else {
        elapsed
    }
}

/// As long as ticks come more often than once a second, less than a second is ever
/// left over after a round, no time is lost over the seconds, and a tick reaches a
/// full second exactly when the time passes one.
pub proof fn seconds_add_up(left: u128, since_tick: u128)
    requires
        left < SECOND,
        since_tick < SECOND,
    ensures
        taken_off((left + since_tick) as u128) < SECOND,
        taken_off((left + since_tick) as u128) == (left + since_tick) % SECOND as int,
        left + since_tick >= SECOND <==> (left + since_tick) / SECOND as int == 1,
{
}

/// A tick that comes late by more than a second is made up for: every round takes
/// another second off until less than one is left.
pub proof fn late_seconds_are_made_up(elapsed: u128)
    requires
        elapsed >= SECOND,
    ensures
        taken_off(elapsed) + SECOND == elapsed,
{
}

/// Ticks are more than sixteen milliseconds apart, and every time that the reports get
/// is above that: a round that first finds so much time passed, `before`, waits for a
/// key only if there is time left, and looks at the clock again, `since_tick`.
pub proof fn ticks_are_apart(elapsed: u128, before: u128, since_tick: u128)
    requires
        before <= since_tick,
        Ticker::due(wait_left(before) is Some, since_tick),
    ensures
        since_tick > TICK_RATE,
        elapsed + since_tick > TICK_RATE,
{
}

/// A tick comes after sixteen milliseconds, and a second has a billion nanoseconds.
pub proof fn times_are_in_nanoseconds()
    ensures
        TICK_RATE == 16_000_000,
        SECOND == 1_000_000_000,
        LONGEST == 0xffff_ffff_ffff_ffff * 1_000_000_000 + 999_999_999,
{
}

/// There is a wait for a key only as long as the tick is not overdue, and it lasts up to
/// the tick.
pub proof fn waits_last_up_to_the_tick(since_tick: u128)
    ensures
        since_tick <= 16_000_000 ==> wait_left(since_tick) is Some && wait_left(since_tick)->0
            + since_tick == 16_000_000,
        since_tick > 16_000_000 ==> wait_left(since_tick) is None,
{
}

/// After a wait a tick comes only if its time is over. Without a wait it always comes.
pub proof fn ticks_come_when_overdue(waited: bool, since_tick: u128)
    ensures
        waited ==> (Ticker::due(waited, since_tick) <==> since_tick > 16_000_000),
        !waited ==> Ticker::due(waited, since_tick),
{
}

/// A round takes off exactly one second, or nothing if less than one has added up.
pub proof fn rounds_take_off_one_second(elapsed: u128)
    ensures
        elapsed >= 1_000_000_000 ==> taken_off(elapsed) == elapsed - 1_000_000_000,
        elapsed < 1_000_000_000 ==> taken_off(elapsed) == elapsed,
{
}

} // verus!
