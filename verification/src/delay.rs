//! How long the server takes to answer, measured and added up.
use crate::error::ClientError;
use std::sync::mpsc::Sender;
use vstd::prelude::*;

verus! {

/// `std::sync::mpsc::Sender`, carried as it is.
#[verifier::external_type_specification]
#[verifier::external_body]
#[verifier::reject_recursive_types(T)]
pub struct ExSender<T>(std::sync::mpsc::Sender<T>);

/// `SystemTime::elapsed` of std, asked of the start of 1970: the milliseconds
/// since then, or nothing if the clock stands before it. Nothing is claimed of
/// the number, which depends on when the call is made.
#[verifier::external_body]
fn unix_millis() -> (millis: Option<u128>) {
    match std::time::UNIX_EPOCH.elapsed() {
        Ok(since) => Some(since.as_millis()),
        Err(_) => None,
    }
}

/// The sending end of the channel on which single delays go to the log: a `Sender` of
/// std.
#[verifier::external_body]
pub struct DelaySender {
    channel: Sender<i64>,
}

/// The delays that were handed to the channel through this sender so far, in order, each
/// with the channel's answer: whether somebody listened.
pub uninterp spec fn handed_over(sender: DelaySender) -> Seq<(i64, bool)>;

/// Nothing was handed over.
pub open spec fn no_delays() -> Seq<(i64, bool)> {
    Seq::empty()
}

/// Takes a `Sender` of std, through which nothing has been sent from here yet.
#[verifier::external_body]
fn sender_over(channel: Sender<i64>) -> (sender: DelaySender)
    ensures
        handed_over(sender) == no_delays(),
{
    DelaySender { channel }
}

/// `Sender::send` of std: hands `delay`, and nothing else, to the channel, and tells
/// whether somebody listens. Which answer comes depends on the other end; it goes down
/// in the history with the delay.
#[verifier::external_body]
fn send_on(sender: &mut DelaySender, delay: i64) -> (sent: bool)
    ensures
        handed_over(*final(sender)) == handed_over(*old(sender)).push((delay, sent)),
{
    match sender.channel.send(delay) {
        Ok(()) => true,
        Err(_) => false,
    }
}

/// The stamp for a moment, given in milliseconds since the start of 1970: the
/// low 32 bits.
pub fn stamp(millis: u128) -> (time: u32)
    ensures
        time == millis as int % 0x1_0000_0000,
{
    (millis % 0x1_0000_0000) as u32
}

/// This is what the clock of the machine gives when it is asked: the milliseconds since
/// the start of 1970, or nothing if it stands before that. Only asking it shows this of
/// a number.
pub closed spec fn clock_gives(millis: Option<u128>) -> bool {
    call_ensures(unix_millis, (), millis)
}

/// The stamp is that of a moment which the clock gives: the low 32 bits of its
/// milliseconds.
pub open spec fn off_the_clock(time: Option<u32>) -> bool {
    exists|millis: Option<u128>| #[trigger]
        clock_gives(millis) && time == match millis {
            Some(millis) => Some((millis as int % 0x1_0000_0000) as u32),
            None => None,
        }
}

/// Asks `clock` once.
fn ask<F: Fn() -> Option<u128>>(clock: F) -> (millis: Option<u128>)
    requires
        call_requires(clock, ()),
    ensures
        call_ensures(clock, (), millis),
{
    clock()
}

/// The stamp for the current moment, or nothing if the clock stands before 1970.
pub(crate) fn current_stamp() -> (time: Option<u32>)
    ensures
        off_the_clock(time),
{
    let reading = ask(unix_millis);
    assert(clock_gives(reading));
    match reading {
        Some(millis) => Some(stamp(millis)),
        None => None,
    }
}

impl DelaySender {
    /// Sends on the given channel.
    pub fn new(channel: Sender<i64>) -> (sender: DelaySender)
        ensures
            handed_over(sender) == no_delays(),
    {
        sender_over(channel)
    }

    /// Hands a delay to the channel and tells whether somebody still listens.
    pub fn send(&mut self, delay: i64) -> (sent: bool)
        ensures
            handed_over(*final(self)) == handed_over(*old(self)).push((delay, sent)),
    {
        send_on(self, delay)
    }
}

/// What the program was told about the bookkeeping of delays.
#[derive(Copy, Clone, Debug, PartialEq, Eq, Structural)]
pub struct Settings {
    /// Whether the delays of other players' moves count too.
    pub calc_external_delay: bool,
    /// Whether every single delay goes to the log.
    pub log_all_delay: bool,
    /// How many threads the server has, if delays are kept apart by thread.
    pub server_thread_num: Option<usize>,
}

/// Whose move a delay belongs to.
#[derive(Copy, Clone, Debug, PartialEq, Eq, Structural)]
pub enum Source {
    /// The player that received the answer moved.
    Internal,
    /// Another player moved.
    External,
}

/// The current delays, and what has added up since the last report.
#[derive(Debug)]
pub struct DelayStats {
    pub settings: Settings,
    pub internal_delay: i64,
    pub external_delay: i64,
    pub total_internal_delay_in_1s: i64,
    pub total_internal_delay_count_in_1s: i64,
    pub total_external_delay_in_1s: i64,
    pub total_external_delay_count_in_1s: i64,
    pub total_packet_count_in_1s: i64,
    pub total_internal_delay_per_thread: Vec<i64>,
    pub total_internal_delay_count_per_thread: Vec<i64>,
}

/// What [`DelayStats`] holds.
#[verifier::ext_equal]
pub struct Stats {
    pub settings: Settings,
    pub internal_delay: i64,
    pub external_delay: i64,
    pub internal_total: i64,
    pub internal_count: i64,
    pub external_total: i64,
    pub external_count: i64,
    pub packets: i64,
    pub thread_totals: Seq<i64>,
    pub thread_counts: Seq<i64>,
}

impl View for DelayStats {
    type V = Stats;

    open spec fn view(&self) -> Stats {
        Stats {
            settings: self.settings,
            internal_delay: self.internal_delay,
            external_delay: self.external_delay,
            internal_total: self.total_internal_delay_in_1s,
            internal_count: self.total_internal_delay_count_in_1s,
            external_total: self.total_external_delay_in_1s,
            external_count: self.total_external_delay_count_in_1s,
            packets: self.total_packet_count_in_1s,
            thread_totals: self.total_internal_delay_per_thread@,
            thread_counts: self.total_internal_delay_count_per_thread@,
        }
    }
}

/// What the clock and the log said while one packet was handled.
pub struct Observation {
    /// The stamp of the moment, if the clock had one.
    pub now: Option<u32>,
    /// Whether the log took the delay.
    pub sent: bool,
}

/// What measuring one delay comes to.
pub struct Adjusted {
    pub stats: Stats,
    /// The delays handed to the log, each with whether the log took it.
    pub logged: Seq<(i64, bool)>,
    pub result: Result<(), ClientError>,
}

impl Stats {
    /// Delays are differences of stamps, and there is one slot for each thread.
    pub open spec fn wf(self) -> bool {
        &&& 0 <= self.internal_delay <= u32::MAX
        &&& 0 <= self.external_delay <= u32::MAX
        &&& match self.settings.server_thread_num {
            Some(threads) => {
                &&& threads > 0
                &&& self.thread_totals.len() == threads
                &&& self.thread_counts.len() == threads
            },
            None => self.thread_totals.len() == 0 && self.thread_counts.len() == 0,
        }
    }

    /// Nothing measured and nothing added up.
    pub open spec fn fresh(settings: Settings) -> Stats {
        let threads: nat = match settings.server_thread_num {
            Some(threads) => threads as nat,
            None => 0,
        };
        Stats {
            settings,
            internal_delay: 0,
            external_delay: 0,
            internal_total: 0,
            internal_count: 0,
            external_total: 0,
            external_count: 0,
            packets: 0,
            thread_totals: Seq::new(threads, |i: int| 0i64),
            thread_counts: Seq::new(threads, |i: int| 0i64),
        }
    }

    /// The current delay becomes `d_ms`.
    pub open spec fn measured(self, source: Source, d_ms: i64) -> Stats {
        match source {
            Source::Internal => Stats { internal_delay: d_ms, ..self },
            Source::External => Stats { external_delay: d_ms, ..self },
        }
    }

    /// The server thread that player `id` belongs to, if delays are kept apart by
    /// thread and `id` is no negative number.
    pub open spec fn thread_of(self, id: i64) -> Option<int> {
        match self.settings.server_thread_num {
            Some(threads) => if id >= 0 {
                Some(id as int % threads as int)
            } else {
                None
            },
            None => None,
        }
    }

    /// One more delay of `d_ms` is added up: in the slot of the thread that `id`
    /// belongs to, or else in the sums for the source.
    pub open spec fn counted(self, id: i64, source: Source, d_ms: i64) -> Stats {
        match self.thread_of(id) {
            Some(thread) => Stats {
                thread_totals: self.thread_totals.update(
                    thread,
                    self.thread_totals[thread].wrapping_add(d_ms),
                ),
                thread_counts: self.thread_counts.update(
                    thread,
                    self.thread_counts[thread].wrapping_add(1),
                ),
                ..self
            },
            None => match source {
                Source::Internal => Stats {
                    internal_total: self.internal_total.wrapping_add(d_ms),
                    internal_count: self.internal_count.wrapping_add(1),
                    ..self
                },
                Source::External => Stats {
                    external_total: self.external_total.wrapping_add(d_ms),
                    external_count: self.external_count.wrapping_add(1),
                    ..self
                },
            },
        }
    }

    /// What measuring the delay of a move comes to, for a given observation. A
    /// move that seems to come from the future is passed over.
    pub open spec fn adjusted(
        self,
        id: i64,
        source: Source,
        move_time: u32,
        seen: Observation,
    ) -> Adjusted {
        match seen.now {
            None => Adjusted {
                stats: self,
                logged: Seq::empty(),
                result: Err(ClientError::ClockBeforeEpoch),
            },
            Some(now) => if now < move_time {
                Adjusted { stats: self, logged: Seq::empty(), result: Ok(()) }
            } else {
                let d_ms = (now - move_time) as i64;
                let measured = self.measured(source, d_ms);
                let logged = if self.settings.log_all_delay {
                    seq![(d_ms, seen.sent)]
                } else {
                    Seq::empty()
                };
                if self.settings.log_all_delay && !seen.sent {
                    Adjusted { stats: measured, logged, result: Err(ClientError::DelayLogClosed) }
                } else {
                    Adjusted { stats: measured.counted(id, source, d_ms), logged, result: Ok(()) }
                }
            },
        }
    }

    /// One more packet is counted.
    pub open spec fn received(self) -> Stats {
        Stats { packets: self.packets.wrapping_add(1), ..self }
    }
}

/// Pushes `n` zeros onto an empty list.
fn zeros(n: usize) -> (list: Vec<i64>)
    ensures
        list@ == Seq::new(n as nat, |i: int| 0i64),
{
    let mut list: Vec<i64> = Vec::new();
    while list.len() < n
        invariant
            list.len() <= n,
            list@ == Seq::new(list@.len(), |i: int| 0i64),
        decreases n - list.len(),
    {
        list.push(0);
        assert(list@ =~= Seq::new(list@.len(), |i: int| 0i64));
    }
    list
}

impl DelayStats {
    /// Nothing measured and nothing added up.
    pub fn new(settings: Settings) -> (stats: DelayStats)
        requires
            settings.server_thread_num != Some(0usize),
        ensures
            stats@ == Stats::fresh(settings),
            stats@.wf(),
    {
        let threads: usize = match settings.server_thread_num {
            Some(threads) => threads,
            None => 0,
        };
        DelayStats {
            settings,
            internal_delay: 0,
            external_delay: 0,
            total_internal_delay_in_1s: 0,
            total_internal_delay_count_in_1s: 0,
            total_external_delay_in_1s: 0,
            total_external_delay_count_in_1s: 0,
            total_packet_count_in_1s: 0,
            total_internal_delay_per_thread: zeros(threads),
            total_internal_delay_count_per_thread: zeros(threads),
        }
    }

    /// Measures how long ago a move was made, and makes that the current delay.
    /// A move that seems to come from the future is passed over.
    pub fn measure(&mut self, source: Source, move_time: u32, now: u32) -> (delay: Option<i64>)
        requires
            old(self)@.wf(),
        ensures
            final(self)@.wf(),
            now < move_time ==> delay is None && final(self)@ == old(self)@,
            now >= move_time ==> {
                &&& delay == Some((now - move_time) as i64)
                &&& final(self)@ == old(self)@.measured(source, (now - move_time) as i64)
            },
    {
        if now < move_time {
            return None;
        }
        let d_ms: i64 = now as i64 - move_time as i64;
        let delay: i64 = match source {
            Source::Internal => self.internal_delay,
            Source::External => self.external_delay,
        };
        let mut cur_delay: i64 = delay;
        if delay < d_ms {
            cur_delay = delay + (d_ms - delay);
        } else if delay > d_ms {
            cur_delay = delay - (delay - d_ms);
        }
        match source {
            Source::Internal => {
                self.internal_delay = cur_delay;
            },
            Source::External => {
                self.external_delay = cur_delay;
            },
        }
        Some(cur_delay)
    }

    /// Adds up one more delay: in the slot of the server thread that `id` belongs
    /// to, or else in the sums for the source.
    pub fn count(&mut self, id: i64, source: Source, delay: i64)
        requires
            old(self)@.wf(),
        ensures
            final(self)@.wf(),
            final(self)@ == old(self)@.counted(id, source, delay),
    {
        match self.settings.server_thread_num {
            Some(thread_num) if id >= 0 => {
                let tid: usize = (id as u64 % thread_num as u64) as usize;
                let total: i64 = self.total_internal_delay_per_thread[tid].wrapping_add(delay);
                let number: i64 = self.total_internal_delay_count_per_thread[tid].wrapping_add(1);
                self.total_internal_delay_per_thread.set(tid, total);
                self.total_internal_delay_count_per_thread.set(tid, number);
            },
            _ => match source {
                Source::Internal => {
                    self.total_internal_delay_in_1s =
                    self.total_internal_delay_in_1s.wrapping_add(delay);
                    self.total_internal_delay_count_in_1s =
                    self.total_internal_delay_count_in_1s.wrapping_add(1);
                },
                Source::External => {
                    self.total_external_delay_in_1s =
                    self.total_external_delay_in_1s.wrapping_add(delay);
                    self.total_external_delay_count_in_1s =
                    self.total_external_delay_count_in_1s.wrapping_add(1);
                },
            },
        }
    }

    /// Adds up a delay after the log was told of it, if it is told of every delay.
    /// A delay that the log did not take is not added up.
    pub fn settle(&mut self, id: i64, source: Source, delay: i64, sent: bool) -> (result: Result<
        (),
        ClientError,
    >)
        requires
            old(self)@.wf(),
        ensures
            final(self)@.wf(),
            old(self)@.settings.log_all_delay && !sent ==> {
                &&& result == Err::<(), ClientError>(ClientError::DelayLogClosed)
                &&& final(self)@ == old(self)@
            },
            !old(self)@.settings.log_all_delay || sent ==> {
                &&& result == Ok::<(), ClientError>(())
                &&& final(self)@ == old(self)@.counted(id, source, delay)
            },
    {
        if self.settings.log_all_delay && !sent {
            return Err(ClientError::DelayLogClosed);
        }
        self.count(id, source, delay);
        Ok(())
    }

    /// Measures the delay of a move, tells it to the log if every delay is to be
    /// logged, and adds it up. The clock and the log decide how it goes: whatever
    /// they say, the outcome is the one that [`Stats::adjusted`] gives for it, with the
    /// moment that the clock gave.
    pub fn adjust_delay(
        &mut self,
        id: i64,
        source: Source,
        move_time: u32,
        delay_send: &mut DelaySender,
    ) -> (result: Result<(), ClientError>)
        requires
            old(self)@.wf(),
        ensures
            final(self)@.wf(),
            exists|seen: Observation|
                {
                    let outcome = #[trigger] old(self)@.adjusted(id, source, move_time, seen);
                    &&& off_the_clock(seen.now)
                    &&& final(self)@ == outcome.stats
                    &&& handed_over(*final(delay_send)) == handed_over(*old(delay_send)) + outcome.logged
                    &&& result == outcome.result
                },
    {
        let ghost before = self@;
        let ghost handed = handed_over(*delay_send);
        let clock = current_stamp();
        let now: u32 = match clock {
            Some(now) => now,
            None => {
                assert(before.adjusted(id, source, move_time, (Observation { now: clock, sent: true })).stats
                    == before);
                assert(handed + Seq::empty() =~= handed);
                return Err(ClientError::ClockBeforeEpoch);
            },
        };
        let d_ms: i64 = match self.measure(source, move_time, now) {
            Some(d_ms) => d_ms,
            None => {
                assert(before.adjusted(id, source, move_time, (Observation { now: clock, sent: true })).stats
                    == before);
                assert(handed + Seq::empty() =~= handed);
                return Ok(());
            },
        };
        let sent: bool = if self.settings.log_all_delay {
            delay_send.send(d_ms)
        } else {
            true
        };
        let ghost seen = Observation { now: clock, sent };
        assert(handed_over(*delay_send) =~= handed + before.adjusted(id, source, move_time, seen).logged);
        self.settle(id, source, d_ms, sent)
    }

    /// Counts one more packet.
    pub fn count_packet(&mut self)
        ensures
            final(self)@ == old(self)@.received(),
    {
        self.total_packet_count_in_1s = self.total_packet_count_in_1s.wrapping_add(1);
    }
}

/// Whatever the clock and the log say, the books keep their shape, the settings and
/// the number of packets, and a measured delay is never negative. The log is found
/// closed exactly if it was handed a delay and did not take it.
pub proof fn adjusting_keeps_the_books(
    stats: Stats,
    id: i64,
    source: Source,
    move_time: u32,
    seen: Observation,
)
    requires
        stats.wf(),
    ensures
        ({
            let after = stats.adjusted(id, source, move_time, seen);
            &&& after.stats.wf()
            &&& after.stats.settings == stats.settings
            &&& after.stats.packets == stats.packets
            &&& forall|i: int| 0 <= i < after.logged.len() ==> (#[trigger] after.logged[i]).0 >= 0
            &&& after.result == Err::<(), ClientError>(ClientError::DelayLogClosed)
                <==> after.logged.len() > 0 && !after.logged[0].1
        }),
{
}

/// A delay is added up in exactly one place: in the slot of one thread, with all
/// other slots and the sums as they were, or in the sums for its source, with the
/// slots and the other sums as they were.
pub proof fn counted_in_one_place(stats: Stats, id: i64, source: Source, d_ms: i64)
    requires
        stats.wf(),
    ensures
        ({
            let after = stats.counted(id, source, d_ms);
            match stats.thread_of(id) {
                Some(thread) => {
                    &&& 0 <= thread < stats.thread_totals.len()
                    &&& after == Stats {
                        thread_totals: after.thread_totals,
                        thread_counts: after.thread_counts,
                        ..stats
                    }
                    &&& forall|i: int|
                        0 <= i < stats.thread_totals.len() && i != thread ==> {
                            &&& #[trigger] after.thread_totals[i] == stats.thread_totals[i]
                            &&& after.thread_counts[i] == stats.thread_counts[i]
                        }
                    &&& after.thread_totals[thread] == stats.thread_totals[thread].wrapping_add(d_ms)
                    &&& after.thread_counts[thread] == stats.thread_counts[thread].wrapping_add(1)
                },
                None => {
                    &&& after.thread_totals == stats.thread_totals
                    &&& after.thread_counts == stats.thread_counts
                    &&& source == Source::Internal ==> after.external_total == stats.external_total
                        && after.external_count == stats.external_count
                    &&& source == Source::External ==> after.internal_total == stats.internal_total
                        && after.internal_count == stats.internal_count
                },
            }
        }),
{
    if let Some(threads) = stats.settings.server_thread_num {
        if id >= 0 {
            assert(0 <= id as int % threads as int && (id as int % threads as int) < threads)
                by (nonlinear_arith)
                requires
                    threads > 0,
            ;
        }
    }
}

/// A move that seems to come from the future changes nothing and is not logged.
pub proof fn future_moves_are_passed_over(
    stats: Stats,
    id: i64,
    source: Source,
    move_time: u32,
    seen: Observation,
)
    requires
        seen.now matches Some(now) && now < move_time,
    ensures
        stats.adjusted(id, source, move_time, seen) == (Adjusted {
            stats,
            logged: Seq::empty(),
            result: Ok(()),
        }),
{
}

/// The number that a counter shows after it was brought to `n` in wrapping steps: the
/// one that differs from `n` by a multiple of two to the power of 64.
pub open spec fn wrapped(n: int) -> i64 {
    let low = n % 0x1_0000_0000_0000_0000;
    if low < 0x8000_0000_0000_0000 {
        low as i64
    } else {
        (low - 0x1_0000_0000_0000_0000) as i64
    }
}

/// Adding in wrapping steps is adding and wrapping once.
pub proof fn wrapping_steps_add_up(n: int, step: i64)
    ensures
        wrapped(n).wrapping_add(step) == wrapped(n + step),
{
    let range = 0x1_0000_0000_0000_0000int;
    vstd::arithmetic::div_mod::lemma_fundamental_div_mod(n, range);
    vstd::arithmetic::div_mod::lemma_fundamental_div_mod(n + step, range);
}

/// The books show the numbers that they hold, each in its place.
pub proof fn books_show_their_numbers(stats: DelayStats)
    ensures
        stats@.settings == stats.settings,
        stats@.internal_delay == stats.internal_delay,
        stats@.external_delay == stats.external_delay,
        stats@.internal_total == stats.total_internal_delay_in_1s,
        stats@.internal_count == stats.total_internal_delay_count_in_1s,
        stats@.external_total == stats.total_external_delay_in_1s,
        stats@.external_count == stats.total_external_delay_count_in_1s,
        stats@.packets == stats.total_packet_count_in_1s,
        stats@.thread_totals == stats.total_internal_delay_per_thread@,
        stats@.thread_counts == stats.total_internal_delay_count_per_thread@,
{
}

/// New books hold nothing but zeros, and a slot for each thread of the server.
pub proof fn new_books_hold_zeros(settings: Settings)
    ensures
        ({
            let books = Stats::fresh(settings);
            let threads: int = match settings.server_thread_num {
                Some(threads) => threads as int,
                None => 0,
            };
            &&& books.settings == settings
            &&& books.internal_delay == 0 && books.external_delay == 0
            &&& books.internal_total == 0 && books.internal_count == 0
            &&& books.external_total == 0 && books.external_count == 0
            &&& books.packets == 0
            &&& books.thread_totals.len() == threads && books.thread_counts.len() == threads
            &&& forall|i: int|
                0 <= i < threads ==> #[trigger] books.thread_totals[i] == 0
                    && books.thread_counts[i] == 0
        }),
{
}

/// Making something the current delay of a source changes that and nothing else.
pub proof fn measuring_changes_one_delay(stats: Stats, source: Source, d_ms: i64)
    ensures
        source == Source::Internal ==> stats.measured(source, d_ms) == (Stats {
            internal_delay: d_ms,
            ..stats
        }),
        source == Source::External ==> stats.measured(source, d_ms) == (Stats {
            external_delay: d_ms,
            ..stats
        }),
{
}

/// A delay adds up where it belongs. If delays are kept apart by the server's threads
/// and the id is no negative number, that is the slot with the number of the id modulo
/// the number of threads. Otherwise it is the sums for the source.
pub proof fn a_delay_adds_up_where_it_belongs(stats: Stats, id: i64, source: Source, d_ms: i64)
    ensures
        ({
            let after = stats.counted(id, source, d_ms);
            match stats.settings.server_thread_num {
                Some(threads) if id >= 0 => {
                    let slot = id as int % threads as int;
                    after == Stats {
                        thread_totals: stats.thread_totals.update(
                            slot,
                            stats.thread_totals[slot].wrapping_add(d_ms),
                        ),
                        thread_counts: stats.thread_counts.update(
                            slot,
                            stats.thread_counts[slot].wrapping_add(1),
                        ),
                        ..stats
                    }
                },
                _ => {
                    &&& source == Source::Internal ==> after == Stats {
                        internal_total: stats.internal_total.wrapping_add(d_ms),
                        internal_count: stats.internal_count.wrapping_add(1),
                        ..stats
                    }
                    &&& source == Source::External ==> after == Stats {
                        external_total: stats.external_total.wrapping_add(d_ms),
                        external_count: stats.external_count.wrapping_add(1),
                        ..stats
                    }
                },
            }
        }),
{
}

/// Counting a packet raises the number of packets by one and changes nothing else.
pub proof fn a_packet_counts_once(stats: Stats)
    ensures
        stats.received() == (Stats { packets: stats.packets.wrapping_add(1), ..stats }),
{
}

/// A delay is the time since the move and nothing else: it becomes the current delay of
/// its source, it is what the log gets, if the log gets every delay, and it is what is
/// added to the sum where it belongs.
pub proof fn a_delay_is_the_time_since_the_move(
    stats: Stats,
    id: i64,
    source: Source,
    move_time: u32,
    now: u32,
    sent: bool,
)
    requires
        now >= move_time,
        stats.settings.log_all_delay ==> sent,
    ensures
        ({
            let after = stats.adjusted(id, source, move_time, (Observation { now: Some(now), sent }));
            let d_ms = (now - move_time) as i64;
            &&& d_ms == now - move_time
            &&& after.result is Ok
            &&& after.logged == if stats.settings.log_all_delay {
                seq![(d_ms, true)]
            } else {
                Seq::empty()
            }
            &&& after.stats.settings == stats.settings
            &&& after.stats.packets == stats.packets
            &&& source == Source::Internal ==> after.stats.internal_delay == d_ms
                && after.stats.external_delay == stats.external_delay
            &&& source == Source::External ==> after.stats.external_delay == d_ms
                && after.stats.internal_delay == stats.internal_delay
            &&& match stats.settings.server_thread_num {
                Some(threads) if id >= 0 => {
                    let slot = id as int % threads as int;
                    &&& after.stats.thread_totals == stats.thread_totals.update(
                        slot,
                        stats.thread_totals[slot].wrapping_add(d_ms),
                    )
                    &&& after.stats.thread_counts == stats.thread_counts.update(
                        slot,
                        stats.thread_counts[slot].wrapping_add(1),
                    )
                    &&& after.stats.internal_total == stats.internal_total
                    &&& after.stats.internal_count == stats.internal_count
                    &&& after.stats.external_total == stats.external_total
                    &&& after.stats.external_count == stats.external_count
                },
                _ => {
                    &&& after.stats.thread_totals == stats.thread_totals
                    &&& after.stats.thread_counts == stats.thread_counts
                    &&& source == Source::Internal ==> {
                        &&& after.stats.internal_total == stats.internal_total.wrapping_add(d_ms)
                        &&& after.stats.internal_count == stats.internal_count.wrapping_add(1)
                        &&& after.stats.external_total == stats.external_total
                        &&& after.stats.external_count == stats.external_count
                    }
                    &&& source == Source::External ==> {
                        &&& after.stats.external_total == stats.external_total.wrapping_add(d_ms)
                        &&& after.stats.external_count == stats.external_count.wrapping_add(1)
                        &&& after.stats.internal_total == stats.internal_total
                        &&& after.stats.internal_count == stats.internal_count
                    }
                },
            }
        }),
{
}

/// A delay that the log does not take becomes the current delay and is not added up.
pub proof fn a_refused_delay_is_not_added_up(
    stats: Stats,
    id: i64,
    source: Source,
    move_time: u32,
    now: u32,
)
    requires
        now >= move_time,
        stats.settings.log_all_delay,
    ensures
        ({
            let seen = Observation { now: Some(now), sent: false };
            let after = stats.adjusted(id, source, move_time, seen);
            let d_ms = (now - move_time) as i64;
            &&& after.result == Err::<(), ClientError>(ClientError::DelayLogClosed)
            &&& after.logged == seq![(d_ms, false)]
            &&& source == Source::Internal ==> after.stats == Stats {
                internal_delay: d_ms,
                ..stats
            }
            &&& source == Source::External ==> after.stats == Stats {
                external_delay: d_ms,
                ..stats
            }
        }),
{
}

/// Without a clock nothing is measured, logged or added up.
pub proof fn without_a_clock_nothing_is_measured(
    stats: Stats,
    id: i64,
    source: Source,
    move_time: u32,
    sent: bool,
)
    ensures
        stats.adjusted(id, source, move_time, (Observation { now: None, sent })) == (Adjusted {
            stats,
            logged: Seq::empty(),
            result: Err(ClientError::ClockBeforeEpoch),
        }),
{
}

/// A number wraps around within the range of 64 bits, by whole ranges.
pub proof fn wrapped_by_whole_ranges(n: int)
    ensures
        (wrapped(n) - n) % 0x1_0000_0000_0000_0000 == 0,
{
    let range = 0x1_0000_0000_0000_0000int;
    vstd::arithmetic::div_mod::lemma_fundamental_div_mod(n, range);
    vstd::arithmetic::div_mod::lemma_fundamental_div_mod(wrapped(n) - n, range);
}

/// A moment comes off the clock only as the low 32 bits of the milliseconds that the
/// clock gives, or as nothing if the clock stands before 1970.
pub proof fn moments_come_off_the_clock(time: Option<u32>)
    ensures
        off_the_clock(time) <==> {
            ||| time is None && clock_gives(None)
            ||| time is Some && exists|millis: u128| #[trigger]
                clock_gives(Some(millis)) && time->0 == millis as int % 0x1_0000_0000
        },
{
    if off_the_clock(time) && time is Some {
        let reading = choose|reading: Option<u128>| #[trigger]
            clock_gives(reading) && time == match reading {
                Some(millis) => Some((millis as int % 0x1_0000_0000) as u32),
                None => None,
            };
        assert(clock_gives(Some(reading->0)));
    }
}

/// What the clock gives is what a call of it gives.
proof fn the_clock_is_asked(millis: Option<u128>)
    ensures
        clock_gives(millis) <==> call_ensures(unix_millis, (), millis),
{
}

/// Books are sound if the delays are differences of stamps and there is a slot for each
/// thread of the server, of which there is at least one if there are any.
pub proof fn which_books_are_sound(stats: Stats)
    ensures
        stats.wf() <==> {
            &&& 0 <= stats.internal_delay <= 0xffff_ffff
            &&& 0 <= stats.external_delay <= 0xffff_ffff
            &&& stats.settings.server_thread_num is None ==> stats.thread_totals.len() == 0
                && stats.thread_counts.len() == 0
            &&& stats.settings.server_thread_num matches Some(threads) ==> threads >= 1
                && stats.thread_totals.len() == threads && stats.thread_counts.len() == threads
        },
{
}

} // verus!
