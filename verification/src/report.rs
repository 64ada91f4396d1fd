//! What goes to the log once a second.
use crate::delay::{
    counted_in_one_place, wrapped, wrapping_steps_add_up, DelayStats, Observation, Source, Stats,
};
use crate::ticker::{Ticker, SECOND};
use vstd::prelude::*;

verus! {

/// The numbers of one line of the log. The average delays are the totals divided by
/// the counts, which are never below one.
#[derive(Copy, Clone, Debug, PartialEq, Eq, Structural)]
pub struct DelayLine {
    pub internal_total: i64,
    pub internal_count: i64,
    pub external_total: i64,
    pub external_count: i64,
    pub packets: i64,
}

/// What a count of delays is divided by: at least one.
pub open spec fn at_least_one(count: i64) -> i64 {
    if count > 1 {
        count
    } else {
        1
    }
}

/// The larger of one and the count.
fn divisor(count: i64) -> (n: i64)
    ensures
        n == at_least_one(count),
{
    if count > 1 {
        count
    } else {
        1
    }
}

/// A report is due: everybody plays, and a second has passed.
pub open spec fn report_due(player_num: usize, max_test: u64, elapsed_time: u128) -> bool {
    player_num >= max_test && elapsed_time >= SECOND
}

impl Stats {
    /// The line that the sums make.
    pub open spec fn line(self) -> DelayLine {
        DelayLine {
            internal_total: self.internal_total,
            internal_count: at_least_one(self.internal_count),
            external_total: self.external_total,
            external_count: at_least_one(self.external_count),
            packets: self.packets,
        }
    }

    /// The sums start again at zero. The current delays and the sums of the single
    /// threads stay.
    pub open spec fn sums_cleared(self) -> Stats {
        Stats { internal_total: 0, internal_count: 0, ..self.external_cleared() }
    }

    /// The sums for other players' moves and the packets start again at zero.
    pub open spec fn external_cleared(self) -> Stats {
        Stats { external_total: 0, external_count: 0, packets: 0, ..self }
    }

    /// The sums of one thread start again at zero.
    pub open spec fn thread_cleared(self, tid: int) -> Stats {
        Stats {
            thread_totals: self.thread_totals.update(tid, 0),
            thread_counts: self.thread_counts.update(tid, 0),
            ..self
        }
    }
}

impl DelayStats {
    /// The line for the log, if a report is due. The sums then start again.
    pub fn log_delay(&mut self, player_num: usize, max_test: u64, elapsed_time: u128) -> (line:
        Option<DelayLine>)
        ensures
            line is Some <==> player_num >= max_test && elapsed_time >= 1_000_000_000,
            report_due(player_num, max_test, elapsed_time) ==> {
                &&& line == Some(old(self)@.line())
                &&& final(self)@ == old(self)@.sums_cleared()
            },
            !report_due(player_num, max_test, elapsed_time) ==> {
                &&& line is None
                &&& final(self)@ == old(self)@
            },
    {
        if player_num as u64 >= max_test && elapsed_time >= SECOND {
            let line = DelayLine {
                internal_total: self.total_internal_delay_in_1s,
                internal_count: divisor(self.total_internal_delay_count_in_1s),
                external_total: self.total_external_delay_in_1s,
                external_count: divisor(self.total_external_delay_count_in_1s),
                packets: self.total_packet_count_in_1s,
            };
            self.clear_sums();
            Some(line)
        } else {
            None
        }
    }

    /// The total and the count for the log of server thread `tid`, if a report is
    /// due. The sums of the thread, those for other players' moves and the packets
    /// then start again.
    pub fn log_delay_per_thread(
        &mut self,
        tid: usize,
        player_num: usize,
        max_test: u64,
        elapsed_time: u128,
    ) -> (line: Option<(i64, i64)>)
        requires
            old(self)@.wf(),
            tid < old(self)@.thread_totals.len(),
        ensures
            final(self)@.wf(),
            line is Some <==> player_num >= max_test && elapsed_time >= 1_000_000_000,
            report_due(player_num, max_test, elapsed_time) ==> {
                &&& line == Some(
                    (
                        old(self)@.thread_totals[tid as int],
                        at_least_one(old(self)@.thread_counts[tid as int]),
                    ),
                )
                &&& final(self)@ == old(self)@.thread_cleared(tid as int).external_cleared()
            },
            !report_due(player_num, max_test, elapsed_time) ==> {
                &&& line is None
                &&& final(self)@ == old(self)@
            },
    {
        if player_num as u64 >= max_test && elapsed_time >= SECOND {
            let total: i64 = self.total_internal_delay_per_thread[tid];
            let number: i64 = divisor(self.total_internal_delay_count_per_thread[tid]);
            self.total_internal_delay_per_thread.set(tid, 0);
            self.total_internal_delay_count_per_thread.set(tid, 0);
            self.total_external_delay_in_1s = 0;
            self.total_external_delay_count_in_1s = 0;
            self.total_packet_count_in_1s = 0;
            Some((total, number))
        } else {
            None
        }
    }

    /// Tells whether the single delays that wait are to be written now: somebody
    /// plays, and a second has passed. The sums then start again.
    pub fn log_all_delay(&mut self, player_num: usize, elapsed_time: u128) -> (write: bool)
        ensures
            write == (player_num > 0 && elapsed_time >= 1_000_000_000),
            write ==> final(self)@ == old(self)@.sums_cleared(),
            !write ==> final(self)@ == old(self)@,
    {
        if player_num > 0 && elapsed_time >= SECOND {
            self.clear_sums();
            true
        } else {
            false
        }
    }

    /// The sums start again at zero.
    fn clear_sums(&mut self)
        ensures
            final(self)@ == old(self)@.sums_cleared(),
    {
        self.total_external_delay_in_1s = 0;
        self.total_internal_delay_in_1s = 0;
        self.total_external_delay_count_in_1s = 0;
        self.total_internal_delay_count_in_1s = 0;
        self.total_packet_count_in_1s = 0;
    }
}

/// A report keeps what is no sum: the current delays, the settings, and with them
/// the shape of the books.
pub proof fn reports_keep_delays(stats: Stats, tid: int)
    requires
        stats.wf(),
        0 <= tid < stats.thread_totals.len(),
    ensures
        stats.sums_cleared().wf(),
        stats.sums_cleared().internal_delay == stats.internal_delay,
        stats.sums_cleared().external_delay == stats.external_delay,
        stats.thread_cleared(tid).external_cleared().wf(),
        stats.thread_cleared(tid).external_cleared().internal_delay == stats.internal_delay,
        stats.thread_cleared(tid).external_cleared().external_delay == stats.external_delay,
{
}

/// One thing that the books take up between two reports.
pub enum Entry {
    /// A delay was measured and added up.
    Delay { id: i64, source: Source, d_ms: i64 },
    /// A packet was counted.
    Packet,
}

/// Where a delay adds up.
pub enum Place {
    /// In the sums for its source.
    Sum(Source),
    /// In the slot of a server thread.
    Thread(int),
}

impl Stats {
    /// Where a delay of player `id` adds up.
    pub open spec fn place_of(self, id: i64, source: Source) -> Place {
        match self.thread_of(id) {
            Some(thread) => Place::Thread(thread),
            None => Place::Sum(source),
        }
    }

    /// There is such a place.
    pub open spec fn has_place(self, place: Place) -> bool {
        place matches Place::Thread(thread) ==> 0 <= thread < self.thread_totals.len()
    }

    /// The total at a place.
    pub open spec fn total_at(self, place: Place) -> i64 {
        match place {
            Place::Sum(Source::Internal) => self.internal_total,
            Place::Sum(Source::External) => self.external_total,
            Place::Thread(thread) => self.thread_totals[thread],
        }
    }

    /// The count at a place.
    pub open spec fn count_at(self, place: Place) -> i64 {
        match place {
            Place::Sum(Source::Internal) => self.internal_count,
            Place::Sum(Source::External) => self.external_count,
            Place::Thread(thread) => self.thread_counts[thread],
        }
    }

    /// The books take up one more thing.
    pub open spec fn booked(self, entry: Entry) -> Stats {
        match entry {
            Entry::Delay { id, source, d_ms } => self.measured(source, d_ms).counted(
                id,
                source,
                d_ms,
            ),
            Entry::Packet => self.received(),
        }
    }

    /// The books take up one thing after the other.
    pub open spec fn booked_all(self, entries: Seq<Entry>) -> Stats
        decreases entries.len(),
    {
        if entries.len() == 0 {
            self
        } else {
            self.booked_all(entries.drop_last()).booked(entries.last())
        }
    }

    /// The sum of the delays among the entries that add up at a place.
    pub open spec fn sum_at(self, entries: Seq<Entry>, place: Place) -> int
        decreases entries.len(),
    {
        if entries.len() == 0 {
            0
        } else {
            let before = self.sum_at(entries.drop_last(), place);
            match entries.last() {
                Entry::Delay { id, source, d_ms } if self.place_of(id, source) == place => before
                    + d_ms,
                _ => before,
            }
        }
    }

    /// How many of the entries are delays that add up at a place.
    pub open spec fn number_at(self, entries: Seq<Entry>, place: Place) -> nat
        decreases entries.len(),
    {
        if entries.len() == 0 {
            0
        } else {
            let before = self.number_at(entries.drop_last(), place);
            match entries.last() {
                Entry::Delay { id, source, d_ms } if self.place_of(id, source) == place => before
                    + 1,
                _ => before,
            }
        }
    }
}

/// How many of the entries are packets.
pub open spec fn packets_in(entries: Seq<Entry>) -> nat
    decreases entries.len(),
{
    if entries.len() == 0 {
        0
    } else {
        packets_in(entries.drop_last()) + if entries.last() is Packet {
            1nat
        } else {
            0
        }
    }
}

/// A delay that is measured and added up is one entry of the books.
pub proof fn measured_delays_are_booked(
    stats: Stats,
    id: i64,
    source: Source,
    move_time: u32,
    seen: Observation,
)
    requires
        seen.now matches Some(now) && now >= move_time,
        stats.settings.log_all_delay ==> seen.sent,
    ensures
        stats.adjusted(id, source, move_time, seen).stats == stats.booked(
            Entry::Delay { id, source, d_ms: (seen.now->0 - move_time) as i64 },
        ),
{
}

/// At each place the total grows by the sum of the delays that belong there, and the
/// count by their number. The packets grow by their number too. All of them wrap around.
#[verifier::rlimit(40)]
pub proof fn books_add_up(stats: Stats, entries: Seq<Entry>, place: Place)
    requires
        stats.wf(),
        stats.has_place(place),
    ensures
        ({
            let after = stats.booked_all(entries);
            &&& after.total_at(place) == wrapped(
                stats.total_at(place) + stats.sum_at(entries, place),
            )
            &&& after.count_at(place) == wrapped(
                stats.count_at(place) + stats.number_at(entries, place),
            )
            &&& after.packets == wrapped(stats.packets + packets_in(entries))
            &&& after.settings == stats.settings
            &&& after.thread_totals.len() == stats.thread_totals.len()
            &&& after.thread_counts.len() == stats.thread_counts.len()
        }),
    decreases entries.len(),
{
    if entries.len() != 0 {
        let rest = entries.drop_last();
        books_add_up(stats, rest, place);
        let before = stats.booked_all(rest);
        match entries.last() {
            Entry::Delay { id, source, d_ms } => {
                counted_in_one_place(stats, id, source, d_ms);
                wrapping_steps_add_up(stats.total_at(place) + stats.sum_at(rest, place), d_ms);
                wrapping_steps_add_up(stats.count_at(place) + stats.number_at(rest, place), 1);
                assert(before.thread_of(id) == stats.thread_of(id));
            },
            Entry::Packet => {
                wrapping_steps_add_up(stats.packets + packets_in(rest), 1);
            },
        }
    }
}

/// A report shows what came since the last one and nothing else: the totals are the
/// sums of all delays since then, and the counts their numbers.
pub proof fn report_shows_what_came_since(stats: Stats, entries: Seq<Entry>)
    requires
        stats.wf(),
    ensures
        ({
            let internal = Place::Sum(Source::Internal);
            let external = Place::Sum(Source::External);
            stats.sums_cleared().booked_all(entries).line() == DelayLine {
                internal_total: wrapped(stats.sum_at(entries, internal)),
                internal_count: at_least_one(wrapped(stats.number_at(entries, internal) as int)),
                external_total: wrapped(stats.sum_at(entries, external)),
                external_count: at_least_one(wrapped(stats.number_at(entries, external) as int)),
                packets: wrapped(packets_in(entries) as int),
            }
        }),
{
    let cleared = stats.sums_cleared();
    let internal = Place::Sum(Source::Internal);
    let external = Place::Sum(Source::External);
    books_add_up(cleared, entries, internal);
    books_add_up(cleared, entries, external);
    places_go_by_settings(cleared, stats, entries, internal);
    places_go_by_settings(cleared, stats, entries, external);
}

/// The report of a server thread shows what came for it since its last one and nothing
/// else: its total is the sum of all delays since then, and its count their number.
/// Clearing leaves the sums of the other threads alone.
pub proof fn thread_report_shows_what_came_since(stats: Stats, tid: int, entries: Seq<Entry>)
    requires
        stats.wf(),
        0 <= tid < stats.thread_totals.len(),
    ensures
        ({
            let place = Place::Thread(tid);
            let cleared = stats.thread_cleared(tid).external_cleared();
            let after = cleared.booked_all(entries);
            &&& after.thread_totals[tid] == wrapped(stats.sum_at(entries, place))
            &&& at_least_one(after.thread_counts[tid]) == at_least_one(
                wrapped(stats.number_at(entries, place) as int),
            )
            &&& forall|other: int|
                0 <= other < stats.thread_totals.len() && other != tid ==> {
                    &&& #[trigger] cleared.thread_totals[other] == stats.thread_totals[other]
                    &&& cleared.thread_counts[other] == stats.thread_counts[other]
                }
        }),
{
    let place = Place::Thread(tid);
    let cleared = stats.thread_cleared(tid).external_cleared();
    books_add_up(cleared, entries, place);
    places_go_by_settings(cleared, stats, entries, place);
}

/// What belongs to a place depends on the settings alone.
proof fn places_go_by_settings(a: Stats, b: Stats, entries: Seq<Entry>, place: Place)
    requires
        a.settings == b.settings,
    ensures
        a.sum_at(entries, place) == b.sum_at(entries, place),
        a.number_at(entries, place) == b.number_at(entries, place),
    decreases entries.len(),
{
    if entries.len() != 0 {
        places_go_by_settings(a, b, entries.drop_last(), place);
    }
}

/// A report is due whenever everybody plays and at least a second has passed, however
/// much more it is.
pub proof fn reports_come_after_each_second(player_num: usize, max_test: u64, elapsed_time: u128)
    ensures
        report_due(player_num, max_test, elapsed_time) <==> player_num >= max_test
            && elapsed_time >= 1_000_000_000,
{
}

/// A tick that passes a full second, with everybody playing, always leads to a line:
/// the tick is given out, and with the time that it gives a report is due.
pub proof fn a_tick_past_a_second_leads_to_a_line(
    elapsed: u128,
    waited: bool,
    since_tick: u128,
    player_num: usize,
    max_test: u64,
)
    requires
        !waited || since_tick > 16_000_000,
        1_000_000_000 <= elapsed + since_tick <= u128::MAX,
        player_num >= max_test,
    ensures
        Ticker::due(waited, since_tick),
        report_due(player_num, max_test, (elapsed + since_tick) as u128),
{
}

/// A line shows the sums of the books. Where nothing was counted, it shows one, so that
/// it can be divided by.
pub proof fn a_line_shows_the_sums(stats: Stats)
    ensures
        stats.line().internal_total == stats.internal_total,
        stats.line().external_total == stats.external_total,
        stats.line().packets == stats.packets,
        stats.internal_count >= 1 ==> stats.line().internal_count == stats.internal_count,
        stats.internal_count < 1 ==> stats.line().internal_count == 1,
        stats.external_count >= 1 ==> stats.line().external_count == stats.external_count,
        stats.external_count < 1 ==> stats.line().external_count == 1,
{
}

/// What the average is divided by is the count, but at least one.
pub proof fn divisors_are_positive(count: i64)
    ensures
        count >= 1 ==> at_least_one(count) == count,
        count < 1 ==> at_least_one(count) == 1,
{
}

/// A report sets its sums to zero and leaves everything else alone.
pub proof fn reports_clear_their_sums(stats: Stats, tid: int)
    requires
        0 <= tid < stats.thread_totals.len(),
        stats.thread_totals.len() == stats.thread_counts.len(),
    ensures
        stats.sums_cleared() == (Stats {
            internal_total: 0,
            internal_count: 0,
            external_total: 0,
            external_count: 0,
            packets: 0,
            ..stats
        }),
        stats.thread_cleared(tid).external_cleared() == (Stats {
            thread_totals: stats.thread_totals.update(tid, 0),
            thread_counts: stats.thread_counts.update(tid, 0),
            external_total: 0,
            external_count: 0,
            packets: 0,
            ..stats
        }),
{
}

} // verus!
