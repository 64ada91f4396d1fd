//! From the bytes of a stream to what its packets mean.
use crate::delay::{
    a_delay_is_the_time_since_the_move, handed_over, off_the_clock, wrapped,
    wrapping_steps_add_up, DelaySender, DelayStats, Observation,
    Settings, Source, Stats,
};
use crate::error::ClientError;
use crate::packet::{from_bytes, Incoming, SCPacketType, SCPosPlayer};
use crate::player::{composed, coordinates, position_round_trip, Player};
use vstd::prelude::*;

verus! {

/// How many bytes a client's receive buffer has.
pub const RECV_SIZE: usize = 1024;

/// What stands behind the whole packets of a stretch of bytes.
#[verifier::ext_equal]
pub enum Tail {
    /// Nothing.
    Empty,
    /// The beginning of a packet whose end is still to come.
    Partial(Seq<u8>),
    /// A packet that announces fewer bytes than a header has.
    Bad(u8),
}

/// A stretch of bytes, cut into packets.
#[verifier::ext_equal]
pub struct Split {
    /// The whole packets, in order.
    pub frames: Seq<Seq<u8>>,
    pub tail: Tail,
}

/// Cuts a stretch of bytes into packets: the first byte of each says how many
/// bytes it has.
pub open spec fn split(bytes: Seq<u8>) -> Split
    decreases bytes.len(),
{
    if bytes.len() == 0 {
        Split { frames: Seq::empty(), tail: Tail::Empty }
    } else if bytes[0] < 2 {
        Split { frames: Seq::empty(), tail: Tail::Bad(bytes[0]) }
    } else if bytes[0] > bytes.len() {
        Split { frames: Seq::empty(), tail: Tail::Partial(bytes) }
    } else {
        let rest = split(bytes.skip(bytes[0] as int));
        Split { frames: seq![bytes.take(bytes[0] as int)] + rest.frames, tail: rest.tail }
    }
}

/// A packet that tells a position has the size of one.
pub open spec fn fits(frame: Seq<u8>) -> bool {
    frame.len() >= 2 && SCPacketType::with_code(frame[1] as int) == Some(SCPacketType::SC_POS)
        ==> frame.len() == SCPosPlayer::size()
}

/// Every whole packet that tells a position has the size of one.
pub open spec fn all_fit(bytes: Seq<u8>) -> bool {
    forall|i: int| 0 <= i < split(bytes).frames.len() ==> fits(#[trigger] split(bytes).frames[i])
}

/// How many bytes stand before the first position packet of a wrong size: all of them,
/// if there is none.
pub open spec fn fitting(bytes: Seq<u8>) -> nat
    decreases bytes.len(),
{
    if bytes.len() == 0 || bytes[0] < 2 || bytes[0] > bytes.len() {
        bytes.len()
    } else if !fits(bytes.take(bytes[0] as int)) {
        0
    } else {
        bytes[0] as nat + fitting(bytes.skip(bytes[0] as int))
    }
}

/// What handling one packet comes to.
pub struct Processed {
    pub player: Player,
    pub stats: Stats,
    /// The delays handed to the log, each with whether the log took it.
    pub logged: Seq<(i64, bool)>,
    pub result: Result<(), ClientError>,
}

/// The packet tells where the player with this id is.
pub open spec fn tells(packet: Seq<u8>, id: i32) -> bool {
    &&& packet.len() >= 2
    &&& packet[1] == SCPacketType::SC_POS.code()
    &&& SCPosPlayer::decode(packet).id == id
}

/// The delay that a packet asks to be measured, if it asks for one: for whom it counts,
/// whose move it belongs to, and when the move was made. Only positions with a stamp ask
/// for it: one's own always, another player's only if that is wanted.
pub open spec fn wanted_delay(packet: Seq<u8>, id: i32, settings: Settings) -> Option<
    (i64, Source, u32),
> {
    let p = SCPosPlayer::decode(packet);
    if packet.len() < 2 || SCPacketType::with_code(packet[1] as int) != Some(SCPacketType::SC_POS)
        || p.move_time() == 0 {
        None
    } else if p.id == id {
        Some((id as i64, Source::Internal, p.move_time()))
    } else if settings.calc_external_delay {
        Some(((-1) as i64, Source::External, p.move_time()))
    } else {
        None
    }
}

/// If the packet asks for a delay, the moment was read off the clock.
pub open spec fn clocked(
    packet: Seq<u8>,
    id: i32,
    settings: Settings,
    seen: Observation,
) -> bool {
    wanted_delay(packet, id, settings) is Some ==> off_the_clock(seen.now)
}

/// For each packet that asks for a delay, the moment was read off the clock.
pub open spec fn all_clocked(
    frames: Seq<Seq<u8>>,
    id: i32,
    settings: Settings,
    seen: Seq<Observation>,
) -> bool {
    forall|i: int| 0 <= i < seen.len() ==> clocked(frames[i], id, settings, #[trigger] seen[i])
}

/// The player after a packet: moved, if the packet tells its position.
pub open spec fn moved(packet: Seq<u8>, player: Player) -> Player {
    if tells(packet, player.id) {
        let p = SCPosPlayer::decode(packet);
        Player { position: composed(p.x, p.y), ..player }
    } else {
        player
    }
}

/// What handling a packet comes to, for a given observation. Only positions matter:
/// one's own moves the player, and the delay that the packet asks for is measured.
pub open spec fn processed(
    packet: Seq<u8>,
    player: Player,
    stats: Stats,
    seen: Observation,
) -> Processed {
    if packet.len() < 2 {
        Processed {
            player,
            stats,
            logged: Seq::empty(),
            result: Err(ClientError::NoTypeField),
        }
    } else {
        match wanted_delay(packet, player.id, stats.settings) {
            Some((id, source, move_time)) => {
                let a = stats.adjusted(id, source, move_time, seen);
                Processed {
                    player: moved(packet, player),
                    stats: a.stats,
                    logged: a.logged,
                    result: a.result,
                }
            },
            None => Processed {
                player: moved(packet, player),
                stats,
                logged: Seq::empty(),
                result: Ok(()),
            },
        }
    }
}

/// How far the handling of a row of packets has come.
#[verifier::ext_equal]
pub struct Progress {
    pub player: Player,
    pub stats: Stats,
    /// The delays handed to the log, each with whether the log took it.
    pub logged: Seq<(i64, bool)>,
    /// How many packets were handled without an error.
    pub done: nat,
    pub result: Result<(), ClientError>,
}

impl Progress {
    /// Nothing is handled yet.
    pub open spec fn start(player: Player, stats: Stats) -> Progress {
        Progress { player, stats, logged: Seq::empty(), done: 0, result: Ok(()) }
    }

    /// One more packet is handled, unless an earlier one failed.
    pub open spec fn then_packet(self, packet: Seq<u8>, seen: Observation) -> Progress {
        if self.result is Err {
            self
        } else {
            let p = processed(packet, self.player, self.stats, seen);
            match p.result {
                Ok(_) => Progress {
                    player: p.player,
                    stats: p.stats.received(),
                    logged: self.logged + p.logged,
                    done: self.done + 1,
                    result: Ok(()),
                },
                Err(e) => Progress {
                    player: p.player,
                    stats: p.stats,
                    logged: self.logged + p.logged,
                    done: self.done,
                    result: Err(e),
                },
            }
        }
    }

    /// The packets are handled one after the other, up to the first that fails,
    /// with one observation for each.
    pub open spec fn then_packets(self, frames: Seq<Seq<u8>>, seen: Seq<Observation>) -> Progress
        decreases seen.len(),
    {
        if seen.len() == 0 {
            self
        } else {
            self.then_packets(frames, seen.drop_last()).then_packet(
                frames[seen.len() - 1],
                seen.last(),
            )
        }
    }
}

/// What handling a filled stretch of the receive buffer comes to.
#[verifier::ext_equal]
pub struct Assembled {
    pub progress: Progress,
    /// The receive buffer afterwards.
    pub buf: Seq<u8>,
    /// How many bytes at its front wait for the rest of their packet.
    pub pending: int,
    pub result: Result<(), ClientError>,
}

/// What handling the first `filled` bytes of the receive buffer comes to, with
/// one observation for each whole packet in them. The beginning of a packet that
/// is still to be completed moves to the front of the buffer.
pub open spec fn assembled(
    buf: Seq<u8>,
    filled: int,
    pending: int,
    start: Progress,
    seen: Seq<Observation>,
) -> Assembled {
    let cut = split(buf.take(filled));
    let progress = start.then_packets(cut.frames, seen);
    let left = if progress.done > 0 {
        0
    } else {
        pending
    };
    match progress.result {
        Err(e) => Assembled { progress, buf, pending: left, result: Err(e) },
        Ok(_) => match cut.tail {
            Tail::Empty => Assembled { progress, buf, pending: left, result: Ok(()) },
            Tail::Bad(size) => Assembled {
                progress,
                buf,
                pending: left,
                result: Err(ClientError::PacketTooSmall(size as usize)),
            },
            Tail::Partial(rest) => Assembled {
                progress,
                buf: rest + buf.skip(rest.len() as int),
                pending: rest.len() as int,
                result: Ok(()),
            },
        },
    }
}

/// Judges what a read from the stream gave: no byte means that the peer is gone.
pub fn read_packet(read_size: usize) -> (result: Result<usize, ClientError>)
    ensures
        read_size > 0 ==> result == Ok::<usize, ClientError>(read_size),
        read_size == 0 ==> result == Err::<usize, ClientError>(ClientError::ReadZero),
{
    if read_size > 0 {
        Ok(read_size)
    } else {
        Err(ClientError::ReadZero)
    }
}

/// Tells which delay a packet asks to be measured, if it asks for one.
pub fn delay_to_measure(packet: &[u8], player: &Player, settings: &Settings) -> (wanted: Option<
    (i64, Source, u32),
>)
    requires
        fits(packet@),
    ensures
        wanted == wanted_delay(packet@, player.id, *settings),
{
    if packet.len() < 2 {
        return None;
    }
    match SCPacketType::from_u8(packet[1]) {
        Some(SCPacketType::SC_POS) => {
            let p: SCPosPlayer = from_bytes(packet);
            let move_time: u32 = p.get_move_time();
            if move_time == 0 {
                None
            } else if player.id == p.id {
                Some((player.id as i64, Source::Internal, move_time))
            } else if settings.calc_external_delay {
                Some((-1, Source::External, move_time))
            } else {
                None
            }
        },
        _ => None,
    }
}

/// Handles one packet. The clock and the log decide how it goes: whatever they
/// say, the outcome is the one that [`processed`] gives for it, with the moment that the
/// clock gave.
pub fn process_packet(
    packet: &[u8],
    player: &mut Player,
    stats: &mut DelayStats,
    delay_send: &mut DelaySender,
) -> (result: Result<(), ClientError>)
    requires
        old(stats)@.wf(),
        fits(packet@),
    ensures
        final(stats)@.wf(),
        exists|seen: Observation|
            {
                let outcome = #[trigger] processed(packet@, *old(player), old(stats)@, seen);
                &&& clocked(packet@, old(player).id, old(stats)@.settings, seen)
                &&& *final(player) == outcome.player
                &&& final(stats)@ == outcome.stats
                &&& handed_over(*final(delay_send)) == handed_over(*old(delay_send)) + outcome.logged
                &&& result == outcome.result
            },
{
    let ghost player0 = *player;
    let ghost stats0 = stats@;
    let ghost handed = handed_over(*delay_send);
    let ghost any = Observation { now: None, sent: true };
    assert(handed + Seq::empty() =~= handed);
    if packet.len() < 2 {
        assert(processed(packet@, player0, stats0, any).result == Err::<(), ClientError>(
            ClientError::NoTypeField,
        ));
        return Err(ClientError::NoTypeField);
    }
    let wanted = delay_to_measure(packet, player, &stats.settings);
    match SCPacketType::from_u8(packet[1]) {
        Some(SCPacketType::SC_POS) => {
            let p: SCPosPlayer = from_bytes(packet);
            if player.id == p.id {
                player.set_pos(p.x, p.y);
            }
        },
        _ => {},
    }
    assert(*player == moved(packet@, player0));
    match wanted {
        Some((id, source, move_time)) => {
            let result = stats.adjust_delay(id, source, move_time, delay_send);
            proof {
                let seen = choose|seen: Observation|
                    {
                        let outcome = #[trigger] stats0.adjusted(id, source, move_time, seen);
                        &&& off_the_clock(seen.now)
                        &&& stats@ == outcome.stats
                        &&& handed_over(*delay_send) == handed + outcome.logged
                        &&& result == outcome.result
                    };
                assert(processed(packet@, player0, stats0, seen).stats == stats@);
            }
            result
        },
        None => {
            assert(processed(packet@, player0, stats0, any).stats == stats@);
            Ok(())
        },
    }
}

/// Once a packet has failed, later ones are not handled.
proof fn failed_stays_failed(
    start: Progress,
    frames: Seq<Seq<u8>>,
    seen: Seq<Observation>,
    more: Seq<Observation>,
)
    requires
        start.then_packets(frames, seen).result is Err,
    ensures
        start.then_packets(frames, seen + more) == start.then_packets(frames, seen),
    decreases more.len(),
{
    if more.len() == 0 {
        assert(seen + more =~= seen);
    } else {
        failed_stays_failed(start, frames, seen, more.drop_last());
        assert((seen + more).drop_last() =~= seen + more.drop_last());
    }
}

/// The packets that `seen` belongs to were all handled, and left things so.
spec fn reached(
    start: Progress,
    frames: Seq<Seq<u8>>,
    seen: Seq<Observation>,
    player: Player,
    stats: Stats,
    handed_before: Seq<(i64, bool)>,
    handed: Seq<(i64, bool)>,
) -> bool {
    let progress = start.then_packets(frames, seen);
    &&& progress.player == player
    &&& progress.stats == stats
    &&& progress.done == seen.len()
    &&& progress.result is Ok
    &&& handed == handed_before + progress.logged
}

/// One more moment was read off the clock, if it had to be.
proof fn one_more_clocked(
    frames: Seq<Seq<u8>>,
    id: i32,
    settings: Settings,
    seen: Seq<Observation>,
    one: Observation,
)
    requires
        all_clocked(frames, id, settings, seen),
        clocked(frames[seen.len() as int], id, settings, one),
    ensures
        all_clocked(frames, id, settings, seen.push(one)),
{
    let all = seen.push(one);
    assert forall|i: int| 0 <= i < all.len() implies clocked(
        frames[i],
        id,
        settings,
        #[trigger] all[i],
    ) by {
        if i < seen.len() {
            assert(all[i] == seen[i]);
        }
    }
}

/// A packet that has a type fails only after the clock was asked.
proof fn failures_are_clocked(packet: Seq<u8>, player: Player, stats: Stats, one: Observation)
    requires
        packet.len() >= 2,
        processed(packet, player, stats, one).result is Err,
        clocked(packet, player.id, stats.settings, one),
    ensures
        off_the_clock(one.now),
{
}

/// The moment of a packet that failed can stand for those of the packets behind it.
proof fn rest_clocked(
    frames: Seq<Seq<u8>>,
    id: i32,
    settings: Settings,
    seen: Seq<Observation>,
    one: Observation,
    more: Seq<Observation>,
)
    requires
        all_clocked(frames, id, settings, seen),
        off_the_clock(one.now),
        forall|i: int| 0 <= i < more.len() ==> #[trigger] more[i] == one,
    ensures
        all_clocked(frames, id, settings, seen.push(one) + more),
{
    let all = seen.push(one) + more;
    assert forall|i: int| 0 <= i < all.len() implies clocked(
        frames[i],
        id,
        settings,
        #[trigger] all[i],
    ) by {
        if i < seen.len() {
            assert(all[i] == seen[i]);
        } else if i > seen.len() {
            assert(all[i] == more[i - seen.len() - 1]);
        }
    }
}

/// One more packet is handled.
proof fn one_more(
    start: Progress,
    frames: Seq<Seq<u8>>,
    seen: Seq<Observation>,
    player: Player,
    stats: Stats,
    handed_before: Seq<(i64, bool)>,
    handed: Seq<(i64, bool)>,
    one: Observation,
)
    requires
        reached(start, frames, seen, player, stats, handed_before, handed),
    ensures
        ({
            let packet = frames[seen.len() as int];
            let outcome = processed(packet, player, stats, one);
            let progress = start.then_packets(frames, seen.push(one));
            &&& progress.player == outcome.player
            &&& handed + outcome.logged == handed_before + progress.logged
            &&& progress.result == outcome.result
            &&& outcome.result is Ok ==> {
                &&& progress.stats == outcome.stats.received()
                &&& progress.done == seen.len() + 1
            }
            &&& outcome.result is Err ==> {
                &&& progress.stats == outcome.stats
                &&& progress.done == seen.len()
            }
        }),
{
    let before = start.then_packets(frames, seen);
    let packet = frames[seen.len() as int];
    let outcome = processed(packet, player, stats, one);
    assert(seen.push(one).drop_last() =~= seen);
    let after = start.then_packets(frames, seen.push(one));
    assert(after == before.then_packet(packet, one));
    assert(handed + outcome.logged =~= handed_before + after.logged);
}

/// Behind the first `n` packets, which end at `head`, stands the rest of the cut.
spec fn cut_reached(bytes: Seq<u8>, head: int, n: int) -> bool {
    &&& 0 <= head <= bytes.len()
    &&& 0 <= n <= split(bytes).frames.len()
    &&& split(bytes.skip(head)) == (Split {
        frames: split(bytes).frames.skip(n),
        tail: split(bytes).tail,
    })
}

/// The cut starts at the first byte.
proof fn cut_starts(bytes: Seq<u8>)
    ensures
        cut_reached(bytes, 0, 0),
{
    assert(bytes.skip(0) =~= bytes);
    assert(split(bytes).frames.skip(0) =~= split(bytes).frames);
}

/// A whole packet at `head` is the next of the cut.
proof fn cut_advances(bytes: Seq<u8>, head: int, n: int)
    requires
        cut_reached(bytes, head, n),
        head < bytes.len(),
        2 <= bytes[head] <= bytes.len() - head,
    ensures
        n < split(bytes).frames.len(),
        split(bytes).frames[n] == bytes.subrange(head, head + bytes[head]),
        cut_reached(bytes, head + bytes[head], n + 1),
{
    let frames = split(bytes).frames;
    let rest = bytes.skip(head);
    let size = bytes[head] as int;
    assert(rest[0] == bytes[head]);
    assert(rest.skip(size) =~= bytes.skip(head + size));
    assert(rest.take(size) =~= bytes.subrange(head, head + size));
    assert(split(rest).frames[0] == rest.take(size));
    assert(frames.skip(n).len() > 0);
    assert(frames.skip(n)[0] == frames[n]);
    assert(split(rest).frames.skip(1) =~= split(rest.skip(size)).frames);
    assert(frames.skip(n).skip(1) =~= frames.skip(n + 1));
}

/// Where no whole packet stands at `head`, the cut is at its end.
proof fn cut_ends(bytes: Seq<u8>, head: int, n: int)
    requires
        cut_reached(bytes, head, n),
        head == bytes.len() || bytes[head] < 2 || bytes[head] > bytes.len() - head,
    ensures
        n == split(bytes).frames.len(),
        split(bytes).tail == (if head == bytes.len() {
            Tail::Empty
        } else if bytes[head] < 2 {
            Tail::Bad(bytes[head])
        } else {
            Tail::Partial(bytes.skip(head))
        }),
{
    assert(split(bytes).frames.skip(n).len() == split(bytes).frames.len() - n);
    if head < bytes.len() {
        assert(bytes.skip(head)[0] == bytes[head]);
    }
}

/// As many bytes as the first one says are one packet.
pub(crate) proof fn one_whole_packet(bytes: Seq<u8>)
    requires
        is_frame(bytes),
    ensures
        split(bytes) == (Split { frames: seq![bytes], tail: Tail::Empty }),
{
    let size = bytes[0] as int;
    assert(bytes.take(size) =~= bytes);
    assert(bytes.skip(size).len() == 0);
    assert(split(bytes.skip(size)).frames.len() == 0);
    assert(split(bytes).frames =~= seq![bytes]);
}

/// The bytes up to the end of the first `n` packets, cut for themselves, are these
/// packets. With the whole packet that follows they are one more.
proof fn cut_before_advances(bytes: Seq<u8>, head: int, n: int)
    requires
        cut_reached(bytes, head, n),
        head < bytes.len(),
        2 <= bytes[head] <= bytes.len() - head,
        split(bytes.take(head)) == (Split {
            frames: split(bytes).frames.take(n),
            tail: Tail::Empty,
        }),
    ensures
        split(bytes.take(head + bytes[head])) == (Split {
            frames: split(bytes).frames.take(n + 1),
            tail: Tail::Empty,
        }),
{
    let frames = split(bytes).frames;
    let before = bytes.take(head);
    let packet = bytes.subrange(head, head + bytes[head]);
    cut_advances(bytes, head, n);
    one_whole_packet(packet);
    split_of_stream(before, packet);
    assert(leftover(before) + packet =~= packet);
    assert(bytes.take(head + bytes[head]) =~= before + packet);
    assert(frames.take(n + 1) =~= frames.take(n) + seq![packet]);
}

/// How many of the first `filled` bytes of `buf` [`assemble_packet`] can handle: all
/// of them, or those before the first position packet of a wrong size.
pub fn fitting_len(buf: &[u8], filled: usize) -> (len: usize)
    requires
        filled <= buf@.len(),
    ensures
        len == fitting(buf@.take(filled as int)),
        len <= filled,
        all_fit(buf@.take(len as int)),
        all_fit(buf@.take(filled as int)) ==> len == filled,
        len < filled ==> {
            let cut = split(buf@.take(filled as int));
            let n = split(buf@.take(len as int)).frames.len() as int;
            &&& split(buf@.take(len as int)) == (Split {
                frames: cut.frames.take(n),
                tail: Tail::Empty,
            })
            &&& n < cut.frames.len()
            &&& !fits(cut.frames[n])
        },
{
    let ghost bytes = buf@.take(filled as int);
    let ghost frames = split(bytes).frames;
    let ghost mut n: int = 0;
    let mut head: usize = 0;
    proof {
        cut_starts(bytes);
        assert(split(bytes.take(0)).frames =~= frames.take(0));
        assert(bytes.skip(0) =~= bytes);
    }
    while head < filled
        invariant
            head <= filled <= buf@.len(),
            bytes == buf@.take(filled as int),
            frames == split(bytes).frames,
            cut_reached(bytes, head as int, n),
            split(bytes.take(head as int)) == (Split { frames: frames.take(n), tail: Tail::Empty }),
            forall|i: int| 0 <= i < n ==> fits(#[trigger] frames[i]),
            fitting(bytes) == head + fitting(bytes.skip(head as int)),
        ensures
            n == frames.len(),
            fitting(bytes) == filled,
        decreases filled - head,
    {
        let size: usize = buf[head] as usize;
        assert(bytes.skip(head as int)[0] == size);
        if size < 2 || size > filled - head {
            proof {
                cut_ends(bytes, head as int, n);
            }
            break ;
        }
        proof {
            cut_advances(bytes, head as int, n);
            assert(bytes.skip(head as int).take(size as int) =~= frames[n]);
            assert(bytes.skip(head as int).skip(size as int) =~= bytes.skip(head + size));
        }
        match SCPacketType::from_u8(buf[head + 1]) {
            Some(SCPacketType::SC_POS) => if size != SCPosPlayer::packet_size() {
                proof {
                    assert(!fits(frames[n]));
                    assert(bytes.take(head as int) =~= buf@.take(head as int));
                    assert forall|i: int| 0 <= i < n implies fits(#[trigger] frames.take(n)[i]) by {
                        assert(fits(frames[i]));
                    }
                }
                return head;
            },
            _ => {},
        }
        proof {
            assert(fits(frames[n]));
            cut_before_advances(bytes, head as int, n);
            n = n + 1;
            if head + size == filled {
                cut_ends(bytes, head + size, n);
            }
        }
        head += size;
    }
    proof {
        if filled == 0 {
            cut_ends(bytes, 0, n);
        }
    }
    filled
}

/// Copies `len` bytes that start at `from` to the front of `buf`.
fn copy_to_front(buf: &mut [u8], from: usize, len: usize)
    requires
        from + len <= old(buf)@.len(),
    ensures
        final(buf)@ == old(buf)@.subrange(from as int, from + len) + old(buf)@.skip(len as int),
{
    let ghost buf0 = buf@;
    let size: usize = buf.len();
    let mut i: usize = 0;
    while i < len
        invariant
            i <= len,
            from + len <= size == buf0.len(),
            buf0 == old(buf)@,
            buf@.len() == buf0.len(),
            forall|k: int| 0 <= k < i ==> buf@[k] == buf0[from + k],
            forall|k: int| i <= k < buf0.len() ==> buf@[k] == buf0[k],
        decreases len - i,
    {
        let byte: u8 = buf[from + i];
        buf[i] = byte;
        i += 1;
    }
    assert(buf@ =~= buf0.subrange(from as int, from + len) + buf0.skip(len as int));
}

/// Handles the bytes that have come in: the first `*prev_packet_size` bytes of
/// `buf` were waiting, and `received_size` more follow them. Whole packets are
/// handled in order. What is left of one that is still to be completed moves to
/// the front of `buf`, and `*prev_packet_size` says how long it is.
#[verifier::rlimit(100)]
pub fn assemble_packet(
    player: &mut Player,
    stats: &mut DelayStats,
    buf: &mut [u8],
    prev_packet_size: &mut usize,
    received_size: usize,
    delay_send: &mut DelaySender,
) -> (result: Result<(), ClientError>)
    requires
        old(stats)@.wf(),
        *old(prev_packet_size) + received_size <= old(buf)@.len(),
        all_fit(old(buf)@.take(*old(prev_packet_size) + received_size)),
    ensures
        final(stats)@.wf(),
        exists|seen: Seq<Observation>|
            {
                let outcome = #[trigger] assembled(
                    old(buf)@,
                    *old(prev_packet_size) + received_size,
                    *old(prev_packet_size) as int,
                    Progress::start(*old(player), old(stats)@),
                    seen,
                );
                &&& seen.len() == split(
                    old(buf)@.take(*old(prev_packet_size) + received_size),
                ).frames.len()
                &&& all_clocked(
                    split(old(buf)@.take(*old(prev_packet_size) + received_size)).frames,
                    old(player).id,
                    old(stats)@.settings,
                    seen,
                )
                &&& *final(player) == outcome.progress.player
                &&& final(stats)@ == outcome.progress.stats
                &&& handed_over(*final(delay_send)) == handed_over(*old(delay_send))
                    + outcome.progress.logged
                &&& final(buf)@ == outcome.buf
                &&& *final(prev_packet_size) == outcome.pending
                &&& result == outcome.result
            },
{
    let size: usize = buf.len();
    let filled: usize = *prev_packet_size + received_size;
    let ghost buf0 = buf@;
    let ghost pending0 = *prev_packet_size as int;
    let ghost bytes = buf@.take(filled as int);
    let ghost frames = split(bytes).frames;
    let ghost start = Progress::start(*player, stats@);
    let ghost handed = handed_over(*delay_send);
    let ghost mut seen: Seq<Observation> = Seq::empty();
    let mut packet_head_idx: usize = 0;
    proof {
        cut_starts(bytes);
        assert(handed + start.logged =~= handed);
    }
    while packet_head_idx < filled
        invariant
            buf0 == old(buf)@,
            pending0 == *old(prev_packet_size),
            filled == pending0 + received_size,
            start == Progress::start(*old(player), old(stats)@),
            handed == handed_over(*old(delay_send)),
            packet_head_idx <= filled <= buf0.len(),
            buf@ == buf0,
            bytes == buf0.take(filled as int),
            frames == split(bytes).frames,
            all_fit(bytes),
            stats@.wf(),
            cut_reached(bytes, packet_head_idx as int, seen.len() as int),
            reached(start, frames, seen, *player, stats@, handed, handed_over(*delay_send)),
            all_clocked(frames, start.player.id, start.stats.settings, seen),
            player.id == start.player.id,
            stats@.settings == start.stats.settings,
            *prev_packet_size == (if seen.len() > 0 {
                0
            } else {
                pending0
            }),
        decreases filled - packet_head_idx,
    {
        let packet_size: usize = buf[packet_head_idx] as usize;
        assert(bytes[packet_head_idx as int] == packet_size);
        if packet_size < 2 {
            proof {
                cut_ends(bytes, packet_head_idx as int, seen.len() as int);
                assert(assembled(buf0, filled as int, pending0, start, seen).result is Err);
            }
            return Err(ClientError::PacketTooSmall(packet_size));
        }
        if packet_size <= filled - packet_head_idx {
            let packet_tail_idx: usize = packet_head_idx + packet_size;
            let packet: &[u8] = &buf[packet_head_idx..packet_tail_idx];
            let ghost player1 = *player;
            let ghost stats1 = stats@;
            let ghost handed1 = handed_over(*delay_send);
            proof {
                cut_advances(bytes, packet_head_idx as int, seen.len() as int);
                assert(packet@ =~= frames[seen.len() as int]);
            }
            let result = process_packet(packet, player, stats, delay_send);
            let ghost one = choose|one: Observation|
                {
                    let outcome = #[trigger] processed(packet@, player1, stats1, one);
                    &&& clocked(packet@, player1.id, stats1.settings, one)
                    &&& *player == outcome.player
                    &&& stats@ == outcome.stats
                    &&& handed_over(*delay_send) == handed1 + outcome.logged
                    &&& result == outcome.result
                };
            proof {
                one_more(start, frames, seen, player1, stats1, handed, handed1, one);
                packet_moves_only_its_player(packet@, player1, stats1, one);
                one_more_clocked(frames, start.player.id, start.stats.settings, seen, one);
            }
            if result.is_err() {
                proof {
                    let more = Seq::new((frames.len() - seen.len() - 1) as nat, |i: int| one);
                    let all = seen.push(one) + more;
                    failed_stays_failed(start, frames, seen.push(one), more);
                    failures_are_clocked(packet@, player1, stats1, one);
                    rest_clocked(frames, start.player.id, start.stats.settings, seen, one, more);
                    assert(all.len() == frames.len());
                    assert(assembled(buf0, filled as int, pending0, start, all).result is Err);
                }
                return result;
            }
            stats.count_packet();
            packet_head_idx = packet_tail_idx;
            *prev_packet_size = 0;
            proof {
                seen = seen.push(one);
            }
        } else {
            let left: usize = filled - packet_head_idx;
            copy_to_front(buf, packet_head_idx, left);
            *prev_packet_size = left;
            proof {
                cut_ends(bytes, packet_head_idx as int, seen.len() as int);
                let rest = bytes.skip(packet_head_idx as int);
                assert(buf@ =~= rest + buf0.skip(rest.len() as int));
                assert(assembled(buf0, filled as int, pending0, start, seen).pending == left);
            }
            return Ok(());
        }
    }
    proof {
        cut_ends(bytes, packet_head_idx as int, seen.len() as int);
        assert(assembled(buf0, filled as int, pending0, start, seen).result is Ok);
    }
    Ok(())
}

/// What waits at the front of the buffer is nothing, or the beginning of one packet.
pub open spec fn waits(buf: Seq<u8>, pending: int) -> bool {
    &&& 0 <= pending <= buf.len()
    &&& leftover(buf.take(pending)) == buf.take(pending)
}

/// What fits ends behind what waits, or is nothing.
proof fn fitting_passes_what_waits(buf: Seq<u8>, filled: int, pending: int)
    requires
        waits(buf, pending),
        pending <= filled <= buf.len(),
    ensures
        fitting(buf.take(filled)) == 0 || fitting(buf.take(filled)) >= pending,
{
    partial_is_short(buf.take(pending));
    if pending > 0 {
        assert(buf.take(pending).len() > 0);
        assert(buf.take(pending)[0] == buf.take(filled)[0]);
    }
}

/// Handling what has come in leaves at the front of the buffer what waits, whether or
/// not it fails.
pub proof fn what_waits_keeps_waiting(
    buf: Seq<u8>,
    filled: int,
    pending: int,
    start: Progress,
    seen: Seq<Observation>,
)
    requires
        waits(buf, pending),
        0 <= filled <= buf.len(),
    ensures
        ({
            let outcome = assembled(buf, filled, pending, start, seen);
            waits(outcome.buf, outcome.pending) && outcome.buf.len() == buf.len()
        }),
{
    let outcome = assembled(buf, filled, pending, start, seen);
    partial_is_short(buf.take(filled));
    assert(buf.take(0) =~= Seq::<u8>::empty());
    if let Tail::Partial(rest) = split(buf.take(filled)).tail {
        if outcome.result is Ok {
            assert(outcome.buf.take(outcome.pending) =~= rest);
        }
    }
}

/// Handles what a read gave: behind the first `*prev_packet_size` bytes of `buf`, which
/// were waiting, `read_size` more have come in. They are handled up to the first
/// position packet of a wrong size. The flag tells whether there is one.
pub fn handle_received(
    player: &mut Player,
    stats: &mut DelayStats,
    buf: &mut [u8],
    prev_packet_size: &mut usize,
    read_size: usize,
    delay_send: &mut DelaySender,
) -> (handled: (Result<(), ClientError>, bool))
    requires
        old(stats)@.wf(),
        *old(prev_packet_size) + read_size <= old(buf)@.len(),
        waits(old(buf)@, *old(prev_packet_size) as int),
    ensures
        final(stats)@.wf(),
        waits(final(buf)@, *final(prev_packet_size) as int),
        final(buf)@.len() == old(buf)@.len(),
        handled.1 == !all_fit(old(buf)@.take(*old(prev_packet_size) + read_size)),
        exists|seen: Seq<Observation>|
            {
                let fit = fitting(old(buf)@.take(*old(prev_packet_size) + read_size)) as int;
                let outcome = #[trigger] assembled(
                    old(buf)@,
                    fitting(old(buf)@.take(*old(prev_packet_size) + read_size)) as int,
                    *old(prev_packet_size) as int,
                    Progress::start(*old(player), old(stats)@),
                    seen,
                );
                &&& seen.len() == split(old(buf)@.take(fit)).frames.len()
                &&& all_clocked(
                    split(old(buf)@.take(fit)).frames,
                    old(player).id,
                    old(stats)@.settings,
                    seen,
                )
                &&& *final(player) == outcome.progress.player
                &&& final(stats)@ == outcome.progress.stats
                &&& handed_over(*final(delay_send)) == handed_over(*old(delay_send))
                    + outcome.progress.logged
                &&& final(buf)@ == outcome.buf
                &&& *final(prev_packet_size) == outcome.pending
                &&& handled.0 == outcome.result
            },
{
    let size: usize = buf.len();
    let filled: usize = *prev_packet_size + read_size;
    let fit: usize = fitting_len(buf, filled);
    let ghost buf0 = buf@;
    let ghost pending = *prev_packet_size as int;
    let ghost start = Progress::start(*player, stats@);
    proof {
        fitting_passes_what_waits(buf0, filled as int, pending);
    }
    if fit < *prev_packet_size {
        proof {
            let none = Seq::<Observation>::empty();
            assert(split(buf0.take(0)).frames.len() == 0);
            assert(handed_over(*delay_send) + Seq::empty() =~= handed_over(*delay_send));
            assert(assembled(buf0, fit as int, pending, start, none).result is Ok);
        }
        return (Ok(()), true);
    }
    let received_size: usize = fit - *prev_packet_size;
    let result = assemble_packet(player, stats, buf, prev_packet_size, received_size, delay_send);
    proof {
        let seen = choose|seen: Seq<Observation>|
            {
                let outcome = #[trigger] assembled(buf0, pending + received_size, pending, start, seen);
                &&& seen.len() == split(buf0.take(pending + received_size)).frames.len()
                &&& all_clocked(
                    split(buf0.take(pending + received_size)).frames,
                    start.player.id,
                    start.stats.settings,
                    seen,
                )
                &&& *player == outcome.progress.player
                &&& stats@ == outcome.progress.stats
                &&& handed_over(*delay_send) == handed_over(*old(delay_send))
                    + outcome.progress.logged
                &&& buf@ == outcome.buf
                &&& *prev_packet_size == outcome.pending
                &&& result == outcome.result
            };
        what_waits_keeps_waiting(buf0, fit as int, pending, start, seen);
        assert(assembled(buf0, fit as int, pending, start, seen).result == result);
    }
    (result, fit < filled)
}

/// What is left of a stretch of bytes once its whole packets are taken out.
pub open spec fn leftover(bytes: Seq<u8>) -> Seq<u8> {
    match split(bytes).tail {
        Tail::Partial(rest) => rest,
        _ => Seq::empty(),
    }
}

/// A whole packet has at least a header, and as many bytes as its first one says.
pub open spec fn is_frame(frame: Seq<u8>) -> bool {
    frame.len() >= 2 && frame[0] == frame.len()
}

/// Cutting loses and invents nothing: every packet of the cut has as many bytes as
/// it says, and joined again the packets and what is left over are the bytes that
/// were cut, unless a bad size stopped the cut.
pub proof fn split_covers(bytes: Seq<u8>)
    ensures
        forall|i: int| 0 <= i < split(bytes).frames.len() ==> is_frame(#[trigger] split(bytes).frames[i]),
        split(bytes).tail !is Bad ==> bytes == split(bytes).frames.flatten() + leftover(bytes),
        split(bytes).tail is Bad ==> split(bytes).frames.flatten().is_prefix_of(bytes),
    decreases bytes.len(),
{
    if bytes.len() != 0 && 2 <= bytes[0] <= bytes.len() {
        let size = bytes[0] as int;
        let first = bytes.take(size);
        let rest = bytes.skip(size);
        split_covers(rest);
        let frames = split(bytes).frames;
        assert(frames.drop_first() =~= split(rest).frames);
        assert(frames.first() == first);
        assert(frames.flatten() =~= first + split(rest).frames.flatten());
        assert(bytes =~= first + rest);
        assert forall|i: int| 0 <= i < frames.len() implies is_frame(#[trigger] frames[i]) by {
            if i > 0 {
                assert(frames[i] == split(rest).frames[i - 1]);
            }
        }
        if split(bytes).tail is Bad {
            assert(split(rest).frames.flatten().is_prefix_of(rest));
            assert(frames.flatten() =~= bytes.take(frames.flatten().len() as int));
        } else {
            assert(bytes =~= frames.flatten() + leftover(bytes));
        }
    } else {
        assert(split(bytes).frames.flatten() =~= Seq::<u8>::empty());
        assert(bytes =~= Seq::<u8>::empty() + bytes);
    }
}

/// Packets that were joined are cut again where they were joined.
pub proof fn split_of_joined(frames: Seq<Seq<u8>>)
    requires
        forall|i: int| 0 <= i < frames.len() ==> is_frame(#[trigger] frames[i]),
    ensures
        split(frames.flatten()) == (Split { frames, tail: Tail::Empty }),
    decreases frames.len(),
{
    let bytes = frames.flatten();
    if frames.len() != 0 {
        let first = frames.first();
        let others = frames.drop_first();
        assert(is_frame(frames[0]));
        assert forall|i: int| 0 <= i < others.len() implies is_frame(#[trigger] others[i]) by {
            assert(is_frame(frames[i + 1]));
        }
        split_of_joined(others);
        assert(bytes =~= first + others.flatten());
        assert(bytes.take(first.len() as int) =~= first);
        assert(bytes.skip(first.len() as int) =~= others.flatten());
        assert(bytes[0] == first[0]);
        assert(split(bytes).frames =~= frames);
    } else {
        assert(split(bytes).frames =~= frames);
    }
}

/// It does not matter how a stream is chopped up on its way: what is left over of
/// the bytes before, with the bytes that follow behind it, gives the packets that
/// the whole stream has next.
pub proof fn split_of_stream(before: Seq<u8>, after: Seq<u8>)
    requires
        split(before).tail !is Bad,
    ensures
        split(before + after) == (Split {
            frames: split(before).frames + split(leftover(before) + after).frames,
            tail: split(leftover(before) + after).tail,
        }),
    decreases before.len(),
{
    let all = before + after;
    if before.len() != 0 && 2 <= before[0] <= before.len() {
        let size = before[0] as int;
        let rest = before.skip(size);
        split_of_stream(rest, after);
        assert(all.skip(size) =~= rest + after);
        assert(all.take(size) =~= before.take(size));
        assert(all[0] == before[0]);
        assert(split(all).frames =~= split(before).frames + split(leftover(before) + after).frames);
    } else {
        assert(leftover(before) =~= before);
        assert(split(before).frames + split(all).frames =~= split(all).frames);
    }
}

/// A bad size ends a stream: what follows it is never looked at.
pub proof fn split_of_bad_stream(before: Seq<u8>, after: Seq<u8>)
    requires
        split(before).tail is Bad,
    ensures
        split(before + after) == split(before),
    decreases before.len(),
{
    let all = before + after;
    assert(all[0] == before[0]);
    if before[0] >= 2 {
        let size = before[0] as int;
        let rest = before.skip(size);
        split_of_bad_stream(rest, after);
        assert(all.skip(size) =~= rest + after);
        assert(all.take(size) =~= before.take(size));
    }
}

/// Handling packets in two rows is handling them in one.
pub proof fn packets_in_two_rows(
    start: Progress,
    first: Seq<Seq<u8>>,
    second: Seq<Seq<u8>>,
    seen_first: Seq<Observation>,
    seen_second: Seq<Observation>,
)
    requires
        seen_first.len() == first.len(),
        seen_second.len() <= second.len(),
    ensures
        start.then_packets(first + second, seen_first + seen_second) == start.then_packets(
            first,
            seen_first,
        ).then_packets(second, seen_second),
    decreases seen_second.len(),
{
    let frames = first + second;
    let seen = seen_first + seen_second;
    if seen_second.len() == 0 {
        assert(seen =~= seen_first);
        packets_before(start, frames, first, seen_first);
    } else {
        packets_in_two_rows(start, first, second, seen_first, seen_second.drop_last());
        assert(seen.drop_last() =~= seen_first + seen_second.drop_last());
        assert(frames[seen.len() - 1] == second[seen_second.len() - 1]);
    }
}

/// Only as many packets matter as there are observations.
proof fn packets_before(
    start: Progress,
    frames: Seq<Seq<u8>>,
    first: Seq<Seq<u8>>,
    seen: Seq<Observation>,
)
    requires
        seen.len() <= first.len(),
        first.is_prefix_of(frames),
    ensures
        start.then_packets(frames, seen) == start.then_packets(first, seen),
    decreases seen.len(),
{
    if seen.len() != 0 {
        packets_before(start, frames, first, seen.drop_last());
        assert(frames[seen.len() - 1] == first[seen.len() - 1]);
    }
}

/// What waits for the rest of its packet is always shorter than the longest packet,
/// so the receive buffer always has room for more.
pub proof fn pending_leaves_room(
    buf: Seq<u8>,
    filled: int,
    pending: int,
    start: Progress,
    seen: Seq<Observation>,
)
    requires
        0 <= filled <= buf.len(),
        0 <= pending <= 254,
    ensures
        0 <= assembled(buf, filled, pending, start, seen).pending <= 254 < RECV_SIZE,
        assembled(buf, filled, pending, start, seen).buf.len() == buf.len(),
{
    partial_is_short(buf.take(filled));
}

/// The beginning of a packet is shorter than the packet, and no longer than the
/// stretch that it ends. Cut for itself it is the beginning of a packet again.
proof fn partial_is_short(bytes: Seq<u8>)
    ensures
        split(bytes).tail is Partial ==> {
            &&& 1 <= leftover(bytes).len() <= 254
            &&& leftover(bytes).len() <= bytes.len()
            &&& leftover(bytes)[0] > leftover(bytes).len()
            &&& leftover(leftover(bytes)) == leftover(bytes)
        },
    decreases bytes.len(),
{
    if bytes.len() != 0 && 2 <= bytes[0] <= bytes.len() {
        partial_is_short(bytes.skip(bytes[0] as int));
    }
}

/// As long as nothing fails, every packet is handled.
proof fn all_handled(start: Progress, frames: Seq<Seq<u8>>, seen: Seq<Observation>)
    requires
        start.then_packets(frames, seen).result is Ok,
    ensures
        start.result is Ok,
        start.then_packets(frames, seen).done == start.done + seen.len(),
    decreases seen.len(),
{
    if seen.len() != 0 {
        all_handled(start, frames, seen.drop_last());
    }
}

/// What waits is what the cut left over: handling a stretch without an error leaves
/// exactly those bytes at the front of the buffer.
pub proof fn pending_is_leftover(
    buf: Seq<u8>,
    filled: int,
    pending: int,
    player: Player,
    stats: Stats,
    seen: Seq<Observation>,
)
    requires
        0 <= pending <= filled <= buf.len(),
        seen.len() == split(buf.take(filled)).frames.len(),
        assembled(buf, filled, pending, Progress::start(player, stats), seen).result is Ok,
    ensures
        ({
            let outcome = assembled(buf, filled, pending, Progress::start(player, stats), seen);
            &&& outcome.pending == leftover(buf.take(filled)).len()
            &&& outcome.buf.take(outcome.pending) == leftover(buf.take(filled))
        }),
{
    let start = Progress::start(player, stats);
    let outcome = assembled(buf, filled, pending, start, seen);
    partial_is_short(buf.take(filled));
    all_handled(start, split(buf.take(filled)).frames, seen);
    assert(outcome.buf.take(outcome.pending) =~= leftover(buf.take(filled)));
}

/// Handling goes by the player and the delays alone: what was handled and logged
/// before only adds up.
proof fn handling_continues(p: Progress, frames: Seq<Seq<u8>>, seen: Seq<Observation>)
    requires
        p.result is Ok,
    ensures
        ({
            let anew = Progress::start(p.player, p.stats).then_packets(frames, seen);
            p.then_packets(frames, seen) == Progress {
                logged: p.logged + anew.logged,
                done: p.done + anew.done,
                ..anew
            }
        }),
    decreases seen.len(),
{
    let anew = Progress::start(p.player, p.stats).then_packets(frames, seen);
    if seen.len() == 0 {
        assert(p.logged + anew.logged =~= p.logged);
        assert(p.result->Ok_0 == ());
    } else {
        handling_continues(p, frames, seen.drop_last());
        let before = Progress::start(p.player, p.stats).then_packets(frames, seen.drop_last());
        let one = processed(frames[seen.len() - 1], before.player, before.stats, seen.last());
        assert(p.logged + (before.logged + one.logged) =~= (p.logged + before.logged) + one.logged);
    }
}

/// It does not matter for what a client does how the stream is chopped up on its
/// way. Let a first stretch be handled without an error, and let `after` then come
/// in behind what waits (`next` is the buffer at that time). The player, the delays,
/// the log, the outcome and, without an error, what waits afterwards are then the
/// same as if all bytes had come at once (into a buffer `whole`).
pub proof fn chunks_handled_alike(
    buf: Seq<u8>,
    filled: int,
    pending: int,
    player: Player,
    stats: Stats,
    seen_first: Seq<Observation>,
    after: Seq<u8>,
    next: Seq<u8>,
    seen_second: Seq<Observation>,
    whole: Seq<u8>,
)
    requires
        0 <= pending <= filled <= buf.len(),
        seen_first.len() == split(buf.take(filled)).frames.len(),
        ({
            let first = assembled(buf, filled, pending, Progress::start(player, stats), seen_first);
            let more = first.pending + after.len();
            &&& first.result is Ok
            &&& more <= next.len()
            &&& next.take(more) == first.buf.take(first.pending) + after
            &&& seen_second.len() == split(next.take(more)).frames.len()
        }),
        filled + after.len() <= whole.len(),
        whole.take((filled + after.len()) as int) == buf.take(filled) + after,
    ensures
        ({
            let first = assembled(buf, filled, pending, Progress::start(player, stats), seen_first);
            let second = assembled(
                next,
                first.pending + after.len(),
                first.pending,
                Progress::start(first.progress.player, first.progress.stats),
                seen_second,
            );
            let once = assembled(
                whole,
                filled + after.len(),
                pending,
                Progress::start(player, stats),
                seen_first + seen_second,
            );
            &&& split(whole.take((filled + after.len()) as int)).frames.len()
                == (seen_first + seen_second).len()
            &&& once.progress.player == second.progress.player
            &&& once.progress.stats == second.progress.stats
            &&& once.progress.logged == first.progress.logged + second.progress.logged
            &&& once.result == second.result
            &&& once.result is Ok ==> {
                &&& once.pending == second.pending
                &&& once.buf.take(once.pending) == second.buf.take(second.pending)
            }
        }),
{
    let start = Progress::start(player, stats);
    let before = buf.take(filled);
    let first = assembled(buf, filled, pending, start, seen_first);
    let again = Progress::start(first.progress.player, first.progress.stats);
    let joined = leftover(before) + after;
    let more = first.pending + after.len();
    pending_is_leftover(buf, filled, pending, player, stats, seen_first);
    assert(next.take(more) == joined);
    split_of_stream(before, after);
    packets_in_two_rows(start, split(before).frames, split(joined).frames, seen_first, seen_second);
    handling_continues(first.progress, split(joined).frames, seen_second);
    let all = (filled + after.len()) as int;
    let second = assembled(next, more, first.pending, again, seen_second);
    let once = assembled(whole, all, pending, start, seen_first + seen_second);
    assert(split(whole.take(all)).frames == split(before).frames + split(joined).frames);
    assert(once.progress == first.progress.then_packets(split(joined).frames, seen_second));
    if once.result is Ok {
        pending_is_leftover(whole, all, pending, player, stats, seen_first + seen_second);
        pending_is_leftover(
            next,
            more,
            first.pending,
            first.progress.player,
            first.progress.stats,
            seen_second,
        );
    }
}

/// Packets that tell no position are only counted: they move nobody, no delay is
/// measured or logged, and nothing fails, whatever the clock and the log say.
pub proof fn other_packets_only_count(
    start: Progress,
    frames: Seq<Seq<u8>>,
    seen: Seq<Observation>,
)
    requires
        start.result is Ok,
        seen.len() <= frames.len(),
        forall|i: int|
            0 <= i < frames.len() ==> (#[trigger] frames[i]).len() >= 2 && frames[i][1]
                != SCPacketType::SC_POS.code(),
    ensures
        ({
            let after = start.then_packets(frames, seen);
            &&& after.result is Ok
            &&& after.done == start.done + seen.len()
            &&& after.player == start.player
            &&& after.logged == start.logged
            &&& after.stats == Stats { packets: after.stats.packets, ..start.stats }
        }),
    decreases seen.len(),
{
    if seen.len() != 0 {
        other_packets_only_count(start, frames, seen.drop_last());
        let before = start.then_packets(frames, seen.drop_last());
        assert(frames[seen.len() - 1].len() >= 2);
        assert(before.logged + Seq::empty() =~= before.logged);
    }
}

/// A packet changes at most where the player is, and that only if it tells the
/// player's own position. No packet ends a player's life or changes its id, and the
/// settings stay as they are.
pub proof fn packet_moves_only_its_player(
    packet: Seq<u8>,
    player: Player,
    stats: Stats,
    seen: Observation,
)
    ensures
        ({
            let after = processed(packet, player, stats, seen);
            &&& after.player.id == player.id
            &&& after.player.is_alive == player.is_alive
            &&& after.stats.settings == stats.settings
            &&& after.player.position != player.position ==> {
                &&& packet.len() >= 2
                &&& packet[1] == SCPacketType::SC_POS.code()
                &&& SCPosPlayer::decode(packet).id == player.id
                &&& after.player.position == composed(
                    SCPosPlayer::decode(packet).x,
                    SCPosPlayer::decode(packet).y,
                )
            }
        }),
{
}

/// A whole row of packets leaves the player's id, its life and the settings alone.
pub proof fn packets_keep_the_player(
    start: Progress,
    frames: Seq<Seq<u8>>,
    seen: Seq<Observation>,
)
    ensures
        ({
            let after = start.then_packets(frames, seen);
            &&& after.player.id == start.player.id
            &&& after.player.is_alive == start.player.is_alive
            &&& after.stats.settings == start.stats.settings
        }),
    decreases seen.len(),
{
    if seen.len() != 0 {
        packets_keep_the_player(start, frames, seen.drop_last());
        let before = start.then_packets(frames, seen.drop_last());
        packet_moves_only_its_player(
            frames[seen.len() - 1],
            before.player,
            before.stats,
            seen.last(),
        );
    }
}

/// Where the player with this id is, by the last of the packets that tells it.
pub open spec fn last_told(frames: Seq<Seq<u8>>, id: i32) -> Option<(i16, i16)>
    decreases frames.len(),
{
    if frames.len() == 0 {
        None
    } else if tells(frames.last(), id) {
        let p = SCPosPlayer::decode(frames.last());
        Some((p.x, p.y))
    } else {
        last_told(frames.drop_last(), id)
    }
}

/// After a row of packets the player is where the last packet said that told its
/// position, or where it was if none did. If a packet failed, this goes for the packets
/// up to that one.
pub proof fn position_is_the_last_told(
    start: Progress,
    frames: Seq<Seq<u8>>,
    seen: Seq<Observation>,
)
    requires
        start.result is Ok,
        seen.len() <= frames.len(),
    ensures
        ({
            let after = start.then_packets(frames, seen);
            let looked_at = if after.result is Ok {
                seen.len() as int
            } else {
                after.done - start.done + 1
            };
            &&& after.result is Ok ==> after.done == start.done + seen.len()
            &&& 0 <= looked_at <= seen.len()
            &&& after.player.position == match last_told(frames.take(looked_at), start.player.id) {
                Some((x, y)) => composed(x, y),
                None => start.player.position,
            }
        }),
    decreases seen.len(),
{
    if seen.len() != 0 {
        let n = seen.len() as int;
        position_is_the_last_told(start, frames, seen.drop_last());
        packets_keep_the_player(start, frames, seen.drop_last());
        assert(frames.take(n).drop_last() =~= frames.take(n - 1));
        assert(frames.take(n).last() == frames[n - 1]);
    }
}

/// What a client has come to after some reads, and the bytes that wait for the rest of
/// their packet.
#[verifier::ext_equal]
pub struct Reads {
    pub progress: Progress,
    pub waiting: Seq<u8>,
}

impl Reads {
    /// Nothing is read yet.
    pub open spec fn start(player: Player, stats: Stats) -> Reads {
        Reads { progress: Progress::start(player, stats), waiting: Seq::empty() }
    }

    /// One more stretch of bytes is read and handled, with one observation for each
    /// packet that is whole by then.
    pub open spec fn then_read(self, chunk: Seq<u8>, seen: Seq<Observation>) -> Reads {
        Reads {
            progress: self.progress.then_packets(split(self.waiting + chunk).frames, seen),
            waiting: leftover(self.waiting + chunk),
        }
    }

    /// Stretch after stretch is read and handled.
    pub open spec fn then_reads(
        self,
        chunks: Seq<Seq<u8>>,
        seen: Seq<Seq<Observation>>,
    ) -> Reads
        decreases chunks.len(),
    {
        if chunks.len() == 0 {
            self
        } else {
            self.then_reads(chunks.drop_last(), seen.drop_last()).then_read(
                chunks.last(),
                seen.last(),
            )
        }
    }

    /// There is one observation for each packet that is whole after each read.
    pub open spec fn observed(self, chunks: Seq<Seq<u8>>, seen: Seq<Seq<Observation>>) -> bool
        decreases chunks.len(),
    {
        if chunks.len() == 0 {
            seen.len() == 0
        } else {
            let before = self.then_reads(chunks.drop_last(), seen.drop_last());
            &&& seen.len() == chunks.len()
            &&& self.observed(chunks.drop_last(), seen.drop_last())
            &&& seen.last().len() == split(before.waiting + chunks.last()).frames.len()
        }
    }
}

/// One more read, handled in a buffer without an error, is one more read of the row.
pub proof fn read_continues(
    reads: Reads,
    buf: Seq<u8>,
    filled: int,
    chunk: Seq<u8>,
    seen: Seq<Observation>,
)
    requires
        reads.progress.result is Ok,
        0 <= filled <= buf.len(),
        buf.take(filled) == reads.waiting + chunk,
        seen.len() == split(buf.take(filled)).frames.len(),
        assembled(
            buf,
            filled,
            reads.waiting.len() as int,
            Progress::start(reads.progress.player, reads.progress.stats),
            seen,
        ).result is Ok,
    ensures
        ({
            let outcome = assembled(
                buf,
                filled,
                reads.waiting.len() as int,
                Progress::start(reads.progress.player, reads.progress.stats),
                seen,
            );
            let after = reads.then_read(chunk, seen);
            &&& after.progress.result is Ok
            &&& after.progress.player == outcome.progress.player
            &&& after.progress.stats == outcome.progress.stats
            &&& after.progress.logged == reads.progress.logged + outcome.progress.logged
            &&& after.progress.done == reads.progress.done + outcome.progress.done
            &&& outcome.pending == after.waiting.len()
            &&& outcome.buf.take(outcome.pending) == after.waiting
        }),
{
    pending_is_leftover(
        buf,
        filled,
        reads.waiting.len() as int,
        reads.progress.player,
        reads.progress.stats,
        seen,
    );
    handling_continues(reads.progress, split(buf.take(filled)).frames, seen);
}

/// It does not matter how a stream is cut into reads: handled read after read, it comes
/// to what handling its packets in one row comes to.
pub proof fn reads_are_one_row(
    player: Player,
    stats: Stats,
    chunks: Seq<Seq<u8>>,
    seen: Seq<Seq<Observation>>,
)
    requires
        Reads::start(player, stats).observed(chunks, seen),
        split(chunks.flatten()).tail !is Bad,
    ensures
        Reads::start(player, stats).then_reads(chunks, seen) == (Reads {
            progress: Progress::start(player, stats).then_packets(
                split(chunks.flatten()).frames,
                seen.flatten(),
            ),
            waiting: leftover(chunks.flatten()),
        }),
        seen.flatten().len() == split(chunks.flatten()).frames.len(),
    decreases chunks.len(),
{
    let start = Reads::start(player, stats);
    if chunks.len() == 0 {
        assert(chunks.flatten() =~= Seq::<u8>::empty());
        assert(seen.flatten() =~= Seq::<Observation>::empty());
    } else {
        let (chunks0, chunk) = (chunks.drop_last(), chunks.last());
        let (seen0, one) = (seen.drop_last(), seen.last());
        assert(chunks0.push(chunk) =~= chunks);
        assert(seen0.push(one) =~= seen);
        chunks0.lemma_flatten_push(chunk);
        seen0.lemma_flatten_push(one);
        let before = chunks0.flatten();
        if split(before).tail is Bad {
            split_of_bad_stream(before, chunk);
        }
        reads_are_one_row(player, stats, chunks0, seen0);
        split_of_stream(before, chunk);
        let next = split(leftover(before) + chunk);
        packets_in_two_rows(start.progress, split(before).frames, next.frames, seen0.flatten(), one);
        assert(leftover(chunks.flatten()) == leftover(leftover(before) + chunk));
    }
}

/// The clock has a stamp, and the log takes what it is given.
pub open spec fn all_well(seen: Seq<Observation>) -> bool {
    forall|i: int| 0 <= i < seen.len() ==> (#[trigger] seen[i]).now is Some && seen[i].sent
}

/// While the clock and the log work, a whole packet does not fail. Handling it does not
/// count it yet.
proof fn a_whole_packet_is_handled(
    packet: Seq<u8>,
    player: Player,
    stats: Stats,
    seen: Observation,
)
    requires
        packet.len() >= 2,
        seen.now is Some,
        seen.sent,
    ensures
        processed(packet, player, stats, seen).result is Ok,
        processed(packet, player, stats, seen).stats.packets == stats.packets,
{
}

/// A packet that does not fail is counted.
proof fn then_one_more(before: Progress, packet: Seq<u8>, seen: Observation)
    requires
        before.result is Ok,
        processed(packet, before.player, before.stats, seen).result is Ok,
    ensures
        ({
            let after = before.then_packet(packet, seen);
            &&& after.result is Ok
            &&& after.done == before.done + 1
            &&& after.stats == processed(
                packet,
                before.player,
                before.stats,
                seen,
            ).stats.received()
        }),
{
}

/// While the clock and the log work, whole packets never fail, and each is counted.
pub proof fn whole_packets_are_counted(
    start: Progress,
    frames: Seq<Seq<u8>>,
    seen: Seq<Observation>,
)
    requires
        start.result is Ok,
        seen.len() <= frames.len(),
        forall|i: int| 0 <= i < frames.len() ==> is_frame(#[trigger] frames[i]),
        all_well(seen),
    ensures
        ({
            let after = start.then_packets(frames, seen);
            &&& after.result is Ok
            &&& after.done == start.done + seen.len()
            &&& after.stats.packets == wrapped(start.stats.packets + seen.len())
        }),
    decreases seen.len(),
{
    if seen.len() != 0 {
        let rest = seen.drop_last();
        assert forall|i: int| 0 <= i < rest.len() implies (#[trigger] rest[i]).now is Some
            && rest[i].sent by {
            assert(rest[i] == seen[i]);
        }
        whole_packets_are_counted(start, frames, rest);
        wrapping_steps_add_up(start.stats.packets + rest.len(), 1);
        let before = start.then_packets(frames, rest);
        let packet = frames[seen.len() - 1];
        assert(is_frame(frames[seen.len() - 1]));
        assert(seen[seen.len() - 1].sent);
        a_whole_packet_is_handled(packet, before.player, before.stats, seen.last());
        then_one_more(before, packet, seen.last());
        assert(start.then_packets(frames, seen) == before.then_packet(packet, seen.last()));
    }
}

/// What receiving is for. Let whole packets arrive, cut into reads of any sizes, while
/// the clock and the log work. Then nothing fails and nothing is left over. Each packet
/// was counted once. The player is where the last packet said that told its position,
/// or where it was if none did. None of this depends on how the bytes were cut. (Below
/// zero only `y` of a place is kept.)
pub proof fn a_stream_of_packets_is_received(
    player: Player,
    stats: Stats,
    frames: Seq<Seq<u8>>,
    chunks: Seq<Seq<u8>>,
    seen: Seq<Seq<Observation>>,
)
    requires
        forall|i: int| 0 <= i < frames.len() ==> is_frame(#[trigger] frames[i]),
        chunks.flatten() == frames.flatten(),
        Reads::start(player, stats).observed(chunks, seen),
        all_well(seen.flatten()),
    ensures
        ({
            let after = Reads::start(player, stats).then_reads(chunks, seen);
            &&& after.progress == Progress::start(player, stats).then_packets(
                frames,
                seen.flatten(),
            )
            &&& after.waiting == Seq::<u8>::empty()
            &&& after.progress.result is Ok
            &&& after.progress.done == frames.len()
            &&& after.progress.stats.packets == wrapped(stats.packets + frames.len())
            &&& match last_told(frames, player.id) {
                Some((x, y)) => {
                    &&& after.progress.player.position == composed(x, y)
                    &&& y >= 0 ==> coordinates(after.progress.player.position) == (x, y)
                },
                None => after.progress.player.position == player.position,
            }
            &&& after.progress.player.id == player.id
            &&& after.progress.player.is_alive == player.is_alive
        }),
{
    let start = Progress::start(player, stats);
    split_of_joined(frames);
    reads_are_one_row(player, stats, chunks, seen);
    whole_packets_are_counted(start, frames, seen.flatten());
    position_is_the_last_told(start, frames, seen.flatten());
    packets_keep_the_player(start, frames, seen.flatten());
    assert(frames.take(frames.len() as int) =~= frames);
    if let Some((x, y)) = last_told(frames, player.id) {
        if y >= 0 {
            position_round_trip(x, y);
        }
    }
}

/// The receive buffer has a kilobyte.
pub proof fn the_buffer_has_a_kilobyte()
    ensures
        RECV_SIZE == 1024,
{
}

/// A stretch of bytes is cut at its front: the first byte says how long the first packet
/// is. Less than two is too little for a packet, and more than there is means that the
/// end is still to come. Otherwise so many bytes are the first packet, and the rest is
/// cut the same way.
pub proof fn cut_at_the_front(bytes: Seq<u8>)
    ensures
        bytes.len() == 0 ==> split(bytes) == (Split { frames: Seq::empty(), tail: Tail::Empty }),
        bytes.len() > 0 && bytes[0] < 2 ==> split(bytes) == (Split {
            frames: Seq::empty(),
            tail: Tail::Bad(bytes[0]),
        }),
        bytes.len() > 0 && bytes[0] >= 2 && bytes[0] > bytes.len() ==> split(bytes) == (Split {
            frames: Seq::empty(),
            tail: Tail::Partial(bytes),
        }),
        bytes.len() > 0 && 2 <= bytes[0] <= bytes.len() ==> {
            let size = bytes[0] as int;
            &&& split(bytes).frames.len() == split(bytes.skip(size)).frames.len() + 1
            &&& split(bytes).frames[0] == bytes.subrange(0, size)
            &&& split(bytes).frames.skip(1) == split(bytes.skip(size)).frames
            &&& split(bytes).tail == split(bytes.skip(size)).tail
        },
{
    if bytes.len() > 0 && 2 <= bytes[0] <= bytes.len() {
        let size = bytes[0] as int;
        assert(bytes.take(size) =~= bytes.subrange(0, size));
        assert(split(bytes).frames.skip(1) =~= split(bytes.skip(size)).frames);
    }
}

/// Only a position packet can have a wrong size, and its right size is fourteen bytes.
pub proof fn positions_have_fourteen_bytes(frame: Seq<u8>)
    ensures
        fits(frame) <==> (frame.len() >= 2 && frame[1] == 3 ==> frame.len() == 14),
{
}

/// What fits is everything exactly if every packet fits, and never more than there is.
pub proof fn everything_fits_if_every_packet_does(bytes: Seq<u8>)
    ensures
        fitting(bytes) <= bytes.len(),
        fitting(bytes) == bytes.len() <==> all_fit(bytes),
    decreases bytes.len(),
{
    if bytes.len() > 0 && 2 <= bytes[0] <= bytes.len() {
        let size = bytes[0] as int;
        let rest = bytes.skip(size);
        let frames = split(bytes).frames;
        everything_fits_if_every_packet_does(rest);
        assert(frames[0] == bytes.take(size));
        assert forall|i: int| 0 <= i < split(rest).frames.len() implies #[trigger] split(
            rest,
        ).frames[i] == frames[i + 1] by {}
        if all_fit(bytes) {
            assert(fits(frames[0]));
            assert forall|i: int| 0 <= i < split(rest).frames.len() implies fits(
                #[trigger] split(rest).frames[i],
            ) by {
                assert(fits(frames[i + 1]));
            }
        }
        if fits(frames[0]) && all_fit(rest) {
            assert forall|i: int| 0 <= i < frames.len() implies fits(#[trigger] frames[i]) by {
                if i > 0 {
                    assert(frames[i] == split(rest).frames[i - 1]);
                }
            }
        }
    }
}

/// What waits is nothing, or less than its own first byte announces.
pub proof fn what_can_wait(buf: Seq<u8>, pending: int)
    ensures
        waits(buf, pending) <==> {
            ||| pending == 0
            ||| 0 < pending <= buf.len() && 2 <= buf[0] && pending < buf[0]
        },
{
    if 0 <= pending <= buf.len() {
        let front = buf.take(pending);
        partial_is_short(front);
        if pending > 0 {
            assert(front[0] == buf[0]);
        } else {
            assert(leftover(front) =~= front);
        }
    }
}

/// Which delay a packet asks for, by its bytes: none, unless it has type 3 and a stamp.
/// Then that of its own move for the player with this id, whoever that is, and for
/// another player, whoever that is, that of the move of somebody else, if these are
/// wanted.
pub proof fn who_asks_for_a_delay(packet: Seq<u8>, id: i32, settings: Settings)
    ensures
        ({
            let p = SCPosPlayer::decode(packet);
            let stamp = p.move_time();
            let asked = wanted_delay(packet, id, settings);
            if packet.len() < 2 || packet[1] != 3 || p.seq_no == 0 {
                asked is None
            } else if p.id == id {
                asked == Some((id as i64, Source::Internal, stamp))
            } else if settings.calc_external_delay {
                asked == Some(((-1) as i64, Source::External, stamp))
            } else {
                asked is None
            }
        }),
{
}

/// A position that the server sends is read as it was sent.
proof fn position_is_read(answer: SCPosPlayer)
    requires
        answer.header.p_type == 3,
    ensures
        answer.encode().len() == 14,
        answer.encode()[1] == 3,
        SCPosPlayer::decode(answer.encode()) == answer,
{
    answer.encode_size();
    answer.decode_encode();
}

/// A player's own position moves the player there, whatever the clock and the log say,
/// and changes nothing else of the player. Without a stamp that is all.
pub proof fn ones_own_position_moves_one(
    answer: SCPosPlayer,
    player: Player,
    stats: Stats,
    seen: Observation,
)
    requires
        answer.header.p_type == 3,
        answer.id == player.id,
    ensures
        ({
            let after = processed(answer.encode(), player, stats, seen);
            &&& after.player == Player { position: composed(answer.x, answer.y), ..player }
            &&& answer.y >= 0 ==> coordinates(after.player.position) == (answer.x, answer.y)
            &&& answer.seq_no == 0 ==> {
                &&& after.stats == stats
                &&& after.logged == Seq::<(i64, bool)>::empty()
                &&& after.result is Ok
            }
        }),
{
    position_is_read(answer);
    if answer.y >= 0 {
        position_round_trip(answer.x, answer.y);
    }
}

/// Another player's position moves nobody. Without a stamp, or if the delays of others
/// are not wanted, it changes nothing at all.
pub proof fn another_players_position_moves_nobody(
    answer: SCPosPlayer,
    player: Player,
    stats: Stats,
    seen: Observation,
)
    requires
        answer.header.p_type == 3,
        answer.id != player.id,
    ensures
        ({
            let after = processed(answer.encode(), player, stats, seen);
            &&& after.player == player
            &&& answer.seq_no == 0 || !stats.settings.calc_external_delay ==> {
                &&& after.stats == stats
                &&& after.logged == Seq::<(i64, bool)>::empty()
                &&& after.result is Ok
            }
        }),
{
    position_is_read(answer);
}

/// When the server answers a player's own step, the time since the step is the current
/// delay, and it is added once to what belongs to the player: the slot of its thread, or
/// the sums for one's own moves.
pub proof fn ones_own_step_is_measured(
    answer: SCPosPlayer,
    player: Player,
    stats: Stats,
    now: u32,
    sent: bool,
)
    requires
        answer.header.p_type == 3,
        answer.id == player.id,
        answer.seq_no != 0,
        now >= answer.move_time(),
        stats.settings.log_all_delay ==> sent,
    ensures
        ({
            let seen = Observation { now: Some(now), sent };
            let after = processed(answer.encode(), player, stats, seen);
            let d_ms = (now - answer.move_time()) as i64;
            &&& after.result is Ok
            &&& after.stats.internal_delay == now - answer.move_time()
            &&& after.stats.external_delay == stats.external_delay
            &&& after.stats.external_total == stats.external_total
            &&& after.stats.external_count == stats.external_count
            &&& after.stats.packets == stats.packets
            &&& after.stats.settings == stats.settings
            &&& after.logged == if stats.settings.log_all_delay {
                seq![(d_ms, true)]
            } else {
                Seq::empty()
            }
            &&& match stats.settings.server_thread_num {
                Some(threads) if player.id >= 0 => {
                    let slot = player.id as int % threads as int;
                    &&& after.stats.thread_totals == stats.thread_totals.update(
                        slot,
                        stats.thread_totals[slot].wrapping_add(d_ms),
                    )
                    &&& after.stats.thread_counts == stats.thread_counts.update(
                        slot,
                        stats.thread_counts[slot].wrapping_add(1),
                    )
                    &&& after.stats.internal_total == stats.internal_total
                    &&& after.stats.internal_count == stats.internal_count
                },
                _ => {
                    &&& after.stats.thread_totals == stats.thread_totals
                    &&& after.stats.thread_counts == stats.thread_counts
                    &&& after.stats.internal_total == stats.internal_total.wrapping_add(d_ms)
                    &&& after.stats.internal_count == stats.internal_count.wrapping_add(1)
                },
            }
        }),
{
    position_is_read(answer);
    a_delay_is_the_time_since_the_move(
        stats,
        player.id as i64,
        Source::Internal,
        answer.move_time(),
        now,
        sent,
    );
}

/// When the server tells of the step of any other player, and such delays are wanted,
/// the time since the step is the current delay of others, and it is added once to the
/// sums for others. Nobody moves, and no other sum changes.
pub proof fn anothers_step_is_measured(
    answer: SCPosPlayer,
    player: Player,
    stats: Stats,
    now: u32,
    sent: bool,
)
    requires
        answer.header.p_type == 3,
        answer.id != player.id,
        answer.seq_no != 0,
        stats.settings.calc_external_delay,
        now >= answer.move_time(),
        stats.settings.log_all_delay ==> sent,
    ensures
        ({
            let seen = Observation { now: Some(now), sent };
            let after = processed(answer.encode(), player, stats, seen);
            let d_ms = (now - answer.move_time()) as i64;
            &&& after.result is Ok
            &&& after.player == player
            &&& after.stats.external_delay == now - answer.move_time()
            &&& after.stats.external_total == stats.external_total.wrapping_add(d_ms)
            &&& after.stats.external_count == stats.external_count.wrapping_add(1)
            &&& after.stats.internal_delay == stats.internal_delay
            &&& after.stats.internal_total == stats.internal_total
            &&& after.stats.internal_count == stats.internal_count
            &&& after.stats.thread_totals == stats.thread_totals
            &&& after.stats.thread_counts == stats.thread_counts
            &&& after.stats.packets == stats.packets
            &&& after.stats.settings == stats.settings
            &&& after.logged == if stats.settings.log_all_delay {
                seq![(d_ms, true)]
            } else {
                Seq::empty()
            }
        }),
{
    position_is_read(answer);
    a_delay_is_the_time_since_the_move(
        stats,
        (-1) as i64,
        Source::External,
        answer.move_time(),
        now,
        sent,
    );
}

/// What has no type is an error, and what is no position changes nothing.
pub proof fn what_is_no_position_changes_nothing(
    packet: Seq<u8>,
    player: Player,
    stats: Stats,
    seen: Observation,
)
    ensures
        packet.len() < 2 ==> processed(packet, player, stats, seen) == (Processed {
            player,
            stats,
            logged: Seq::empty(),
            result: Err(ClientError::NoTypeField),
        }),
        packet.len() >= 2 && packet[1] != 3 ==> processed(packet, player, stats, seen)
            == (Processed { player, stats, logged: Seq::empty(), result: Ok(()) }),
{
}

/// A row of packets is handled from the first on, each as it is by itself. A packet that
/// does not fail is counted, one that fails is not, and none is handled behind it.
pub proof fn packets_are_handled_in_turn(
    start: Progress,
    frames: Seq<Seq<u8>>,
    seen: Seq<Observation>,
    one: Observation,
)
    ensures
        start.then_packets(frames, Seq::empty()) == start,
        ({
            let before = start.then_packets(frames, seen);
            let after = start.then_packets(frames, seen.push(one));
            let p = processed(frames[seen.len() as int], before.player, before.stats, one);
            &&& before.result is Err ==> after == before
            &&& before.result is Ok ==> {
                &&& after.player == p.player
                &&& after.logged == before.logged + p.logged
                &&& after.result == p.result
                &&& p.result is Ok ==> {
                    &&& after.done == before.done + 1
                    &&& after.stats == Stats {
                        packets: p.stats.packets.wrapping_add(1),
                        ..p.stats
                    }
                }
                &&& p.result is Err ==> after.done == before.done && after.stats == p.stats
            }
        }),
{
    assert(seen.push(one).drop_last() =~= seen);
}

/// What handling a stretch of the buffer leaves. Where a packet failed or announces too
/// little, the buffer stays as it is, and what waits is nothing once a packet was
/// handled. Where the beginning of a packet is left, it waits at the front, and behind
/// it the buffer stays as it is.
pub proof fn what_a_stretch_leaves(
    buf: Seq<u8>,
    filled: int,
    pending: int,
    player: Player,
    stats: Stats,
    seen: Seq<Observation>,
)
    requires
        0 <= filled <= buf.len(),
    ensures
        ({
            let start = Progress::start(player, stats);
            let cut = split(buf.take(filled));
            let after = assembled(buf, filled, pending, start, seen);
            let left = if after.progress.done > 0 {
                0
            } else {
                pending
            };
            &&& start.player == player && start.stats == stats && start.done == 0
            &&& start.logged.len() == 0 && start.result is Ok
            &&& after.progress == start.then_packets(cut.frames, seen)
            &&& after.progress.result is Err ==> {
                &&& after.result == after.progress.result
                &&& after.buf == buf
                &&& after.pending == left
            }
            &&& after.progress.result is Ok && cut.tail is Empty ==> {
                &&& after.result is Ok
                &&& after.buf == buf
                &&& after.pending == left
            }
            &&& after.progress.result is Ok && cut.tail is Bad ==> {
                &&& after.result == Err::<(), ClientError>(
                    ClientError::PacketTooSmall(cut.tail->Bad_0 as usize),
                )
                &&& after.buf == buf
                &&& after.pending == left
            }
            &&& after.progress.result is Ok && cut.tail is Partial ==> {
                let rest = cut.tail->Partial_0;
                &&& after.result is Ok
                &&& after.pending == rest.len()
                &&& after.buf.len() == buf.len()
                &&& after.buf.subrange(0, rest.len() as int) == rest
                &&& forall|k: int|
                    rest.len() <= k < buf.len() ==> #[trigger] after.buf[k] == buf[k]
            }
        }),
{
    let after = assembled(buf, filled, pending, Progress::start(player, stats), seen);
    partial_is_short(buf.take(filled));
    if let Tail::Partial(rest) = split(buf.take(filled)).tail {
        if after.progress.result is Ok {
            assert(after.buf.subrange(0, rest.len() as int) =~= rest);
        }
    }
}

/// Every packet must fit that is whole.
pub proof fn every_whole_packet_must_fit(bytes: Seq<u8>)
    ensures
        all_fit(bytes) <==> forall|i: int|
            0 <= i < split(bytes).frames.len() ==> {
                let frame = #[trigger] split(bytes).frames[i];
                frame.len() >= 2 && frame[1] == 3 ==> frame.len() == 14
            },
{
    if all_fit(bytes) {
        assert forall|i: int| 0 <= i < split(bytes).frames.len() implies {
            let frame = #[trigger] split(bytes).frames[i];
            frame.len() >= 2 && frame[1] == 3 ==> frame.len() == 14
        } by {
            assert(fits(split(bytes).frames[i]));
        }
    }
}

/// A packet that asks for a delay has its moment off the clock, also in a row.
pub proof fn delays_are_measured_by_the_clock(
    frames: Seq<Seq<u8>>,
    id: i32,
    settings: Settings,
    seen: Seq<Observation>,
    i: int,
)
    requires
        0 <= i < seen.len(),
        wanted_delay(frames[i], id, settings) is Some,
    ensures
        clocked(frames[i], id, settings, seen[i]) ==> off_the_clock(seen[i].now),
        all_clocked(frames, id, settings, seen) ==> off_the_clock(seen[i].now),
{
    if all_clocked(frames, id, settings, seen) {
        assert(clocked(frames[i], id, settings, seen[i]));
    }
}

} // verus!
