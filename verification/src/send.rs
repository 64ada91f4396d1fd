//! What a client sends.
use crate::delay::{current_stamp, off_the_clock, Observation, Source, Stats};
use crate::error::ClientError;
use crate::packet::{
    CSLogin, CSMove, CSTeleport, Direction, Incoming, PacketHeader, SCPacketType, SCPosPlayer,
};
use crate::player::{composed, Player};
use crate::receive::{one_whole_packet, processed, split, Split, Tail};
use crate::wire;
use rand::rngs::StdRng;
use rand::Rng;
use vstd::prelude::*;

verus! {

/// `rand::rngs::StdRng`, carried as it is.
#[verifier::external_type_specification]
#[verifier::external_body]
pub struct ExStdRng(rand::rngs::StdRng);

/// `rand::Rng::gen_range` from 0 up to but not with `len`. Which number comes is
/// left to chance. An empty range is left out, for the call panics on it.
#[verifier::external_body]
fn pick(rng: &mut StdRng, len: usize) -> (index: usize)
    requires
        len > 0,
    ensures
        index < len,
{
    rng.gen_range(0, len)
}

/// A draw from 0 up to but not with `len` gives `index`. Only drawing shows this of a
/// number.
pub closed spec fn drawn(len: usize, index: usize) -> bool {
    exists|rng: &mut StdRng| #[trigger] call_ensures(pick, (rng, len), index)
}

/// Draws once with `die`.
fn draw<F: Fn(&mut StdRng, usize) -> usize>(die: F, rng: &mut StdRng, len: usize) -> (index: usize)
    requires
        forall|r: &mut StdRng| call_requires(die, (r, len)),
    ensures
        exists|r: &mut StdRng| #[trigger] call_ensures(die, (r, len), index),
{
    die(rng, len)
}

/// The four steps, none of them stamped yet.
pub open spec fn steps() -> Seq<CSMove> {
    let header = PacketHeader { size: 7, p_type: 2 };
    seq![
        CSMove { header, direction: Direction::D_UP.code(), seq_no: 0 },
        CSMove { header, direction: Direction::D_DOWN.code(), seq_no: 0 },
        CSMove { header, direction: Direction::D_LEFT.code(), seq_no: 0 },
        CSMove { header, direction: Direction::D_RIGHT.code(), seq_no: 0 },
    ]
}

/// The four steps that a client chooses from.
pub fn move_packets() -> (packets: Vec<CSMove>)
    ensures
        packets@ == steps(),
{
    let mut packets: Vec<CSMove> = Vec::new();
    packets.push(CSMove::new(Direction::D_UP, 0));
    packets.push(CSMove::new(Direction::D_DOWN, 0));
    packets.push(CSMove::new(Direction::D_LEFT, 0));
    packets.push(CSMove::new(Direction::D_RIGHT, 0));
    assert(packets@ =~= steps());
    packets
}

/// The packet that asks for another place, for clients that do so first of all.
pub fn greeting(teleport_on_login: bool) -> (bytes: Option<Vec<u8>>)
    ensures
        teleport_on_login ==> bytes is Some && bytes->0@ == seq![2u8, 6u8],
        !teleport_on_login ==> bytes is None,
{
    if teleport_on_login {
        let bytes = CSTeleport::new().to_bytes();
        assert(bytes@ =~= seq![2u8, 6u8]);
        Some(bytes)
    } else {
        None
    }
}

/// The step, stamped with a time.
pub open spec fn stamped(step: CSMove, time: u32) -> CSMove {
    CSMove { seq_no: wire::i32_of_bits(time), ..step }
}

/// Stamps one of the steps and gives its bytes.
pub fn stamp_move(packets: &mut Vec<CSMove>, index: usize, time: u32) -> (bytes: Vec<u8>)
    requires
        index < old(packets)@.len(),
    ensures
        final(packets)@ == old(packets)@.update(
            index as int,
            stamped(old(packets)@[index as int], time),
        ),
        bytes@ == stamped(old(packets)@[index as int], time).encode(),
{
    let mut step: CSMove = packets[index];
    step.set_move_time(time);
    packets.set(index, step);
    step.to_bytes()
}

/// What sending one of the steps comes to, for a given choice and a given clock.
pub open spec fn sent_step(packets: Seq<CSMove>, index: int, now: Option<u32>) -> (
    Seq<CSMove>,
    Result<Seq<u8>, ClientError>,
) {
    match now {
        Some(time) => (
            packets.update(index, stamped(packets[index], time)),
            Ok(stamped(packets[index], time).encode()),
        ),
        None => (packets, Err(ClientError::ClockBeforeEpoch)),
    }
}

/// Chooses one of the steps, stamps it with the current time and gives its bytes.
/// Chance and the clock decide which step and which stamp: whatever they say, the
/// outcome is the one that [`sent_step`] gives for the step that was drawn of all and
/// the moment that the clock gave.
pub fn next_move(packets: &mut Vec<CSMove>, rng: &mut StdRng) -> (result: Result<
    Vec<u8>,
    ClientError,
>)
    requires
        old(packets)@.len() > 0,
    ensures
        exists|index: int, now: Option<u32>|
            {
                let outcome = #[trigger] sent_step(old(packets)@, index, now);
                &&& 0 <= index < old(packets)@.len()
                &&& drawn(old(packets)@.len() as usize, index as usize)
                &&& off_the_clock(now)
                &&& final(packets)@ == outcome.0
                &&& match result {
                    Ok(bytes) => outcome.1 == Ok::<Seq<u8>, ClientError>(bytes@),
                    Err(e) => outcome.1 == Err::<Seq<u8>, ClientError>(e),
                }
            },
{
    let ghost before = packets@;
    let index: usize = draw(pick, rng, packets.len());
    assert(drawn(packets.len(), index));
    let now = current_stamp();
    match now {
        Some(time) => {
            let bytes = stamp_move(packets, index, time);
            assert(sent_step(before, index as int, now).0 == packets@);
            Ok(bytes)
        },
        None => {
            assert(sent_step(before, index as int, now).0 == packets@);
            Err(ClientError::ClockBeforeEpoch)
        },
    }
}

/// Choosing and stamping steps never makes anything but a step of them: at any time
/// each is one of the four, with some stamp.
pub proof fn steps_stay_steps(packets: Seq<CSMove>, index: int, now: Option<u32>)
    requires
        packets.len() == 4,
        forall|i: int|
            0 <= i < 4 ==> #[trigger] packets[i] == (CSMove {
                seq_no: packets[i].seq_no,
                ..steps()[i]
            }),
        0 <= index < 4,
    ensures
        sent_step(packets, index, now).0.len() == 4,
        forall|i: int|
            0 <= i < 4 ==> #[trigger] sent_step(packets, index, now).0[i] == (CSMove {
                seq_no: sent_step(packets, index, now).0[i].seq_no,
                ..steps()[i]
            }),
{
}

/// What the whole program is for: when the server answers a step with the player's
/// new position and the stamp of the step, the player is there, and the time since
/// the step was made is the current delay. A stamp of zero is left out, for it asks
/// for no delay, and so is a clock that went back.
pub proof fn answered_step_is_measured(
    step: CSMove,
    time: u32,
    answer: SCPosPlayer,
    player: Player,
    stats: Stats,
    now: u32,
)
    requires
        answer.seq_no == stamped(step, time).seq_no,
        answer.header.p_type == SCPacketType::SC_POS.code(),
        answer.id == player.id,
        time != 0,
        now >= time,
    ensures
        stamped(step, time).move_time() == time,
        ({
            let seen = Observation { now: Some(now), sent: true };
            let after = processed(answer.encode(), player, stats, seen);
            &&& after.result is Ok
            &&& after.player.position == composed(answer.x, answer.y)
            &&& after.stats.internal_delay == now - time
            &&& after.stats == stats.measured(Source::Internal, (now - time) as i64).counted(
                player.id as i64,
                Source::Internal,
                (now - time) as i64,
            )
        }),
{
    answer.decode_encode();
    answer.encode_size();
    assert(answer.encode()[1] == wire::i8_byte(answer.header.p_type));
}

/// Each packet that a client sends announces its own size, so a receiver that cuts
/// the stream by these sizes finds exactly this packet.
pub proof fn sent_packets_are_whole(step: CSMove, login: CSLogin, teleport: CSTeleport)
    requires
        step.header == (PacketHeader { size: 7, p_type: 2 }),
        login.header == (PacketHeader { size: 52, p_type: 1 }),
        teleport.header == (PacketHeader { size: 2, p_type: 6 }),
    ensures
        step.encode().len() == CSMove::size(),
        login.encode().len() == CSLogin::size(),
        teleport.encode().len() == CSTeleport::size(),
        split(step.encode()) == (Split { frames: seq![step.encode()], tail: Tail::Empty }),
        split(login.encode()) == (Split { frames: seq![login.encode()], tail: Tail::Empty }),
        split(teleport.encode()) == (Split { frames: seq![teleport.encode()], tail: Tail::Empty }),
{
    one_whole_packet(step.encode());
    one_whole_packet(login.encode());
    one_whole_packet(teleport.encode());
}

/// The four steps go up, down, left and right, and none has a stamp yet.
pub proof fn the_steps_are_four(i: int)
    requires
        0 <= i < 4,
    ensures
        steps().len() == 4,
        steps()[i].header.size == 7,
        steps()[i].header.p_type == 2,
        steps()[i].direction == i,
        steps()[i].seq_no == 0,
{
}

/// Stamping a step puts the time into the stamp, all 32 bits of it, and changes nothing
/// else.
pub proof fn stamping_changes_the_stamp(step: CSMove, time: u32)
    ensures
        stamped(step, time).header == step.header,
        stamped(step, time).direction == step.direction,
        stamped(step, time).seq_no == (if time < 0x8000_0000 {
            time as int
        } else {
            time - 0x1_0000_0000
        }),
{
}

/// Of the steps only the chosen one is stamped, and its bytes are sent: the header, the
/// direction and the time, least significant byte first.
pub proof fn the_chosen_step_is_sent(packets: Seq<CSMove>, index: int, time: u32)
    requires
        0 <= index < packets.len(),
    ensures
        ({
            let after = sent_step(packets, index, Some(time));
            let bytes = after.1->Ok_0;
            &&& after.1 is Ok
            &&& after.0.len() == packets.len()
            &&& forall|i: int|
                0 <= i < packets.len() && i != index ==> #[trigger] after.0[i] == packets[i]
            &&& after.0[index] == stamped(packets[index], time)
            &&& bytes.len() == 7
            &&& (bytes[0] - packets[index].header.size) % 0x100 == 0
            &&& (bytes[1] - packets[index].header.p_type) % 0x100 == 0
            &&& (bytes[2] - packets[index].direction) % 0x100 == 0
            &&& time == bytes[3] + 0x100 * bytes[4] + 0x1_0000 * bytes[5] + 0x100_0000 * bytes[6]
        }),
        sent_step(packets, index, None) == (
            packets,
            Err::<Seq<u8>, ClientError>(ClientError::ClockBeforeEpoch),
        ),
{
    let n = time as int;
    assert(wire::bits_of_i32(stamped(packets[index], time).seq_no) == time);
    assert(n == n % 0x100 + 0x100 * (n / 0x100 % 0x100) + 0x1_0000 * (n / 0x1_0000 % 0x100)
        + 0x100_0000 * (n / 0x100_0000));
    let bytes = stamped(packets[index], time).encode();
    assert(bytes[3] == n % 0x100 && bytes[4] == n / 0x100 % 0x100);
    assert(bytes[5] == n / 0x1_0000 % 0x100 && bytes[6] == n / 0x100_0000);
}

/// What is drawn is what a draw below the given number gives.
proof fn a_draw_is_made(len: usize, index: usize)
    ensures
        drawn(len, index) <==> exists|rng: &mut StdRng| #[trigger]
            call_ensures(pick, (rng, len), index),
{
}

} // verus!
