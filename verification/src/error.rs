//! What can go wrong while a client runs.
use crate::packet::SCPacketType;
use vstd::prelude::*;

verus! {

/// Why a client could not go on with what it received.
#[derive(Copy, Clone, Debug, PartialEq, Eq, Structural)]
pub enum ClientError {
    /// The peer has closed the stream: a read gave no byte.
    ReadZero,
    /// A packet announces a size that does not even cover its header.
    PacketTooSmall(usize),
    /// A packet is too short to have a type.
    NoTypeField,
    /// The clock of the machine stands before 1970.
    ClockBeforeEpoch,
    /// Nobody listens any more for the delays that are to be logged.
    DelayLogClosed,
}

/// Why the server's answer to a login lets nobody in.
#[derive(Copy, Clone, Debug, PartialEq, Eq, Structural)]
pub enum LoginError {
    /// The answer is a packet of another kind.
    NotLogin(SCPacketType),
    /// The answer has a type byte that names no kind of packet.
    UnknownType(u8),
}

impl ClientError {
    /// What to tell people, see [`ClientError::text`].
    pub open spec fn message(self) -> Seq<char> {
        match self {
            ClientError::ReadZero => "Read zero byte"@,
            ClientError::PacketTooSmall(_) => "a packet size was less than 2. It was "@,
            ClientError::NoTypeField => "packet has no type field"@,
            ClientError::ClockBeforeEpoch => "the clock stands before 1970"@,
            ClientError::DelayLogClosed => "sending on a closed channel"@,
        }
    }

    /// What to tell people. Where the error holds a number, the number follows it.
    pub fn text(self) -> (text: &'static str)
        ensures
            text@ == self.message(),
    {
        match self {
            ClientError::ReadZero => "Read zero byte",
            ClientError::PacketTooSmall(_) => "a packet size was less than 2. It was ",
            ClientError::NoTypeField => "packet has no type field",
            ClientError::ClockBeforeEpoch => "the clock stands before 1970",
            ClientError::DelayLogClosed => "sending on a closed channel",
        }
    }
}

impl LoginError {
    /// What to tell people, see [`LoginError::text`].
    pub open spec fn message(self) -> Seq<char> {
        match self {
            LoginError::NotLogin(
                _,
            ) => "the server has sent a packet that isn't a login packet. It was "@,
            LoginError::UnknownType(_) => "the server has sent unknown packet type "@,
        }
    }

    /// What to tell people. What the error holds follows it.
    pub fn text(self) -> (text: &'static str)
        ensures
            text@ == self.message(),
    {
        match self {
            LoginError::NotLogin(
                _,
            ) => "the server has sent a packet that isn't a login packet. It was ",
            LoginError::UnknownType(_) => "the server has sent unknown packet type ",
        }
    }
}

/// What people are told, whatever number an error holds.
pub proof fn errors_speak_plainly(size: usize, kind: SCPacketType, byte: u8)
    ensures
        ClientError::ReadZero.message() == "Read zero byte"@,
        ClientError::PacketTooSmall(size).message() == "a packet size was less than 2. It was "@,
        ClientError::NoTypeField.message() == "packet has no type field"@,
        ClientError::ClockBeforeEpoch.message() == "the clock stands before 1970"@,
        ClientError::DelayLogClosed.message() == "sending on a closed channel"@,
        LoginError::NotLogin(kind).message()
            == "the server has sent a packet that isn't a login packet. It was "@,
        LoginError::UnknownType(byte).message() == "the server has sent unknown packet type "@,
{
}

} // verus!
