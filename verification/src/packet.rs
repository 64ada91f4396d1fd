//! The packets of the game protocol.
//!
//! Every packet starts with a header of two bytes, its total size and its type,
//! and its fields follow without padding, integers least significant byte first.
use crate::wire;
use vstd::prelude::*;

verus! {

/// The two bytes that every packet starts with.
#[derive(Copy, Clone, Debug, PartialEq, Eq, Structural)]
pub struct PacketHeader {
    /// The size of the whole packet in bytes, this header included.
    pub size: i8,
    /// The type code of the packet.
    pub p_type: i8,
}

impl PacketHeader {
    /// The two bytes of the header.
    pub open spec fn bytes(self) -> Seq<u8> {
        seq![wire::i8_byte(self.size), wire::i8_byte(self.p_type)]
    }

    /// The header that `bytes` starts with.
    pub open spec fn of(bytes: Seq<u8>) -> PacketHeader {
        PacketHeader { size: wire::byte_i8(bytes[0]), p_type: wire::byte_i8(bytes[1]) }
    }

    /// Reads the header that `bytes` starts with.
    fn read(bytes: &[u8]) -> (header: PacketHeader)
        requires
            bytes@.len() >= 2,
        ensures
            header == PacketHeader::of(bytes@),
    {
        PacketHeader { size: wire::i8_of_byte(bytes[0]), p_type: wire::i8_of_byte(bytes[1]) }
    }

    /// A buffer that holds the two bytes of the header.
    fn start(self) -> (out: Vec<u8>)
        ensures
            out@ == self.bytes(),
    {
        let mut out: Vec<u8> = Vec::new();
        out.push(wire::byte_of_i8(self.size));
        out.push(wire::byte_of_i8(self.p_type));
        assert(out@ =~= self.bytes());
        out
    }
}

/// What a packet from the server is.
#[allow(non_camel_case_types)]
#[derive(Copy, Clone, Debug, PartialEq, Eq, Structural)]
pub enum SCPacketType {
    SC_LOGIN_OK,
    SC_LOGIN_FAIL,
    SC_POS,
    SC_PUT,
    SC_REMOVE,
    SC_CHAT,
}

impl SCPacketType {
    /// The type code of the packet on the wire.
    pub open spec fn code(self) -> int {
        match self {
            SCPacketType::SC_LOGIN_OK => 1,
            SCPacketType::SC_LOGIN_FAIL => 2,
            SCPacketType::SC_POS => 3,
            SCPacketType::SC_PUT => 4,
            SCPacketType::SC_REMOVE => 5,
            SCPacketType::SC_CHAT => 6,
        }
    }

    /// The packet type with the given code, if there is one.
    pub open spec fn with_code(code: int) -> Option<SCPacketType> {
        if code == 1 {
            Some(SCPacketType::SC_LOGIN_OK)
        } else if code == 2 {
            Some(SCPacketType::SC_LOGIN_FAIL)
        } else if code == 3 {
            Some(SCPacketType::SC_POS)
        } else if code == 4 {
            Some(SCPacketType::SC_PUT)
        } else if code == 5 {
            Some(SCPacketType::SC_REMOVE)
        } else if code == 6 {
            Some(SCPacketType::SC_CHAT)
        } else {
            None
        }
    }

    /// The type code of the packet on the wire.
    pub fn to_code(self) -> (code: u8)
        ensures
            code == self.code(),
    {
        match self {
            SCPacketType::SC_LOGIN_OK => 1,
            SCPacketType::SC_LOGIN_FAIL => 2,
            SCPacketType::SC_POS => 3,
            SCPacketType::SC_PUT => 4,
            SCPacketType::SC_REMOVE => 5,
            SCPacketType::SC_CHAT => 6,
        }
    }

    /// The packet type that a type byte names, or `None` for a byte that names none.
    pub fn from_u8(byte: u8) -> (found: Option<SCPacketType>)
        ensures
            found == SCPacketType::with_code(byte as int),
    {
        match byte {
            1 => Some(SCPacketType::SC_LOGIN_OK),
            2 => Some(SCPacketType::SC_LOGIN_FAIL),
            3 => Some(SCPacketType::SC_POS),
            4 => Some(SCPacketType::SC_PUT),
            5 => Some(SCPacketType::SC_REMOVE),
            6 => Some(SCPacketType::SC_CHAT),
            _ => None,
        }
    }

    /// The packet type whose code is the low 32 bits of `value`, which must name one.
    pub fn from(value: usize) -> (found: SCPacketType)
        requires
            1 <= value as int % 0x1_0000_0000 <= 6,
        ensures
            found.code() == value as int % 0x1_0000_0000,
    {
        let low: u64 = value as u64 % 0x1_0000_0000;
        if low == 1 {
            SCPacketType::SC_LOGIN_OK
        } else if low == 2 {
            SCPacketType::SC_LOGIN_FAIL
        } else if low == 3 {
            SCPacketType::SC_POS
        } else if low == 4 {
            SCPacketType::SC_PUT
        } else if low == 5 {
            SCPacketType::SC_REMOVE
        } else {
            SCPacketType::SC_CHAT
        }
    }
}

/// What a packet to the server is.
#[allow(non_camel_case_types)]
#[derive(Copy, Clone, Debug, PartialEq, Eq, Structural)]
pub enum CSPacketType {
    CS_LOGIN,
    CS_MOVE,
    CS_ATTACK,
    CS_CHAT,
    CS_LOGOUT,
    CS_TELEPORT,
}

impl CSPacketType {
    /// The type code of the packet on the wire.
    pub open spec fn code(self) -> i8 {
        match self {
            CSPacketType::CS_LOGIN => 1,
            CSPacketType::CS_MOVE => 2,
            CSPacketType::CS_ATTACK => 3,
            CSPacketType::CS_CHAT => 4,
            CSPacketType::CS_LOGOUT => 5,
            CSPacketType::CS_TELEPORT => 6,
        }
    }

    /// The type code of the packet on the wire.
    pub fn to_code(self) -> (code: i8)
        ensures
            code == self.code(),
    {
        match self {
            CSPacketType::CS_LOGIN => 1,
            CSPacketType::CS_MOVE => 2,
            CSPacketType::CS_ATTACK => 3,
            CSPacketType::CS_CHAT => 4,
            CSPacketType::CS_LOGOUT => 5,
            CSPacketType::CS_TELEPORT => 6,
        }
    }
}

/// Where a player steps.
#[allow(non_camel_case_types)]
#[derive(Copy, Clone, Debug, PartialEq, Eq, Structural)]
pub enum Direction {
    D_UP,
    D_DOWN,
    D_LEFT,
    D_RIGHT,
}

impl Direction {
    /// The code of the direction on the wire.
    pub open spec fn code(self) -> i8 {
        match self {
            Direction::D_UP => 0,
            Direction::D_DOWN => 1,
            Direction::D_LEFT => 2,
            Direction::D_RIGHT => 3,
        }
    }

    /// The code of the direction on the wire.
    pub fn to_code(self) -> (code: i8)
        ensures
            code == self.code(),
    {
        match self {
            Direction::D_UP => 0,
            Direction::D_DOWN => 1,
            Direction::D_LEFT => 2,
            Direction::D_RIGHT => 3,
        }
    }
}

/// A packet that the server sends, of one fixed size.
pub trait Incoming: Sized {
    /// How many bytes the packet takes.
    spec fn size() -> nat;

    /// The bytes of the packet.
    spec fn encode(self) -> Seq<u8>;

    /// The packet that `bytes` hold.
    spec fn decode(bytes: Seq<u8>) -> Self;

    /// A packet takes as many bytes as its kind says.
    proof fn encode_size(self)
        ensures
            self.encode().len() == Self::size(),
    ;

    /// Decoding gives back what was encoded.
    proof fn decode_encode(self)
        ensures
            Self::decode(self.encode()) == self,
    ;

    /// Encoding gives back the bytes that were decoded.
    proof fn encode_decode(bytes: Seq<u8>)
        requires
            bytes.len() == Self::size(),
        ensures
            Self::decode(bytes).encode() == bytes,
    ;

    /// How many bytes the packet takes.
    fn packet_size() -> (n: usize)
        ensures
            n == Self::size(),
    ;

    /// Reads the packet out of exactly as many bytes as it takes.
    fn read(bytes: &[u8]) -> (packet: Self)
        requires
            bytes@.len() == Self::size(),
        ensures
            packet == Self::decode(bytes@),
    ;
}

/// Reads a packet out of exactly as many bytes as it takes.
pub fn from_bytes<T: Incoming>(bytes: &[u8]) -> (packet: T)
    requires
        bytes@.len() == T::size(),
    ensures
        packet == T::decode(bytes@),
{
    T::read(bytes)
}

/// A packet survives the wire: its bytes are as many as its kind says, and
/// decoding them gives it back.
pub proof fn incoming_round_trip<T: Incoming>(packet: T)
    ensures
        packet.encode().len() == T::size(),
        T::decode(packet.encode()) == packet,
{
    packet.encode_size();
    packet.decode_encode();
}

/// Bytes of the right number are the bytes of exactly one packet.
pub proof fn incoming_unique<T: Incoming>(bytes: Seq<u8>, packet: T)
    requires
        bytes.len() == T::size(),
    ensures
        packet == T::decode(bytes) <==> packet.encode() == bytes,
{
    T::encode_decode(bytes);
    packet.decode_encode();
}

/// A player comes into view.
#[derive(Copy, Clone, Debug, PartialEq, Eq, Structural)]
pub struct SCPutPlayer {
    pub header: PacketHeader,
    pub id: i32,
    pub o_type: i8,
    pub x: i16,
    pub y: i16,
}

impl Incoming for SCPutPlayer {
    open spec fn size() -> nat {
        11
    }

    open spec fn encode(self) -> Seq<u8> {
        self.header.bytes() + wire::i32_bytes(self.id) + seq![wire::i8_byte(self.o_type)]
            + wire::i16_bytes(self.x) + wire::i16_bytes(self.y)
    }

    open spec fn decode(bytes: Seq<u8>) -> Self {
        SCPutPlayer {
            header: PacketHeader::of(bytes),
            id: wire::i32_at(bytes, 2),
            o_type: wire::byte_i8(bytes[6]),
            x: wire::i16_at(bytes, 7),
            y: wire::i16_at(bytes, 9),
        }
    }

    proof fn encode_size(self) {
    }

    proof fn decode_encode(self) {
        let s = self.encode();
        assert(s.subrange(2, 6) =~= wire::i32_bytes(self.id));
        assert(s.subrange(7, 9) =~= wire::i16_bytes(self.x));
        assert(s.subrange(9, 11) =~= wire::i16_bytes(self.y));
        wire::i32_read_back(self.id, s, 2);
        wire::i16_read_back(self.x, s, 7);
        wire::i16_read_back(self.y, s, 9);
    }

    proof fn encode_decode(bytes: Seq<u8>) {
        wire::i32_write_back(bytes, 2);
        wire::i16_write_back(bytes, 7);
        wire::i16_write_back(bytes, 9);
        assert(Self::decode(bytes).encode() =~= bytes);
    }

    fn packet_size() -> (n: usize) {
        11
    }

    fn read(bytes: &[u8]) -> (packet: Self) {
        SCPutPlayer {
            header: PacketHeader::read(bytes),
            id: wire::read_i32(bytes, 2),
            o_type: wire::i8_of_byte(bytes[6]),
            x: wire::read_i16(bytes, 7),
            y: wire::read_i16(bytes, 9),
        }
    }
}

/// A player has moved.
#[derive(Copy, Clone, Debug, PartialEq, Eq, Structural)]
pub struct SCPosPlayer {
    pub header: PacketHeader,
    pub id: i32,
    pub x: i16,
    pub y: i16,
    /// The stamp of the move that this packet answers.
    pub seq_no: i32,
}

impl SCPosPlayer {
    /// When the move was made, in milliseconds, or 0 if nobody asks for its delay:
    /// the bits of `seq_no`, unsigned.
    pub open spec fn move_time(self) -> u32 {
        wire::bits_of_i32(self.seq_no)
    }

    /// When the move was made, in milliseconds, or 0 if nobody asks for its delay.
    pub fn get_move_time(&self) -> (time: u32)
        ensures
            time == self.move_time(),
    {
        wire::i32_to_bits(self.seq_no)
    }
}

impl Incoming for SCPosPlayer {
    open spec fn size() -> nat {
        14
    }

    open spec fn encode(self) -> Seq<u8> {
        self.header.bytes() + wire::i32_bytes(self.id) + wire::i16_bytes(self.x)
            + wire::i16_bytes(self.y) + wire::i32_bytes(self.seq_no)
    }

    open spec fn decode(bytes: Seq<u8>) -> Self {
        SCPosPlayer {
            header: PacketHeader::of(bytes),
            id: wire::i32_at(bytes, 2),
            x: wire::i16_at(bytes, 6),
            y: wire::i16_at(bytes, 8),
            seq_no: wire::i32_at(bytes, 10),
        }
    }

    proof fn encode_size(self) {
    }

    proof fn decode_encode(self) {
        let s = self.encode();
        assert(s.subrange(2, 6) =~= wire::i32_bytes(self.id));
        assert(s.subrange(6, 8) =~= wire::i16_bytes(self.x));
        assert(s.subrange(8, 10) =~= wire::i16_bytes(self.y));
        assert(s.subrange(10, 14) =~= wire::i32_bytes(self.seq_no));
        wire::i32_read_back(self.id, s, 2);
        wire::i16_read_back(self.x, s, 6);
        wire::i16_read_back(self.y, s, 8);
        wire::i32_read_back(self.seq_no, s, 10);
    }

    proof fn encode_decode(bytes: Seq<u8>) {
        wire::i32_write_back(bytes, 2);
        wire::i16_write_back(bytes, 6);
        wire::i16_write_back(bytes, 8);
        wire::i32_write_back(bytes, 10);
        assert(Self::decode(bytes).encode() =~= bytes);
    }

    fn packet_size() -> (n: usize) {
        14
    }

    fn read(bytes: &[u8]) -> (packet: Self) {
        SCPosPlayer {
            header: PacketHeader::read(bytes),
            id: wire::read_i32(bytes, 2),
            x: wire::read_i16(bytes, 6),
            y: wire::read_i16(bytes, 8),
            seq_no: wire::read_i32(bytes, 10),
        }
    }
}

/// The server has let the player in.
#[derive(Copy, Clone, Debug, PartialEq, Eq, Structural)]
pub struct SCLoginOk {
    pub header: PacketHeader,
    pub id: i32,
    pub x: i16,
    pub y: i16,
    pub hp: i16,
    pub level: i16,
    pub exp: i32,
}

impl Incoming for SCLoginOk {
    open spec fn size() -> nat {
        18
    }

    open spec fn encode(self) -> Seq<u8> {
        self.header.bytes() + wire::i32_bytes(self.id) + wire::i16_bytes(self.x)
            + wire::i16_bytes(self.y) + wire::i16_bytes(self.hp) + wire::i16_bytes(self.level)
            + wire::i32_bytes(self.exp)
    }

    open spec fn decode(bytes: Seq<u8>) -> Self {
        SCLoginOk {
            header: PacketHeader::of(bytes),
            id: wire::i32_at(bytes, 2),
            x: wire::i16_at(bytes, 6),
            y: wire::i16_at(bytes, 8),
            hp: wire::i16_at(bytes, 10),
            level: wire::i16_at(bytes, 12),
            exp: wire::i32_at(bytes, 14),
        }
    }

    proof fn encode_size(self) {
    }

    proof fn decode_encode(self) {
        let s = self.encode();
        assert(s.subrange(2, 6) =~= wire::i32_bytes(self.id));
        assert(s.subrange(6, 8) =~= wire::i16_bytes(self.x));
        assert(s.subrange(8, 10) =~= wire::i16_bytes(self.y));
        assert(s.subrange(10, 12) =~= wire::i16_bytes(self.hp));
        assert(s.subrange(12, 14) =~= wire::i16_bytes(self.level));
        assert(s.subrange(14, 18) =~= wire::i32_bytes(self.exp));
        wire::i32_read_back(self.id, s, 2);
        wire::i16_read_back(self.x, s, 6);
        wire::i16_read_back(self.y, s, 8);
        wire::i16_read_back(self.hp, s, 10);
        wire::i16_read_back(self.level, s, 12);
        wire::i32_read_back(self.exp, s, 14);
    }

    proof fn encode_decode(bytes: Seq<u8>) {
        wire::i32_write_back(bytes, 2);
        wire::i16_write_back(bytes, 6);
        wire::i16_write_back(bytes, 8);
        wire::i16_write_back(bytes, 10);
        wire::i16_write_back(bytes, 12);
        wire::i32_write_back(bytes, 14);
        assert(Self::decode(bytes).encode() =~= bytes);
    }

    fn packet_size() -> (n: usize) {
        18
    }

    fn read(bytes: &[u8]) -> (packet: Self) {
        SCLoginOk {
            header: PacketHeader::read(bytes),
            id: wire::read_i32(bytes, 2),
            x: wire::read_i16(bytes, 6),
            y: wire::read_i16(bytes, 8),
            hp: wire::read_i16(bytes, 10),
            level: wire::read_i16(bytes, 12),
            exp: wire::read_i32(bytes, 14),
        }
    }
}

/// Asks the server for a step.
#[derive(Copy, Clone, Debug, PartialEq, Eq, Structural)]
pub struct CSMove {
    pub header: PacketHeader,
    pub direction: i8,
    /// The stamp of the step, which the server sends back with the new position.
    pub seq_no: i32,
}

impl CSMove {
    /// How many bytes the packet takes.
    pub open spec fn size() -> nat {
        7
    }

    /// The bytes of the packet.
    pub open spec fn encode(self) -> Seq<u8> {
        self.header.bytes() + seq![wire::i8_byte(self.direction)] + wire::i32_bytes(self.seq_no)
    }

    /// When the step was made, in milliseconds: the bits of `seq_no`, unsigned.
    pub open spec fn move_time(self) -> u32 {
        wire::bits_of_i32(self.seq_no)
    }

    /// A step in the given direction.
    pub fn new(direction: Direction, seq_no: i32) -> (packet: CSMove)
        ensures
            packet.header == (PacketHeader { size: 7, p_type: 2 }),
            packet.direction == direction.code(),
            packet.seq_no == seq_no,
    {
        CSMove {
            header: PacketHeader { size: 7, p_type: CSPacketType::CS_MOVE.to_code() },
            direction: direction.to_code(),
            seq_no,
        }
    }

    /// Stamps the step with the time at which it is made.
    pub fn set_move_time(&mut self, time: u32)
        ensures
            final(self).move_time() == time,
            *final(self) == (CSMove { seq_no: wire::i32_of_bits(time), ..*old(self) }),
    {
        self.seq_no = wire::i32_from_bits(time);
    }

    /// The bytes of the packet.
    pub fn to_bytes(&self) -> (bytes: Vec<u8>)
        ensures
            bytes@ == self.encode(),
    {
        let mut out: Vec<u8> = self.header.start();
        out.push(wire::byte_of_i8(self.direction));
        wire::push_i32(&mut out, self.seq_no);
        assert(out@ =~= self.encode());
        out
    }
}

/// Asks the server to let a player in.
#[derive(Copy, Clone, Debug, PartialEq, Eq)]
pub struct CSLogin {
    pub header: PacketHeader,
    pub id: [i8; 50],
}

impl CSLogin {
    /// How many bytes the packet takes.
    pub open spec fn size() -> nat {
        52
    }

    /// The bytes of the packet.
    pub open spec fn encode(self) -> Seq<u8> {
        self.header.bytes() + Seq::new(50, |i: int| wire::i8_byte(self.id@[i]))
    }

    /// A login under an empty name.
    pub fn new() -> (packet: CSLogin)
        ensures
            packet.header == (PacketHeader { size: 52, p_type: 1 }),
            forall|i: int| 0 <= i < 50 ==> packet.id@[i] == 0,
    {
        CSLogin {
            header: PacketHeader { size: 52, p_type: CSPacketType::CS_LOGIN.to_code() },
            id: [0i8; 50],
        }
    }

    /// The bytes of the packet.
    pub fn to_bytes(&self) -> (bytes: Vec<u8>)
        ensures
            bytes@ == self.encode(),
    {
        let mut out: Vec<u8> = self.header.start();
        let ghost name = Seq::new(50, |i: int| wire::i8_byte(self.id@[i]));
        let mut i: usize = 0;
        while i < 50
            invariant
                i <= 50,
                name == Seq::new(50, |i: int| wire::i8_byte(self.id@[i])),
                out@ == self.header.bytes() + name.take(i as int),
            decreases 50 - i,
        {
            out.push(wire::byte_of_i8(self.id[i]));
            i += 1;
            assert(out@ =~= self.header.bytes() + name.take(i as int));
        }
        assert(name.take(50) =~= name);
        out
    }
}

/// Asks the server to put the player somewhere else.
#[derive(Copy, Clone, Debug, PartialEq, Eq, Structural)]
pub struct CSTeleport {
    pub header: PacketHeader,
}

impl CSTeleport {
    /// How many bytes the packet takes.
    pub open spec fn size() -> nat {
        2
    }

    /// The bytes of the packet.
    pub open spec fn encode(self) -> Seq<u8> {
        self.header.bytes()
    }

    /// A teleport.
    pub fn new() -> (packet: CSTeleport)
        ensures
            packet.header == (PacketHeader { size: 2, p_type: 6 }),
    {
        CSTeleport { header: PacketHeader { size: 2, p_type: CSPacketType::CS_TELEPORT.to_code() } }
    }

    /// The bytes of the packet.
    pub fn to_bytes(&self) -> (bytes: Vec<u8>)
        ensures
            bytes@ == self.encode(),
    {
        self.header.start()
    }
}

/// A type code and a packet type name each other.
pub proof fn packet_type_code_round_trip(kind: SCPacketType, code: int)
    ensures
        SCPacketType::with_code(kind.code()) == Some(kind),
        SCPacketType::with_code(code) is Some <==> 1 <= code <= 6,
        SCPacketType::with_code(code) is Some ==> SCPacketType::with_code(code)->0.code() == code,
{
}

/// Packets to the server differ where they must: two steps have the same bytes
/// only if they are the same step.
pub proof fn move_bytes_identify(a: CSMove, b: CSMove)
    requires
        a.encode() == b.encode(),
    ensures
        a == b,
{
    let s = a.encode();
    let t = b.encode();
    assert(PacketHeader::of(s) == a.header && PacketHeader::of(t) == b.header);
    assert(wire::byte_i8(s[2]) == a.direction && wire::byte_i8(t[2]) == b.direction);
    assert(s.subrange(3, 7) =~= wire::i32_bytes(a.seq_no));
    assert(t.subrange(3, 7) =~= wire::i32_bytes(b.seq_no));
    wire::i32_read_back(a.seq_no, s, 3);
    wire::i32_read_back(b.seq_no, t, 3);
}

/// The type codes on the wire.
pub proof fn type_codes()
    ensures
        SCPacketType::SC_LOGIN_OK.code() == 1,
        SCPacketType::SC_LOGIN_FAIL.code() == 2,
        SCPacketType::SC_POS.code() == 3,
        SCPacketType::SC_PUT.code() == 4,
        SCPacketType::SC_REMOVE.code() == 5,
        SCPacketType::SC_CHAT.code() == 6,
        CSPacketType::CS_LOGIN.code() == 1,
        CSPacketType::CS_MOVE.code() == 2,
        CSPacketType::CS_ATTACK.code() == 3,
        CSPacketType::CS_CHAT.code() == 4,
        CSPacketType::CS_LOGOUT.code() == 5,
        CSPacketType::CS_TELEPORT.code() == 6,
        Direction::D_UP.code() == 0,
        Direction::D_DOWN.code() == 1,
        Direction::D_LEFT.code() == 2,
        Direction::D_RIGHT.code() == 3,
{
}

/// A packet starts with its size and its type, one signed byte each.
pub proof fn header_layout(bytes: Seq<u8>)
    ensures
        PacketHeader::of(bytes).size == wire::byte_i8(bytes[0]),
        PacketHeader::of(bytes).p_type == wire::byte_i8(bytes[1]),
{
}

/// Where the fields of the packets from the server stand, and how long these are.
pub proof fn incoming_layout(bytes: Seq<u8>)
    ensures
        SCPutPlayer::size() == 11,
        SCPutPlayer::decode(bytes).header == PacketHeader::of(bytes),
        SCPutPlayer::decode(bytes).id == wire::i32_at(bytes, 2),
        SCPutPlayer::decode(bytes).o_type == wire::byte_i8(bytes[6]),
        SCPutPlayer::decode(bytes).x == wire::i16_at(bytes, 7),
        SCPutPlayer::decode(bytes).y == wire::i16_at(bytes, 9),
        SCPosPlayer::size() == 14,
        SCPosPlayer::decode(bytes).header == PacketHeader::of(bytes),
        SCPosPlayer::decode(bytes).id == wire::i32_at(bytes, 2),
        SCPosPlayer::decode(bytes).x == wire::i16_at(bytes, 6),
        SCPosPlayer::decode(bytes).y == wire::i16_at(bytes, 8),
        SCPosPlayer::decode(bytes).seq_no == wire::i32_at(bytes, 10),
        SCLoginOk::size() == 18,
        SCLoginOk::decode(bytes).header == PacketHeader::of(bytes),
        SCLoginOk::decode(bytes).id == wire::i32_at(bytes, 2),
        SCLoginOk::decode(bytes).x == wire::i16_at(bytes, 6),
        SCLoginOk::decode(bytes).y == wire::i16_at(bytes, 8),
        SCLoginOk::decode(bytes).hp == wire::i16_at(bytes, 10),
        SCLoginOk::decode(bytes).level == wire::i16_at(bytes, 12),
        SCLoginOk::decode(bytes).exp == wire::i32_at(bytes, 14),
{
}

/// The stamp of a move, read as an unsigned number.
pub proof fn stamps_are_unsigned(answer: SCPosPlayer, step: CSMove)
    ensures
        answer.move_time() == (if answer.seq_no >= 0 {
            answer.seq_no as int
        } else {
            answer.seq_no + 0x1_0000_0000
        }),
        step.move_time() == (if step.seq_no >= 0 {
            step.seq_no as int
        } else {
            step.seq_no + 0x1_0000_0000
        }),
{
}

/// Where the fields of the packets to the server stand, and how long these are.
pub proof fn outgoing_layout(step: CSMove, login: CSLogin, teleport: CSTeleport, i: int)
    requires
        0 <= i < 50,
    ensures
        CSMove::size() == 7 && step.encode().len() == 7,
        PacketHeader::of(step.encode()) == step.header,
        wire::byte_i8(step.encode()[2]) == step.direction,
        wire::i32_at(step.encode(), 3) == step.seq_no,
        CSLogin::size() == 52 && login.encode().len() == 52,
        PacketHeader::of(login.encode()) == login.header,
        wire::byte_i8(login.encode()[2 + i]) == login.id@[i],
        CSTeleport::size() == 2 && teleport.encode().len() == 2,
        PacketHeader::of(teleport.encode()) == teleport.header,
{
    let s = step.encode();
    assert(s.subrange(3, 7) =~= wire::i32_bytes(step.seq_no));
    wire::i32_read_back(step.seq_no, s, 3);
    assert(login.encode()[2 + i] == wire::i8_byte(login.id@[i]));
}

} // verus!
