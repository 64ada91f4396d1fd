//! One simulated player.
use crate::wire;
use vstd::prelude::*;

verus! {

/// `<i32 as Hash>::hash` of std feeds the number to the hasher. Nothing is
/// claimed of the state that the hasher is left in.
pub assume_specification<H: std::hash::Hasher>[ <i32 as std::hash::Hash>::hash ](
    number: &i32,
    state: &mut H,
);

/// A player that the server has let in. The server's id identifies it: two
/// players are equal if their ids are.
#[derive(Debug)]
pub struct Player {
    /// The id that the server gave the player.
    pub id: i32,
    /// Both coordinates in one word, see [`Player::compose_position`].
    pub position: u32,
    /// Whether the player still plays.
    pub is_alive: bool,
}

impl vstd::std_specs::cmp::PartialEqSpecImpl for Player {
    open spec fn obeys_eq_spec() -> bool {
        true
    }

    open spec fn eq_spec(&self, other: &Player) -> bool {
        self.id == other.id
    }
}

impl PartialEq for Player {
    fn eq(&self, other: &Player) -> (same: bool) {
        self.id == other.id
    }
}

impl Eq for Player {

}

impl std::hash::Hash for Player {
    fn hash<H: std::hash::Hasher>(&self, state: &mut H) {
        self.id.hash(state);
    }
}

/// The word that stands for the coordinates: `y` in the low half, sign-extended
/// over the high half, and `x` in the high half. A negative `y` so hides `x`.
pub open spec fn composed(x: i16, y: i16) -> u32 {
    if y >= 0 {
        (0x1_0000 * wire::bits_of_i16(x) + y) as u32
    } else {
        (0x1_0000_0000 + y) as u32
    }
}

/// The coordinates that a word stands for: `x` from the high half, `y` from the
/// low half.
pub open spec fn coordinates(position: u32) -> (i16, i16) {
    (
        wire::i16_of_bits((position as int / 0x1_0000) as u16),
        wire::i16_of_bits((position as int % 0x1_0000) as u16),
    )
}

impl Player {
    /// A living player at the given place.
    pub fn new(id: i32, x: i16, y: i16) -> (player: Player)
        ensures
            player == (Player { id, position: composed(x, y), is_alive: true }),
    {
        Player { id, position: Player::compose_position(x, y), is_alive: true }
    }

    /// Puts both coordinates into one word.
    pub fn compose_position(x: i16, y: i16) -> (position: u32)
        ensures
            position == composed(x, y),
    {
        let high: u32 = wire::i16_to_bits(x) as u32;
        let low: u32 = if y >= 0 {
            y as u32
        } else {
            0xffff_0000 + wire::i16_to_bits(y) as u32
        };
        assert(high < 0x1_0000 && low < 0x1_0000 ==> (high << 16) | low == 0x1_0000 * high + low)
            by (bit_vector);
        assert(low >= 0xffff_0000 ==> (high << 16) | low == low) by (bit_vector);
        (high << 16) | low
    }

    /// Where the player is.
    pub fn get_pos(&self) -> (place: (i16, i16))
        ensures
            place == coordinates(self.position),
    {
        let pos: u32 = self.position;
        let mask: u32 = 0xffff;
        assert(pos >> 16 == pos / 0x1_0000 && pos >> 16 < 0x1_0000) by (bit_vector);
        assert(pos & 0xffff == pos % 0x1_0000 && pos & 0xffff < 0x1_0000) by (bit_vector);
        let x: i16 = wire::i16_from_bits((pos >> 16) as u16);
        let y: i16 = wire::i16_from_bits((pos & mask) as u16);
        (x, y)
    }

    /// Moves the player.
    pub fn set_pos(&mut self, x: i16, y: i16)
        ensures
            *final(self) == (Player { position: composed(x, y), ..*old(self) }),
    {
        self.position = Player::compose_position(x, y);
    }
}

/// A player is found where it was put, unless `y` is negative and `x` is not -1.
pub proof fn position_round_trip(x: i16, y: i16)
    requires
        y >= 0 || x == -1,
    ensures
        coordinates(composed(x, y)) == (x, y),
{
    let p = composed(x, y) as int;
    if y >= 0 {
        assert(p / 0x1_0000 == wire::bits_of_i16(x) && p % 0x1_0000 == y);
    } else {
        assert(p / 0x1_0000 == 0xffff && p % 0x1_0000 == 0x1_0000 + y);
    }
}

/// Below zero only `y` is kept: `x` reads as -1, whatever it was.
pub proof fn position_below_zero(x: i16, y: i16)
    requires
        y < 0,
    ensures
        coordinates(composed(x, y)) == ((-1) as i16, y),
{
    position_round_trip((-1) as i16, y);
}

/// The word is `y` as 32 bits, with `x` as 16 bits above it as far as `y` leaves room.
pub proof fn the_word_of_a_place(x: i16, y: i16)
    ensures
        y >= 0 && x >= 0 ==> composed(x, y) == 0x1_0000 * x + y,
        y >= 0 && x < 0 ==> composed(x, y) == 0x1_0000 * (0x1_0000 + x) + y,
        y < 0 ==> composed(x, y) == 0x1_0000_0000 + y,
{
}

/// A word gives its high half as `x` and its low half as `y`, each as a signed number.
pub proof fn the_place_of_a_word(position: u32)
    ensures
        ({
            let (x, y) = coordinates(position);
            let high: int = if x >= 0 {
                x as int
            } else {
                0x1_0000 + x
            };
            let low: int = if y >= 0 {
                y as int
            } else {
                0x1_0000 + y
            };
            position == 0x1_0000 * high + low
        }),
{
}

/// Two players are equal exactly if their ids are, wherever they are and whether or not
/// they live.
pub proof fn players_are_equal_by_id(a: Player, b: Player)
    ensures
        vstd::std_specs::cmp::PartialEqSpec::eq_spec(&a, &b) <==> a.id == b.id,
{
}

} // verus!
