//! The players that the server has let in, and the map by which they are found.
use crate::error::LoginError;
use crate::packet::{from_bytes, Incoming, SCLoginOk, SCPacketType};
use crate::player::{composed, coordinates, position_below_zero, position_round_trip, Player};
use std::collections::hash_map::RandomState;
use std::hash::{BuildHasher, Hash};
use vstd::prelude::*;

verus! {

/// `evmap::ReadHandle`, carried as it is.
#[verifier::external_type_specification]
#[verifier::external_body]
#[verifier::reject_recursive_types(K)]
#[verifier::reject_recursive_types(V)]
#[verifier::reject_recursive_types(M)]
#[verifier::reject_recursive_types(S)]
pub struct ExReadHandle<K, V, M, S>(evmap::ReadHandle<K, V, M, S>) where
    K: Eq + Hash,
    S: BuildHasher,
;

/// The end of the map through which other threads look players up.
pub type PlayerMapRead = evmap::ReadHandle<i32, usize, (), RandomState>;

/// The end of the map through which players are entered: an `evmap::WriteHandle`
/// from ids to places in [`Roster::players`]. An id can have more than one place.
#[verifier::external_body]
pub struct PlayerMap {
    writer: evmap::WriteHandle<i32, usize, (), RandomState>,
}

/// What lookups find: the places of each id, in the order in which they were
/// entered.
pub uninterp spec fn published(map: PlayerMap) -> Map<i32, Seq<usize>>;

/// What lookups will find after the next refresh.
pub uninterp spec fn staged(map: PlayerMap) -> Map<i32, Seq<usize>>;

/// Every state that lookups through the writing end's map find at some time, from its
/// construction to its end. Looking at one moment shows one of them.
pub uninterp spec fn shown_through(map: PlayerMap) -> Set<Map<i32, Seq<usize>>>;

/// Every state that lookups through these readers find at some time.
pub uninterp spec fn shown(readers: PlayerMapRead) -> Set<Map<i32, Seq<usize>>>;

/// `slot` is entered as one more place of `id`.
pub open spec fn with_slot(bags: Map<i32, Seq<usize>>, id: i32, slot: usize) -> Map<
    i32,
    Seq<usize>,
> {
    bags.insert(
        id,
        if bags.contains_key(id) {
            bags[id].push(slot)
        } else {
            seq![slot]
        },
    )
}

/// Nobody is entered.
pub open spec fn no_bags() -> Map<i32, Seq<usize>> {
    Map::empty()
}

/// No id comes twice.
pub open spec fn distinct_ids(entries: Seq<(i32, Option<usize>)>) -> bool {
    forall|i: int, j: int| 0 <= i < j < entries.len() ==> entries[i].0 != entries[j].0
}

/// `slot` is the first of the places of `id`, if it has any: places are given in rising
/// order, so that is the smallest.
pub open spec fn gives_out(bags: Map<i32, Seq<usize>>, id: i32, slot: Option<usize>) -> bool {
    match slot {
        Some(slot) => {
            &&& bags.contains_key(id)
            &&& bags[id].contains(slot)
            &&& forall|i: int| 0 <= i < bags[id].len() ==> slot <= #[trigger] bags[id][i]
        },
        None => bags.contains_key(id) ==> bags[id].len() == 0,
    }
}

/// `slots` are the places of `id`, in some order, or nothing if it has no bag.
pub open spec fn hands_out(
    bags: Map<i32, Seq<usize>>,
    id: i32,
    slots: Option<Vec<usize>>,
) -> bool {
    match slots {
        Some(slots) => bags.contains_key(id) && slots@.to_multiset() == bags[id].to_multiset(),
        None => !bags.contains_key(id),
    }
}

/// `listed` has the ids of `bags`, each of them once, with its places in some order.
pub open spec fn hands_out_all(
    bags: Map<i32, Seq<usize>>,
    listed: Seq<(i32, Vec<usize>)>,
) -> bool {
    &&& forall|i: int, j: int| 0 <= i < j < listed.len() ==> listed[i].0 != listed[j].0
    &&& forall|i: int|
        0 <= i < listed.len() ==> bags.contains_key((#[trigger] listed[i]).0)
            && listed[i].1@.to_multiset() == bags[listed[i].0].to_multiset()
    &&& forall|id: i32| #[trigger]
        bags.contains_key(id) ==> exists|i: int|
            0 <= i < listed.len() && (#[trigger] listed[i]).0 == id
}

/// `listed` has all of one of the states.
pub open spec fn hands_out_one_of(
    states: Set<Map<i32, Seq<usize>>>,
    listed: Seq<(i32, Vec<usize>)>,
) -> bool {
    exists|bags: Map<i32, Seq<usize>>| #[trigger]
        states.contains(bags) && hands_out_all(bags, listed)
}

/// `entries` list the ids of `bags`, each of them once, with the first of its places.
pub open spec fn lists(bags: Map<i32, Seq<usize>>, entries: Seq<(i32, Option<usize>)>) -> bool {
    &&& distinct_ids(entries)
    &&& forall|i: int|
        0 <= i < entries.len() ==> bags.contains_key((#[trigger] entries[i]).0) && gives_out(
            bags,
            entries[i].0,
            entries[i].1,
        )
    &&& forall|id: i32| #[trigger]
        bags.contains_key(id) ==> exists|i: int|
            0 <= i < entries.len() && (#[trigger] entries[i]).0 == id
}

/// `entries` list one of the states.
pub open spec fn lists_one_of(
    states: Set<Map<i32, Seq<usize>>>,
    entries: Seq<(i32, Option<usize>)>,
) -> bool {
    exists|bags: Map<i32, Seq<usize>>| #[trigger] states.contains(bags) && lists(bags, entries)
}

/// `evmap::Options::construct`, for a map with room for `capacity` ids and the
/// default hasher: both ends of one empty map. A capacity whose table would not fit
/// into the address space is left out, for the allocation of it panics.
#[verifier::external_body]
fn construct(capacity: usize) -> (ends: (PlayerMapRead, PlayerMap))
    requires
        capacity <= isize::MAX / 0x200,
    ensures
        published(ends.1) == no_bags(),
        staged(ends.1) == no_bags(),
        shown(ends.0) == shown_through(ends.1),
        shown_through(ends.1).contains(no_bags()),
{
    let (reader, writer) = evmap::Options::default().with_capacity(capacity).construct();
    (reader, PlayerMap { writer })
}

/// `evmap::WriteHandle::insert`: adds `slot` to the places of `id`, which lookups
/// do not see before the next refresh.
#[verifier::external_body]
fn insert(map: &mut PlayerMap, id: i32, slot: usize)
    ensures
        published(*final(map)) == published(*old(map)),
        staged(*final(map)) == with_slot(staged(*old(map)), id, slot),
        shown_through(*final(map)) == shown_through(*old(map)),
{
    map.writer.insert(id, slot);
}

/// `evmap::WriteHandle::refresh`: lookups see all that was entered. It waits for
/// readers that are looking at the map just now.
#[verifier::external_body]
fn refresh(map: &mut PlayerMap)
    ensures
        published(*final(map)) == staged(*old(map)),
        staged(*final(map)) == staged(*old(map)),
        shown_through(*final(map)) == shown_through(*old(map)),
        shown_through(*final(map)).contains(published(*final(map))),
{
    map.writer.refresh();
}

/// `evmap::ReadHandle::get`, asked through the writing end: all places in the bag of
/// `id`, or nothing if there is no bag. They come in no particular order, for a large
/// bag keeps none.
#[verifier::external_body]
fn slots_of(map: &PlayerMap, id: i32) -> (slots: Option<Vec<usize>>)
    ensures
        hands_out(published(*map), id, slots),
{
    let values = map.writer.get(&id)?;
    Some(values.iter().copied().collect())
}

/// `evmap::ReadHandle::map_into`: each id of the map with all places in its bag, in no
/// particular order. The map stands still while it is walked, so the list is one of a
/// single state of it. Another thread can be entering players, so it is left open which
/// of its states that is.
#[verifier::external_body]
fn list(readers: &PlayerMapRead) -> (listed: Vec<(i32, Vec<usize>)>)
    ensures
        hands_out_one_of(shown(*readers), listed@),
{
    readers.map_into(|id, values| (*id, values.iter().copied().collect()))
}

/// The smallest of some places.
fn smallest(slots: &Vec<usize>) -> (slot: Option<usize>)
    ensures
        slot is None <==> slots@.len() == 0,
        slot matches Some(slot) ==> slots@.contains(slot) && forall|i: int|
            0 <= i < slots@.len() ==> slot <= #[trigger] slots@[i],
{
    if slots.len() == 0 {
        return None;
    }
    let mut slot: usize = slots[0];
    let mut i: usize = 1;
    assert(slots@[0] == slot);
    while i < slots.len()
        invariant
            1 <= i <= slots@.len(),
            slots@.contains(slot),
            forall|k: int| 0 <= k < i ==> slot <= #[trigger] slots@[k],
        decreases slots@.len() - i,
    {
        if slots[i] < slot {
            slot = slots[i];
            assert(slots@[i as int] == slot);
        }
        i += 1;
    }
    Some(slot)
}

/// The smallest of the places that a bag hands out is its first.
proof fn smallest_is_given_out(
    bags: Map<i32, Seq<usize>>,
    id: i32,
    slots: Seq<usize>,
    slot: Option<usize>,
)
    requires
        bags.contains_key(id),
        slots.to_multiset() == bags[id].to_multiset(),
        slot is None <==> slots.len() == 0,
        slot matches Some(slot) ==> slots.contains(slot) && forall|i: int|
            0 <= i < slots.len() ==> slot <= #[trigger] slots[i],
    ensures
        gives_out(bags, id, slot),
{
    let bag = bags[id];
    slots.to_multiset_ensures();
    bag.to_multiset_ensures();
    if let Some(slot) = slot {
        assert(bag.to_multiset().count(slot) > 0);
        assert forall|i: int| 0 <= i < bag.len() implies slot <= #[trigger] bag[i] by {
            assert(bag.contains(bag[i]));
            assert(slots.to_multiset().count(bag[i]) > 0);
            let k = choose|k: int| 0 <= k < slots.len() && slots[k] == bag[i];
            assert(slot <= slots[k]);
        }
    }
}

/// Both ends of one empty map with room for `capacity` ids.
pub fn new_player_map(capacity: usize) -> (ends: (PlayerMapRead, PlayerMap))
    requires
        capacity <= isize::MAX / 0x200,
    ensures
        published(ends.1) == no_bags(),
        staged(ends.1) == no_bags(),
        shown(ends.0) == shown_through(ends.1),
        shown_through(ends.1).contains(no_bags()),
{
    construct(capacity)
}

/// Every id of the map, once, with the first of its places, as the map stands at one
/// moment. Which of its states that is depends on what has been entered by then.
pub fn list_players(readers: &PlayerMapRead) -> (entries: Vec<(i32, Option<usize>)>)
    ensures
        lists_one_of(shown(*readers), entries@),
{
    let listed = list(readers);
    let ghost bags = choose|bags: Map<i32, Seq<usize>>| #[trigger]
        shown(*readers).contains(bags) && hands_out_all(bags, listed@);
    let mut entries: Vec<(i32, Option<usize>)> = Vec::new();
    while entries.len() < listed.len()
        invariant
            entries@.len() <= listed@.len(),
            hands_out_all(bags, listed@),
            forall|i: int|
                0 <= i < entries@.len() ==> (#[trigger] entries@[i]).0 == listed@[i].0
                    && gives_out(bags, listed@[i].0, entries@[i].1),
        decreases listed@.len() - entries@.len(),
    {
        let i: usize = entries.len();
        let slot = smallest(&listed[i].1);
        proof {
            assert(bags.contains_key(listed@[i as int].0));
            smallest_is_given_out(bags, listed@[i as int].0, listed@[i as int].1@, slot);
        }
        entries.push((listed[i].0, slot));
    }
    proof {
        assert forall|id: i32| #[trigger] bags.contains_key(id) implies exists|i: int|
            0 <= i < entries@.len() && (#[trigger] entries@[i]).0 == id by {
            let i = choose|i: int| 0 <= i < listed@.len() && (#[trigger] listed@[i]).0 == id;
            assert(entries@[i].0 == id);
        }
        assert forall|i: int| 0 <= i < entries@.len() implies bags.contains_key(
            (#[trigger] entries@[i]).0,
        ) by {
            assert(bags.contains_key(listed@[i].0));
        }
        assert(lists(bags, entries@));
    }
    entries
}

/// Everybody who was let in, and how many play.
#[derive(Debug)]
pub struct Roster {
    /// Everybody who was let in, in the order in which they came.
    pub players: Vec<Player>,
    /// How many play.
    pub player_num: usize,
}

/// The places of the map are those of the players with these ids, in the order in which
/// they came, and every player has its place in the map.
pub open spec fn linked(bags: Map<i32, Seq<usize>>, players: Seq<Player>) -> bool {
    &&& forall|id: i32| #[trigger] bags.contains_key(id) ==> bags[id].len() > 0
    &&& forall|id: i32, i: int|
        #![trigger bags[id][i]]
        bags.contains_key(id) && 0 <= i < bags[id].len() ==> bags[id][i] < players.len()
            && players[bags[id][i] as int].id == id
    &&& forall|id: i32, i: int, j: int|
        #![trigger bags[id][i], bags[id][j]]
        bags.contains_key(id) && 0 <= i < j < bags[id].len() ==> bags[id][i] < bags[id][j]
    &&& forall|slot: int|
        0 <= slot < players.len() ==> bags.contains_key(#[trigger] players[slot].id)
            && bags[players[slot].id].contains(slot as usize)
}

/// An answer to a login that has the size which its type demands.
pub open spec fn login_fits(read_buf: Seq<u8>) -> bool {
    &&& read_buf.len() >= 2
    &&& 1 <= read_buf[0] <= read_buf.len()
    &&& SCPacketType::with_code(read_buf[1] as int) == Some(SCPacketType::SC_LOGIN_OK)
        ==> read_buf[0] == SCLoginOk::size()
}

/// Tells whether [`process_login`] can handle an answer.
pub fn check_login(read_buf: &[u8]) -> (ok: bool)
    ensures
        ok == login_fits(read_buf@),
{
    if read_buf.len() < 2 || read_buf[0] < 1 || read_buf[0] as usize > read_buf.len() {
        return false;
    }
    match SCPacketType::from_u8(read_buf[1]) {
        Some(SCPacketType::SC_LOGIN_OK) => read_buf[0] as usize == SCLoginOk::packet_size(),
        _ => true,
    }
}

/// The player that an answer to a login lets in.
pub open spec fn admitted(read_buf: Seq<u8>) -> Player {
    let p = SCLoginOk::decode(read_buf.take(SCLoginOk::size() as int));
    Player { id: p.id, position: composed(p.x, p.y), is_alive: true }
}

/// Takes in the server's answer to a login, which starts at the front of
/// `read_buf`: if it lets a player in, the player joins the roster and can be looked
/// up from then on. Gives the player's place in the roster.
pub fn process_login(read_buf: &[u8], map: &mut PlayerMap, roster: &mut Roster) -> (result: Result<
    usize,
    LoginError,
>)
    requires
        login_fits(read_buf@),
    ensures
        final(roster).player_num == old(roster).player_num,
        match SCPacketType::with_code(read_buf@[1] as int) {
            Some(SCPacketType::SC_LOGIN_OK) => {
                let player = admitted(read_buf@);
                let slot = old(roster).players@.len();
                &&& result == Ok::<usize, LoginError>(slot as usize)
                &&& slot == slot as usize
                &&& final(roster).players@ == old(roster).players@.push(player)
                &&& staged(*final(map)) == with_slot(staged(*old(map)), player.id, slot as usize)
                &&& published(*final(map)) == staged(*final(map))
                &&& shown_through(*final(map)) == shown_through(*old(map))
                &&& shown_through(*final(map)).contains(published(*final(map)))
                &&& linked(staged(*old(map)), old(roster).players@) ==> linked(
                    published(*final(map)),
                    final(roster).players@,
                )
            },
            other => {
                &&& final(roster).players@ == old(roster).players@
                &&& *final(map) == *old(map)
                &&& other matches Some(kind) ==> result == Err::<usize, LoginError>(
                    LoginError::NotLogin(kind),
                )
                &&& other is None ==> result == Err::<usize, LoginError>(
                    LoginError::UnknownType(read_buf@[1]),
                )
            },
        },
{
    match SCPacketType::from_u8(read_buf[1]) {
        Some(SCPacketType::SC_LOGIN_OK) => {
            let total_size: usize = read_buf[0] as usize;
            let packet: &[u8] = &read_buf[0..total_size];
            assert(packet@ =~= read_buf@.take(SCLoginOk::size() as int));
            let p: SCLoginOk = from_bytes(packet);
            let slot: usize = roster.players.len();
            roster.players.push(Player::new(p.id, p.x, p.y));
            insert(map, p.id, slot);
            refresh(map);
            proof {
                if linked(staged(*old(map)), old(roster).players@) {
                    login_keeps_linked(
                        staged(*old(map)),
                        old(roster).players@,
                        admitted(read_buf@),
                    );
                }
            }
            Ok(slot)
        },
        Some(kind) => Err(LoginError::NotLogin(kind)),
        None => Err(LoginError::UnknownType(read_buf[1])),
    }
}

/// Looks a client up and ends its life: of several under one id, that of the first who
/// came. A client that was never let in is passed over.
pub fn disconnect_client(client_id: i32, map: &PlayerMap, roster: &mut Roster)
    requires
        linked(published(*map), old(roster).players@),
    ensures
        linked(published(*map), final(roster).players@),
        !published(*map).contains_key(client_id) ==> {
            &&& final(roster).players@ == old(roster).players@
            &&& final(roster).player_num == old(roster).player_num
        },
        published(*map).contains_key(client_id) ==> {
            let slot = published(*map)[client_id][0];
            &&& final(roster).players@ == ended(old(roster).players@, slot as int)
            &&& final(roster).player_num == old(roster).player_num.wrapping_sub(1)
        },
{
    if let Some(slots) = slots_of(map, client_id) {
        let first = smallest(&slots);
        proof {
            smallest_is_given_out(published(*map), client_id, slots@, first);
            first_is_given_out(published(*map), old(roster).players@, client_id, first);
        }
        if let Some(slot) = first {
            roster.end(slot);
            proof {
                ending_keeps_linked(published(*map), old(roster).players@, slot as int);
            }
        }
    }
}

/// In a map that is linked to a roster, the place that an id gives out is the one that
/// was entered first.
pub proof fn first_is_given_out(
    bags: Map<i32, Seq<usize>>,
    players: Seq<Player>,
    id: i32,
    slot: Option<usize>,
)
    requires
        linked(bags, players),
        gives_out(bags, id, slot),
    ensures
        bags.contains_key(id) ==> slot == Some(bags[id][0]) && bags[id][0] < players.len()
            && players[bags[id][0] as int].id == id,
        !bags.contains_key(id) ==> slot is None,
{
    if bags.contains_key(id) {
        let bag = bags[id];
        let i = choose|i: int| 0 <= i < bag.len() && bag[i] == slot->0;
        assert(bags[id][i] == slot->0);
        assert(slot->0 <= bags[id][0]);
        if i > 0 {
            assert(bags[id][0] < bags[id][i]);
        }
    }
}

/// The player at `slot` plays no more.
pub open spec fn ended(players: Seq<Player>, slot: int) -> Seq<Player> {
    players.update(slot, Player { is_alive: false, ..players[slot] })
}

/// The places that `entries` give for players of the roster, in order.
pub open spec fn places(entries: Seq<(i32, Option<usize>)>, players: Seq<Player>) -> Seq<usize>
    decreases entries.len(),
{
    if entries.len() == 0 {
        Seq::empty()
    } else {
        let before = places(entries.drop_last(), players);
        match entries.last().1 {
            Some(slot) if slot < players.len() => before.push(slot),
            _ => before,
        }
    }
}

/// The players at the given places play no more.
pub open spec fn all_ended(players: Seq<Player>, slots: Seq<usize>) -> Seq<Player>
    decreases slots.len(),
{
    if slots.len() == 0 {
        players
    } else {
        ended(all_ended(players, slots.drop_last()), slots.last() as int)
    }
}

/// The number that is left of `n` after counting down `k` times, past zero to the
/// largest number.
pub open spec fn counted_down(n: usize, k: nat) -> usize
    decreases k,
{
    if k == 0 {
        n
    } else {
        counted_down(n, (k - 1) as nat).wrapping_sub(1)
    }
}

/// Where the living among the given players are.
pub open spec fn places_alive(slots: Seq<usize>, players: Seq<Player>) -> Seq<(i16, i16)>
    decreases slots.len(),
{
    if slots.len() == 0 {
        Seq::empty()
    } else {
        let before = places_alive(slots.drop_last(), players);
        let player = players[slots.last() as int];
        if player.is_alive {
            before.push(coordinates(player.position))
        } else {
            before
        }
    }
}

impl Roster {
    /// Nobody.
    pub fn new() -> (roster: Roster)
        ensures
            roster.players@ == Seq::<Player>::empty(),
            roster.player_num == 0,
    {
        Roster { players: Vec::new(), player_num: 0 }
    }

    /// One more plays.
    pub fn join(&mut self)
        ensures
            final(self).players@ == old(self).players@,
            final(self).player_num == old(self).player_num.wrapping_add(1),
    {
        self.player_num = self.player_num.wrapping_add(1);
    }

    /// The player at `slot` plays no more.
    pub fn end(&mut self, slot: usize)
        requires
            slot < old(self).players@.len(),
        ensures
            final(self).players@ == ended(old(self).players@, slot as int),
            final(self).player_num == old(self).player_num.wrapping_sub(1),
    {
        self.players[slot].is_alive = false;
        self.player_num = self.player_num.wrapping_sub(1);
        assert(self.players@ =~= ended(old(self).players@, slot as int));
    }

    /// Ends the life of everybody in `entries`.
    pub fn disconnect_all(&mut self, entries: &Vec<(i32, Option<usize>)>)
        ensures
            ({
                let slots = places(entries@, old(self).players@);
                &&& final(self).players@ == all_ended(old(self).players@, slots)
                &&& final(self).player_num == counted_down(old(self).player_num, slots.len())
            }),
    {
        let ghost players = self.players@;
        let mut i: usize = 0;
        while i < entries.len()
            invariant
                i <= entries.len(),
                players == old(self).players@,
                self.players@.len() == players.len(),
                self.players@ == all_ended(players, places(entries@.take(i as int), players)),
                self.player_num == counted_down(
                    old(self).player_num,
                    places(entries@.take(i as int), players).len(),
                ),
            decreases entries.len() - i,
        {
            assert(entries@.take(i + 1).drop_last() =~= entries@.take(i as int));
            let ghost before = places(entries@.take(i as int), players);
            if let Some(slot) = entries[i].1 {
                if slot < self.players.len() {
                    self.end(slot);
                    assert(before.push(slot).drop_last() =~= before);
                }
            }
            i += 1;
        }
        assert(entries@.take(i as int) =~= entries@);
    }

    /// Where the living players in `entries` are.
    pub fn alive_positions(&self, entries: &Vec<(i32, Option<usize>)>) -> (positions: Vec<
        (i16, i16),
    >)
        ensures
            positions@ == places_alive(places(entries@, self.players@), self.players@),
    {
        let mut positions: Vec<(i16, i16)> = Vec::new();
        let mut i: usize = 0;
        while i < entries.len()
            invariant
                i <= entries.len(),
                positions@ == places_alive(
                    places(entries@.take(i as int), self.players@),
                    self.players@,
                ),
            decreases entries.len() - i,
        {
            assert(entries@.take(i + 1).drop_last() =~= entries@.take(i as int));
            let ghost before = places(entries@.take(i as int), self.players@);
            if let Some(slot) = entries[i].1 {
                if slot < self.players.len() {
                    assert(before.push(slot).drop_last() =~= before);
                    if self.players[slot].is_alive {
                        positions.push(self.players[slot].get_pos());
                    }
                }
            }
            i += 1;
        }
        assert(entries@.take(i as int) =~= entries@);
        positions
    }
}

/// An empty map and an empty roster belong together.
pub proof fn nobody_is_linked()
    ensures
        linked(no_bags(), Seq::<Player>::empty()),
{
}

/// Entering a player who joins the roster at its end keeps map and roster together.
pub proof fn login_keeps_linked(
    bags: Map<i32, Seq<usize>>,
    players: Seq<Player>,
    player: Player,
)
    requires
        linked(bags, players),
        players.len() <= usize::MAX,
    ensures
        linked(with_slot(bags, player.id, players.len() as usize), players.push(player)),
{
    let slot = players.len() as usize;
    let after = with_slot(bags, player.id, slot);
    let all = players.push(player);
    assert forall|id: i32, i: int|
        #![trigger after[id][i]]
        after.contains_key(id) && 0 <= i < after[id].len() implies after[id][i] < all.len()
        && all[after[id][i] as int].id == id by {
        if bags.contains_key(id) && i < bags[id].len() {
            assert(after[id][i] == bags[id][i]);
        } else {
            assert(after[id][i] == slot);
        }
    }
    assert forall|id: i32, i: int, j: int|
        #![trigger after[id][i], after[id][j]]
        after.contains_key(id) && 0 <= i < j < after[id].len() implies after[id][i]
        < after[id][j] by {
        if bags.contains_key(id) {
            assert(after[id][i] == bags[id][i]);
            if j < bags[id].len() {
                assert(after[id][j] == bags[id][j]);
            }
        }
    }
    assert forall|s: int| 0 <= s < all.len() implies after.contains_key(#[trigger] all[s].id)
        && after[all[s].id].contains(s as usize) by {
        let id = all[s].id;
        if s < players.len() {
            assert(all[s] == players[s]);
            let i = choose|i: int| 0 <= i < bags[id].len() && bags[id][i] == s as usize;
            assert(after[id][i] == s as usize);
        } else {
            assert(after[id].last() == slot);
        }
    }
}

/// Ending a life keeps map and roster together.
pub proof fn ending_keeps_linked(bags: Map<i32, Seq<usize>>, players: Seq<Player>, slot: int)
    requires
        linked(bags, players),
        0 <= slot < players.len(),
    ensures
        linked(bags, ended(players, slot)),
{
    let after = ended(players, slot);
    assert forall|s: int| 0 <= s < after.len() implies #[trigger] after[s].id == players[s].id by {}
}

/// A player who was let in is found: if nobody came under its id before, it is the one
/// that is found, and else the one who was found before.
pub proof fn login_then_lookup(
    bags: Map<i32, Seq<usize>>,
    players: Seq<Player>,
    player: Player,
    slot: Option<usize>,
)
    requires
        linked(bags, players),
        players.len() <= usize::MAX,
        gives_out(with_slot(bags, player.id, players.len() as usize), player.id, slot),
    ensures
        slot is Some,
        slot->0 < players.push(player).len(),
        players.push(player)[slot->0 as int].id == player.id,
        !bags.contains_key(player.id) ==> slot == Some(players.len() as usize),
        bags.contains_key(player.id) ==> slot == Some(bags[player.id][0]),
{
    login_keeps_linked(bags, players, player);
    let after = with_slot(bags, player.id, players.len() as usize);
    first_is_given_out(after, players.push(player), player.id, slot);
}

/// The places that entries give are places of the roster.
proof fn places_in_range(entries: Seq<(i32, Option<usize>)>, players: Seq<Player>)
    ensures
        forall|i: int|
            0 <= i < places(entries, players).len() ==> places(entries, players)[i] < players.len(),
    decreases entries.len(),
{
    if entries.len() != 0 {
        places_in_range(entries.drop_last(), players);
        let before = places(entries.drop_last(), players);
        assert forall|i: int| 0 <= i < places(entries, players).len() implies places(
            entries,
            players,
        )[i] < players.len() by {
            if i < before.len() {
                assert(places(entries, players)[i] == before[i]);
            }
        }
    }
}

/// Everybody who is listed is found on the roster. Let `entries` list the map as it
/// stood when it was linked to the players of that time, and let players have come
/// since and none have changed its id. Each entry then gives the place of a player with
/// that id, no entry is passed over, and everybody of that time has their id listed.
pub proof fn the_listed_are_on_the_roster(
    bags: Map<i32, Seq<usize>>,
    then: Seq<Player>,
    players: Seq<Player>,
    entries: Seq<(i32, Option<usize>)>,
)
    requires
        lists(bags, entries),
        linked(bags, then),
        then.len() <= players.len(),
        forall|s: int| 0 <= s < then.len() ==> (#[trigger] players[s]).id == then[s].id,
    ensures
        forall|i: int|
            0 <= i < entries.len() ==> {
                &&& (#[trigger] entries[i]).1 is Some
                &&& entries[i].1->0 < players.len()
                &&& players[entries[i].1->0 as int].id == entries[i].0
            },
        places(entries, players) == entries.map_values(|e: (i32, Option<usize>)| e.1->0),
        forall|s: int|
            0 <= s < then.len() ==> exists|i: int|
                0 <= i < entries.len() && (#[trigger] entries[i]).0 == (#[trigger] then[s]).id,
{
    assert forall|i: int| 0 <= i < entries.len() implies {
        &&& (#[trigger] entries[i]).1 is Some
        &&& entries[i].1->0 < players.len()
        &&& players[entries[i].1->0 as int].id == entries[i].0
    } by {
        let bag = bags[entries[i].0];
        let slot = entries[i].1->0;
        let k = choose|k: int| 0 <= k < bag.len() && bag[k] == slot;
        assert(bags[entries[i].0][k] == slot);
        assert(players[slot as int].id == then[slot as int].id);
    }
    no_entry_passed_over(entries, players);
    assert forall|s: int| 0 <= s < then.len() implies exists|i: int|
        0 <= i < entries.len() && (#[trigger] entries[i]).0 == (#[trigger] then[s]).id by {
        assert(bags.contains_key(then[s].id));
    }
}

/// Entries that all have places of the roster give all these places.
proof fn no_entry_passed_over(entries: Seq<(i32, Option<usize>)>, players: Seq<Player>)
    requires
        forall|i: int|
            0 <= i < entries.len() ==> (#[trigger] entries[i]).1 is Some && entries[i].1->0
                < players.len(),
    ensures
        places(entries, players) == entries.map_values(|e: (i32, Option<usize>)| e.1->0),
    decreases entries.len(),
{
    let slots = entries.map_values(|e: (i32, Option<usize>)| e.1->0);
    if entries.len() != 0 {
        let before = entries.drop_last();
        assert forall|i: int| 0 <= i < before.len() implies (#[trigger] before[i]).1 is Some
            && before[i].1->0 < players.len() by {
            assert(before[i] == entries[i]);
        }
        no_entry_passed_over(before, players);
        assert(entries[entries.len() - 1].1 is Some);
        assert(places(entries, players) =~= slots);
    } else {
        assert(places(entries, players) =~= slots);
    }
}

/// Ending lives changes nobody but those whose lives end, and of them only that.
pub proof fn ending_all(players: Seq<Player>, slots: Seq<usize>)
    requires
        forall|i: int| 0 <= i < slots.len() ==> slots[i] < players.len(),
    ensures
        all_ended(players, slots).len() == players.len(),
        forall|s: usize|
            s < players.len() ==> #[trigger] all_ended(players, slots)[s as int] == (
            if slots.contains(s) {
                Player { is_alive: false, ..players[s as int] }
            } else {
                players[s as int]
            }),
    decreases slots.len(),
{
    if slots.len() != 0 {
        let before = slots.drop_last();
        ending_all(players, before);
        let last = slots.last();
        assert forall|s: usize| #[trigger]
            slots.contains(s) == (before.contains(s) || last == s) by {
            if before.contains(s) {
                let i = choose|i: int| 0 <= i < before.len() && before[i] == s;
                assert(slots[i] == s);
            }
            if last == s {
                assert(slots[slots.len() - 1] == s);
            }
            if slots.contains(s) && last != s {
                let i = choose|i: int| 0 <= i < slots.len() && slots[i] == s;
                assert(before[i] == s);
            }
        }
    }
}

/// Nobody whose life has ended is shown: after everybody in `entries` is
/// disconnected, the screen is empty of them.
pub proof fn the_disconnected_are_not_shown(
    entries: Seq<(i32, Option<usize>)>,
    players: Seq<Player>,
)
    ensures
        ({
            let slots = places(entries, players);
            places_alive(slots, all_ended(players, slots)) == Seq::<(i16, i16)>::empty()
        }),
{
    let slots = places(entries, players);
    places_in_range(entries, players);
    ending_all(players, slots);
    let after = all_ended(players, slots);
    assert forall|i: int| 0 <= i < slots.len() implies !after[#[trigger] slots[i] as int].is_alive by {
        assert(slots.contains(slots[i]));
    }
    none_alive(slots, after);
}

/// Where nobody lives, nobody is shown.
proof fn none_alive(slots: Seq<usize>, players: Seq<Player>)
    requires
        forall|i: int| 0 <= i < slots.len() ==> !players[#[trigger] slots[i] as int].is_alive,
    ensures
        places_alive(slots, players) == Seq::<(i16, i16)>::empty(),
    decreases slots.len(),
{
    if slots.len() != 0 {
        assert forall|i: int| 0 <= i < slots.drop_last().len() implies !players[#[trigger] slots.drop_last()[i] as int].is_alive by {
            assert(slots.drop_last()[i] == slots[i]);
        }
        none_alive(slots.drop_last(), players);
        assert(!players[slots[slots.len() - 1] as int].is_alive);
    }
}

/// The number of players goes down by one for each player who is disconnected, as
/// long as there are so many.
pub proof fn counted_down_by(n: usize, k: nat)
    requires
        k <= n,
    ensures
        counted_down(n, k) == n - k,
    decreases k,
{
    if k > 0 {
        counted_down_by(n, (k - 1) as nat);
    }
}

/// Everybody who is let in lives, has the id that the answer gives, and stands where the
/// answer says, whatever else the answer holds and whatever bytes follow it. (Below zero
/// only `y` of a place is kept.)
pub proof fn everybody_let_in_lives(p: SCLoginOk, rest: Seq<u8>)
    ensures
        ({
            let player = admitted(p.encode() + rest);
            &&& player.id == p.id
            &&& player.is_alive
            &&& p.y >= 0 ==> coordinates(player.position) == (p.x, p.y)
            &&& p.y < 0 ==> coordinates(player.position) == ((-1) as i16, p.y)
        }),
{
    p.encode_size();
    p.decode_encode();
    assert((p.encode() + rest).take(SCLoginOk::size() as int) =~= p.encode());
    if p.y >= 0 {
        position_round_trip(p.x, p.y);
    } else {
        position_below_zero(p.x, p.y);
    }
}

/// An answer can be handled if it has a type and all its bytes, and a login has as many
/// as a login has.
pub proof fn which_answers_fit(read_buf: Seq<u8>)
    ensures
        login_fits(read_buf) <==> {
            &&& read_buf.len() >= 2
            &&& 1 <= read_buf[0] <= read_buf.len()
            &&& read_buf[1] == 1 ==> read_buf[0] == 18
        },
{
}

/// Entering a place puts it behind the other places of its id and leaves the places of
/// all other ids alone.
pub proof fn entering_adds_one_place(bags: Map<i32, Seq<usize>>, id: i32, slot: usize)
    ensures
        ({
            let after = with_slot(bags, id, slot);
            &&& after.contains_key(id)
            &&& after[id].last() == slot
            &&& bags.contains_key(id) ==> after[id].drop_last() == bags[id]
            &&& !bags.contains_key(id) ==> after[id].len() == 1
            &&& after[id].len() > 0
            &&& forall|other: i32|
                other != id ==> (#[trigger] after.contains_key(other) <==> bags.contains_key(other))
            &&& forall|other: i32|
                other != id && bags.contains_key(other) ==> #[trigger] after[other] == bags[other]
        }),
{
    let after = with_slot(bags, id, slot);
    if bags.contains_key(id) {
        assert(after[id].drop_last() =~= bags[id]);
    }
}

/// Ending a life takes the life of one player and changes nothing else of anybody.
pub proof fn ending_ends_one_life(players: Seq<Player>, slot: int)
    requires
        0 <= slot < players.len(),
    ensures
        ended(players, slot).len() == players.len(),
        !ended(players, slot)[slot].is_alive,
        ended(players, slot)[slot].id == players[slot].id,
        ended(players, slot)[slot].position == players[slot].position,
        forall|i: int|
            0 <= i < players.len() && i != slot ==> #[trigger] ended(players, slot)[i]
                == players[i],
{
}

/// Each entry with a place of the roster gives that place, behind those of the entries
/// before it. Other entries give none.
pub proof fn entries_give_their_places(
    entries: Seq<(i32, Option<usize>)>,
    id: i32,
    slot: usize,
    players: Seq<Player>,
)
    ensures
        places(Seq::empty(), players) == Seq::<usize>::empty(),
        places(entries.push((id, None)), players) == places(entries, players),
        slot < players.len() ==> places(entries.push((id, Some(slot))), players) == places(
            entries,
            players,
        ).push(slot),
        slot >= players.len() ==> places(entries.push((id, Some(slot))), players) == places(
            entries,
            players,
        ),
{
    assert(entries.push((id, None)).drop_last() =~= entries);
    assert(entries.push((id, Some(slot))).drop_last() =~= entries);
}

/// Of the players at some places exactly the living are shown, each where it is and in
/// the order of the places.
pub proof fn the_living_are_shown(slots: Seq<usize>, slot: usize, players: Seq<Player>)
    ensures
        places_alive(Seq::empty(), players) == Seq::<(i16, i16)>::empty(),
        players[slot as int].is_alive ==> places_alive(slots.push(slot), players) == places_alive(
            slots,
            players,
        ).push(coordinates(players[slot as int].position)),
        !players[slot as int].is_alive ==> places_alive(slots.push(slot), players) == places_alive(
            slots,
            players,
        ),
{
    assert(slots.push(slot).drop_last() =~= slots);
}

/// Counting down goes by one each time, and from zero to the largest number.
pub proof fn counting_down_goes_by_one(n: usize, k: nat)
    ensures
        counted_down(n, 0) == n,
        counted_down(n, k) > 0 ==> counted_down(n, k + 1) == counted_down(n, k) - 1,
        counted_down(n, k) == 0 ==> counted_down(n, k + 1) == usize::MAX,
{
}

} // verus!
