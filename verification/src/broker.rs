//! The broker as a mathematical value: sessions, rooms and games, what each
//! request makes of them, and what holds of every broker.

use crate::board::{empty_board, initial_board};
use crate::reversi::{Game, Player, States};
use crate::server::StartError;
use vstd::prelude::*;

verus! {

/// A delivery as a mathematical value.
pub struct Notice {
    pub to: usize,
    pub text: Seq<char>,
}

/// A room as a mathematical value.
pub struct RoomState {
    pub name: Seq<char>,
    /// The sessions in the room, in the order in which they came.
    pub members: Seq<usize>,
    /// The game that the room hosts, if it hosts one.
    pub game: Option<Game>,
}

/// The broker as a mathematical value.
pub struct Broker {
    /// The display name of each session.
    pub sessions: Map<usize, Seq<char>>,
    /// The rooms, in the order in which they were made.
    pub rooms: Seq<RoomState>,
    /// The name of the room that a new session is put in.
    pub default_room: Seq<char>,
}

/// `members` without `id`.
pub open spec fn remove_id(members: Seq<usize>, id: usize) -> Seq<usize>
    decreases members.len(),
{
    if members.len() == 0 {
        Seq::empty()
    } else if members.last() == id {
        remove_id(members.drop_last(), id)
    } else {
        remove_id(members.drop_last(), id).push(members.last())
    }
}

/// `text` for each of `members` that has a session and is not `skip`.
pub open spec fn broadcast(
    members: Seq<usize>,
    sessions: Map<usize, Seq<char>>,
    skip: Option<usize>,
    text: Seq<char>,
) -> Seq<Notice>
    decreases members.len(),
{
    if members.len() == 0 {
        Seq::empty()
    } else {
        let rest = broadcast(members.drop_last(), sessions, skip, text);
        let m = members.last();
        if skip != Some(m) && sessions.contains_key(m) {
            rest.push(Notice { to: m, text })
        } else {
            rest
        }
    }
}

/// The display names of those of `members` that have a session.
pub open spec fn names_of(members: Seq<usize>, sessions: Map<usize, Seq<char>>) -> Seq<Seq<char>>
    decreases members.len(),
{
    if members.len() == 0 {
        Seq::empty()
    } else {
        let rest = names_of(members.drop_last(), sessions);
        let m = members.last();
        if sessions.contains_key(m) {
            rest.push(sessions[m])
        } else {
            rest
        }
    }
}

/// The names of the rooms but `except`.
pub open spec fn room_names(rooms: Seq<RoomState>, except: Seq<char>) -> Seq<Seq<char>>
    decreases rooms.len(),
{
    if rooms.len() == 0 {
        Seq::empty()
    } else {
        let rest = room_names(rooms.drop_last(), except);
        if rooms.last().name != except {
            rest.push(rooms.last().name)
        } else {
            rest
        }
    }
}

/// What the members of the rooms that `id` leaves are told: for each room
/// that holds `id`, in turn, `text` for the others in it.
pub open spec fn departures(
    rooms: Seq<RoomState>,
    sessions: Map<usize, Seq<char>>,
    id: usize,
    text: Seq<char>,
) -> Seq<Notice>
    decreases rooms.len(),
{
    if rooms.len() == 0 {
        Seq::empty()
    } else {
        let rest = departures(rooms.drop_last(), sessions, id, text);
        if rooms.last().members.contains(id) {
            rest + broadcast(remove_id(rooms.last().members, id), sessions, None, text)
        } else {
            rest
        }
    }
}

/// A room as it is made: empty, and with a game that waits for its start
/// if `with_game`.
pub open spec fn new_room(name: Seq<char>, with_game: bool) -> RoomState {
    RoomState {
        name,
        members: Seq::empty(),
        game: if with_game {
            Some(
                Game {
                    player1: None,
                    player2: None,
                    state: States::AwaitingStart,
                    board: empty_board(),
                    require_capture: false,
                },
            )
        } else {
            None
        },
    }
}

/// Whether one of `rooms` has the name `name`.
pub open spec fn has_name(rooms: Seq<RoomState>, name: Seq<char>) -> bool {
    exists|i: int| 0 <= i < rooms.len() && (#[trigger] rooms[i]).name == name
}

/// `rooms`, and after them a room with a game for each of `names` that no
/// room before it has.
pub open spec fn with_rooms(rooms: Seq<RoomState>, names: Seq<Seq<char>>) -> Seq<RoomState>
    decreases names.len(),
{
    if names.len() == 0 {
        rooms
    } else {
        let rest = with_rooms(rooms, names.drop_last());
        if has_name(rest, names.last()) {
            rest
        } else {
            rest.push(new_room(names.last(), true))
        }
    }
}

impl RoomState {
    /// The members are distinct, and the game, if there is one, is valid.
    pub open spec fn valid(self) -> bool {
        &&& self.members.no_duplicates()
        &&& self.game matches Some(g) ==> g.valid()
    }

    /// The room after session `id` left it and gave up its player slots.
    pub open spec fn without(self, id: usize) -> RoomState {
        RoomState {
            members: remove_id(self.members, id),
            game: match self.game {
                Some(g) => Some(g.without(id)),
                None => None,
            },
            ..self
        }
    }

    /// The room with `id` as its newest member.
    pub open spec fn with_member(self, id: usize) -> RoomState {
        RoomState { members: self.members.push(id), ..self }
    }

    /// Whether a player slot of the room's game holds `id`.
    pub open spec fn has_player(self, id: usize) -> bool {
        self.game matches Some(g) && (g.player1 == Some(id) || g.player2 == Some(id))
    }
}

impl Broker {
    /// Whether there is a room of the name `name`.
    pub open spec fn has_room(self, name: Seq<char>) -> bool {
        has_name(self.rooms, name)
    }

    /// The place of the room `name` among the rooms.
    pub open spec fn room_index(self, name: Seq<char>) -> int {
        choose|i: int| 0 <= i < self.rooms.len() && (#[trigger] self.rooms[i]).name == name
    }

    /// The room `name`, where there is one.
    pub open spec fn room(self, name: Seq<char>) -> RoomState {
        self.rooms[self.room_index(name)]
    }

    /// Session `id` is a member of the room at place `i`.
    pub open spec fn in_room(self, i: int, id: usize) -> bool {
        0 <= i < self.rooms.len() && self.rooms[i].members.contains(id)
    }

    /// No two rooms have one name, every room is valid, no session is in two
    /// rooms, and the default room exists.
    pub open spec fn valid(self) -> bool {
        &&& forall|i: int, j: int|
            0 <= i < j < self.rooms.len() ==> (#[trigger] self.rooms[i]).name != (
            #[trigger] self.rooms[j]).name
        &&& forall|i: int| 0 <= i < self.rooms.len() ==> (#[trigger] self.rooms[i]).valid()
        &&& forall|i: int, j: int, id: usize|
            #[trigger] self.in_room(i, id) && #[trigger] self.in_room(j, id) ==> i == j
        &&& self.has_room(self.default_room)
    }

    /// Session `id` is known: it has a display name, is a member of a room,
    /// or holds a player slot.
    pub open spec fn knows(self, id: usize) -> bool {
        ||| self.sessions.contains_key(id)
        ||| exists|i: int| #[trigger] self.in_room(i, id)
        ||| exists|i: int| 0 <= i < self.rooms.len() && (#[trigger] self.rooms[i]).has_player(id)
    }

    /// The display name of session `id`, or the empty text where `id` has
    /// no session.
    pub open spec fn name_of(self, id: usize) -> Seq<char> {
        if self.sessions.contains_key(id) {
            self.sessions[id]
        } else {
            Seq::empty()
        }
    }

    /// What sending `text` to the room `name` delivers: `text` for each
    /// member of the room that has a session and is not `skip`; nothing
    /// where there is no such room.
    pub open spec fn sent(self, name: Seq<char>, skip: Option<usize>, text: Seq<char>) -> Seq<Notice> {
        if self.has_room(name) {
            broadcast(self.room(name).members, self.sessions, skip, text)
        } else {
            Seq::empty()
        }
    }

    /// The rooms after session `id` left every room and gave up every
    /// player slot.
    pub open spec fn left(self, id: usize) -> Broker {
        Broker { rooms: self.rooms.map_values(|r: RoomState| r.without(id)), ..self }
    }

    /// The broker after session `id` has gone: it has no display name any
    /// more, is in no room and holds no player slot.
    pub open spec fn disconnected(self, id: usize) -> Broker {
        Broker { sessions: self.sessions.remove(id), ..self.left(id) }
    }

    /// The broker with another room in place of the room `name`.
    pub open spec fn with_room(self, name: Seq<char>, room: RoomState) -> Broker {
        Broker { rooms: self.rooms.update(self.room_index(name), room), ..self }
    }

    /// The broker after session `id` joined the room `name`: it left every
    /// other room and gave up its player slots, the room was made, with a
    /// game, if there was none of that name, and `id` is its newest member.
    pub open spec fn joined(self, id: usize, name: Seq<char>) -> Broker {
        let b = self.left(id);
        if b.has_room(name) {
            b.with_room(name, b.room(name).with_member(id))
        } else {
            Broker { rooms: b.rooms.push(new_room(name, true).with_member(id)), ..b }
        }
    }

    /// The broker after a new session `id` was registered: it has the
    /// default display name and is the newest member of the default room.
    pub open spec fn connected(self, id: usize) -> Broker {
        Broker {
            sessions: self.sessions.insert(id, default_name()),
            ..self.with_room(self.default_room, self.room(self.default_room).with_member(id))
        }
    }

    /// Whether session `id` gets the slot of `player` in the game of the
    /// room `name`: there is such a room, it hosts a game, the slot is free
    /// and `id` does not hold the other slot.
    pub open spec fn may_regist(self, name: Seq<char>, player: Player, id: usize) -> bool {
        &&& self.has_room(name)
        &&& self.room(name).game matches Some(g)
        &&& g.may_register(player, id)
    }

    /// The broker after session `id` got the slot of `player` in the game
    /// of the room `name`.
    pub open spec fn registered(self, name: Seq<char>, player: Player, id: usize) -> Broker {
        let room = self.room(name);
        self.with_room(
            name,
            RoomState { game: Some(room.game.unwrap().registered(player, id)), ..room },
        )
    }

    /// Why the game of the room `name` cannot start, or `None` where it
    /// can. The checks come in this order.
    pub open spec fn start_error(self, name: Seq<char>) -> Option<StartError> {
        if self.has_room(name) && self.room(name).members.len() < 2 {
            Some(StartError::InsufficientMembers)
        } else if !self.has_room(name) || self.room(name).game is None {
            Some(StartError::NoGame)
        } else if self.room(name).game.unwrap().player1 is None || self.room(
            name,
        ).game.unwrap().player2 is None {
            Some(StartError::UnassignedPlayers)
        } else {
            None
        }
    }

    /// The broker after the game of the room `name` was started.
    pub open spec fn started(self, name: Seq<char>) -> Broker {
        let room = self.room(name);
        self.with_room(name, RoomState { game: Some(room.game.unwrap().started()), ..room })
    }

    /// A broker with no session, the default room, which hosts no game, and
    /// a room with a game for each of `names`, a name that occurs twice
    /// counting once.
    pub open spec fn initial(default_room: Seq<char>, names: Seq<Seq<char>>) -> Broker {
        Broker {
            sessions: Map::empty(),
            rooms: with_rooms(seq![new_room(default_room, false)], names),
            default_room,
        }
    }
}

/// The name that a session has until it takes one.
pub open spec fn default_name() -> Seq<char> {
    "名無し"@
}

/// What the members of the default room are told when a session connects.
pub open spec fn joined_notice() -> Seq<char> {
    "Someone joined"@
}

/// What the members of a room are told when a session joins it.
pub open spec fn connected_notice() -> Seq<char> {
    "Someone connected"@
}

/// What the members of a room are told when a session leaves it.
pub open spec fn disconnected_notice() -> Seq<char> {
    "Someone disconnected"@
}

/// The command of the reply that tells a room who got a player slot.
pub open spec fn registered_cmd(player: Player) -> Seq<char> {
    match player {
        Player::One => "registered_player1"@,
        Player::Two => "registered_player2"@,
    }
}

/// The name of the room that `Server::default` puts new sessions in.
pub open spec fn main_room() -> Seq<char> {
    "Main"@
}

/// The names of the rooms with a game that `Server::default` makes.
pub open spec fn standard_rooms() -> Seq<Seq<char>> {
    seq!["room1"@, "room2"@, "room3"@, "room4"@, "room5"@]
}

/// In a sequence with a last item, `x` is that item or occurs before it.
pub proof fn lemma_contains_last(s: Seq<usize>, x: usize)
    requires
        s.len() > 0,
    ensures
        s.contains(x) <==> (s.drop_last().contains(x) || s.last() == x),
{
    if s.contains(x) {
        let i = choose|i: int| 0 <= i < s.len() && s[i] == x;
        if i < s.len() - 1 {
            assert(s.drop_last()[i] == x);
        }
    }
    if s.drop_last().contains(x) {
        let i = choose|i: int| 0 <= i < s.drop_last().len() && s.drop_last()[i] == x;
        assert(s[i] == x);
    }
    if s.last() == x {
        assert(s[s.len() - 1] == x);
    }
}

/// What `remove_id` keeps: every member but `id`, each as often as before.
pub proof fn lemma_remove_id(members: Seq<usize>, id: usize)
    ensures
        forall|x: usize|
            #[trigger] remove_id(members, id).contains(x) <==> (members.contains(x) && x != id),
        members.no_duplicates() ==> remove_id(members, id).no_duplicates(),
        !members.contains(id) ==> remove_id(members, id) == members,
    decreases members.len(),
{
    let r = remove_id(members, id);
    if members.len() == 0 {
        assert(r =~= members);
    } else {
        let front = members.drop_last();
        let last = members.last();
        let rf = remove_id(front, id);
        lemma_remove_id(front, id);
        assert forall|x: usize| #[trigger] r.contains(x) <==> (members.contains(x) && x != id) by {
            lemma_contains_last(members, x);
            if last != id {
                lemma_contains_last(r, x);
                assert(r.drop_last() =~= rf);
            }
        }
        if members.no_duplicates() {
            assert(front.no_duplicates());
            if last != id {
                assert(!front.contains(last)) by {
                    if front.contains(last) {
                        let i = choose|i: int| 0 <= i < front.len() && front[i] == last;
                        assert(members[i] == members[members.len() - 1]);
                    }
                }
                assert(!rf.contains(last));
                assert forall|i: int, j: int| 0 <= i < r.len() && 0 <= j < r.len() && i != j implies r[i]
                    != r[j] by {
                    if i == r.len() - 1 {
                        assert(rf[j] == r[j]);
                    } else if j == r.len() - 1 {
                        assert(rf[i] == r[i]);
                    } else {
                        assert(rf[i] == r[i] && rf[j] == r[j]);
                    }
                }
            }
        }
        if !members.contains(id) {
            lemma_contains_last(members, id);
            assert(r =~= members);
        }
    }
}

/// Validity does not depend on the sessions.
pub proof fn lemma_valid_rooms(a: Broker, b: Broker)
    requires
        a.valid(),
        a.rooms == b.rooms,
        a.default_room == b.default_room,
    ensures
        b.valid(),
{
    assert forall|i: int, j: int, id: usize| #[trigger]
        b.in_room(i, id) && #[trigger] b.in_room(j, id) implies i == j by {
        assert(a.in_room(i, id) && a.in_room(j, id));
    }
}

/// In a valid broker a room's name tells its place.
pub proof fn lemma_room_index(b: Broker, name: Seq<char>, i: int)
    requires
        b.valid(),
        0 <= i < b.rooms.len(),
        b.rooms[i].name == name,
    ensures
        b.has_room(name),
        b.room_index(name) == i,
{
    let j = b.room_index(name);
    assert(b.rooms[j].name == name);
}

/// After session `id` left, the broker is valid, has the rooms it had, and
/// holds `id` in no room and in no player slot.
pub proof fn lemma_left(b: Broker, id: usize)
    requires
        b.valid(),
    ensures
        b.left(id).valid(),
        b.left(id).rooms.len() == b.rooms.len(),
        forall|i: int| !#[trigger] b.left(id).in_room(i, id),
        forall|i: int|
            0 <= i < b.left(id).rooms.len() ==> !(#[trigger] b.left(id).rooms[i]).has_player(id),
        forall|i: int, x: usize| #[trigger] b.left(id).in_room(i, x) ==> b.in_room(i, x),
{
    let c = b.left(id);
    assert forall|i: int, x: usize| #[trigger] c.in_room(i, x) implies b.in_room(i, x) && x != id by {
        lemma_remove_id(b.rooms[i].members, id);
    }
    assert forall|i: int| 0 <= i < c.rooms.len() implies (#[trigger] c.rooms[i]).valid() by {
        lemma_remove_id(b.rooms[i].members, id);
        assert(b.rooms[i].valid());
    }
    assert forall|i: int, j: int| 0 <= i < j < c.rooms.len() implies (#[trigger] c.rooms[i]).name != (
    #[trigger] c.rooms[j]).name by {
        assert(b.rooms[i].name != b.rooms[j].name);
    }
    assert forall|i: int, j: int, x: usize| #[trigger]
        c.in_room(i, x) && #[trigger] c.in_room(j, x) implies i == j by {
        assert(b.in_room(i, x) && b.in_room(j, x));
    }
    let d = b.room_index(b.default_room);
    assert(c.rooms[d].name == b.default_room);
}

/// Another room may take a room's place: one of the same name, that is
/// valid, and whose new members are in no room yet.
pub proof fn lemma_with_room(b: Broker, name: Seq<char>, room: RoomState)
    requires
        b.valid(),
        b.has_room(name),
        room.name == name,
        room.valid(),
        forall|x: usize|
            room.members.contains(x) ==> b.room(name).members.contains(x) || forall|j: int|
                !#[trigger] b.in_room(j, x),
    ensures
        b.with_room(name, room).valid(),
{
    let k = b.room_index(name);
    let c = b.with_room(name, room);
    assert(b.rooms[k].name == name);
    assert forall|i: int, j: int| 0 <= i < j < c.rooms.len() implies (#[trigger] c.rooms[i]).name != (
    #[trigger] c.rooms[j]).name by {
        assert(b.rooms[i].name != b.rooms[j].name);
    }
    assert forall|i: int| 0 <= i < c.rooms.len() implies (#[trigger] c.rooms[i]).valid() by {
        if i != k {
            assert(b.rooms[i].valid());
        }
    }
    assert forall|i: int, j: int, x: usize| #[trigger]
        c.in_room(i, x) && #[trigger] c.in_room(j, x) implies i == j by {
        if i != j {
            if i == k {
                assert(b.in_room(j, x));
                assert(b.in_room(k, x));
            } else if j == k {
                assert(b.in_room(i, x));
                assert(b.in_room(k, x));
            } else {
                assert(b.in_room(i, x) && b.in_room(j, x));
            }
        }
    }
    let d = b.room_index(b.default_room);
    assert(c.rooms[d].name == b.default_room);
}

/// A room may be added: one with a name that no room has, that is valid,
/// and whose members are in no room yet.
pub proof fn lemma_push_room(b: Broker, room: RoomState)
    requires
        b.valid(),
        !b.has_room(room.name),
        room.valid(),
        forall|x: usize, j: int| room.members.contains(x) ==> !#[trigger] b.in_room(j, x),
    ensures
        (Broker { rooms: b.rooms.push(room), ..b }).valid(),
{
    let c = Broker { rooms: b.rooms.push(room), ..b };
    let n = b.rooms.len() as int;
    assert forall|i: int, j: int| 0 <= i < j < c.rooms.len() implies (#[trigger] c.rooms[i]).name != (
    #[trigger] c.rooms[j]).name by {
        assert(c.rooms[i] == b.rooms[i]);
        if j < n {
            assert(b.rooms[i].name != b.rooms[j].name);
        }
    }
    assert forall|i: int| 0 <= i < c.rooms.len() implies (#[trigger] c.rooms[i]).valid() by {
        if i < n {
            assert(b.rooms[i].valid());
        }
    }
    assert forall|i: int, j: int, x: usize| #[trigger]
        c.in_room(i, x) && #[trigger] c.in_room(j, x) implies i == j by {
        if i != j {
            if i == n {
                assert(b.in_room(j, x));
            } else if j == n {
                assert(b.in_room(i, x));
            } else {
                assert(b.in_room(i, x) && b.in_room(j, x));
            }
        }
    }
    let d = b.room_index(b.default_room);
    assert(c.rooms[d].name == b.default_room);
}

/// A room that is valid stays valid with a new member that it did not have.
proof fn lemma_with_member(room: RoomState, id: usize)
    requires
        room.valid(),
        !room.members.contains(id),
    ensures
        room.with_member(id).valid(),
        forall|x: usize|
            #[trigger] room.with_member(id).members.contains(x) <==> (room.members.contains(x) || x
                == id),
{
    let m = room.members;
    let n = room.with_member(id).members;
    assert forall|x: usize| #[trigger] n.contains(x) <==> (m.contains(x) || x == id) by {
        lemma_contains_last(n, x);
        assert(n.drop_last() =~= m);
    }
    assert forall|a: int, z: int| 0 <= a < n.len() && 0 <= z < n.len() && a != z implies n[a]
        != n[z] by {
        if a < m.len() && z < m.len() {
        } else if a < m.len() {
            assert(m.contains(m[a]));
        } else {
            assert(m.contains(m[z]));
        }
    }
}

/// After a session has gone the broker is valid and knows the session no
/// more: it has no display name, is in no room and holds no player slot.
pub proof fn lemma_disconnected(b: Broker, id: usize)
    requires
        b.valid(),
    ensures
        b.disconnected(id).valid(),
        !b.disconnected(id).knows(id),
{
    lemma_left(b, id);
    lemma_valid_rooms(b.left(id), b.disconnected(id));
    let c = b.disconnected(id);
    assert forall|i: int| !#[trigger] c.in_room(i, id) by {
        if c.in_room(i, id) {
            assert(b.left(id).in_room(i, id));
        }
    }
}

/// After a session joined a room the broker is valid, has a room of that
/// name, and holds the session in that room and in no other.
pub proof fn lemma_joined(b: Broker, id: usize, name: Seq<char>)
    requires
        b.valid(),
    ensures
        b.joined(id, name).valid(),
        b.joined(id, name).has_room(name),
        b.joined(id, name).sessions == b.sessions,
        forall|i: int|
            0 <= i < b.joined(id, name).rooms.len() ==> (#[trigger] b.joined(id, name).in_room(i, id)
                <==> b.joined(id, name).rooms[i].name == name),
{
    let c = b.left(id);
    let j = b.joined(id, name);
    lemma_left(b, id);
    if c.has_room(name) {
        let k = c.room_index(name);
        let room = c.rooms[k].with_member(id);
        assert(c.rooms[k].name == name);
        assert(!c.in_room(k, id));
        assert(c.rooms[k].valid());
        lemma_with_member(c.rooms[k], id);
        lemma_with_room(c, name, room);
        assert(j.rooms[k].name == name);
        assert forall|i: int| 0 <= i < j.rooms.len() implies (#[trigger] j.in_room(i, id)
            <==> j.rooms[i].name == name) by {
            if i != k {
                if j.in_room(i, id) {
                    assert(c.in_room(i, id));
                }
                if j.rooms[i].name == name {
                    lemma_room_index(c, name, i);
                }
            }
        }
    } else {
        let room = new_room(name, true).with_member(id);
        let k = c.rooms.len() as int;
        lemma_with_member(new_room(name, true), id);
        assert forall|x: usize, i: int| room.members.contains(x) implies !#[trigger] c.in_room(
            i,
            x,
        ) by {}
        lemma_push_room(c, room);
        assert(j.rooms[k].name == name);
        assert forall|i: int| 0 <= i < j.rooms.len() implies (#[trigger] j.in_room(i, id)
            <==> j.rooms[i].name == name) by {
            if i != k {
                if j.in_room(i, id) {
                    assert(c.in_room(i, id));
                }
                if j.rooms[i].name == name {
                    assert(c.rooms[i].name == name);
                }
            }
        }
    }
}

/// After a session that was not known was registered the broker is valid,
/// the session has the default display name, and it is in the default room
/// and in no other.
pub proof fn lemma_connected(b: Broker, id: usize)
    requires
        b.valid(),
        !b.knows(id),
    ensures
        b.connected(id).valid(),
        b.connected(id).sessions.contains_key(id),
        b.connected(id).sessions[id] == default_name(),
        forall|i: int|
            0 <= i < b.connected(id).rooms.len() ==> (#[trigger] b.connected(id).in_room(i, id)
                <==> b.connected(id).rooms[i].name == b.default_room),
{
    let k = b.room_index(b.default_room);
    let room = b.rooms[k].with_member(id);
    let c = b.connected(id);
    assert(b.rooms[k].name == b.default_room);
    assert forall|i: int| !#[trigger] b.in_room(i, id) by {}
    assert(!b.in_room(k, id));
    assert(b.rooms[k].valid());
    lemma_with_member(b.rooms[k], id);
    lemma_with_room(b, b.default_room, room);
    lemma_valid_rooms(b.with_room(b.default_room, room), c);
    assert forall|i: int| 0 <= i < c.rooms.len() implies (#[trigger] c.in_room(i, id)
        <==> c.rooms[i].name == b.default_room) by {
        if i != k {
            if c.in_room(i, id) {
                assert(b.in_room(i, id));
            }
            if c.rooms[i].name == b.default_room {
                lemma_room_index(b, b.default_room, i);
            }
        }
    }
}

/// When a game starts. A room with fewer than two members starts no game.
/// A room with two members or more and a game starts none while a player
/// slot is not assigned; with both slots assigned the game starts: its board
/// gets the four starting discs, player one gets the turn, and nothing else
/// changes.
pub proof fn lemma_start_rules(b: Broker, name: Seq<char>)
    requires
        b.valid(),
        b.has_room(name),
    ensures
        b.room(name).members.len() < 2 ==> b.start_error(name) == Some(
            StartError::InsufficientMembers,
        ),
        b.room(name).members.len() >= 2 && b.room(name).game is Some && (b.room(
            name,
        ).game.unwrap().player1 is None || b.room(name).game.unwrap().player2 is None)
            ==> b.start_error(name) == Some(StartError::UnassignedPlayers),
        b.room(name).members.len() >= 2 && b.room(name).game is Some && b.room(
            name,
        ).game.unwrap().player1 is Some && b.room(name).game.unwrap().player2 is Some ==> {
            let g = b.room(name).game.unwrap();
            &&& b.start_error(name) is None
            &&& b.started(name).valid()
            &&& b.started(name).room(name).game == Some(g.started())
            &&& g.started().board == initial_board()
            &&& g.started().state == States::TurnPlayer1
            &&& b.started(name).room(name).members == b.room(name).members
            &&& b.started(name).sessions == b.sessions
            &&& b.started(name).rooms.len() == b.rooms.len()
        },
{
    let i = b.room_index(name);
    let room = b.room(name);
    assert(b.rooms[i].name == name);
    if room.members.len() >= 2 && room.game is Some {
        let g = room.game.unwrap();
        if g.player1 is Some && g.player2 is Some {
            let next = RoomState { game: Some(g.started()), ..room };
            assert(room.valid());
            lemma_with_room(b, name, next);
            lemma_room_index(b.started(name), name, i);
        }
    }
}

} // verus!
