//! The broker: the one owner of the sessions, the rooms and the rooms'
//! games. Every request is a method of [`Server`]; a method that tells
//! sessions something hands back what has to be delivered, and to whom.
//! What a method does is stated over the broker as a mathematical value,
//! [`Broker`], whose requests and laws stand in the module `broker`.

use crate::board::{initial_board, rows};
use crate::broker::{
    broadcast, connected_notice, default_name, departures, disconnected_notice, has_name,
    joined_notice, lemma_connected, lemma_contains_last, lemma_disconnected, lemma_joined,
    lemma_left, lemma_push_room, lemma_remove_id, lemma_room_index, lemma_valid_rooms,
    lemma_with_room, main_room, names_of, new_room,
    registered_cmd, remove_id, room_names, standard_rooms, with_rooms, Broker, Notice, RoomState,
};
pub use crate::reversi::Player;
use crate::reversi::Reversi;
use crate::text::{sort_texts, sorted, same_text, texts};
use crate::wire::{reply_text, Data, DataView, Payload};
use std::collections::HashMap;
use vstd::prelude::*;
use vstd::string::StringExecFns;

verus! {

broadcast use vstd::std_specs::hash::group_hash_axioms;

/// A text for one session.
#[derive(Debug)]
pub struct Message(pub String);

/// A new session asks to be registered.
#[derive(Debug)]
pub struct Connect;

/// A session has gone.
#[derive(Debug)]
pub struct Disconnect {
    pub id: usize,
}

/// A chat line for a room.
#[derive(Debug)]
pub struct ClientMessage {
    /// The session that sent the line.
    pub id: usize,
    /// The line.
    pub msg: String,
    /// The room it is for.
    pub room: String,
}

/// Asks for the names of the rooms.
#[derive(Debug)]
pub struct ListRooms;

/// A session joins a room; a room that does not exist yet is created.
#[derive(Debug)]
pub struct Join {
    pub id: usize,
    /// The name of the room.
    pub name: String,
}

/// A session takes a new display name.
#[derive(Debug)]
pub struct SetName {
    pub id: usize,
    pub new_name: String,
}

/// Asks for the display names of the members of a room.
#[derive(Debug)]
pub struct GetMemberNames {
    pub room: String,
}

/// Asks to start the game of a room.
#[derive(Debug)]
pub struct Start {
    pub room: String,
}

/// Asks for the display name of the session in a player slot.
#[derive(Debug)]
pub struct GetPlayer {
    pub room: String,
    pub player: Player,
}

/// A session asks for a player slot.
#[derive(Debug)]
pub struct RegistPlayer {
    pub room: String,
    pub id: usize,
    pub player: Player,
}

/// A text and the session that it goes to.
#[derive(Debug)]
pub struct Delivery {
    pub to: usize,
    pub message: Message,
}

/// Why a game was not started.
#[derive(Clone, Copy, Debug, PartialEq, Eq, Structural)]
pub enum StartError {
    /// The room has fewer than two members.
    InsufficientMembers,
    /// A player slot of the game is not assigned.
    UnassignedPlayers,
    /// There is no such room, or the room hosts no game.
    NoGame,
}

impl View for Delivery {
    type V = Notice;

    open spec fn view(&self) -> Notice {
        Notice { to: self.to, text: self.message.0@ }
    }
}

/// The deliveries as mathematical values.
pub open spec fn notices(out: Seq<Delivery>) -> Seq<Notice> {
    out.map_values(|d: Delivery| d@)
}

impl StartError {
    /// The reason in words.
    pub open spec fn reason_text(self) -> Seq<char> {
        match self {
            StartError::InsufficientMembers => "not enough members"@,
            StartError::UnassignedPlayers => "please regeist player1 and player2"@,
            StartError::NoGame => "something wrong"@,
        }
    }

    /// The reason in words.
    pub fn reason(&self) -> (text: String)
        ensures
            text@ == self.reason_text(),
    {
        match self {
            StartError::InsufficientMembers => String::from_str("not enough members"),
            StartError::UnassignedPlayers => String::from_str("please regeist player1 and player2"),
            StartError::NoGame => String::from_str("something wrong"),
        }
    }
}

/// A session that was registered.
#[derive(Debug)]
pub struct Connected {
    /// The new session.
    pub id: usize,
    /// What the members of the default room are told.
    pub notices: Vec<Delivery>,
}

/// A session that joined a room.
#[derive(Debug)]
pub struct Joined {
    /// The name of the room.
    pub room: String,
    /// What the members of the rooms it left, and then those of the room it
    /// joined, are told.
    pub notices: Vec<Delivery>,
}

/// A game that was started.
#[derive(Debug)]
pub struct Started {
    /// The board, row by row.
    pub board: Vec<Vec<u8>>,
    /// What the members of the room are told.
    pub notices: Vec<Delivery>,
}

/// A room.
#[derive(Debug)]
struct Room {
    name: String,
    members: Vec<usize>,
    game: Option<Reversi>,
}

impl View for Room {
    type V = RoomState;

    closed spec fn view(&self) -> RoomState {
        RoomState {
            name: self.name@,
            members: self.members@,
            game: match self.game {
                Some(g) => Some(g@),
                None => None,
            },
        }
    }
}

/// The broker.
#[derive(Debug)]
pub struct Server {
    sessions: HashMap<usize, String>,
    rooms: Vec<Room>,
    default_room: String,
}

impl View for Server {
    type V = Broker;

    closed spec fn view(&self) -> Broker {
        Broker {
            sessions: self.sessions@.map_values(|name: String| name@),
            rooms: self.rooms@.map_values(|r: Room| r@),
            default_room: self.default_room@,
        }
    }
}

impl Room {
    fn new(name: String, with_game: bool) -> (room: Room)
        ensures
            room@ == new_room(name@, with_game),
            room@.valid(),
    {
        let game = if with_game {
            Some(Reversi::new())
        } else {
            None
        };
        Room { name, members: Vec::new(), game }
    }

    fn has_member(&self, id: usize) -> (r: bool)
        ensures
            r == self@.members.contains(id),
    {
        let mut i: usize = 0;
        while i < self.members.len()
            invariant
                i <= self.members.len(),
                forall|j: int| 0 <= j < i ==> self.members@[j] != id,
            decreases self.members.len() - i,
        {
            if self.members[i] == id {
                return true;
            }
            i += 1;
        }
        false
    }

    fn has_player(&self, id: usize) -> (r: bool)
        ensures
            r == self@.has_player(id),
    {
        match &self.game {
            Some(g) => {
                (match g.player(Player::One) {
                    Some(p) => p == id,
                    None => false,
                }) || (match g.player(Player::Two) {
                    Some(p) => p == id,
                    None => false,
                })
            },
            None => false,
        }
    }

    /// Makes `id` the newest member.
    fn add(&mut self, id: usize)
        ensures
            final(self)@ == old(self)@.with_member(id),
    {
        self.members.push(id);
    }

    /// Gives `id` the slot of `player` in the room's game, if that is
    /// allowed. Says whether it did.
    fn regist(&mut self, player: Player, id: usize) -> (done: bool)
        ensures
            done == (old(self)@.game matches Some(g) && g.may_register(player, id)),
            final(self)@ == (if done {
                RoomState {
                    game: Some(old(self)@.game.unwrap().registered(player, id)),
                    ..old(self)@
                }
            } else {
                old(self)@
            }),
            old(self)@.valid() ==> final(self)@.valid(),
    {
        match &mut self.game {
            Some(g) => g.regist_player(player, id),
            None => false,
        }
    }

    /// Starts the room's game, if it hosts one.
    fn start(&mut self)
        ensures
            final(self)@ == (RoomState {
                game: match old(self)@.game {
                    Some(g) => Some(g.started()),
                    None => None,
                },
                ..old(self)@
            }),
            old(self)@.valid() ==> final(self)@.valid(),
    {
        match &mut self.game {
            Some(g) => {
                g.init();
            },
            None => {},
        }
    }

    /// The board of the room's game, row by row; no row where the room
    /// hosts no game.
    fn board(&self) -> (cells: Vec<Vec<u8>>)
        ensures
            rows(cells) == (match self@.game {
                Some(g) => g.board,
                None => Seq::empty(),
            }),
    {
        match &self.game {
            Some(g) => g.get_discs(),
            None => {
                let cells: Vec<Vec<u8>> = Vec::new();
                assert(rows(cells) =~= Seq::<Seq<u8>>::empty());
                cells
            },
        }
    }

    /// Whether the room hosts a game, and whether both its slots are
    /// assigned.
    fn players_ready(&self) -> (r: Option<bool>)
        ensures
            r == (match self@.game {
                Some(g) => Some(g.player1 is Some && g.player2 is Some),
                None => None,
            }),
    {
        match &self.game {
            Some(g) => Some(g.player(Player::One).is_some() && g.player(Player::Two).is_some()),
            None => None,
        }
    }

    /// Takes session `id` out of the room and out of the game's slots.
    /// Says whether it was a member.
    fn remove(&mut self, id: usize) -> (was_member: bool)
        ensures
            final(self)@ == old(self)@.without(id),
            was_member == old(self)@.members.contains(id),
            old(self)@.valid() ==> final(self)@.valid(),
    {
        let mut kept: Vec<usize> = Vec::new();
        let mut was_member = false;
        let mut i: usize = 0;
        let ghost all = self.members@;
        assert(all.take(0) =~= Seq::<usize>::empty());
        while i < self.members.len()
            invariant
                i <= self.members.len(),
                all == self.members@,
                kept@ == remove_id(all.take(i as int), id),
                was_member == all.take(i as int).contains(id),
            decreases self.members.len() - i,
        {
            let m = self.members[i];
            proof {
                let next = all.take(i as int + 1);
                assert(next.drop_last() =~= all.take(i as int));
                assert(next.last() == m);
                lemma_contains_last(next, id);
            }
            if m == id {
                was_member = true;
            } else {
                kept.push(m);
            }
            i += 1;
        }
        proof {
            assert(all.take(all.len() as int) =~= all);
            lemma_remove_id(all, id);
        }
        self.members = kept;
        match &mut self.game {
            Some(g) => {
                g.unregist_player(id);
            },
            None => {},
        }
        was_member
    }
}

/// Draws a number: calls `Rng::gen` of `rand` on the generator that
/// `rand::thread_rng` gives this thread. Nothing is claimed of the number,
/// and two draws may differ. The generator is seeded from the system when a
/// thread first asks for it, and `rand` panics where the system has no
/// randomness to give.
#[verifier::external_body]
fn draw_id() -> usize {
    rand::Rng::gen::<usize>(&mut rand::thread_rng())
}

/// The place of the first room with the name `name`.
fn position(rooms: &Vec<Room>, name: &str) -> (found: Option<usize>)
    ensures
        match found {
            Some(i) => {
                &&& i < rooms.len()
                &&& rooms@[i as int]@.name == name@
            },
            None => forall|j: int| 0 <= j < rooms.len() ==> (#[trigger] rooms@[j])@.name != name@,
        },
{
    let mut i: usize = 0;
    while i < rooms.len()
        invariant
            i <= rooms.len(),
            forall|j: int| 0 <= j < i ==> (#[trigger] rooms@[j])@.name != name@,
        decreases rooms.len() - i,
    {
        if same_text(rooms[i].name.as_str(), name) {
            return Some(i);
        }
        i += 1;
    }
    None
}

impl Default for Server {
    /// The broker with the default room `Main` and the rooms `room1` to
    /// `room5`.
    fn default() -> (server: Server)
        ensures
            server.wf(),
            server@ == Broker::initial(main_room(), standard_rooms()),
    {
        let mut names: Vec<String> = Vec::new();
        names.push(String::from_str("room1"));
        names.push(String::from_str("room2"));
        names.push(String::from_str("room3"));
        names.push(String::from_str("room4"));
        names.push(String::from_str("room5"));
        assert(texts(names@) =~= standard_rooms());
        Server::new(String::from_str("Main"), names)
    }
}

/// The rooms as mathematical values.
spec fn room_states(rooms: Seq<Room>) -> Seq<RoomState> {
    rooms.map_values(|r: Room| r@)
}

impl Server {
    /// The broker is well formed: see [`Broker::valid`].
    pub open spec fn wf(&self) -> bool {
        self@.valid()
    }

    /// A broker with the room `default_room`, in which new sessions are
    /// put and which hosts no game, and a room with a game for each of
    /// `names`. A name that occurs twice counts once.
    pub fn new(default_room: String, names: Vec<String>) -> (server: Server)
        ensures
            server.wf(),
            server@ == Broker::initial(default_room@, texts(names@)),
    {
        let mut rooms: Vec<Room> = Vec::new();
        rooms.push(Room::new(default_room.clone(), false));
        let ghost first = seq![new_room(default_room@, false)];
        let ghost all = texts(names@);
        let mut i: usize = 0;
        proof {
            assert(room_states(rooms@) =~= first);
            assert(all.take(0) =~= Seq::<Seq<char>>::empty());
            assert(room_states(rooms@)[0].name == default_room@);
        }
        while i < names.len()
            invariant
                i <= names.len(),
                all == texts(names@),
                first == seq![new_room(default_room@, false)],
                room_states(rooms@) == with_rooms(first, all.take(i as int)),
                (Broker {
                    sessions: Map::empty(),
                    rooms: room_states(rooms@),
                    default_room: default_room@,
                }).valid(),
            decreases names.len() - i,
        {
            let ghost before = room_states(rooms@);
            let ghost old_broker = Broker {
                sessions: Map::empty(),
                rooms: before,
                default_room: default_room@,
            };
            proof {
                let next = all.take(i as int + 1);
                assert(next.drop_last() =~= all.take(i as int));
                assert(next.last() == names@[i as int]@);
            }
            let found = position(&rooms, names[i].as_str());
            if found.is_none() {
                rooms.push(Room::new(names[i].clone(), true));
                proof {
                    let after = room_states(rooms@);
                    let room = new_room(names@[i as int]@, true);
                    assert(after =~= before.push(room));
                    assert(!has_name(before, names@[i as int]@)) by {
                        if has_name(before, names@[i as int]@) {
                            let j = choose|j: int|
                                0 <= j < before.len() && (#[trigger] before[j]).name == names@[i as int]@;
                            assert(rooms@[j]@.name == names@[i as int]@);
                        }
                    }
                    assert(rooms@[before.len() as int]@ == room);
                    assert(room.members.len() == 0);
                    lemma_push_room(old_broker, room);
                }
            } else {
                proof {
                    let j = found.unwrap() as int;
                    assert(before[j].name == names@[i as int]@);
                }
            }
            i += 1;
        }
        let sessions: HashMap<usize, String> = HashMap::new();
        proof {
            assert(all.take(names.len() as int) =~= all);
            assert(sessions@.map_values(|name: String| name@) =~= Map::<usize, Seq<char>>::empty());
        }
        Server { sessions, rooms, default_room }
    }

    /// The place of the room `name`, if there is such a room.
    fn find_room(&self, name: &str) -> (found: Option<usize>)
        requires
            self.wf(),
        ensures
            match found {
                Some(i) => {
                    &&& self@.has_room(name@)
                    &&& i == self@.room_index(name@)
                    &&& i < self.rooms.len()
                },
                None => !self@.has_room(name@),
            },
    {
        let found = position(&self.rooms, name);
        proof {
            match found {
                Some(i) => {
                    assert(self@.rooms[i as int].name == name@);
                    let j = self@.room_index(name@);
                    assert(self@.rooms[j].name == name@);
                },
                None => {
                    if self@.has_room(name@) {
                        let j = choose|j: int|
                            0 <= j < self@.rooms.len() && (#[trigger] self@.rooms[j]).name == name@;
                        assert(self.rooms@[j]@.name == name@);
                    }
                },
            }
        }
        found
    }

    /// `message` for each member of the room at place `i` that has a
    /// session and is not `skip`.
    fn announce(&self, i: usize, message: &str, skip: Option<usize>) -> (out: Vec<Delivery>)
        requires
            i < self.rooms.len(),
        ensures
            notices(out@) == broadcast(self@.rooms[i as int].members, self@.sessions, skip, message@),
    {
        let room = &self.rooms[i];
        let ghost members = room.members@;
        let mut out: Vec<Delivery> = Vec::new();
        let mut k: usize = 0;
        proof {
            assert(members.take(0) =~= Seq::<usize>::empty());
            assert(notices(out@) =~= Seq::<Notice>::empty());
        }
        while k < room.members.len()
            invariant
                k <= room.members.len(),
                members == room.members@,
                notices(out@) == broadcast(members.take(k as int), self@.sessions, skip, message@),
            decreases room.members.len() - k,
        {
            let m = room.members[k];
            let skipped = match skip {
                Some(s) => s == m,
                None => false,
            };
            let ghost before = notices(out@);
            proof {
                let next = members.take(k as int + 1);
                assert(next.drop_last() =~= members.take(k as int));
                assert(next.last() == m);
            }
            if !skipped && self.sessions.contains_key(&m) {
                out.push(Delivery { to: m, message: Message(String::from_str(message)) });
                assert(notices(out@) =~= before.push(Notice { to: m, text: message@ }));
            }
            k += 1;
        }
        assert(members.take(members.len() as int) =~= members);
        out
    }

    /// `message` for each member of the room `room` that has a session and
    /// is not `skip`; nothing where there is no such room.
    pub fn send_message(&self, room: &str, message: &str, skip: Option<usize>) -> (out: Vec<Delivery>)
        requires
            self.wf(),
        ensures
            notices(out@) == self@.sent(room@, skip, message@),
    {
        match self.find_room(room) {
            Some(i) => self.announce(i, message, skip),
            None => {
                let out: Vec<Delivery> = Vec::new();
                assert(notices(out@) =~= Seq::<Notice>::empty());
                out
            },
        }
    }

    /// Takes session `id` out of every room and every player slot, and
    /// tells the others in each room that it was in.
    fn leave_rooms(&mut self, id: usize) -> (out: Vec<Delivery>)
        requires
            old(self).wf(),
        ensures
            final(self).wf(),
            final(self)@ == old(self)@.left(id),
            notices(out@) == departures(
                old(self)@.rooms,
                old(self)@.sessions,
                id,
                disconnected_notice(),
            ),
    {
        let ghost b = self@;
        let mut out: Vec<Delivery> = Vec::new();
        let mut i: usize = 0;
        proof {
            assert(b.rooms.take(0) =~= Seq::<RoomState>::empty());
            assert(notices(out@) =~= Seq::<Notice>::empty());
        }
        while i < self.rooms.len()
            invariant
                i <= self.rooms.len(),
                self.rooms.len() == b.rooms.len(),
                self@.sessions == b.sessions,
                self@.default_room == b.default_room,
                forall|j: int| 0 <= j < i ==> (#[trigger] self@.rooms[j]) == b.rooms[j].without(id),
                forall|j: int| i <= j < b.rooms.len() ==> (#[trigger] self@.rooms[j]) == b.rooms[j],
                notices(out@) == departures(
                    b.rooms.take(i as int),
                    b.sessions,
                    id,
                    disconnected_notice(),
                ),
            decreases self.rooms.len() - i,
        {
            let ghost before = self@;
            let ghost sent = notices(out@);
            proof {
                let next = b.rooms.take(i as int + 1);
                assert(next.drop_last() =~= b.rooms.take(i as int));
                assert(next.last() == b.rooms[i as int]);
                assert(before.rooms[i as int] == b.rooms[i as int]);
            }
            let was_member = self.rooms[i].remove(id);
            proof {
                assert(self@.rooms[i as int] == b.rooms[i as int].without(id));
                assert forall|j: int| 0 <= j < i implies (#[trigger] self@.rooms[j]) == b.rooms[j].without(
                    id,
                ) by {
                    assert(before.rooms[j] == b.rooms[j].without(id));
                }
                assert forall|j: int| i < j < b.rooms.len() implies (#[trigger] self@.rooms[j])
                    == b.rooms[j] by {
                    assert(before.rooms[j] == b.rooms[j]);
                }
            }
            if was_member {
                let notice = Payload::PlainNotice(String::from_str("Someone disconnected"));
                let mut part = self.announce(i, notice.render().as_str(), None);
                let ghost told = notices(part@);
                out.append(&mut part);
                assert(notices(out@) =~= sent + told);
            }
            i += 1;
        }
        proof {
            assert(b.rooms.take(b.rooms.len() as int) =~= b.rooms);
            assert(self@.rooms =~= b.left(id).rooms);
            lemma_left(b, id);
        }
        out
    }

    /// A session has gone: it loses its display name, leaves every room and
    /// gives up every player slot. The others in each room that it was in
    /// are told that someone disconnected.
    pub fn disconnect(&mut self, msg: Disconnect) -> (out: Vec<Delivery>)
        requires
            old(self).wf(),
        ensures
            final(self).wf(),
            final(self)@ == old(self)@.disconnected(msg.id),
            !final(self)@.knows(msg.id),
            notices(out@) == departures(
                old(self)@.rooms,
                old(self)@.sessions.remove(msg.id),
                msg.id,
                disconnected_notice(),
            ),
    {
        let ghost b = self@;
        let ghost names = self.sessions@;
        self.sessions.remove(&msg.id);
        proof {
            assert(self.sessions@.map_values(|name: String| name@) =~= names.map_values(
                |name: String| name@,
            ).remove(msg.id));
            lemma_valid_rooms(b, self@);
        }
        let out = self.leave_rooms(msg.id);
        proof {
            assert(self@.rooms =~= b.disconnected(msg.id).rooms);
            lemma_disconnected(b, msg.id);
        }
        out
    }

    /// A session joins the room `msg.name`. It first leaves every room that
    /// it is in and gives up its player slots, and the others in those rooms
    /// are told that someone disconnected. A room of that name is made, with
    /// a game, if there is none. The members of the room are told that
    /// someone connected, and then the session is added to them.
    pub fn join(&mut self, msg: Join) -> (joined: Joined)
        requires
            old(self).wf(),
        ensures
            final(self).wf(),
            final(self)@ == old(self)@.joined(msg.id, msg.name@),
            joined.room@ == msg.name@,
            notices(joined.notices@) == departures(
                old(self)@.rooms,
                old(self)@.sessions,
                msg.id,
                disconnected_notice(),
            ) + old(self)@.left(msg.id).sent(msg.name@, Some(msg.id), connected_notice()),
            forall|i: int|
                0 <= i < final(self)@.rooms.len() ==> (#[trigger] final(self)@.in_room(i, msg.id)
                    <==> final(self)@.rooms[i].name == msg.name@),
            final(self)@.has_room(msg.name@),
    {
        let mut out = self.leave_rooms(msg.id);
        let ghost b = self@;
        let ghost left = notices(out@);
        let i = match self.find_room(msg.name.as_str()) {
            Some(i) => i,
            None => {
                self.rooms.push(Room::new(msg.name.clone(), true));
                self.rooms.len() - 1
            },
        };
        let ghost c = self@;
        proof {
            if !b.has_room(msg.name@) {
                assert(c.rooms =~= b.rooms.push(new_room(msg.name@, true)));
            }
        }
        let notice = Payload::PlainNotice(String::from_str("Someone connected"));
        let mut part = self.announce(i, notice.render().as_str(), Some(msg.id));
        let ghost told = notices(part@);
        proof {
            if !b.has_room(msg.name@) {
                assert(told =~= Seq::<Notice>::empty());
            }
        }
        out.append(&mut part);
        assert(notices(out@) =~= left + told);
        self.rooms[i].add(msg.id);
        proof {
            let room = c.rooms[i as int].with_member(msg.id);
            assert(self@.rooms =~= c.rooms.update(i as int, room));
            if !b.has_room(msg.name@) {
                assert(self@.rooms =~= b.rooms.push(new_room(msg.name@, true).with_member(msg.id)));
            }
            assert(self@ == old(self)@.joined(msg.id, msg.name@));
            lemma_joined(old(self)@, msg.id, msg.name@);
        }
        Joined { room: msg.name, notices: out }
    }

    /// Whether session `id` is known to the broker.
    fn knows(&self, id: usize) -> (r: bool)
        ensures
            r == self@.knows(id),
    {
        if self.sessions.contains_key(&id) {
            return true;
        }
        let mut i: usize = 0;
        while i < self.rooms.len()
            invariant
                i <= self.rooms.len(),
                forall|j: int| 0 <= j < i ==> !#[trigger] self@.in_room(j, id),
                forall|j: int| 0 <= j < i ==> !(#[trigger] self@.rooms[j]).has_player(id),
            decreases self.rooms.len() - i,
        {
            if self.rooms[i].has_member(id) {
                assert(self@.in_room(i as int, id));
                return true;
            }
            if self.rooms[i].has_player(id) {
                assert(self@.rooms[i as int].has_player(id));
                return true;
            }
            i += 1;
        }
        false
    }

    /// Registers a new session under the number `candidate`, unless that
    /// number is known already: then nothing changes. The session gets the
    /// default display name and is put in the default room, whose members
    /// are first told that someone joined.
    pub fn connect_with(&mut self, candidate: usize) -> (r: Option<Connected>)
        requires
            old(self).wf(),
        ensures
            final(self).wf(),
            match r {
                Some(c) => {
                    &&& !old(self)@.knows(candidate)
                    &&& c.id == candidate
                    &&& final(self)@ == old(self)@.connected(candidate)
                    &&& notices(c.notices@) == old(self)@.sent(
                        old(self)@.default_room,
                        None,
                        joined_notice(),
                    )
                },
                None => old(self)@.knows(candidate) && final(self)@ == old(self)@,
            },
    {
        if self.knows(candidate) {
            return None;
        }
        let ghost b = self@;
        let i = self.find_room(self.default_room.as_str()).unwrap();
        let notice = Payload::PlainNotice(String::from_str("Someone joined"));
        let out = self.announce(i, notice.render().as_str(), None);
        let ghost names = self.sessions@;
        self.sessions.insert(candidate, String::from_str("名無し"));
        self.rooms[i].add(candidate);
        proof {
            let room = b.rooms[i as int].with_member(candidate);
            assert(self.sessions@.map_values(|name: String| name@) =~= names.map_values(
                |name: String| name@,
            ).insert(candidate, default_name()));
            assert(self@.rooms =~= b.rooms.update(i as int, room));
            assert(self@ == b.connected(candidate));
            lemma_connected(b, candidate);
        }
        Some(Connected { id: candidate, notices: out })
    }

    /// A number for a new session: `candidate` where that number is not
    /// known, else the smallest number that is not known. `None` only where
    /// every number is known.
    pub fn pick_id(&self, candidate: usize) -> (r: Option<usize>)
        ensures
            match r {
                Some(id) => {
                    &&& !self@.knows(id)
                    &&& !self@.knows(candidate) ==> id == candidate
                    &&& self@.knows(candidate) ==> forall|below: usize| below < id ==> self@.knows(below)
                },
                None => forall|id: usize| self@.knows(id),
            },
    {
        if !self.knows(candidate) {
            return Some(candidate);
        }
        let mut id: usize = 0;
        while self.knows(id)
            invariant
                forall|below: usize| below < id ==> self@.knows(below),
            decreases usize::MAX - id,
        {
            if id == usize::MAX {
                return None;
            }
            id += 1;
        }
        Some(id)
    }

    /// Registers a new session under a number that is not known yet: a
    /// number drawn at random, or, where that one happens to be known, the
    /// smallest that is not. The session gets the default display name and
    /// is put in the default room, whose members are first told that someone
    /// joined. `None`, and no change, only where every number is known.
    pub fn connect(&mut self, msg: Connect) -> (r: Option<Connected>)
        requires
            old(self).wf(),
        ensures
            final(self).wf(),
            match r {
                Some(c) => {
                    &&& !old(self)@.knows(c.id)
                    &&& final(self)@ == old(self)@.connected(c.id)
                    &&& notices(c.notices@) == old(self)@.sent(
                        old(self)@.default_room,
                        None,
                        joined_notice(),
                    )
                },
                None => final(self)@ == old(self)@ && forall|id: usize| old(self)@.knows(id),
            },
    {
        match self.pick_id(draw_id()) {
            Some(id) => self.connect_with(id),
            None => None,
        }
    }

    /// A session asks for a player slot in the game of a room. It gets the
    /// slot if there is such a room, the room hosts a game, the slot is free
    /// and the session does not hold the other slot; the members of the room
    /// are then told its display name. Else nothing happens.
    pub fn regist_player(&mut self, msg: RegistPlayer) -> (out: Vec<Delivery>)
        requires
            old(self).wf(),
        ensures
            final(self).wf(),
            final(self)@ == (if old(self)@.may_regist(msg.room@, msg.player, msg.id) {
                old(self)@.registered(msg.room@, msg.player, msg.id)
            } else {
                old(self)@
            }),
            notices(out@) == (if old(self)@.may_regist(msg.room@, msg.player, msg.id) {
                old(self)@.sent(
                    msg.room@,
                    None,
                    reply_text(
                        registered_cmd(msg.player),
                        None,
                        DataView::Text(old(self)@.name_of(msg.id)),
                    ),
                )
            } else {
                Seq::empty()
            }),
    {
        let ghost b = self@;
        let mut out: Vec<Delivery> = Vec::new();
        assert(notices(out@) =~= Seq::<Notice>::empty());
        match self.find_room(msg.room.as_str()) {
            Some(i) => {
                let done = self.rooms[i].regist(msg.player, msg.id);
                if done {
                    proof {
                        let room = b.rooms[i as int];
                        let next = RoomState {
                            game: Some(room.game.unwrap().registered(msg.player, msg.id)),
                            ..room
                        };
                        assert(self@.rooms =~= b.rooms.update(i as int, next));
                        assert(self@ == b.registered(msg.room@, msg.player, msg.id));
                        assert(room.valid());
                        lemma_with_room(b, msg.room@, next);
                        lemma_room_index(self@, msg.room@, i as int);
                    }
                    let cmd = match msg.player {
                        Player::One => "registered_player1",
                        Player::Two => "registered_player2",
                    };
                    let payload = Payload::StructuredReply {
                        cmd: String::from_str(cmd),
                        result: None,
                        data: Data::Text(self.get_user_name(msg.id)),
                    };
                    self.announce(i, payload.render().as_str(), None)
                } else {
                    assert(self@.rooms =~= b.rooms);
                    out
                }
            },
            None => out,
        }
    }

    /// Starts the game of a room: the board gets the four starting discs,
    /// player one gets the turn, and the members of the room are sent the
    /// board.
    ///
    /// The game is not started, and nothing changes, for the first of these
    /// reasons that holds: the room has fewer than two members; there is no
    /// such room or it hosts no game; a player slot is not assigned.
    pub fn start(&mut self, msg: Start) -> (r: Result<Started, StartError>)
        requires
            old(self).wf(),
        ensures
            final(self).wf(),
            match r {
                Ok(started) => {
                    &&& old(self)@.start_error(msg.room@) is None
                    &&& final(self)@ == old(self)@.started(msg.room@)
                    &&& rows(started.board) == initial_board()
                    &&& notices(started.notices@) == old(self)@.sent(
                        msg.room@,
                        None,
                        reply_text("start"@, None, DataView::Board(initial_board())),
                    )
                },
                Err(e) => old(self)@.start_error(msg.room@) == Some(e) && final(self)@ == old(self)@,
            },
    {
        let ghost b = self@;
        let i = match self.find_room(msg.room.as_str()) {
            Some(i) => i,
            None => {
                return Err(StartError::NoGame);
            },
        };
        if self.rooms[i].members.len() < 2 {
            return Err(StartError::InsufficientMembers);
        }
        match self.rooms[i].players_ready() {
            None => {
                return Err(StartError::NoGame);
            },
            Some(false) => {
                return Err(StartError::UnassignedPlayers);
            },
            Some(true) => {},
        }
        assert(b.rooms[i as int].valid());
        self.rooms[i].start();
        proof {
            let room = b.rooms[i as int];
            let next = RoomState { game: Some(room.game.unwrap().started()), ..room };
            assert(self@.rooms =~= b.rooms.update(i as int, next));
            assert(self@ == b.started(msg.room@));
            lemma_with_room(b, msg.room@, next);
            lemma_room_index(self@, msg.room@, i as int);
        }
        let payload = Payload::StructuredReply {
            cmd: String::from_str("start"),
            result: None,
            data: Data::Board(self.rooms[i].board()),
        };
        let notices = self.announce(i, payload.render().as_str(), None);
        Ok(Started { board: self.rooms[i].board(), notices })
    }

    /// The display name of session `id`, or the empty text where `id` has
    /// no session.
    pub fn get_user_name(&self, id: usize) -> (name: String)
        ensures
            name@ == self@.name_of(id),
    {
        match self.sessions.get(&id) {
            Some(name) => name.clone(),
            None => String::new(),
        }
    }

    /// A chat line: `msg` for every member of the room but the sender. No
    /// one checks that the sender is in that room.
    pub fn client_message(&self, msg: ClientMessage) -> (out: Vec<Delivery>)
        requires
            self.wf(),
        ensures
            notices(out@) == self@.sent(msg.room@, Some(msg.id), msg.msg@),
    {
        self.send_message(msg.room.as_str(), msg.msg.as_str(), Some(msg.id))
    }

    /// The names of all rooms but the default room, in ascending order.
    pub fn list_rooms(&self, msg: ListRooms) -> (names: Vec<String>)
        ensures
            sorted(texts(names@)),
            texts(names@).to_multiset() == room_names(self@.rooms, self@.default_room).to_multiset(),
            !texts(names@).contains(self@.default_room),
    {
        let mut names: Vec<String> = Vec::new();
        let ghost all = self@.rooms;
        let mut i: usize = 0;
        proof {
            assert(all.take(0) =~= Seq::<RoomState>::empty());
            assert(texts(names@) =~= Seq::<Seq<char>>::empty());
        }
        while i < self.rooms.len()
            invariant
                i <= self.rooms.len(),
                all == self@.rooms,
                texts(names@) == room_names(all.take(i as int), self@.default_room),
                !texts(names@).contains(self@.default_room),
            decreases self.rooms.len() - i,
        {
            let ghost before = texts(names@);
            proof {
                let next = all.take(i as int + 1);
                assert(next.drop_last() =~= all.take(i as int));
                assert(next.last().name == self.rooms@[i as int].name@);
            }
            if !same_text(self.rooms[i].name.as_str(), self.default_room.as_str()) {
                names.push(self.rooms[i].name.clone());
                proof {
                    let name = self.rooms@[i as int].name@;
                    assert(texts(names@) =~= before.push(name));
                    assert forall|j: int| 0 <= j < texts(names@).len() implies texts(names@)[j]
                        != self@.default_room by {
                        if j < before.len() {
                            assert(before[j] == texts(names@)[j]);
                            assert(before.contains(before[j]));
                        }
                    }
                }
            }
            i += 1;
        }
        assert(all.take(all.len() as int) =~= all);
        let ghost unsorted = texts(names@);
        let names = sort_texts(names);
        proof {
            if texts(names@).contains(self@.default_room) {
                vstd::seq_lib::to_multiset_contains(texts(names@), self@.default_room);
                vstd::seq_lib::to_multiset_contains(unsorted, self@.default_room);
            }
        }
        names
    }

    /// The display names of the members of the room, in ascending order: one
    /// for each member that has a session. Nothing where there is no such
    /// room.
    pub fn member_names(&self, msg: GetMemberNames) -> (names: Vec<String>)
        requires
            self.wf(),
        ensures
            sorted(texts(names@)),
            texts(names@).to_multiset() == (if self@.has_room(msg.room@) {
                names_of(self@.room(msg.room@).members, self@.sessions)
            } else {
                Seq::empty()
            }).to_multiset(),
    {
        let mut names: Vec<String> = Vec::new();
        assert(texts(names@) =~= Seq::<Seq<char>>::empty());
        match self.find_room(msg.room.as_str()) {
            Some(i) => {
                let room = &self.rooms[i];
                let ghost members = room.members@;
                let mut k: usize = 0;
                assert(members.take(0) =~= Seq::<usize>::empty());
                while k < room.members.len()
                    invariant
                        k <= room.members.len(),
                        members == room.members@,
                        texts(names@) == names_of(members.take(k as int), self@.sessions),
                    decreases room.members.len() - k,
                {
                    let ghost before = texts(names@);
                    proof {
                        let next = members.take(k as int + 1);
                        assert(next.drop_last() =~= members.take(k as int));
                        assert(next.last() == members[k as int]);
                    }
                    match self.sessions.get(&room.members[k]) {
                        Some(name) => {
                            names.push(name.clone());
                            assert(texts(names@) =~= before.push(name@));
                        },
                        None => {},
                    }
                    k += 1;
                }
                assert(members.take(members.len() as int) =~= members);
            },
            None => {},
        }
        sort_texts(names)
    }

    /// Gives session `id` a new display name. Nothing changes where `id`
    /// has no session.
    pub fn set_name(&mut self, msg: SetName)
        ensures
            final(self)@ == (if old(self)@.sessions.contains_key(msg.id) {
                Broker { sessions: old(self)@.sessions.insert(msg.id, msg.new_name@), ..old(self)@ }
            } else {
                old(self)@
            }),
            old(self).wf() ==> final(self).wf(),
    {
        if self.sessions.contains_key(&msg.id) {
            let ghost before = self.sessions@;
            self.sessions.insert(msg.id, msg.new_name);
            assert(self.sessions@.map_values(|name: String| name@) =~= before.map_values(
                |name: String| name@,
            ).insert(msg.id, msg.new_name@));
            proof {
                if old(self).wf() {
                    lemma_valid_rooms(old(self)@, self@);
                }
            }
        }
    }

    /// The display name of the session in a player slot of the room's game;
    /// the empty text where there is no such room, the room hosts no game,
    /// the slot is not assigned or its session has gone.
    pub fn player_name(&self, msg: GetPlayer) -> (name: String)
        requires
            self.wf(),
        ensures
            name@ == (if self@.has_room(msg.room@) && self@.room(msg.room@).game is Some
                && self@.room(msg.room@).game.unwrap().slot(msg.player) is Some {
                self@.name_of(self@.room(msg.room@).game.unwrap().slot(msg.player).unwrap())
            } else {
                Seq::empty()
            }),
    {
        match self.find_room(msg.room.as_str()) {
            Some(i) => {
                match &self.rooms[i].game {
                    Some(g) => {
                        match g.player(msg.player) {
                            Some(id) => self.get_user_name(id),
                            None => String::new(),
                        }
                    },
                    None => String::new(),
                }
            },
            None => String::new(),
        }
    }
}

} // verus!
