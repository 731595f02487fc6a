//! The session proxy: what one connection does with a line of text from its
//! peer, and how the broker's answers are written for the peer.
//!
//! A line that starts with `/` is a command; any other line is chat for the
//! session's room. The proxy decides; sending and asking the broker is left
//! to the caller, who is handed an [`Action`]. What goes back to the peer is
//! a [`Payload`], and `Payload::render` gives its text.

use crate::board::rows;
use crate::server::{ClientMessage, GetMemberNames, Join, SetName, Start, StartError, Started};
use crate::text::{same_text, texts};
use crate::wire::{Data, DataView, Payload, PayloadView};
use vstd::prelude::*;
use vstd::string::StringExecFns;

verus! {

/// Whether `c` is white space, as `char::is_whitespace` of the standard
/// library says.
pub uninterp spec fn is_space(c: char) -> bool;

/// Calls `char::is_whitespace` of the standard library. All that is claimed
/// of the answer is that it depends on `c` alone: it is what [`is_space`]
/// stands for.
#[verifier::external_body]
fn is_whitespace(c: char) -> (r: bool)
    ensures
        r == is_space(c),
{
    c.is_whitespace()
}

/// `s` between double quotes with its special characters escaped, as the
/// standard library writes a `str` for `{:?}`.
pub uninterp spec fn debug_string(s: Seq<char>) -> Seq<char>;

/// Calls the standard library's `format!` with `{:?}` on `s`, which is
/// `Debug` for `str`. All that is claimed of the text is that it depends on
/// `s` alone: it is what [`debug_string`] stands for.
#[verifier::external_body]
fn debug_text(s: &str) -> (text: String)
    ensures
        text@ == debug_string(s@),
{
    format!("{:?}", s)
}

/// The first place from `i` on where `s` holds no white space, or the length
/// of `s`.
pub open spec fn lead(s: Seq<char>, i: int) -> int
    decreases s.len() - i,
{
    if 0 <= i < s.len() && is_space(s[i]) {
        lead(s, i + 1)
    } else {
        i
    }
}

/// The end of `s` without the white space before place `j`, and not before
/// `lo`.
pub open spec fn trail(s: Seq<char>, lo: int, j: int) -> int
    decreases j,
{
    if 0 <= lo < j <= s.len() && is_space(s[j - 1]) {
        trail(s, lo, j - 1)
    } else {
        j
    }
}

/// `s` without the white space at its start and at its end.
pub open spec fn trimmed(s: Seq<char>) -> Seq<char> {
    s.subrange(lead(s, 0), trail(s, lead(s, 0), s.len() as int))
}

/// The first place from `i` on where `s` holds a space, or the length of
/// `s`.
pub open spec fn first_space(s: Seq<char>, i: int) -> int
    decreases s.len() - i,
{
    if 0 <= i < s.len() && s[i] != ' ' {
        first_space(s, i + 1)
    } else {
        i
    }
}

/// The command word of a line: the line up to its first space.
pub open spec fn word_of(line: Seq<char>) -> Seq<char> {
    line.subrange(0, first_space(line, 0))
}

/// The argument of a command line: what follows the first space, if the
/// line has a space.
pub open spec fn argument_of(line: Seq<char>) -> Option<Seq<char>> {
    if first_space(line, 0) < line.len() {
        Some(line.subrange(first_space(line, 0) + 1, line.len() as int))
    } else {
        None
    }
}

/// The reply to the command `cmd` that carries `data` and no result.
pub open spec fn answer(cmd: Seq<char>, data: DataView) -> PayloadView {
    PayloadView::StructuredReply { cmd, result: None, data }
}

/// What the proxy does for a line of text, as a mathematical value.
pub enum Request {
    /// Send the payload back to the peer.
    Reply(PayloadView),
    /// Ask the broker for the list of rooms.
    ListRooms,
    /// Tell the broker that the session joins the room, and send `reply`
    /// back to the peer.
    Join { id: usize, name: Seq<char>, reply: PayloadView },
    /// Tell the broker the session's new display name.
    SetName { id: usize, new_name: Seq<char> },
    /// Ask the broker for the members of the room.
    Members { room: Seq<char> },
    /// Ask the broker to start the game of the room.
    Start { room: Seq<char> },
    /// Hand the broker a chat line for the room.
    Chat { id: usize, msg: Seq<char>, room: Seq<char> },
}

/// A session proxy as a mathematical value.
pub struct Proxy {
    pub id: usize,
    /// The room that the session is in.
    pub room: Seq<char>,
    /// The name that the peer gave itself, if it did.
    pub name: Option<Seq<char>>,
}

impl Proxy {
    /// The chat line that goes to the room for the text `line`: the name
    /// and a colon before it, where the peer has a name.
    pub open spec fn chat_line(self, line: Seq<char>) -> Seq<char> {
        match self.name {
            Some(name) => name + ": "@ + line,
            None => line,
        }
    }

    /// What the proxy does for the text `text` from its peer.
    pub open spec fn action(self, text: Seq<char>) -> Request {
        let line = trimmed(text);
        if line.len() > 0 && line[0] == '/' {
            let word = word_of(line);
            let argument = argument_of(line);
            if word == "/room"@ {
                Request::Reply(answer("room"@, DataView::Text(self.room)))
            } else if word == "/list"@ {
                Request::ListRooms
            } else if word == "/join"@ {
                match argument {
                    Some(name) => Request::Join {
                        id: self.id,
                        name,
                        reply: answer("join"@, DataView::Text(name)),
                    },
                    None => Request::Reply(PayloadView::PlainNotice("!!! room name is required"@)),
                }
            } else if word == "/name"@ {
                match argument {
                    Some(new_name) => Request::SetName { id: self.id, new_name },
                    None => Request::Reply(PayloadView::PlainNotice("!!! name is required"@)),
                }
            } else if word == "/members"@ {
                Request::Members { room: self.room }
            } else if word == "/start"@ {
                Request::Start { room: self.room }
            } else {
                Request::Reply(
                    PayloadView::PlainNotice("!!! unknown command: "@ + debug_string(line)),
                )
            }
        } else {
            Request::Chat { id: self.id, msg: self.chat_line(line), room: self.room }
        }
    }

    /// The proxy after the text `text` from its peer: a join changes the
    /// room, a new name the name, and nothing else changes anything.
    pub open spec fn after(self, text: Seq<char>) -> Proxy {
        match self.action(text) {
            Request::Join { id, name, reply } => Proxy { room: name, ..self },
            Request::SetName { id, new_name } => Proxy { name: Some(new_name), ..self },
            _ => self,
        }
    }
}

/// What the caller has to do for a line of text.
#[derive(Debug)]
pub enum Action {
    /// Send the payload back to the peer.
    Reply(Payload),
    /// Ask the broker for the list of rooms, and send the peer
    /// [`list_reply`] of the answer.
    ListRooms,
    /// Hand the broker the request, and send `reply` back to the peer.
    Join { request: Join, reply: Payload },
    /// Hand the broker the request.
    SetName(SetName),
    /// Ask the broker, and send the peer [`members_reply`] of the answer.
    Members(GetMemberNames),
    /// Ask the broker, and send the peer [`start_reply`] of the answer.
    Start(Start),
    /// Hand the broker the chat line.
    Chat(ClientMessage),
}

impl View for Action {
    type V = Request;

    open spec fn view(&self) -> Request {
        match self {
            Action::Reply(payload) => Request::Reply(payload@),
            Action::ListRooms => Request::ListRooms,
            Action::Join { request, reply } => Request::Join {
                id: request.id,
                name: request.name@,
                reply: reply@,
            },
            Action::SetName(request) => Request::SetName {
                id: request.id,
                new_name: request.new_name@,
            },
            Action::Members(request) => Request::Members { room: request.room@ },
            Action::Start(request) => Request::Start { room: request.room@ },
            Action::Chat(line) => Request::Chat { id: line.id, msg: line.msg@, room: line.room@ },
        }
    }
}

/// One connection's session: its number, the room it is in, and the name
/// that its peer gave itself.
#[derive(Debug)]
pub struct WsSession {
    /// The session's number; 0 until the broker has given it one.
    pub id: usize,
    /// The room that the session is in.
    pub room: String,
    /// The peer's name.
    pub name: Option<String>,
}

impl View for WsSession {
    type V = Proxy;

    open spec fn view(&self) -> Proxy {
        Proxy {
            id: self.id,
            room: self.room@,
            name: match self.name {
                Some(name) => Some(name@),
                None => None,
            },
        }
    }
}

/// `text` without the white space at its start and at its end.
pub fn trim(text: &str) -> (line: &str)
    ensures
        line@ == trimmed(text@),
{
    let n = text.unicode_len();
    let mut a: usize = 0;
    while a < n && is_whitespace(text.get_char(a))
        invariant
            a <= n,
            n == text@.len(),
            lead(text@, 0) == lead(text@, a as int),
        decreases n - a,
    {
        a += 1;
    }
    let mut b: usize = n;
    while a < b && is_whitespace(text.get_char(b - 1))
        invariant
            a <= b <= n,
            n == text@.len(),
            a == lead(text@, 0),
            trail(text@, a as int, n as int) == trail(text@, a as int, b as int),
        decreases b,
    {
        b -= 1;
    }
    text.substring_char(a, b)
}

/// The place of the first space in `line`, or the length of `line`.
fn find_space(line: &str) -> (p: usize)
    ensures
        p == first_space(line@, 0),
        p <= line@.len(),
{
    let n = line.unicode_len();
    let mut p: usize = 0;
    while p < n && line.get_char(p) != ' '
        invariant
            p <= n,
            n == line@.len(),
            first_space(line@, 0) == first_space(line@, p as int),
        decreases n - p,
    {
        p += 1;
    }
    p
}

/// The reply that tells the peer the names of the rooms.
pub fn list_reply(rooms: Vec<String>) -> (payload: Payload)
    ensures
        payload@ == answer("list"@, DataView::List(texts(rooms@))),
{
    Payload::StructuredReply { cmd: String::from_str("list"), result: None, data: Data::List(rooms) }
}

/// The reply that tells the peer the names of the members of its room.
pub fn members_reply(members: Vec<String>) -> (payload: Payload)
    ensures
        payload@ == answer("members"@, DataView::List(texts(members@))),
{
    Payload::StructuredReply {
        cmd: String::from_str("members"),
        result: None,
        data: Data::List(members),
    }
}

/// The reply that tells the peer how its request to start the game ended:
/// with the board where the game started, else with the reason in words.
pub fn start_reply(result: Result<Started, StartError>) -> (payload: Payload)
    ensures
        payload@ == (match result {
            Ok(started) => PayloadView::StructuredReply {
                cmd: "start"@,
                result: Some("success"@),
                data: DataView::Board(rows(started.board)),
            },
            Err(e) => PayloadView::StructuredReply {
                cmd: "start"@,
                result: Some("failed"@),
                data: DataView::Text(e.reason_text()),
            },
        }),
{
    match result {
        Ok(started) => Payload::StructuredReply {
            cmd: String::from_str("start"),
            result: Some(String::from_str("success")),
            data: Data::Board(started.board),
        },
        Err(e) => Payload::StructuredReply {
            cmd: String::from_str("start"),
            result: Some(String::from_str("failed")),
            data: Data::Text(e.reason()),
        },
    }
}

impl WsSession {
    /// A session that has no number and no name yet, in the room `room`.
    pub fn new(room: String) -> (session: WsSession)
        ensures
            session@ == (Proxy { id: 0, room: room@, name: None }),
    {
        WsSession { id: 0, room, name: None }
    }

    /// The reply that tells the peer which room it is in.
    pub fn room(&self) -> (payload: Payload)
        ensures
            payload@ == answer("room"@, DataView::Text(self@.room)),
    {
        Payload::StructuredReply {
            cmd: String::from_str("room"),
            result: None,
            data: Data::Text(self.room.clone()),
        }
    }

    /// The chat line that goes to the room for the text `line`.
    fn chat_line(&self, line: &str) -> (msg: String)
        ensures
            msg@ == self@.chat_line(line@),
    {
        match &self.name {
            Some(name) => {
                let mut msg = name.clone();
                msg.append(": ");
                msg.append(line);
                msg
            },
            None => String::from_str(line),
        }
    }

    /// Takes a line of text from the peer and says what is to be done.
    ///
    /// The line is read without the white space around it. A line that
    /// starts with `/` is a command, its word ending at the first space:
    /// `/room`, `/list`, `/join` and `/name` with an argument, `/members`,
    /// `/start`. A command that lacks its argument, or is none of these,
    /// is answered with a line that starts with `!!!`. Any other line is
    /// chat for the session's room, with the peer's name before it where
    /// it has one.
    pub fn handle(&mut self, text: &str) -> (action: Action)
        ensures
            action@ == old(self)@.action(text@),
            final(self)@ == old(self)@.after(text@),
    {
        let line = trim(text);
        if line.unicode_len() > 0 && line.get_char(0) == '/' {
            let p = find_space(line);
            let n = line.unicode_len();
            let word = line.substring_char(0, p);
            if same_text(word, "/room") {
                Action::Reply(self.room())
            } else if same_text(word, "/list") {
                Action::ListRooms
            } else if same_text(word, "/join") {
                if p < n {
                    let name = String::from_str(line.substring_char(p + 1, n));
                    self.room = name.clone();
                    let reply = Payload::StructuredReply {
                        cmd: String::from_str("join"),
                        result: None,
                        data: Data::Text(name.clone()),
                    };
                    Action::Join { request: Join { id: self.id, name }, reply }
                } else {
                    Action::Reply(Payload::PlainNotice(String::from_str("!!! room name is required")))
                }
            } else if same_text(word, "/name") {
                if p < n {
                    let new_name = String::from_str(line.substring_char(p + 1, n));
                    self.name = Some(new_name.clone());
                    Action::SetName(SetName { id: self.id, new_name })
                } else {
                    Action::Reply(Payload::PlainNotice(String::from_str("!!! name is required")))
                }
            } else if same_text(word, "/members") {
                Action::Members(GetMemberNames { room: self.room.clone() })
            } else if same_text(word, "/start") {
                Action::Start(Start { room: self.room.clone() })
            } else {
                let mut text = String::from_str("!!! unknown command: ");
                text.append(debug_text(line).as_str());
                Action::Reply(Payload::PlainNotice(text))
            }
        } else {
            Action::Chat(
                ClientMessage { id: self.id, msg: self.chat_line(line), room: self.room.clone() },
            )
        }
    }
}

} // verus!
