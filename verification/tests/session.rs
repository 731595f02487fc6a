use ws_room_test::reversi::Player;
use ws_room_test::server::{Join, RegistPlayer, Server, Start, StartError};
use ws_room_test::session::{list_reply, members_reply, start_reply, trim, Action, WsSession};

fn session() -> WsSession {
    let mut s = WsSession::new("Main".to_string());
    s.id = 5;
    s
}

fn reply_of(action: Action) -> String {
    match action {
        Action::Reply(payload) => payload.render(),
        other => panic!("no reply: {:?}", other),
    }
}

#[test]
fn trimming() {
    assert_eq!(trim(""), "");
    assert_eq!(trim("   "), "");
    assert_eq!(trim("a"), "a");
    assert_eq!(trim("  a b \t\r\n"), "a b");
    assert_eq!(trim("\u{3000}名 無\u{a0}"), "名 無");
    assert_eq!(trim("x  "), "x");
    assert_eq!(trim("\n/join  room "), "/join  room");
    for sample in ["", " ", "a", " a", "a ", "\u{2003}a\u{85}b\u{1680}", "\u{200b}a"] {
        assert_eq!(trim(sample), sample.trim());
    }
}

#[test]
fn new_session() {
    let s = WsSession::new("Main".to_string());
    assert_eq!(s.id, 0);
    assert_eq!(s.room, "Main");
    assert_eq!(s.name, None);
}

#[test]
fn room_command() {
    let mut s = session();
    assert_eq!(reply_of(s.handle("/room")), "{\"cmd\":\"room\",\"data\":\"Main\"}");
    assert_eq!(reply_of(s.handle("  /room extra words\n")), "{\"cmd\":\"room\",\"data\":\"Main\"}");
    assert_eq!(s.room().render(), "{\"cmd\":\"room\",\"data\":\"Main\"}");
}

#[test]
fn list_command() {
    let mut s = session();
    assert!(matches!(s.handle("/list"), Action::ListRooms));
    assert!(matches!(s.handle("/list now"), Action::ListRooms));
    assert_eq!(
        list_reply(vec!["room1".to_string(), "room2".to_string()]).render(),
        "{\"cmd\":\"list\",\"data\":[\"room1\",\"room2\"]}"
    );
}

#[test]
fn join_command() {
    let mut s = session();
    match s.handle("/join room1") {
        Action::Join { request, reply } => {
            assert_eq!(request.id, 5);
            assert_eq!(request.name, "room1");
            assert_eq!(reply.render(), "{\"cmd\":\"join\",\"data\":\"room1\"}");
        }
        other => panic!("no join: {:?}", other),
    }
    assert_eq!(s.room, "room1");
    // What follows the first space is the name, spaces and all.
    match s.handle("/join  the attic ") {
        Action::Join { request, reply } => {
            assert_eq!(request.name, " the attic");
            assert_eq!(reply.render(), "{\"cmd\":\"join\",\"data\":\" the attic\"}");
        }
        other => panic!("no join: {:?}", other),
    }
    assert_eq!(s.room, " the attic");
}

#[test]
fn join_without_a_name() {
    let mut s = session();
    assert_eq!(reply_of(s.handle("/join")), "!!! room name is required");
    assert_eq!(reply_of(s.handle("/join   ")), "!!! room name is required");
    assert_eq!(s.room, "Main");
}

#[test]
fn name_command() {
    let mut s = session();
    match s.handle("/name alice") {
        Action::SetName(request) => {
            assert_eq!(request.id, 5);
            assert_eq!(request.new_name, "alice");
        }
        other => panic!("no name: {:?}", other),
    }
    assert_eq!(s.name, Some("alice".to_string()));
    assert_eq!(reply_of(s.handle("/name")), "!!! name is required");
    assert_eq!(s.name, Some("alice".to_string()));
}

#[test]
fn members_and_start_commands() {
    let mut s = session();
    s.handle("/join room3");
    match s.handle("/members") {
        Action::Members(request) => assert_eq!(request.room, "room3"),
        other => panic!("no members: {:?}", other),
    }
    match s.handle("/start") {
        Action::Start(request) => assert_eq!(request.room, "room3"),
        other => panic!("no start: {:?}", other),
    }
    assert_eq!(
        members_reply(vec!["a".to_string(), "b".to_string()]).render(),
        "{\"cmd\":\"members\",\"data\":[\"a\",\"b\"]}"
    );
}

#[test]
fn unknown_command() {
    let mut s = session();
    assert_eq!(reply_of(s.handle("/foo")), "!!! unknown command: \"/foo\"");
    assert_eq!(reply_of(s.handle(" /foo \"bar\" \n")), "!!! unknown command: \"/foo \\\"bar\\\"\"");
    assert_eq!(reply_of(s.handle("/")), "!!! unknown command: \"/\"");
    assert_eq!(reply_of(s.handle("/rooms")), "!!! unknown command: \"/rooms\"");
    assert_eq!(reply_of(s.handle("/Room")), "!!! unknown command: \"/Room\"");
}

#[test]
fn chat_lines() {
    let mut s = session();
    match s.handle("  hello there \n") {
        Action::Chat(line) => {
            assert_eq!(line.id, 5);
            assert_eq!(line.msg, "hello there");
            assert_eq!(line.room, "Main");
        }
        other => panic!("no chat: {:?}", other),
    }
    s.handle("/name alice");
    s.handle("/join room2");
    match s.handle("not /a command") {
        Action::Chat(line) => {
            assert_eq!(line.msg, "alice: not /a command");
            assert_eq!(line.room, "room2");
        }
        other => panic!("no chat: {:?}", other),
    }
    match s.handle("") {
        Action::Chat(line) => assert_eq!(line.msg, "alice: "),
        other => panic!("no chat: {:?}", other),
    }
}

#[test]
fn start_replies() {
    let mut server = Server::default();
    let failed = server.start(Start { room: "room1".to_string() });
    assert_eq!(
        start_reply(failed).render(),
        "{\"cmd\":\"start\",\"data\":\"not enough members\",\"result\":\"failed\"}"
    );
    assert_eq!(
        start_reply(Err(StartError::UnassignedPlayers)).render(),
        "{\"cmd\":\"start\",\"data\":\"please regeist player1 and player2\",\"result\":\"failed\"}"
    );
    assert_eq!(
        start_reply(Err(StartError::NoGame)).render(),
        "{\"cmd\":\"start\",\"data\":\"something wrong\",\"result\":\"failed\"}"
    );
}

#[test]
fn start_reply_with_the_board() {
    let mut server = Server::default();
    for (id, player) in [(1usize, Player::One), (2, Player::Two)] {
        server.connect_with(id).unwrap();
        server.join(Join { id, name: "room1".to_string() });
        server.regist_player(RegistPlayer { room: "room1".to_string(), id, player });
    }
    let started = server.start(Start { room: "room1".to_string() });
    assert_eq!(
        start_reply(started).render(),
        "{\"cmd\":\"start\",\"data\":[[0,0,0,0,0,0,0,0],[0,0,0,0,0,0,0,0],[0,0,0,0,0,0,0,0],\
[0,0,0,1,2,0,0,0],[0,0,0,2,1,0,0,0],[0,0,0,0,0,0,0,0],[0,0,0,0,0,0,0,0],[0,0,0,0,0,0,0,0]],\
\"result\":\"success\"}"
    );
}
