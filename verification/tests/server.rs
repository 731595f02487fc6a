use ws_room_test::reversi::Player;
use ws_room_test::server::{
    ClientMessage, Connect, Delivery, Disconnect, GetMemberNames, GetPlayer, Join, ListRooms,
    RegistPlayer, Server, SetName, Start, StartError,
};

fn told(out: &Vec<Delivery>) -> Vec<(usize, String)> {
    out.iter().map(|d| (d.to, d.message.0.clone())).collect()
}

fn strings(items: &[&str]) -> Vec<String> {
    items.iter().map(|s| s.to_string()).collect()
}

fn members(server: &Server, room: &str) -> Vec<String> {
    server.member_names(GetMemberNames { room: room.to_string() })
}

/// A broker with the sessions 1, 2 and 3, named after their numbers.
fn three() -> Server {
    let mut server = Server::default();
    for id in 1..=3usize {
        assert!(server.connect_with(id).is_some());
        server.set_name(SetName { id, new_name: format!("user{}", id) });
    }
    server
}

fn join(server: &mut Server, id: usize, name: &str) -> Vec<(usize, String)> {
    let joined = server.join(Join { id, name: name.to_string() });
    assert_eq!(joined.room, name);
    told(&joined.notices)
}

fn initial() -> Vec<Vec<u8>> {
    let mut b = vec![vec![0u8; 8]; 8];
    b[3][3] = 1;
    b[3][4] = 2;
    b[4][3] = 2;
    b[4][4] = 1;
    b
}

#[test]
fn default_rooms() {
    let server = Server::default();
    assert_eq!(
        server.list_rooms(ListRooms),
        strings(&["room1", "room2", "room3", "room4", "room5"])
    );
    assert_eq!(members(&server, "Main"), Vec::<String>::new());
    assert_eq!(members(&server, "nowhere"), Vec::<String>::new());
}

#[test]
fn rooms_from_a_list() {
    let server = Server::new("hall".to_string(), strings(&["b", "a", "hall", "b", "", "c"]));
    assert_eq!(server.list_rooms(ListRooms), strings(&["", "a", "b", "c"]));
    let lonely = Server::new("hall".to_string(), vec![]);
    assert_eq!(lonely.list_rooms(ListRooms), Vec::<String>::new());
}

#[test]
fn connect_puts_the_session_in_the_default_room() {
    let mut server = Server::default();
    let first = server.connect_with(7).unwrap();
    assert_eq!(first.id, 7);
    assert_eq!(told(&first.notices), vec![]);
    assert_eq!(server.get_user_name(7), "名無し");
    assert_eq!(members(&server, "Main"), strings(&["名無し"]));
    let second = server.connect_with(9).unwrap();
    assert_eq!(second.id, 9);
    assert_eq!(told(&second.notices), vec![(7, "Someone joined".to_string())]);
    let third = server.connect_with(0).unwrap();
    assert_eq!(
        told(&third.notices),
        vec![(7, "Someone joined".to_string()), (9, "Someone joined".to_string())]
    );
    assert_eq!(members(&server, "Main").len(), 3);
}

#[test]
fn a_known_number_is_not_given_again() {
    let mut server = three();
    assert!(server.connect_with(2).is_none());
    assert_eq!(members(&server, "Main"), strings(&["user1", "user2", "user3"]));
    // A number that only sits in a room or in a player slot is known too.
    join(&mut server, 40, "room1");
    assert!(server.connect_with(40).is_none());
    server.regist_player(RegistPlayer { room: "room2".to_string(), id: 50, player: Player::Two });
    assert!(server.connect_with(50).is_none());
    assert!(server.connect_with(51).is_some());
}

#[test]
fn connect_draws_fresh_numbers() {
    let mut server = Server::default();
    let mut ids = Vec::new();
    while ids.len() < 20 {
        if let Some(connected) = server.connect(Connect) {
            assert!(!ids.contains(&connected.id));
            assert_eq!(connected.notices.len(), ids.len());
            ids.push(connected.id);
        }
    }
    assert_eq!(members(&server, "Main").len(), 20);
    for id in ids {
        assert_eq!(server.get_user_name(id), "名無し");
    }
}

#[test]
fn set_name_changes_one_name() {
    let mut server = three();
    assert_eq!(server.get_user_name(2), "user2");
    server.set_name(SetName { id: 2, new_name: "bob".to_string() });
    assert_eq!(server.get_user_name(2), "bob");
    assert_eq!(server.get_user_name(1), "user1");
    server.set_name(SetName { id: 99, new_name: "ghost".to_string() });
    assert_eq!(server.get_user_name(99), "");
    assert_eq!(members(&server, "Main"), strings(&["bob", "user1", "user3"]));
}

#[test]
fn member_names_are_sorted() {
    let mut server = Server::default();
    for (id, name) in [(1usize, "zoe"), (2, "adam"), (3, "Zed"), (4, "adam"), (5, "名無し")] {
        server.connect_with(id).unwrap();
        server.set_name(SetName { id, new_name: name.to_string() });
    }
    assert_eq!(members(&server, "Main"), strings(&["Zed", "adam", "adam", "zoe", "名無し"]));
    // A member without a session has no name to show.
    join(&mut server, 77, "Main");
    assert_eq!(members(&server, "Main").len(), 5);
}

#[test]
fn join_moves_the_session() {
    let mut server = three();
    let notices = join(&mut server, 1, "room1");
    assert_eq!(
        notices,
        vec![(2, "Someone disconnected".to_string()), (3, "Someone disconnected".to_string())]
    );
    assert_eq!(members(&server, "Main"), strings(&["user2", "user3"]));
    assert_eq!(members(&server, "room1"), strings(&["user1"]));
    let notices = join(&mut server, 2, "room1");
    assert_eq!(
        notices,
        vec![(3, "Someone disconnected".to_string()), (1, "Someone connected".to_string())]
    );
    assert_eq!(members(&server, "Main"), strings(&["user3"]));
    assert_eq!(members(&server, "room1"), strings(&["user1", "user2"]));
    for room in ["room2", "room3", "room4", "room5"] {
        assert_eq!(members(&server, room), Vec::<String>::new());
    }
}

#[test]
fn join_makes_a_room() {
    let mut server = three();
    let notices = join(&mut server, 3, "attic");
    assert_eq!(
        notices,
        vec![(1, "Someone disconnected".to_string()), (2, "Someone disconnected".to_string())]
    );
    assert_eq!(
        server.list_rooms(ListRooms),
        strings(&["attic", "room1", "room2", "room3", "room4", "room5"])
    );
    assert_eq!(members(&server, "attic"), strings(&["user3"]));
    // The new room hosts a game.
    server.regist_player(RegistPlayer { room: "attic".to_string(), id: 3, player: Player::One });
    assert_eq!(
        server.player_name(GetPlayer { room: "attic".to_string(), player: Player::One }),
        "user3"
    );
}

#[test]
fn join_the_same_room_again() {
    let mut server = three();
    let notices = join(&mut server, 2, "Main");
    assert_eq!(
        notices,
        vec![
            (1, "Someone disconnected".to_string()),
            (3, "Someone disconnected".to_string()),
            (1, "Someone connected".to_string()),
            (3, "Someone connected".to_string()),
        ]
    );
    assert_eq!(members(&server, "Main"), strings(&["user1", "user2", "user3"]));
}

#[test]
fn join_gives_up_player_slots() {
    let mut server = three();
    join(&mut server, 1, "room1");
    server.regist_player(RegistPlayer { room: "room1".to_string(), id: 1, player: Player::One });
    server.regist_player(RegistPlayer { room: "room2".to_string(), id: 1, player: Player::Two });
    join(&mut server, 1, "room3");
    for (room, player) in [("room1", Player::One), ("room2", Player::Two)] {
        assert_eq!(server.player_name(GetPlayer { room: room.to_string(), player }), "");
    }
}

#[test]
fn rooms_stay_sorted_and_without_the_default_room() {
    let mut server = three();
    for (id, name) in [(1usize, "zebra"), (2, "Alpha"), (3, "room0"), (1, "Main"), (2, "room10")] {
        join(&mut server, id, name);
        let rooms = server.list_rooms(ListRooms);
        let mut sorted = rooms.clone();
        sorted.sort();
        assert_eq!(rooms, sorted);
        assert!(!rooms.contains(&"Main".to_string()));
    }
    assert_eq!(
        server.list_rooms(ListRooms),
        strings(&["Alpha", "room0", "room1", "room10", "room2", "room3", "room4", "room5", "zebra"])
    );
}

#[test]
fn disconnect_removes_the_session_everywhere() {
    let mut server = three();
    join(&mut server, 1, "room1");
    join(&mut server, 2, "room1");
    server.regist_player(RegistPlayer { room: "room1".to_string(), id: 1, player: Player::One });
    server.regist_player(RegistPlayer { room: "room2".to_string(), id: 1, player: Player::Two });
    let out = server.disconnect(Disconnect { id: 1 });
    assert_eq!(told(&out), vec![(2, "Someone disconnected".to_string())]);
    assert_eq!(server.get_user_name(1), "");
    assert_eq!(members(&server, "room1"), strings(&["user2"]));
    assert_eq!(server.player_name(GetPlayer { room: "room1".to_string(), player: Player::One }), "");
    assert_eq!(server.player_name(GetPlayer { room: "room2".to_string(), player: Player::Two }), "");
    // The number is free again.
    assert!(server.connect_with(1).is_some());
    // A session that is not there: nothing to tell, nothing changes.
    let out = server.disconnect(Disconnect { id: 1234 });
    assert_eq!(told(&out), vec![]);
    assert_eq!(members(&server, "Main"), strings(&["user3", "名無し"]));
}

#[test]
fn chat_goes_to_the_others_in_the_room() {
    let mut server = three();
    join(&mut server, 3, "room1");
    let out = server.client_message(ClientMessage {
        id: 1,
        msg: "user1: hello".to_string(),
        room: "Main".to_string(),
    });
    assert_eq!(told(&out), vec![(2, "user1: hello".to_string())]);
    // The sender need not be in the room.
    let out = server.client_message(ClientMessage {
        id: 1,
        msg: "psst".to_string(),
        room: "room1".to_string(),
    });
    assert_eq!(told(&out), vec![(3, "psst".to_string())]);
    let out = server.client_message(ClientMessage {
        id: 1,
        msg: "anyone?".to_string(),
        room: "nowhere".to_string(),
    });
    assert_eq!(told(&out), vec![]);
    let out = server.send_message("Main", "to all", None);
    assert_eq!(told(&out), vec![(1, "to all".to_string()), (2, "to all".to_string())]);
}

#[test]
fn player_slots() {
    let mut server = three();
    join(&mut server, 1, "room1");
    join(&mut server, 2, "room1");
    let room = || "room1".to_string();
    let out = server.regist_player(RegistPlayer { room: room(), id: 1, player: Player::One });
    let text = "{\"cmd\":\"registered_player1\",\"data\":\"user1\"}".to_string();
    assert_eq!(told(&out), vec![(1, text.clone()), (2, text)]);
    assert_eq!(server.player_name(GetPlayer { room: room(), player: Player::One }), "user1");
    assert_eq!(server.player_name(GetPlayer { room: room(), player: Player::Two }), "");
    // The slot is taken; the holder of one slot does not get the other.
    let out = server.regist_player(RegistPlayer { room: room(), id: 2, player: Player::One });
    assert_eq!(told(&out), vec![]);
    let out = server.regist_player(RegistPlayer { room: room(), id: 1, player: Player::Two });
    assert_eq!(told(&out), vec![]);
    assert_eq!(server.player_name(GetPlayer { room: room(), player: Player::Two }), "");
    let out = server.regist_player(RegistPlayer { room: room(), id: 2, player: Player::Two });
    let text = "{\"cmd\":\"registered_player2\",\"data\":\"user2\"}".to_string();
    assert_eq!(told(&out), vec![(1, text.clone()), (2, text)]);
    assert_eq!(server.player_name(GetPlayer { room: room(), player: Player::Two }), "user2");
    // No game in the default room, none in a room that is not there.
    for name in ["Main", "nowhere"] {
        let out = server.regist_player(RegistPlayer {
            room: name.to_string(),
            id: 3,
            player: Player::One,
        });
        assert_eq!(told(&out), vec![]);
        assert_eq!(
            server.player_name(GetPlayer { room: name.to_string(), player: Player::One }),
            ""
        );
    }
}

#[test]
fn start_needs_two_members_and_two_players() {
    let mut server = three();
    let start = |server: &mut Server| server.start(Start { room: "room1".to_string() });
    let regist = |server: &mut Server, id: usize, player: Player| {
        server.regist_player(RegistPlayer { room: "room1".to_string(), id, player })
    };
    assert_eq!(start(&mut server).unwrap_err(), StartError::InsufficientMembers);
    join(&mut server, 1, "room1");
    assert_eq!(start(&mut server).unwrap_err(), StartError::InsufficientMembers);
    regist(&mut server, 1, Player::One);
    regist(&mut server, 2, Player::Two);
    assert_eq!(start(&mut server).unwrap_err(), StartError::InsufficientMembers);
    join(&mut server, 2, "room1");
    // Joining gave up the slot that session 2 held.
    assert_eq!(start(&mut server).unwrap_err(), StartError::UnassignedPlayers);
    regist(&mut server, 2, Player::Two);
    let started = start(&mut server).unwrap();
    assert_eq!(started.board, initial());
    let text = format!("{{\"cmd\":\"start\",\"data\":{}}}", serde_json::Value::from(initial()));
    assert_eq!(told(&started.notices), vec![(1, text.clone()), (2, text)]);
    // Starting again resets the board.
    let again = start(&mut server).unwrap();
    assert_eq!(again.board, initial());
}

#[test]
fn start_without_a_game() {
    let mut server = three();
    assert_eq!(
        server.start(Start { room: "Main".to_string() }).unwrap_err(),
        StartError::NoGame
    );
    assert_eq!(
        server.start(Start { room: "nowhere".to_string() }).unwrap_err(),
        StartError::NoGame
    );
    server.disconnect(Disconnect { id: 3 });
    server.disconnect(Disconnect { id: 2 });
    assert_eq!(
        server.start(Start { room: "Main".to_string() }).unwrap_err(),
        StartError::InsufficientMembers
    );
}

#[test]
fn reasons_in_words() {
    assert_eq!(StartError::InsufficientMembers.reason(), "not enough members");
    assert_eq!(StartError::UnassignedPlayers.reason(), "please regeist player1 and player2");
    assert_eq!(StartError::NoGame.reason(), "something wrong");
}

#[test]
fn a_session_is_in_one_room_at_most() {
    let mut server = three();
    let rooms = ["Main", "room1", "room2", "attic", "room1", "Main", "attic"];
    for (step, room) in rooms.iter().enumerate() {
        let id = 1 + step % 3;
        join(&mut server, id, room);
        let mut all = vec!["Main".to_string()];
        all.extend(server.list_rooms(ListRooms));
        for id in 1..=3usize {
            let name = format!("user{}", id);
            let count: usize =
                all.iter().map(|r| members(&server, r).iter().filter(|n| **n == name).count()).sum();
            assert_eq!(count, 1);
        }
        assert!(members(&server, room).contains(&format!("user{}", id)));
    }
}
