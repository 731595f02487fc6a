use ws_room_test::wire::{reply, Data, Payload};

fn object(members: Vec<(&str, serde_json::Value)>) -> String {
    let mut map = serde_json::Map::new();
    for (name, value) in members {
        map.insert(name.to_string(), value);
    }
    serde_json::Value::Object(map).to_string()
}

#[test]
fn text_reply() {
    let text = reply("room", None, &Data::Text("Main".to_string()));
    assert_eq!(text, "{\"cmd\":\"room\",\"data\":\"Main\"}");
    assert_eq!(
        text,
        object(vec![
            ("cmd", serde_json::Value::from("room")),
            ("data", serde_json::Value::from("Main")),
        ])
    );
}

#[test]
fn text_is_escaped() {
    let data = "a \"quoted\" \\ line\nwith\ttabs and \u{1} and 名無し";
    let text = reply("join", None, &Data::Text(data.to_string()));
    assert_eq!(
        text,
        "{\"cmd\":\"join\",\"data\":\"a \\\"quoted\\\" \\\\ line\\nwith\\ttabs and \\u0001 and 名無し\"}"
    );
    let back: serde_json::Value = serde_json::from_str(&text).unwrap();
    assert_eq!(back["data"].as_str(), Some(data));
    assert_eq!(back["cmd"].as_str(), Some("join"));
}

#[test]
fn list_reply_text() {
    let rooms = vec!["room1".to_string(), "room \"2\"".to_string(), String::new()];
    let text = reply("list", None, &Data::List(rooms.clone()));
    assert_eq!(text, "{\"cmd\":\"list\",\"data\":[\"room1\",\"room \\\"2\\\"\",\"\"]}");
    assert_eq!(
        text,
        object(vec![
            ("cmd", serde_json::Value::from("list")),
            ("data", serde_json::Value::from(rooms)),
        ])
    );
    assert_eq!(reply("list", None, &Data::List(vec![])), "{\"cmd\":\"list\",\"data\":[]}");
    assert_eq!(
        reply("list", None, &Data::List(vec!["x".to_string()])),
        "{\"cmd\":\"list\",\"data\":[\"x\"]}"
    );
}

#[test]
fn board_reply_text() {
    let board = vec![vec![0u8, 1, 2], vec![], vec![10, 99, 100, 255]];
    let text = reply("start", None, &Data::Board(board.clone()));
    assert_eq!(text, "{\"cmd\":\"start\",\"data\":[[0,1,2],[],[10,99,100,255]]}");
    assert_eq!(
        text,
        object(vec![
            ("cmd", serde_json::Value::from("start")),
            ("data", serde_json::Value::from(board)),
        ])
    );
}

#[test]
fn every_cell_number_is_written_in_decimal() {
    let row: Vec<u8> = (0..=255).collect();
    let text = Data::Board(vec![row.clone()]).json();
    assert_eq!(text, serde_json::Value::from(vec![row]).to_string());
}

#[test]
fn reply_with_result() {
    let text = reply("start", Some("failed"), &Data::Text("not enough members".to_string()));
    assert_eq!(text, "{\"cmd\":\"start\",\"data\":\"not enough members\",\"result\":\"failed\"}");
    assert_eq!(
        text,
        object(vec![
            ("cmd", serde_json::Value::from("start")),
            ("result", serde_json::Value::from("failed")),
            ("data", serde_json::Value::from("not enough members")),
        ])
    );
}

#[test]
fn payload_rendering() {
    let notice = Payload::PlainNotice("Someone joined".to_string());
    assert_eq!(notice.render(), "Someone joined");
    let quoted = Payload::PlainNotice("\"as it is\"".to_string());
    assert_eq!(quoted.render(), "\"as it is\"");
    let answer = Payload::StructuredReply {
        cmd: "members".to_string(),
        result: None,
        data: Data::List(vec!["a".to_string(), "b".to_string()]),
    };
    assert_eq!(answer.render(), "{\"cmd\":\"members\",\"data\":[\"a\",\"b\"]}");
    let with_result = Payload::StructuredReply {
        cmd: "start".to_string(),
        result: Some("success".to_string()),
        data: Data::Board(vec![vec![0, 1], vec![2, 0]]),
    };
    assert_eq!(
        with_result.render(),
        "{\"cmd\":\"start\",\"data\":[[0,1],[2,0]],\"result\":\"success\"}"
    );
}

#[test]
fn data_json() {
    assert_eq!(Data::Text("x".to_string()).json(), "\"x\"");
    assert_eq!(Data::Text(String::new()).json(), "\"\"");
    assert_eq!(Data::List(vec![]).json(), "[]");
    assert_eq!(Data::Board(vec![]).json(), "[]");
    assert_eq!(Data::Board(vec![vec![], vec![]]).json(), "[[],[]]");
}
