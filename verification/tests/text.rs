use ws_room_test::text::{same_text, sort_texts, text_le_exec};

fn strings(items: &[&str]) -> Vec<String> {
    items.iter().map(|s| s.to_string()).collect()
}

#[test]
fn order_of_texts() {
    assert!(text_le_exec("", ""));
    assert!(text_le_exec("", "a"));
    assert!(!text_le_exec("a", ""));
    assert!(text_le_exec("a", "a"));
    assert!(text_le_exec("a", "b"));
    assert!(!text_le_exec("b", "a"));
    assert!(text_le_exec("room1", "room10"));
    assert!(text_le_exec("room10", "room2"));
    assert!(!text_le_exec("room2", "room10"));
    assert!(text_le_exec("Z", "a"));
    assert!(text_le_exec("z", "é"));
    assert!(text_le_exec("é", "名"));
    assert!(text_le_exec("\u{ffff}", "\u{10000}"));
}

#[test]
fn order_is_that_of_strings() {
    let samples = ["", "a", "A", "ab", "b", "名無し", "é", "room1", "room10", "\u{ffff}", "\u{10000}", " "];
    for a in samples.iter() {
        for b in samples.iter() {
            assert_eq!(text_le_exec(a, b), a <= b);
            assert_eq!(same_text(a, b), a == b);
        }
    }
}

#[test]
fn sorting() {
    assert_eq!(sort_texts(vec![]), Vec::<String>::new());
    assert_eq!(sort_texts(strings(&["b"])), strings(&["b"]));
    assert_eq!(
        sort_texts(strings(&["room3", "room1", "Main", "room2", "room1", ""])),
        strings(&["", "Main", "room1", "room1", "room2", "room3"])
    );
    let mut expected = strings(&["z", "é", "名無し", "a", "B", "ab", "a b", "10", "9"]);
    let sorted = sort_texts(expected.clone());
    expected.sort();
    assert_eq!(sorted, expected);
}
