//! What goes out to a peer: plain notices, and replies written as JSON.
//!
//! A reply is one JSON object, written without spaces. Its members come in
//! the order `cmd`, `data`, `result`, and `result` is left out where a reply
//! has none. The data of a reply is a text, a list of texts, or a board: a
//! list of rows, each a list of the numbers of its cells.

use crate::board::rows;
use crate::text::texts;
use vstd::prelude::*;
use vstd::string::StringExecFns;

verus! {

/// The JSON string that holds `s`, as `serde_json` writes it: `s` between
/// double quotes, with the characters that JSON does not take as they are
/// written as escapes.
pub uninterp spec fn json_string(s: Seq<char>) -> Seq<char>;

/// Writes `s` as a JSON string: calls `to_string` on the `serde_json` value
/// `Value::String` that holds `s`. All that is claimed of the text is that
/// it depends on `s` alone: it is what [`json_string`] stands for.
#[verifier::external_body]
fn quote(s: &str) -> (text: String)
    ensures
        text@ == json_string(s@),
{
    serde_json::Value::String(s.to_owned()).to_string()
}

/// The decimal digit for `d`, where `d` is below ten.
pub open spec fn digit(d: nat) -> char {
    if d == 0 {
        '0'
    } else if d == 1 {
        '1'
    } else if d == 2 {
        '2'
    } else if d == 3 {
        '3'
    } else if d == 4 {
        '4'
    } else if d == 5 {
        '5'
    } else if d == 6 {
        '6'
    } else if d == 7 {
        '7'
    } else if d == 8 {
        '8'
    } else {
        '9'
    }
}

/// `n` in decimal digits, with no leading zero.
pub open spec fn decimal(n: nat) -> Seq<char>
    decreases n,
{
    if n < 10 {
        seq![digit(n)]
    } else {
        decimal(n / 10).push(digit(n % 10))
    }
}

/// The parts one after another, with a comma between each two.
pub open spec fn joined(parts: Seq<Seq<char>>) -> Seq<char>
    decreases parts.len(),
{
    if parts.len() == 0 {
        Seq::empty()
    } else if parts.len() == 1 {
        parts[0]
    } else {
        joined(parts.drop_last()) + seq![','] + parts.last()
    }
}

/// A JSON array of items that are already written as JSON.
pub open spec fn json_array(items: Seq<Seq<char>>) -> Seq<char> {
    seq!['['] + joined(items) + seq![']']
}

/// A JSON array of strings.
pub open spec fn json_list(items: Seq<Seq<char>>) -> Seq<char> {
    json_array(items.map_values(|t: Seq<char>| json_string(t)))
}

/// A JSON array of numbers.
pub open spec fn json_row(cells: Seq<u8>) -> Seq<char> {
    json_array(cells.map_values(|c: u8| decimal(c as nat)))
}

/// A JSON array of arrays of numbers.
pub open spec fn json_board(board: Seq<Seq<u8>>) -> Seq<char> {
    json_array(board.map_values(|row: Seq<u8>| json_row(row)))
}

/// One member of a JSON object: the name as a JSON string, a colon, and the
/// value, which is already written as JSON.
pub open spec fn json_member(name: Seq<char>, value: Seq<char>) -> Seq<char> {
    json_string(name) + seq![':'] + value
}

/// A JSON object of members that are already written.
pub open spec fn json_object(members: Seq<Seq<char>>) -> Seq<char> {
    seq!['{'] + joined(members) + seq!['}']
}

/// The data of a reply, as a mathematical value.
pub enum DataView {
    Text(Seq<char>),
    List(Seq<Seq<char>>),
    Board(Seq<Seq<u8>>),
}

impl DataView {
    /// The data written as JSON.
    pub open spec fn json(self) -> Seq<char> {
        match self {
            DataView::Text(t) => json_string(t),
            DataView::List(items) => json_list(items),
            DataView::Board(board) => json_board(board),
        }
    }
}

/// The data of a reply.
#[derive(Debug)]
pub enum Data {
    Text(String),
    List(Vec<String>),
    /// A board, row by row.
    Board(Vec<Vec<u8>>),
}

impl View for Data {
    type V = DataView;

    open spec fn view(&self) -> DataView {
        match self {
            Data::Text(t) => DataView::Text(t@),
            Data::List(items) => DataView::List(texts(items@)),
            Data::Board(board) => DataView::Board(rows(*board)),
        }
    }
}

/// What is sent to a peer, as a mathematical value.
pub enum PayloadView {
    PlainNotice(Seq<char>),
    StructuredReply { cmd: Seq<char>, result: Option<Seq<char>>, data: DataView },
}

/// The text of a reply to the command `cmd`.
pub open spec fn reply_text(cmd: Seq<char>, result: Option<Seq<char>>, data: DataView) -> Seq<char> {
    let head = seq![json_member("cmd"@, json_string(cmd)), json_member("data"@, data.json())];
    match result {
        Some(r) => json_object(head.push(json_member("result"@, json_string(r)))),
        None => json_object(head),
    }
}

impl PayloadView {
    /// The text that goes over the wire: a notice as it is, a reply as JSON.
    pub open spec fn wire_text(self) -> Seq<char> {
        match self {
            PayloadView::PlainNotice(text) => text,
            PayloadView::StructuredReply { cmd, result, data } => reply_text(cmd, result, data),
        }
    }
}

/// What is sent to a peer: a notice in plain text, or the reply to a
/// command.
#[derive(Debug)]
pub enum Payload {
    PlainNotice(String),
    StructuredReply { cmd: String, result: Option<String>, data: Data },
}

impl View for Payload {
    type V = PayloadView;

    open spec fn view(&self) -> PayloadView {
        match self {
            Payload::PlainNotice(text) => PayloadView::PlainNotice(text@),
            Payload::StructuredReply { cmd, result, data } => PayloadView::StructuredReply {
                cmd: cmd@,
                result: match result {
                    Some(r) => Some(r@),
                    None => None,
                },
                data: data@,
            },
        }
    }
}

/// The digit for `d` as a string.
fn digit_text(d: u8) -> (text: &'static str)
    requires
        d < 10,
    ensures
        text@ == seq![digit(d as nat)],
{
    proof {
        reveal_strlit("0");
        reveal_strlit("1");
        reveal_strlit("2");
        reveal_strlit("3");
        reveal_strlit("4");
        reveal_strlit("5");
        reveal_strlit("6");
        reveal_strlit("7");
        reveal_strlit("8");
        reveal_strlit("9");
    }
    let text = if d == 0 {
        "0"
    } else if d == 1 {
        "1"
    } else if d == 2 {
        "2"
    } else if d == 3 {
        "3"
    } else if d == 4 {
        "4"
    } else if d == 5 {
        "5"
    } else if d == 6 {
        "6"
    } else if d == 7 {
        "7"
    } else if d == 8 {
        "8"
    } else {
        "9"
    };
    assert(text@ =~= seq![digit(d as nat)]);
    text
}

/// `n` in decimal digits.
fn decimal_text(n: u8) -> (text: String)
    ensures
        text@ == decimal(n as nat),
    decreases n,
{
    if n < 10 {
        String::from_str(digit_text(n))
    } else {
        let mut text = decimal_text(n / 10);
        text.append(digit_text(n % 10));
        assert(text@ =~= decimal((n / 10) as nat).push(digit((n % 10) as nat)));
        text
    }
}

/// The parts with a comma between each two, after `open` and before
/// `close`.
fn enclose(open: &str, parts: &Vec<String>, close: &str) -> (text: String)
    ensures
        text@ == open@ + joined(texts(parts@)) + close@,
{
    let mut text = String::from_str(open);
    let ghost all = texts(parts@);
    let mut i: usize = 0;
    assert(text@ =~= open@ + joined(all.take(0)));
    while i < parts.len()
        invariant
            i <= parts.len(),
            all == texts(parts@),
            text@ == open@ + joined(all.take(i as int)),
        decreases parts.len() - i,
    {
        proof {
            reveal_strlit(",");
            assert(","@ =~= seq![',']);
            let next = all.take(i as int + 1);
            assert(next.drop_last() =~= all.take(i as int));
            assert(next.last() == parts@[i as int]@);
        }
        if i > 0 {
            text.append(",");
        }
        text.append(parts[i].as_str());
        proof {
            let next = all.take(i as int + 1);
            if i == 0 {
                assert(joined(next) == parts@[0]@);
                assert(joined(all.take(0)) =~= Seq::<char>::empty());
            }
            assert(text@ =~= open@ + joined(next));
        }
        i += 1;
    }
    text.append(close);
    assert(all.take(parts.len() as int) =~= all);
    text
}

/// A JSON array of strings.
fn list_text(items: &Vec<String>) -> (text: String)
    ensures
        text@ == json_list(texts(items@)),
{
    let mut parts: Vec<String> = Vec::new();
    let mut i: usize = 0;
    while i < items.len()
        invariant
            i <= items.len(),
            parts@.len() == i,
            forall|j: int| 0 <= j < i ==> (#[trigger] parts@[j])@ == json_string(items@[j]@),
        decreases items.len() - i,
    {
        parts.push(quote(items[i].as_str()));
        i += 1;
    }
    proof {
        reveal_strlit("[");
        reveal_strlit("]");
        assert("["@ =~= seq!['[']);
        assert("]"@ =~= seq![']']);
        assert(texts(parts@) =~= texts(items@).map_values(|t: Seq<char>| json_string(t)));
    }
    enclose("[", &parts, "]")
}

/// A JSON array of numbers.
fn row_text(cells: &Vec<u8>) -> (text: String)
    ensures
        text@ == json_row(cells@),
{
    let mut parts: Vec<String> = Vec::new();
    let mut i: usize = 0;
    while i < cells.len()
        invariant
            i <= cells.len(),
            parts@.len() == i,
            forall|j: int| 0 <= j < i ==> (#[trigger] parts@[j])@ == decimal(cells@[j] as nat),
        decreases cells.len() - i,
    {
        parts.push(decimal_text(cells[i]));
        i += 1;
    }
    proof {
        reveal_strlit("[");
        reveal_strlit("]");
        assert("["@ =~= seq!['[']);
        assert("]"@ =~= seq![']']);
        assert(texts(parts@) =~= cells@.map_values(|c: u8| decimal(c as nat)));
    }
    enclose("[", &parts, "]")
}

/// A JSON array of arrays of numbers.
fn board_text(board: &Vec<Vec<u8>>) -> (text: String)
    ensures
        text@ == json_board(rows(*board)),
{
    let mut parts: Vec<String> = Vec::new();
    let mut i: usize = 0;
    while i < board.len()
        invariant
            i <= board.len(),
            parts@.len() == i,
            forall|j: int| 0 <= j < i ==> (#[trigger] parts@[j])@ == json_row(board@[j]@),
        decreases board.len() - i,
    {
        parts.push(row_text(&board[i]));
        i += 1;
    }
    proof {
        reveal_strlit("[");
        reveal_strlit("]");
        assert("["@ =~= seq!['[']);
        assert("]"@ =~= seq![']']);
        assert(texts(parts@) =~= rows(*board).map_values(|row: Seq<u8>| json_row(row)));
    }
    enclose("[", &parts, "]")
}

/// One member of a JSON object.
fn member_text(name: &str, value: &str) -> (text: String)
    ensures
        text@ == json_member(name@, value@),
{
    let mut text = quote(name);
    proof {
        reveal_strlit(":");
        assert(":"@ =~= seq![':']);
    }
    text.append(":");
    text.append(value);
    text
}

impl Data {
    /// The data written as JSON.
    pub fn json(&self) -> (text: String)
        ensures
            text@ == self@.json(),
    {
        match self {
            Data::Text(t) => quote(t.as_str()),
            Data::List(items) => list_text(items),
            Data::Board(board) => board_text(board),
        }
    }
}

/// The text of a reply to the command `cmd`: the JSON object with the
/// members `cmd` and `data`, and `result` where there is one.
pub fn reply(cmd: &str, result: Option<&str>, data: &Data) -> (text: String)
    ensures
        text@ == reply_text(
            cmd@,
            match result {
                Some(r) => Some(r@),
                None => None,
            },
            data@,
        ),
{
    let mut members: Vec<String> = Vec::new();
    members.push(member_text("cmd", quote(cmd).as_str()));
    members.push(member_text("data", data.json().as_str()));
    match result {
        Some(r) => {
            members.push(member_text("result", quote(r).as_str()));
        },
        None => {},
    }
    proof {
        reveal_strlit("{");
        reveal_strlit("}");
        assert("{"@ =~= seq!['{']);
        assert("}"@ =~= seq!['}']);
        let head = seq![
            json_member("cmd"@, json_string(cmd@)),
            json_member("data"@, data@.json()),
        ];
        match result {
            Some(r) => {
                assert(texts(members@) =~= head.push(json_member("result"@, json_string(r@))));
            },
            None => {
                assert(texts(members@) =~= head);
            },
        }
    }
    enclose("{", &members, "}")
}

impl Payload {
    /// The text that goes over the wire: a notice as it is, a reply as JSON.
    pub fn render(&self) -> (text: String)
        ensures
            text@ == self@.wire_text(),
    {
        match self {
            Payload::PlainNotice(text) => text.clone(),
            Payload::StructuredReply { cmd, result, data } => {
                match result {
                    Some(r) => reply(cmd.as_str(), Some(r.as_str()), data),
                    None => reply(cmd.as_str(), None, data),
                }
            },
        }
    }
}

} // verus!
