//! The messages that carry results to the client.
//!
//! Each result goes out as a compact JSON object of string members, written by serde_json
//! with its members in key order: a partial result as
//! `{"full_text":<whole transcript>,"text":<new words>,"type":"partial"}`, a final one as
//! `{"text":<transcript>,"type":"final"}`, a reset confirmation as
//! `{"text":"","type":"reset"}`.
use vstd::prelude::*;

use crate::stt::service::{ResultView, TranscriptionResult};

verus! {

broadcast use vstd::string::group_string_axioms;

/// The lowercase hexadecimal digit of `d` (`0 <= d < 16`).
pub open spec fn hex_digit(d: int) -> char {
    if d < 10 {
        (48 + d) as char
    } else {
        (87 + d) as char
    }
}

/// How JSON writes `c` inside a string: `\"`, `\\`, `\b`, `\t`, `\n`, `\f`, `\r`, `\u00xx`
/// with lowercase hex for other characters below U+0020, every other character as it is.
pub open spec fn escape_char(c: char) -> Seq<char> {
    let u = c as u32;
    if c == '"' {
        seq!['\\', '"']
    } else if c == '\\' {
        seq!['\\', '\\']
    } else if u == 8 {
        seq!['\\', 'b']
    } else if u == 9 {
        seq!['\\', 't']
    } else if u == 10 {
        seq!['\\', 'n']
    } else if u == 12 {
        seq!['\\', 'f']
    } else if u == 13 {
        seq!['\\', 'r']
    } else if u < 0x20 {
        seq!['\\', 'u', '0', '0', hex_digit((u / 16) as int), hex_digit((u % 16) as int)]
    } else {
        seq![c]
    }
}

/// `s` with every character escaped.
pub open spec fn escape(s: Seq<char>) -> Seq<char>
    decreases s.len(),
{
    if s.len() == 0 {
        Seq::empty()
    } else {
        escape(s.drop_last()) + escape_char(s.last())
    }
}

/// The JSON string literal for `s`.
pub open spec fn json_string(s: Seq<char>) -> Seq<char> {
    seq!['"'] + escape(s) + seq!['"']
}

/// Whether `a` comes before `b` in code point order.
pub open spec fn text_before(a: Seq<char>, b: Seq<char>) -> bool
    decreases a.len(),
{
    if a.len() == 0 {
        b.len() > 0
    } else if b.len() == 0 {
        false
    } else if (a[0] as u32) < (b[0] as u32) {
        true
    } else if a[0] == b[0] {
        text_before(a.drop_first(), b.drop_first())
    } else {
        false
    }
}

/// Whether the keys of `members` are in strictly increasing order.
pub open spec fn keys_ascending(members: Seq<(Seq<char>, Seq<char>)>) -> bool {
    forall|i: int, j: int|
        0 <= i < j < members.len() ==> text_before(#[trigger] members[i].0, #[trigger] members[j].0)
}

/// One member: key, colon, value.
pub open spec fn json_member(member: (Seq<char>, Seq<char>)) -> Seq<char> {
    json_string(member.0) + seq![':'] + json_string(member.1)
}

/// The members separated by commas.
pub open spec fn json_members(members: Seq<(Seq<char>, Seq<char>)>) -> Seq<char>
    decreases members.len(),
{
    if members.len() == 0 {
        Seq::empty()
    } else if members.len() == 1 {
        json_member(members[0])
    } else {
        json_members(members.drop_last()) + seq![','] + json_member(members.last())
    }
}

/// The compact JSON object with these string members, in this order.
pub open spec fn json_object(members: Seq<(Seq<char>, Seq<char>)>) -> Seq<char> {
    seq!['{'] + json_members(members) + seq!['}']
}

/// The texts of key-value pairs.
pub open spec fn pairs_text(members: Seq<(String, String)>) -> Seq<(Seq<char>, Seq<char>)> {
    members.map_values(|p: (String, String)| (p.0@, p.1@))
}

/// Writes an object of string members with serde_json: a `Map` of `Value::String`s in a
/// `Value::Object`, written by its `Display`. Trusted to give the compact object with the
/// members in key order (the `Map` is ordered by key), each key and value written as a JSON
/// string with serde_json's escapes; the keys are asked to be in order already, so the
/// members keep the order given.
#[verifier::external_body]
fn write_json_object(members: &Vec<(String, String)>) -> (json: String)
    requires
        keys_ascending(pairs_text(members@)),
    ensures
        json@ == json_object(pairs_text(members@)),
{
    serde_json::Value::Object(
        members.iter().map(|(k, v)| (k.clone(), serde_json::Value::String(v.clone()))).collect(),
    ).to_string()
}

/// The members of the message that carries `r`.
pub open spec fn message_members(r: ResultView) -> Seq<(Seq<char>, Seq<char>)> {
    match r {
        ResultView::Partial(fresh, full) => seq![
            ("full_text"@, full),
            ("text"@, fresh),
            ("type"@, "partial"@),
        ],
        ResultView::Final(t) => seq![("text"@, t), ("type"@, "final"@)],
        ResultView::Reset => seq![("text"@, Seq::<char>::empty()), ("type"@, "reset"@)],
    }
}

/// The message that carries `r`.
pub open spec fn payload(r: ResultView) -> Seq<char> {
    json_object(message_members(r))
}

/// The name by which the client tells the kinds of message apart.
pub open spec fn kind_name(r: ResultView) -> Seq<char> {
    match r {
        ResultView::Partial(_, _) => "partial"@,
        ResultView::Final(_) => "final"@,
        ResultView::Reset => "reset"@,
    }
}

impl TranscriptionResult {
    /// `"partial"`, `"final"` or `"reset"`.
    pub fn kind(&self) -> (k: &'static str)
        ensures
            k@ == kind_name(self@),
    {
        match self {
            TranscriptionResult::Partial { .. } => "partial",
            TranscriptionResult::Final(_) => "final",
            TranscriptionResult::Reset => "reset",
        }
    }
}

fn pair(key: &str, value: &str) -> (p: (String, String))
    ensures
        p.0@ == key@,
        p.1@ == value@,
{
    (key.to_string(), value.to_string())
}

proof fn lemma_keys_in_order()
    ensures
        text_before("full_text"@, "text"@),
        text_before("full_text"@, "type"@),
        text_before("text"@, "type"@),
{
    reveal_strlit("full_text");
    reveal_strlit("text");
    reveal_strlit("type");
    reveal_with_fuel(text_before, 3);
    assert(("text"@).drop_first() =~= seq!['e', 'x', 't']);
    assert(("type"@).drop_first() =~= seq!['y', 'p', 'e']);
}

/// Text that JSON writes as it is: no quote, no backslash, no control character.
proof fn lemma_escape_plain(s: Seq<char>)
    requires
        forall|i: int|
            0 <= i < s.len() ==> #[trigger] s[i] != '"' && s[i] != '\\' && (s[i] as u32) >= 0x20,
    ensures
        escape(s) == s,
    decreases s.len(),
{
    if s.len() > 0 {
        lemma_escape_plain(s.drop_last());
        assert(s.drop_last() + seq![s.last()] =~= s);
    }
}

proof fn lemma_keys_plain()
    ensures
        json_string("full_text"@) == "\"full_text\""@,
        json_string("text"@) == "\"text\""@,
        json_string("type"@) == "\"type\""@,
        json_string("partial"@) == "\"partial\""@,
        json_string("final"@) == "\"final\""@,
        json_string("reset"@) == "\"reset\""@,
        json_string(Seq::<char>::empty()) == "\"\""@,
{
    reveal_strlit("full_text");
    reveal_strlit("text");
    reveal_strlit("type");
    reveal_strlit("partial");
    reveal_strlit("final");
    reveal_strlit("reset");
    reveal_strlit("\"full_text\"");
    reveal_strlit("\"text\"");
    reveal_strlit("\"type\"");
    reveal_strlit("\"partial\"");
    reveal_strlit("\"final\"");
    reveal_strlit("\"reset\"");
    reveal_strlit("\"\"");
    lemma_escape_plain("full_text"@);
    lemma_escape_plain("text"@);
    lemma_escape_plain("type"@);
    lemma_escape_plain("partial"@);
    lemma_escape_plain("final"@);
    lemma_escape_plain("reset"@);
    assert(json_string("full_text"@) =~= "\"full_text\""@);
    assert(json_string("text"@) =~= "\"text\""@);
    assert(json_string("type"@) =~= "\"type\""@);
    assert(json_string("partial"@) =~= "\"partial\""@);
    assert(json_string("final"@) =~= "\"final\""@);
    assert(json_string("reset"@) =~= "\"reset\""@);
    assert(json_string(Seq::<char>::empty()) =~= "\"\""@);
}

/// Every partial message carries the whole transcript under `full_text`, the new words under
/// `text` and the kind `partial`, whatever the two texts are, equal or not.
pub proof fn lemma_partial_message(fresh: Seq<char>, full: Seq<char>)
    ensures
        payload(ResultView::Partial(fresh, full)) == "{\"full_text\":"@ + json_string(full)
            + ",\"text\":"@ + json_string(fresh) + ",\"type\":\"partial\"}"@,
{
    lemma_keys_plain();
    reveal_strlit("{\"full_text\":");
    reveal_strlit("\"full_text\"");
    reveal_strlit("\"text\"");
    reveal_strlit("\"type\"");
    reveal_strlit("\"partial\"");
    reveal_strlit(",\"text\":");
    reveal_strlit(",\"type\":\"partial\"}");
    reveal_with_fuel(json_members, 3);
    let members = message_members(ResultView::Partial(fresh, full));
    let two = members.drop_last();
    assert(two.drop_last() =~= seq![members[0]]);
    assert(two.last() == members[1]);
    assert(json_members(two.drop_last()) == json_member(members[0]));
    assert(json_members(two) == json_member(members[0]) + seq![','] + json_member(members[1]));
    assert(json_members(members) == json_members(two) + seq![','] + json_member(members[2]));
    assert("{\"full_text\":"@ =~= seq!['{'] + "\"full_text\""@ + seq![':']);
    assert(",\"text\":"@ =~= seq![','] + "\"text\""@ + seq![':']);
    assert(",\"type\":\"partial\"}"@ =~= seq![','] + "\"type\""@ + seq![':']
        + "\"partial\""@ + seq!['}']);
    assert(payload(ResultView::Partial(fresh, full)) =~= "{\"full_text\":"@ + json_string(full)
        + ",\"text\":"@ + json_string(fresh) + ",\"type\":\"partial\"}"@);
}

/// Every final message carries the transcript under `text` and the kind `final`.
pub proof fn lemma_final_message(t: Seq<char>)
    ensures
        payload(ResultView::Final(t)) == "{\"text\":"@ + json_string(t)
            + ",\"type\":\"final\"}"@,
{
    lemma_keys_plain();
    reveal_strlit("{\"text\":");
    reveal_strlit("\"text\"");
    reveal_strlit("\"type\"");
    reveal_strlit("\"final\"");
    reveal_strlit(",\"type\":\"final\"}");
    reveal_with_fuel(json_members, 2);
    let members = message_members(ResultView::Final(t));
    assert(members.drop_last() =~= seq![members[0]]);
    assert(json_members(members.drop_last()) == json_member(members[0]));
    assert(json_members(members) == json_member(members[0]) + seq![','] + json_member(members[1]));
    assert("{\"text\":"@ =~= seq!['{'] + "\"text\""@ + seq![':']);
    assert(",\"type\":\"final\"}"@ =~= seq![','] + "\"type\""@ + seq![':'] + "\"final\""@
        + seq!['}']);
    assert(payload(ResultView::Final(t)) =~= "{\"text\":"@ + json_string(t)
        + ",\"type\":\"final\"}"@);
}

/// The reset confirmation is always the same message, with an empty `text`.
pub proof fn lemma_reset_message()
    ensures
        payload(ResultView::Reset) == "{\"text\":\"\",\"type\":\"reset\"}"@,
{
    lemma_keys_plain();
    reveal_strlit("{\"text\":\"\",\"type\":\"reset\"}");
    reveal_strlit("\"text\"");
    reveal_strlit("\"type\"");
    reveal_strlit("\"reset\"");
    reveal_strlit("\"\"");
    reveal_with_fuel(json_members, 2);
    let members = message_members(ResultView::Reset);
    assert(members.drop_last() =~= seq![members[0]]);
    assert(json_members(members.drop_last()) == json_member(members[0]));
    assert(json_members(members) == json_member(members[0]) + seq![','] + json_member(members[1]));
    assert("{\"text\":\"\",\"type\":\"reset\"}"@ =~= seq!['{'] + "\"text\""@ + seq![':']
        + "\"\""@ + seq![','] + "\"type\""@ + seq![':'] + "\"reset\""@ + seq!['}']);
    assert(payload(ResultView::Reset) =~= "{\"text\":\"\",\"type\":\"reset\"}"@);
}

/// The streaming transcription endpoint.
pub struct SttController;

impl SttController {
    /// The text message that carries `result` to the client.
    pub fn result_payload(result: &TranscriptionResult) -> (p: String)
        ensures
            p@ == payload(result@),
    {
        let mut members: Vec<(String, String)> = Vec::new();
        match result {
            TranscriptionResult::Partial { text, full_text } => {
                members.push(pair("full_text", full_text.as_str()));
                members.push(pair("text", text.as_str()));
                members.push(pair("type", "partial"));
                assert(pairs_text(members@) =~= message_members(result@));
            },
            TranscriptionResult::Final(text) => {
                members.push(pair("text", text.as_str()));
                members.push(pair("type", "final"));
                assert(pairs_text(members@) =~= message_members(result@));
            },
            TranscriptionResult::Reset => {
                members.push(pair("text", ""));
                members.push(pair("type", "reset"));
                proof {
                    reveal_strlit("");
                    assert(""@ =~= Seq::<char>::empty());
                }
                assert(pairs_text(members@) =~= message_members(result@));
            },
        }
        proof {
            lemma_keys_in_order();
        }
        write_json_object(&members)
    }
}

} // verus!
