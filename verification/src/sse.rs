//! The text form of the messages of a stream.

use vstd::prelude::*;
use vstd::string::StringExecFns;

verus! {

/// What one message of a stream carries.
#[derive(Clone, Debug, PartialEq, Eq)]
pub enum Payload {
    /// An object in JSON notation.
    Json(String),
    /// The mark that nothing follows.
    Done,
}

/// The text in JSON notation of an object that holds, under `name`, an object with the
/// given fields.
pub uninterp spec fn object_text(
    name: Seq<char>,
    fields: Seq<(Seq<char>, Seq<char>)>,
) -> Seq<char>;

/// The contents of a list of fields.
pub open spec fn field_views(fields: Seq<(String, String)>) -> Seq<(Seq<char>, Seq<char>)> {
    fields.map_values(|f: (String, String)| (f.0@, f.1@))
}

/// `serde_json::to_string` writes a value in JSON notation, which depends on the value
/// alone. The value here is an object that holds, under `name`, an object whose fields
/// are strings.
#[verifier::external_body]
fn object_json(name: &str, fields: Vec<(String, String)>) -> (r: String)
    ensures
        r@ == object_text(name@, field_views(fields@)),
{
    let inner = fields.into_iter().map(|(key, value)| (key, serde_json::Value::String(value)));
    let mut outer = serde_json::Map::new();
    outer.insert(name.to_string(), serde_json::Value::Object(inner.collect()));
    serde_json::to_string(&serde_json::Value::Object(outer)).unwrap()
}

/// The fields of the report of an error.
pub open spec fn error_fields(
    message: Seq<char>,
    kind: Seq<char>,
    code: Seq<char>,
) -> Seq<(Seq<char>, Seq<char>)> {
    seq![("message"@, message), ("type"@, kind), ("code"@, code)]
}

/// What the message that reports an error carries.
pub fn error_payload(message: &str, kind: &str, code: &str) -> (r: Payload)
    ensures
        r matches Payload::Json(json) && json@ == object_text(
            "error"@,
            error_fields(message@, kind@, code@),
        ),
{
    let mut fields: Vec<(String, String)> = Vec::new();
    fields.push(("message".to_string(), message.to_string()));
    fields.push(("type".to_string(), kind.to_string()));
    fields.push(("code".to_string(), code.to_string()));
    assert(field_views(fields@) =~= error_fields(message@, kind@, code@));
    Payload::Json(object_json("error", fields))
}

/// The text form of a message.
pub open spec fn event_text(payload: Payload) -> Seq<char> {
    match payload {
        Payload::Json(json) => "data: "@ + json@ + "\n\n"@,
        Payload::Done => "data: [DONE]\n\n"@,
    }
}

/// The text form of messages, one behind the other.
pub open spec fn events_text(payloads: Seq<Payload>) -> Seq<char>
    decreases payloads.len(),
{
    if payloads.len() == 0 {
        Seq::empty()
    } else {
        events_text(payloads.drop_last()) + event_text(payloads.last())
    }
}

/// The text form of messages, one behind the other.
pub fn render_events(payloads: &Vec<Payload>) -> (r: String)
    ensures
        r@ == events_text(payloads@),
{
    let mut out = String::new();
    let mut i: usize = 0;
    assert(payloads@.take(0) =~= Seq::empty());
    while i < payloads.len()
        invariant
            i <= payloads@.len(),
            out@ == events_text(payloads@.take(i as int)),
        decreases payloads@.len() - i,
    {
        let ghost before = out@;
        assert(payloads@.take(i + 1).drop_last() =~= payloads@.take(i as int));
        match &payloads[i] {
            Payload::Json(json) => {
                out.append("data: ");
                out.append(json.as_str());
                out.append("\n\n");
            },
            Payload::Done => {
                out.append("data: [DONE]\n\n");
            },
        }
        assert(out@ =~= before + event_text(payloads@[i as int]));
        i = i + 1;
    }
    assert(payloads@.take(i as int) =~= payloads@);
    out
}

/// Messages that are sent together have the same text as when they are sent apart.
pub proof fn law_messages_join(a: Seq<Payload>, b: Seq<Payload>)
    ensures
        events_text(a + b) == events_text(a) + events_text(b),
    decreases b.len(),
{
    if b.len() == 0 {
        assert(a + b =~= a);
        assert(events_text(a) + events_text(b) =~= events_text(a));
    } else {
        assert((a + b).drop_last() =~= a + b.drop_last());
        law_messages_join(a, b.drop_last());
        assert(events_text(a) + events_text(b.drop_last()) + event_text(b.last()) =~= events_text(
            a,
        ) + events_text(b));
    }
}

} // verus!
