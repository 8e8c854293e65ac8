//! Headers, messages and what else replies are made of.

use vstd::prelude::*;

use crate::content::{combined_text, content_text, ContentItem, MessageContent};
use crate::cors::{common_headers, origin_text, preflight_headers};
use crate::headers::{stream_header_views, HeaderName, HeaderView};
use crate::laws::requests::{as_text, law_header_text, plain_bytes};
use crate::sse::{error_fields, event_text, events_text, Payload};

verus! {

/// The origin that a reply allows is that of the request, character for character, and
/// `null` where it names none or none that is plain text.
pub proof fn law_allowed_origin(value: Seq<u8>)
    ensures
        plain_bytes(value) ==> origin_text(Some(value)) == as_text(value),
        !plain_bytes(value) ==> origin_text(Some(value)) == "null"@,
        origin_text(None) == "null"@,
{
    law_header_text(value);
}

/// The headers of every reply, and those that the reply to a preflight request has in
/// addition.
pub proof fn law_headers_of_replies(origin: Option<Seq<u8>>)
    ensures
        common_headers(origin) == seq![
            HeaderView {
                name: HeaderName::AccessControlAllowOrigin,
                value: match origin {
                    Some(value) if plain_bytes(value) => as_text(value),
                    _ => "null"@,
                },
            },
            HeaderView { name: HeaderName::AccessControlAllowCredentials, value: "true"@ },
            HeaderView { name: HeaderName::Vary, value: "Origin"@ },
        ],
        preflight_headers() == seq![
            HeaderView {
                name: HeaderName::AccessControlAllowMethods,
                value: "GET, POST, OPTIONS, PUT, DELETE, PATCH, HEAD"@,
            },
            HeaderView {
                name: HeaderName::AccessControlAllowHeaders,
                value: "Authorization, Content-Type, User-Agent, Accept, Origin, X-Requested-With, Access-Control-Request-Method, Access-Control-Request-Headers, Accept-Encoding, Accept-Language, Cache-Control, Connection, Referer, Sec-Fetch-Dest, Sec-Fetch-Mode, Sec-Fetch-Site, Pragma, X-Api-Key"@,
            },
            HeaderView { name: HeaderName::AccessControlMaxAge, value: "3600"@ },
            HeaderView {
                name: HeaderName::Vary,
                value: "Origin, Access-Control-Request-Method, Access-Control-Request-Headers"@,
            },
        ],
        stream_header_views() == seq![
            HeaderView { name: HeaderName::ContentType, value: "text/event-stream"@ },
            HeaderView { name: HeaderName::CacheControl, value: "no-cache"@ },
            HeaderView { name: HeaderName::Connection, value: "keep-alive"@ },
        ],
{
    match origin {
        Some(value) => {
            law_allowed_origin(value);
        },
        None => {
            law_allowed_origin(Seq::empty());
        },
    }
}

/// A message that comes in parts has the texts of all parts, one behind the other; one
/// that comes as a text has that text.
pub proof fn law_parts_are_put_together(items: Seq<ContentItem>, item: ContentItem, text: String)
    ensures
        combined_text(Seq::<ContentItem>::empty()) == Seq::<char>::empty(),
        combined_text(items.push(item)) == combined_text(items) + item.text@,
        content_text(MessageContent::Text(text)) == text@,
{
    assert(items.push(item).drop_last() =~= items);
}

/// A message that comes in parts has the text of its parts.
pub proof fn law_parts_are_a_message(items: Vec<ContentItem>)
    ensures
        content_text(MessageContent::Items(items)) == combined_text(items@),
{
}

/// A message of a stream is `data: `, what it carries and an empty line; messages are sent
/// one behind the other.
pub proof fn law_messages_of_a_stream(payloads: Seq<Payload>, payload: Payload, json: String)
    ensures
        event_text(Payload::Json(json)) == "data: "@ + json@ + "\n\n"@,
        event_text(Payload::Done) == "data: [DONE]\n\n"@,
        events_text(Seq::<Payload>::empty()) == Seq::<char>::empty(),
        events_text(payloads.push(payload)) == events_text(payloads) + event_text(payload),
{
    assert(payloads.push(payload).drop_last() =~= payloads);
}

/// The report of an error has its message, its type and its code.
pub proof fn law_error_report(message: Seq<char>, kind: Seq<char>, code: Seq<char>)
    ensures
        error_fields(message, kind, code) == seq![
            ("message"@, message),
            ("type"@, kind),
            ("code"@, code),
        ],
{
}

} // verus!
