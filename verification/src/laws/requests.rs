//! What is done with a request for a chat completion.

use vstd::prelude::*;

use crate::chat::{
    bearer_token, exchange_step, malformed_reply, mapping_position, original_model, state_after, unreadable_reply,
    ActionView, ChatEvent, ExchangeView, PayloadRead,
};
use crate::config::{Config, EntryView};
use crate::errors::{
    error_class, error_view, message_reply_view, service_error_view, ErrorBodyView, ErrorReplyView, OpenAIErrorView,
};
use crate::headers::header_text;
use crate::laws::models::law_names_of_rules_are_lowered;
use crate::laws::text::{law_contains, law_starts_with};
use crate::models::lowered_entries;
use crate::text::{contains, lowercase};
use crate::units::decimal;

verus! {

/// Whether all bytes are visible characters of ASCII, blanks or tabs.
pub open spec fn plain_bytes(value: Seq<u8>) -> bool {
    forall|i: int| 0 <= i < value.len() ==> 32 <= #[trigger] value[i] < 127 || value[i] == 9
}

/// The characters that bytes of ASCII stand for.
pub open spec fn as_text(value: Seq<u8>) -> Seq<char> {
    Seq::new(value.len(), |i: int| value[i] as char)
}

/// The text of a header is its bytes, character for character, where they are plain.
pub proof fn law_header_text(value: Seq<u8>)
    ensures
        plain_bytes(value) ==> header_text(value) == Some(as_text(value)),
        !plain_bytes(value) ==> header_text(value) is None,
{
    if plain_bytes(value) {
        assert(header_text(value)->0 =~= as_text(value));
    }
}

/// A key is accepted exactly where the header is `Bearer ` with the key behind it, character
/// for character; so the two give back the header.
pub proof fn law_key_is_taken_as_it_is(value: Seq<u8>, key: Seq<char>)
    ensures
        bearer_token(value) == Some(key) <==> plain_bytes(value) && as_text(value) == "Bearer "@
            + key,
        bearer_token(value) is None <==> !plain_bytes(value) || !(exists|k: Seq<char>|
            as_text(value) == #[trigger] ("Bearer "@ + k)),
{
    law_header_text(value);
    let prefix = "Bearer "@;
    if plain_bytes(value) {
        let text = as_text(value);
        law_starts_with(text, prefix, key);
        assert((prefix + key).skip(prefix.len() as int) =~= key);
        if exists|k: Seq<char>| text == #[trigger] (prefix + k) {
            let k = choose|k: Seq<char>| text == #[trigger] (prefix + k);
            law_starts_with(text, prefix, k);
        }
        if bearer_token(value) is Some {
            assert(text == prefix + text.skip(prefix.len() as int));
        }
    }
}

/// The reply with a plain message.
pub open spec fn told(status: u16, message: Seq<char>) -> ActionView {
    ActionView::Reply(ErrorReplyView { status, body: ErrorBodyView::Message(message) })
}

/// The reply with an error in the terms of the interface.
pub open spec fn described(
    status: u16,
    message: Seq<char>,
    kind: Seq<char>,
    code: Seq<char>,
) -> ErrorReplyView {
    ErrorReplyView {
        status,
        body: ErrorBodyView::OpenAI(OpenAIErrorView { message, kind, code, param: None }),
    }
}

/// What the header of a request leads to: with a key its body is read, and else the client
/// is told what is wrong with the header, and that is all.
pub proof fn law_header_is_looked_at(
    config: Config,
    max_size: usize,
    value: Vec<u8>,
    key: Seq<char>,
)
    ensures
        ({
            let step = exchange_step(
                config,
                max_size,
                ExchangeView::Arrived,
                ChatEvent::HeaderRead(Some(value)),
            );
            &&& plain_bytes(value@) && as_text(value@) == "Bearer "@ + key ==> step == (
                ExchangeView::Authorized(key),
                ActionView::ReadBody,
            )
            &&& !plain_bytes(value@) || !(exists|k: Seq<char>|
                as_text(value@) == #[trigger] ("Bearer "@ + k)) ==> step == (
                ExchangeView::Closed,
                told(401, "無效的 Authorization"@),
            )
        }),
        exchange_step(config, max_size, ExchangeView::Arrived, ChatEvent::HeaderRead(None)) == (
            ExchangeView::Closed,
            told(401, "缺少 Authorization"@),
        ),
{
    law_key_is_taken_as_it_is(value@, key);
}

/// What the body of a request leads to: a request is sent with the key and for the model
/// that it stands for, and else the client is told what is wrong with the body.
pub proof fn law_body_is_looked_at(
    config: Config,
    max_size: usize,
    key: Seq<char>,
    model: String,
    stream: Option<bool>,
    reason: String,
)
    ensures
        ({
            let state = ExchangeView::Authorized(key);
            let request = ChatEvent::BodyRead(PayloadRead::Request { model, stream });
            let unreadable = ChatEvent::BodyRead(PayloadRead::Unreadable(reason));
            let malformed = ChatEvent::BodyRead(PayloadRead::Malformed(reason));
            &&& exchange_step(config, max_size, state, request) == (
                ExchangeView::Sent(model@, stream == Some(true)),
                ActionView::Send { access_key: key, model: original_model(config, model@) },
            )
            &&& exchange_step(config, max_size, state, unreadable) == (
                ExchangeView::Closed,
                ActionView::Reply(
                    described(
                        413,
                        "請求大小超過限制 ("@ + decimal(max_size as int) + " bytes) 或讀取失敗: "@
                            + reason@,
                        "invalid_request_error"@,
                        "payload_too_large"@,
                    ),
                ),
            )
            &&& exchange_step(config, max_size, state, malformed) == (
                ExchangeView::Closed,
                ActionView::Reply(
                    described(
                        400,
                        "JSON 解析失敗: "@ + reason@,
                        "invalid_request_error"@,
                        "parse_error"@,
                    ),
                ),
            )
        }),
        unreadable_reply(max_size, reason@) == described(
            413,
            "請求大小超過限制 ("@ + decimal(max_size as int) + " bytes) 或讀取失敗: "@ + reason@,
            "invalid_request_error"@,
            "payload_too_large"@,
        ),
        malformed_reply(reason@) == described(
            400,
            "JSON 解析失敗: "@ + reason@,
            "invalid_request_error"@,
            "parse_error"@,
        ),
{
}

/// What the service's word on a request leads to: one that is taken is answered as asked
/// for, and of one that is not the client is told the reason.
pub proof fn law_word_of_the_service(
    config: Config,
    max_size: usize,
    model: Seq<char>,
    stream: bool,
    reason: String,
)
    ensures
        ({
            let state = ExchangeView::Sent(model, stream);
            let taken = exchange_step(config, max_size, state, ChatEvent::Taken);
            &&& stream ==> taken == (ExchangeView::Closed, ActionView::StreamAnswer(model))
            &&& !stream ==> taken == (ExchangeView::Closed, ActionView::CompleteAnswer(model))
            &&& exchange_step(config, max_size, state, ChatEvent::Refused(reason)) == (
                ExchangeView::Closed,
                told(500, reason@),
            )
        }),
{
}

/// A reply has the status, the message and the class that it is made for.
pub proof fn law_reply_is_as_made(
    status: u16,
    message: Seq<char>,
    kind: Seq<char>,
    code: Seq<char>,
)
    ensures
        message_reply_view(status, message) == (ErrorReplyView {
            status,
            body: ErrorBodyView::Message(message),
        }),
        error_view(message, kind, code) == (OpenAIErrorView { message, kind, code, param: None }),
{
}

/// What happens out of turn leads to nothing.
pub proof fn law_out_of_turn(config: Config, max_size: usize, state: ExchangeView, event: ChatEvent)
    requires
        !(state is Arrived && event is HeaderRead),
        !(state is Authorized && event is BodyRead),
        !(state is Sent && (event is Taken || event is Refused)),
    ensures
        exchange_step(config, max_size, state, event) == (state, ActionView::Nothing),
{
}

/// Whether an event brings a header that is `Bearer `, and `key` behind it.
pub open spec fn header_holds(event: ChatEvent, key: Seq<char>) -> bool {
    match event {
        ChatEvent::HeaderRead(Some(value)) => plain_bytes(value@) && as_text(value@) == "Bearer "@
            + key,
        _ => false,
    }
}

/// A request is sent with the very key that stands in its header.
pub proof fn law_key_of_the_client_is_sent(
    config: Config,
    max_size: usize,
    events: Seq<ChatEvent>,
    event: ChatEvent,
)
    ensures
        exchange_step(config, max_size, state_after(config, max_size, events), event).1 matches
            ActionView::Send { access_key, model } ==> exists|i: int|
            0 <= i < events.len() && header_holds(#[trigger] events[i], access_key),
{
    lemma_authorized_by(config, max_size, events);
}

proof fn lemma_authorized_by(config: Config, max_size: usize, events: Seq<ChatEvent>)
    ensures
        state_after(config, max_size, events) matches ExchangeView::Authorized(key) ==> exists|
            i: int,
        | 0 <= i < events.len() && header_holds(#[trigger] events[i], key),
    decreases events.len(),
{
    if events.len() > 0 {
        let earlier = events.drop_last();
        let last = events.last();
        lemma_authorized_by(config, max_size, earlier);
        match state_after(config, max_size, events) {
            ExchangeView::Authorized(key) => {
                if state_after(config, max_size, earlier) == ExchangeView::Authorized(key) {
                    let i = choose|i: int|
                        0 <= i < earlier.len() && header_holds(#[trigger] earlier[i], key);
                    assert(header_holds(events[i], key));
                } else {
                    match last {
                        ChatEvent::HeaderRead(Some(value)) => {
                            law_key_is_taken_as_it_is(value@, key);
                        },
                        _ => {},
                    }
                    assert(header_holds(events[events.len() - 1], key));
                }
            },
            _ => {},
        }
    }
}

/// Whether a rule maps its model to `requested`, without regard to case.
pub open spec fn maps_to(entry: EntryView, requested: Seq<char>) -> bool {
    match entry.rule.mapping {
        Some(mapping) => lowercase(mapping) == lowercase(requested),
        None => false,
    }
}

proof fn lemma_mapping_is(entries: Seq<EntryView>, requested: Seq<char>, n: int)
    requires
        0 <= n <= entries.len(),
        forall|i: int| 0 <= i < n ==> !maps_to(#[trigger] entries[i], requested),
        n < entries.len() ==> maps_to(entries[n], requested),
    ensures
        mapping_position(lowered_entries(entries), lowercase(requested)) == n,
    decreases entries.len(),
{
    let lowered = lowered_entries(entries);
    law_names_of_rules_are_lowered(entries, 0);
    if entries.len() > 0 && n > 0 {
        assert(!maps_to(entries[0], requested));
        let rest = entries.drop_first();
        assert(lowered.drop_first() =~= lowered_entries(rest));
        assert forall|i: int| 0 <= i < n - 1 implies !maps_to(#[trigger] rest[i], requested) by {
            assert(rest[i] == entries[i + 1]);
        }
        lemma_mapping_is(rest, requested, n - 1);
    } else if entries.len() > 0 {
        assert(maps_to(entries[0], requested));
    }
}

/// The entry that maps its model to a name is found at its place, where none before it does;
/// where none does, the search ends behind the last.
pub proof fn law_first_mapping_is_found(
    a: Seq<EntryView>,
    entry: EntryView,
    b: Seq<EntryView>,
    name: Seq<char>,
)
    requires
        forall|i: int| 0 <= i < a.len() ==> (#[trigger] a[i]).rule.mapping != Some(name),
    ensures
        mapping_position(a, name) == a.len(),
        entry.rule.mapping == Some(name) ==> mapping_position(a + seq![entry] + b, name) == a.len(),
    decreases a.len(),
{
    let all = a + seq![entry] + b;
    if a.len() > 0 {
        let rest = a.drop_first();
        assert(a[0].rule.mapping != Some(name));
        assert forall|i: int| 0 <= i < rest.len() implies (#[trigger] rest[i]).rule.mapping != Some(
            name,
        ) by {
            assert(rest[i] == a[i + 1]);
        }
        assert(all.drop_first() =~= rest + seq![entry] + b);
        law_first_mapping_is_found(rest, entry, b, name);
    }
}

/// A request goes to the model that the first rule maps to the requested name, without
/// regard to case, under the very name that the rule has for it. Where no rule does, or
/// the rules do not apply, it goes to the requested name as it is.
pub proof fn law_request_reaches_its_model(config: Config, requested: Seq<char>, n: int)
    ensures
        config.enable_setting() != Some(true) ==> original_model(config, requested) == requested,
        config.enable_setting() == Some(true) && 0 <= n < config.entries().len() && maps_to(
            config.entries()[n],
            requested,
        ) && (forall|i: int| 0 <= i < n ==> !maps_to(#[trigger] config.entries()[i], requested))
            ==> original_model(config, requested) == config.entries()[n].name,
        (forall|i: int|
            0 <= i < config.entries().len() ==> !maps_to(
                #[trigger] config.entries()[i],
                requested,
            )) ==> original_model(config, requested) == requested,
{
    let entries = config.entries();
    law_names_of_rules_are_lowered(entries, 0);
    if 0 <= n < entries.len() && maps_to(entries[n], requested) && (forall|i: int|
        0 <= i < n ==> !maps_to(#[trigger] entries[i], requested)) {
        lemma_mapping_is(entries, requested, n);
    }
    if forall|i: int| 0 <= i < entries.len() ==> !maps_to(#[trigger] entries[i], requested) {
        lemma_mapping_is(entries, requested, entries.len() as int);
    }
}

/// An error of the service is reported with its own text, and classed by the first of
/// these that its text holds: an internal error, a rate limit, a bad token, a model that
/// does not exist; any other is the fault of the request.
pub proof fn law_service_errors_are_classed(a: Seq<char>, b: Seq<char>, text: Seq<char>)
    ensures
        text == a + "Internal server error"@ + b ==> service_error_view(text) == described(
            500,
            text,
            "internal_error"@,
            "internal_error"@,
        ),
        text == a + "rate limit"@ + b && !contains(text, "Internal server error"@)
            ==> service_error_view(text) == described(
            429,
            text,
            "rate_limit_exceeded"@,
            "rate_limit_exceeded"@,
        ),
        (text == a + "Invalid token"@ + b || text == a + "Unauthorized"@ + b) && !contains(
            text,
            "Internal server error"@,
        ) && !contains(text, "rate limit"@) ==> service_error_view(text) == described(
            401,
            text,
            "invalid_auth"@,
            "invalid_api_key"@,
        ),
        text == a + "Bot does not exist"@ + b && !contains(text, "Internal server error"@)
            && !contains(text, "rate limit"@) && !contains(text, "Invalid token"@) && !contains(
            text,
            "Unauthorized"@,
        ) ==> service_error_view(text) == described(
            404,
            text,
            "model_not_found"@,
            "model_not_found"@,
        ),
        !contains(text, "Internal server error"@) && !contains(text, "rate limit"@) && !contains(
            text,
            "Invalid token"@,
        ) && !contains(text, "Unauthorized"@) && !contains(text, "Bot does not exist"@)
            ==> service_error_view(text) == described(
            400,
            text,
            "invalid_request"@,
            "bad_request"@,
        ),
        service_error_view(text) == described(
            error_class(text).0,
            text,
            error_class(text).1,
            error_class(text).2,
        ),
{
    law_contains(text, "Internal server error"@, a, b);
    law_contains(text, "rate limit"@, a, b);
    law_contains(text, "Invalid token"@, a, b);
    law_contains(text, "Unauthorized"@, a, b);
    law_contains(text, "Bot does not exist"@, a, b);
}

} // verus!
