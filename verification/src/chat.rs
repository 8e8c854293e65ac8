//! Requests for a chat completion.

use vstd::prelude::*;
use vstd::string::StringExecFns;

use crate::config::{Config, EntryView};
use crate::errors::{
    error_view, message_reply, message_reply_view, openai_error, ErrorBody, ErrorBodyView, ErrorReply,
    ErrorReplyView,
};
use crate::headers::{header_text, header_to_str};
use crate::models::{entry_views, lowercase_entries, lowered_entries};
use crate::text::{lowercase, same, starts_with, strip_prefix};
use crate::units::{append_decimal, decimal};

verus! {

/// The text behind `Bearer ` of the value of an `Authorization` header.
pub open spec fn bearer_token(value: Seq<u8>) -> Option<Seq<char>> {
    match header_text(value) {
        Some(text) => if starts_with(text, "Bearer "@) {
            Some(text.skip("Bearer "@.len() as int))
        } else {
            None
        },
        None => None,
    }
}

/// The access key that a request carries in its `Authorization` header, or the reply
/// that it is missing or not of the right form.
pub fn authorize(authorization: Option<&[u8]>) -> (r: Result<String, ErrorReply>)
    ensures
        match authorization {
            Some(value) => match bearer_token(value@) {
                Some(token) => r matches Ok(key) && key@ == token,
                None => r matches Err(reply) && reply@ == message_reply_view(
                    401,
                    "無效的 Authorization"@,
                ),
            },
            None => r matches Err(reply) && reply@ == message_reply_view(401, "缺少 Authorization"@),
        },
{
    match authorization {
        Some(value) => {
            let token = match header_to_str(value) {
                Some(text) => strip_prefix(text.as_str(), "Bearer "),
                None => None,
            };
            match token {
                Some(key) => Ok(key),
                None => Err(message_reply(401, "無效的 Authorization")),
            }
        },
        None => Err(message_reply(401, "缺少 Authorization")),
    }
}

/// The position of the first entry that maps its model to `name`, or the number of
/// entries.
pub open spec fn mapping_position(entries: Seq<EntryView>, name: Seq<char>) -> int
    decreases entries.len(),
{
    if entries.len() == 0 || entries[0].rule.mapping == Some(name) {
        0
    } else {
        1 + mapping_position(entries.drop_first(), name)
    }
}

proof fn lemma_mapping_position(entries: Seq<EntryView>, name: Seq<char>, i: int)
    requires
        0 <= i <= entries.len(),
        i < entries.len() ==> entries[i].rule.mapping == Some(name),
        forall|j: int| 0 <= j < i ==> #[trigger] entries[j].rule.mapping != Some(name),
    ensures
        mapping_position(entries, name) == i,
    decreases entries.len(),
{
    if i > 0 {
        assert(entries[0].rule.mapping != Some(name));
        assert forall|j: int| 0 <= j < i - 1 implies #[trigger] entries.drop_first()[j].rule.mapping
            != Some(name) by {
            assert(entries.drop_first()[j] == entries[j + 1]);
        }
        lemma_mapping_position(entries.drop_first(), name, i - 1);
    }
}

/// The position of the first entry that maps its model to `name`. Names are compared as
/// they are.
pub fn find_mapping(entries: &Vec<crate::config::ModelEntry>, name: &str) -> (r: Option<usize>)
    ensures
        match r {
            Some(i) => i < entries@.len() && i == mapping_position(entry_views(entries@), name@),
            None => mapping_position(entry_views(entries@), name@) == entries@.len(),
        },
{
    let ghost views = entry_views(entries@);
    let mut i: usize = 0;
    while i < entries.len()
        invariant
            i <= entries@.len(),
            views == entry_views(entries@),
            forall|j: int| 0 <= j < i ==> #[trigger] views[j].rule.mapping != Some(name@),
        decreases entries@.len() - i,
    {
        assert(views[i as int] == entries@[i as int]@);
        if let Some(mapping) = &entries[i].rule.mapping {
            if same(mapping.as_str(), name) {
                proof {
                    lemma_mapping_position(views, name@, i as int);
                }
                return Some(i);
            }
        }
        i = i + 1;
    }
    proof {
        lemma_mapping_position(views, name@, i as int);
    }
    None
}

/// The name that the service has for the model that is requested: where the rules
/// apply, the model that the first rule maps to the requested name, without regard to
/// case; else the requested name itself.
pub open spec fn original_model(config: Config, requested: Seq<char>) -> Seq<char> {
    let entries = config.entries();
    let i = mapping_position(lowered_entries(entries), lowercase(requested));
    if config.applies() && i < entries.len() {
        entries[i].name
    } else {
        requested
    }
}

/// The name that the service has for the model that is requested.
pub fn resolve_model(config: &Config, requested: &str) -> (r: String)
    ensures
        r@ == original_model(*config, requested@),
{
    if !config.is_enabled() {
        return requested.to_string();
    }
    let entries = config.models();
    assert(entry_views(entries@) =~= config.entries());
    let lowered = lowercase_entries(entries);
    assert(entry_views(lowered@).len() == lowered@.len());
    assert(lowered_entries(config.entries()).len() == entries@.len());
    match find_mapping(&lowered, requested.to_lowercase().as_str()) {
        Some(i) => {
            assert(config.entries()[i as int] == entries@[i as int]@);
            entries[i].name.clone()
        },
        None => requested.to_string(),
    }
}

/// What came of reading the body of a request.
#[derive(Debug)]
pub enum PayloadRead {
    /// It could not be read or is too large, for the reason given.
    Unreadable(String),
    /// It is not a request, for the reason given.
    Malformed(String),
    /// It is a request for this model, with the choice whether to stream the answer.
    Request { model: String, stream: Option<bool> },
}

/// A request that is passed on to the service.
#[derive(Clone, Debug, PartialEq, Eq)]
pub struct Forward {
    /// The name of the model that the client is shown.
    pub display_model: String,
    /// The name of the model that the service has.
    pub original_model: String,
    /// Whether the answer is streamed.
    pub stream: bool,
}

/// The reply to a request whose body could not be read.
pub open spec fn unreadable_reply(max_size: usize, reason: Seq<char>) -> ErrorReplyView {
    ErrorReplyView {
        status: 413,
        body: ErrorBodyView::OpenAI(
            error_view(
                "請求大小超過限制 ("@ + decimal(max_size as int) + " bytes) 或讀取失敗: "@ + reason,
                "invalid_request_error"@,
                "payload_too_large"@,
            ),
        ),
    }
}

/// The reply to a body that is not a request.
pub open spec fn malformed_reply(reason: Seq<char>) -> ErrorReplyView {
    ErrorReplyView {
        status: 400,
        body: ErrorBodyView::OpenAI(
            error_view("JSON 解析失敗: "@ + reason, "invalid_request_error"@, "parse_error"@),
        ),
    }
}

/// What is done with a request for a chat completion once its body has been read.
pub fn chat_completions(config: &Config, payload: PayloadRead, max_size: usize) -> (r: Result<
    Forward,
    ErrorReply,
>)
    ensures
        match payload {
            PayloadRead::Unreadable(reason) => r matches Err(reply) && reply@ == unreadable_reply(
                max_size,
                reason@,
            ),
            PayloadRead::Malformed(reason) => r matches Err(reply) && reply@ == malformed_reply(
                reason@,
            ),
            PayloadRead::Request { model, stream } => {
                &&& r matches Ok(forward)
                &&& forward.display_model@ == model@
                &&& forward.original_model@ == original_model(*config, model@)
                &&& forward.stream == (stream == Some(true))
            },
        },
{
    match payload {
        PayloadRead::Unreadable(reason) => {
            let mut message = "請求大小超過限制 (".to_string();
            append_decimal(&mut message, max_size as u128);
            message.append(" bytes) 或讀取失敗: ");
            message.append(reason.as_str());
            let body = openai_error(
                message.as_str(),
                "invalid_request_error",
                "payload_too_large",
            );
            Err(ErrorReply { status: 413, body: ErrorBody::OpenAI(body) })
        },
        PayloadRead::Malformed(reason) => {
            let mut message = "JSON 解析失敗: ".to_string();
            message.append(reason.as_str());
            let body = openai_error(message.as_str(), "invalid_request_error", "parse_error");
            Err(ErrorReply { status: 400, body: ErrorBody::OpenAI(body) })
        },
        PayloadRead::Request { model, stream } => {
            let original_model = resolve_model(config, model.as_str());
            let stream = match stream {
                Some(stream) => stream,
                None => false,
            };
            Ok(Forward { display_model: model, original_model, stream })
        },
    }
}

/// The reply where the service does not take a request, for the reason given.
pub fn refused_reply(reason: &str) -> (r: ErrorReply)
    ensures
        r@ == message_reply_view(500, reason@),
{
    message_reply(500, reason)
}

/// What has happened to a request for a chat completion.
#[derive(Debug)]
pub enum ChatEvent {
    /// The value of its `Authorization` header has been read, where it has one.
    HeaderRead(Option<Vec<u8>>),
    /// Its body has been read.
    BodyRead(PayloadRead),
    /// The service has taken it.
    Taken,
    /// The service has not taken it, for the reason given.
    Refused(String),
}

/// What is done next with a request for a chat completion.
#[derive(Clone, Debug, PartialEq, Eq)]
pub enum ChatAction {
    /// Its body is read.
    ReadBody,
    /// It is sent to the service, for this model and with this access key.
    Send { access_key: String, model: String },
    /// The answer is streamed, as that of this model.
    StreamAnswer(String),
    /// The answer is sent in one piece, as that of this model.
    CompleteAnswer(String),
    /// The client is told what went wrong.
    Reply(ErrorReply),
    /// Nothing, for what has happened was not what was waited for.
    Nothing,
}

/// The contents of a `ChatAction`.
#[verifier::ext_equal]
pub enum ActionView {
    ReadBody,
    Send { access_key: Seq<char>, model: Seq<char> },
    StreamAnswer(Seq<char>),
    CompleteAnswer(Seq<char>),
    Reply(ErrorReplyView),
    Nothing,
}

impl View for ChatAction {
    type V = ActionView;

    open spec fn view(&self) -> ActionView {
        match self {
            ChatAction::ReadBody => ActionView::ReadBody,
            ChatAction::Send { access_key, model } => ActionView::Send {
                access_key: access_key@,
                model: model@,
            },
            ChatAction::StreamAnswer(model) => ActionView::StreamAnswer(model@),
            ChatAction::CompleteAnswer(model) => ActionView::CompleteAnswer(model@),
            ChatAction::Reply(reply) => ActionView::Reply(reply@),
            ChatAction::Nothing => ActionView::Nothing,
        }
    }
}

/// Where a request for a chat completion stands.
enum ChatState {
    Arrived,
    Authorized(String),
    Sent(Forward),
    Closed,
}

/// Where a request for a chat completion stands.
#[verifier::ext_equal]
pub enum ExchangeView {
    /// Nothing of it has been read.
    Arrived,
    /// It carries this access key, and its body is to be read.
    Authorized(Seq<char>),
    /// It has been sent, and what comes back is shown as of this model, streamed or not.
    Sent(Seq<char>, bool),
    /// Nothing more is waited for.
    Closed,
}

/// The way of one request for a chat completion.
pub struct ChatExchange {
    state: ChatState,
}

/// Where a request stands behind an event, and what is done next. The access key is
/// looked at before the body is read, and what is not a request is not sent. What
/// happens out of turn changes nothing.
pub open spec fn exchange_step(
    config: Config,
    max_size: usize,
    state: ExchangeView,
    event: ChatEvent,
) -> (ExchangeView, ActionView) {
    match (state, event) {
        (ExchangeView::Arrived, ChatEvent::HeaderRead(Some(value))) => match bearer_token(value@) {
            Some(key) => (ExchangeView::Authorized(key), ActionView::ReadBody),
            None => (
                ExchangeView::Closed,
                ActionView::Reply(message_reply_view(401, "無效的 Authorization"@)),
            ),
        },
        (ExchangeView::Arrived, ChatEvent::HeaderRead(None)) => (
            ExchangeView::Closed,
            ActionView::Reply(message_reply_view(401, "缺少 Authorization"@)),
        ),
        (ExchangeView::Authorized(key), ChatEvent::BodyRead(payload)) => match payload {
            PayloadRead::Unreadable(reason) => (
                ExchangeView::Closed,
                ActionView::Reply(unreadable_reply(max_size, reason@)),
            ),
            PayloadRead::Malformed(reason) => (
                ExchangeView::Closed,
                ActionView::Reply(malformed_reply(reason@)),
            ),
            PayloadRead::Request { model, stream } => (
                ExchangeView::Sent(model@, stream == Some(true)),
                ActionView::Send { access_key: key, model: original_model(config, model@) },
            ),
        },
        (ExchangeView::Sent(model, stream), ChatEvent::Taken) => (
            ExchangeView::Closed,
            if stream {
                ActionView::StreamAnswer(model)
            } else {
                ActionView::CompleteAnswer(model)
            },
        ),
        (ExchangeView::Sent(_, _), ChatEvent::Refused(reason)) => (
            ExchangeView::Closed,
            ActionView::Reply(message_reply_view(500, reason@)),
        ),
        (_, _) => (state, ActionView::Nothing),
    }
}

impl ChatExchange {
    /// Where the request stands.
    pub closed spec fn state(&self) -> ExchangeView {
        match self.state {
            ChatState::Arrived => ExchangeView::Arrived,
            ChatState::Authorized(key) => ExchangeView::Authorized(key@),
            ChatState::Sent(forward) => ExchangeView::Sent(
                forward.display_model@,
                forward.stream,
            ),
            ChatState::Closed => ExchangeView::Closed,
        }
    }

    /// A request that has arrived.
    pub fn new() -> (r: ChatExchange)
        ensures
            r.state() == ExchangeView::Arrived,
    {
        ChatExchange { state: ChatState::Arrived }
    }

    /// Takes in what has happened to the request, and says what is done next.
    pub fn advance(&mut self, config: &Config, max_size: usize, event: ChatEvent) -> (r: ChatAction)
        ensures
            final(self).state() == exchange_step(*config, max_size, old(self).state(), event).0,
            r@ == exchange_step(*config, max_size, old(self).state(), event).1,
    {
        let mut state = ChatState::Closed;
        std::mem::swap(&mut state, &mut self.state);
        match (state, event) {
            (ChatState::Arrived, ChatEvent::HeaderRead(authorization)) => {
                let checked = match &authorization {
                    Some(value) => authorize(Some(value.as_slice())),
                    None => authorize(None),
                };
                match checked {
                    Ok(key) => {
                        self.state = ChatState::Authorized(key);
                        ChatAction::ReadBody
                    },
                    Err(reply) => ChatAction::Reply(reply),
                }
            },
            (ChatState::Authorized(access_key), ChatEvent::BodyRead(payload)) => {
                match chat_completions(config, payload, max_size) {
                    Ok(forward) => {
                        let model = forward.original_model.clone();
                        self.state = ChatState::Sent(forward);
                        ChatAction::Send { access_key, model }
                    },
                    Err(reply) => ChatAction::Reply(reply),
                }
            },
            (ChatState::Sent(forward), ChatEvent::Taken) => {
                if forward.stream {
                    ChatAction::StreamAnswer(forward.display_model)
                } else {
                    ChatAction::CompleteAnswer(forward.display_model)
                }
            },
            (ChatState::Sent(_), ChatEvent::Refused(reason)) => {
                ChatAction::Reply(refused_reply(reason.as_str()))
            },
            (state, _) => {
                self.state = state;
                ChatAction::Nothing
            },
        }
    }
}

/// Where a request stands behind a number of events.
pub open spec fn state_after(config: Config, max_size: usize, events: Seq<ChatEvent>) -> ExchangeView
    decreases events.len(),
{
    if events.len() == 0 {
        ExchangeView::Arrived
    } else {
        let before = state_after(config, max_size, events.drop_last());
        exchange_step(config, max_size, before, events.last()).0
    }
}

/// Whether the header that an event brings carries `key`.
pub open spec fn brings_key(event: ChatEvent, key: Seq<char>) -> bool {
    match event {
        ChatEvent::HeaderRead(Some(value)) => bearer_token(value@) == Some(key),
        _ => false,
    }
}

/// Whether the body that an event brings is a request.
pub open spec fn brings_request(event: ChatEvent) -> bool {
    match event {
        ChatEvent::BodyRead(payload) => payload is Request,
        _ => false,
    }
}

proof fn lemma_authorized(config: Config, max_size: usize, events: Seq<ChatEvent>)
    ensures
        state_after(config, max_size, events) matches ExchangeView::Authorized(key) ==> exists|
            i: int,
        | 0 <= i < events.len() && brings_key(#[trigger] events[i], key),
    decreases events.len(),
{
    if events.len() > 0 {
        let earlier = events.drop_last();
        lemma_authorized(config, max_size, earlier);
        match state_after(config, max_size, events) {
            ExchangeView::Authorized(key) => {
                if state_after(config, max_size, earlier) == ExchangeView::Authorized(key) {
                    let i = choose|i: int|
                        0 <= i < earlier.len() && brings_key(#[trigger] earlier[i], key);
                    assert(brings_key(events[i], key));
                } else {
                    assert(brings_key(events[events.len() - 1], key));
                }
            },
            _ => {},
        }
    }
}

/// The access key is checked before the body is read, and a request is sent only behind
/// both: with the key that its header carries, and with a body that is a request.
pub proof fn law_key_comes_first(
    config: Config,
    max_size: usize,
    events: Seq<ChatEvent>,
    event: ChatEvent,
)
    ensures
        ({
            let state = state_after(config, max_size, events);
            let action = exchange_step(config, max_size, state, event).1;
            &&& action is ReadBody ==> exists|key: Seq<char>| #[trigger] brings_key(event, key)
            &&& action matches ActionView::Send { access_key, model } ==> {
                &&& brings_request(event)
                &&& exists|i: int|
                    0 <= i < events.len() && brings_key(#[trigger] events[i], access_key)
            }
        }),
{
    let state = state_after(config, max_size, events);
    lemma_authorized(config, max_size, events);
    match (state, event) {
        (ExchangeView::Arrived, ChatEvent::HeaderRead(Some(value))) => {
            if bearer_token(value@) is Some {
                assert(brings_key(event, bearer_token(value@)->0));
            }
        },
        _ => {},
    }
}

/// Once the client has been told what went wrong, or the answer is on its way, nothing
/// more is done.
pub proof fn law_nothing_follows_the_outcome(
    config: Config,
    max_size: usize,
    state: ExchangeView,
    event: ChatEvent,
    later: ChatEvent,
)
    ensures
        ({
            let step = exchange_step(config, max_size, state, event);
            step.1 is Reply || step.1 is StreamAnswer || step.1 is CompleteAnswer ==> {
                &&& step.0 == ExchangeView::Closed
                &&& exchange_step(config, max_size, step.0, later) == (
                    ExchangeView::Closed,
                    ActionView::Nothing,
                )
            }
        }),
{
}

/// A request that the service takes is answered as it asked for, streamed or in one
/// piece, as of the model that it named.
pub proof fn law_answer_is_as_requested(
    config: Config,
    max_size: usize,
    key: Seq<char>,
    model: String,
    stream: Option<bool>,
)
    ensures
        ({
            let body = ChatEvent::BodyRead(PayloadRead::Request { model, stream });
            let sent = exchange_step(config, max_size, ExchangeView::Authorized(key), body);
            &&& sent.1 == (ActionView::Send {
                access_key: key,
                model: original_model(config, model@),
            })
            &&& exchange_step(config, max_size, sent.0, ChatEvent::Taken).1 == (if stream == Some(
                true,
            ) {
                ActionView::StreamAnswer(model@)
            } else {
                ActionView::CompleteAnswer(model@)
            })
        }),
{
}

/// A request for the name that a rule maps a model to, in any case, reaches that model,
/// where no earlier rule maps to the same name.
pub proof fn law_mapped_name_reaches_model(config: Config, requested: Seq<char>, i: int)
    requires
        config.applies(),
        0 <= i < config.entries().len(),
    ensures
        ({
            let lowered = lowered_entries(config.entries());
            lowered[i].rule.mapping == Some(lowercase(requested)) && (forall|j: int|
                0 <= j < i ==> #[trigger] lowered[j].rule.mapping != Some(lowercase(requested)))
                ==> original_model(config, requested) == config.entries()[i].name
        }),
{
    let lowered = lowered_entries(config.entries());
    if lowered[i].rule.mapping == Some(lowercase(requested)) && (forall|j: int|
        0 <= j < i ==> #[trigger] lowered[j].rule.mapping != Some(lowercase(requested))) {
        lemma_mapping_position(lowered, lowercase(requested), i);
    }
}

/// The case of a requested name makes no difference where a rule maps to it.
pub proof fn law_case_does_not_matter(config: Config, a: Seq<char>, b: Seq<char>)
    ensures
        lowercase(a) == lowercase(b) ==> (original_model(config, a) == original_model(config, b)
            || (original_model(config, a) == a && original_model(config, b) == b)),
{
}

/// A name that no rule maps to, or any name where the rules do not apply, stands for
/// itself.
pub proof fn law_unmapped_name_is_kept(config: Config, requested: Seq<char>)
    ensures
        ({
            let lowered = lowered_entries(config.entries());
            !config.applies() || (forall|j: int|
                0 <= j < lowered.len() ==> #[trigger] lowered[j].rule.mapping != Some(
                    lowercase(requested),
                )) ==> original_model(config, requested) == requested
        }),
{
    let lowered = lowered_entries(config.entries());
    if forall|j: int|
        0 <= j < lowered.len() ==> #[trigger] lowered[j].rule.mapping != Some(
            lowercase(requested),
        ) {
        lemma_mapping_position(lowered, lowercase(requested), lowered.len() as int);
    }
}

/// What the list of models offers under a mapped name, a request for that name reaches:
/// the model it is sent to is, but for case, the one that was offered. This is so where
/// no two rules map to the same name, or are for names that differ in case alone.
pub proof fn law_offered_name_reaches_model(
    config: Config,
    model: crate::models::ModelView,
    requested: Seq<char>,
)
    requires
        config.applies(),
    ensures
        ({
            let lowered = lowered_entries(config.entries());
            let unambiguous = forall|i: int, j: int|
                0 <= i < j < lowered.len() && (#[trigger] lowered[i]).rule.mapping is Some
                    ==> lowered[i].rule.mapping != (#[trigger] lowered[j]).rule.mapping;
            let rule = crate::models::last_rule(lowered, model.id);
            unambiguous && rule is Some && rule->0.mapping == Some(lowercase(requested))
                && crate::models::offered(model, lowered) is Some ==> {
                &&& crate::models::offered(model, lowered)->0.id == lowercase(requested)
                &&& lowercase(original_model(config, requested)) == model.id
            }
        }),
{
    let lowered = lowered_entries(config.entries());
    let unambiguous = forall|i: int, j: int|
        0 <= i < j < lowered.len() && (#[trigger] lowered[i]).rule.mapping is Some
            ==> lowered[i].rule.mapping != (#[trigger] lowered[j]).rule.mapping;
    let rule = crate::models::last_rule(lowered, model.id);
    if unambiguous && rule is Some && rule->0.mapping == Some(lowercase(requested)) {
        crate::models::lemma_last_rule(lowered, model.id);
        let i = choose|i: int|
            0 <= i < lowered.len() && #[trigger] lowered[i] == (EntryView {
                name: model.id,
                rule: rule->0,
            });
        assert forall|j: int| 0 <= j < i implies #[trigger] lowered[j].rule.mapping != Some(
            lowercase(requested),
        ) by {
            if lowered[j].rule.mapping is Some {
                assert(lowered[j].rule.mapping != lowered[i].rule.mapping);
            }
        }
        lemma_mapping_position(lowered, lowercase(requested), i);
        assert(lowered[i] == crate::models::lowered_entry(config.entries()[i]));
    }
}

proof fn lemma_mapping_found(entries: Seq<EntryView>, name: Seq<char>)
    ensures
        0 <= mapping_position(entries, name) <= entries.len(),
        mapping_position(entries, name) < entries.len() ==> entries[mapping_position(
            entries,
            name,
        )].rule.mapping == Some(name),
        forall|j: int|
            0 <= j < mapping_position(entries, name) ==> #[trigger] entries[j].rule.mapping != Some(
                name,
            ),
    decreases entries.len(),
{
    if entries.len() > 0 && entries[0].rule.mapping != Some(name) {
        let rest = entries.drop_first();
        lemma_mapping_found(rest, name);
        assert forall|j: int| 0 <= j < mapping_position(entries, name) implies #[trigger] entries[j].rule.mapping
            != Some(name) by {
            if j > 0 {
                assert(rest[j - 1] == entries[j]);
            }
        }
    }
}

/// The order of the rules makes no difference to where a request goes, where at most one
/// of them maps to the requested name.
pub proof fn law_mapping_order_does_not_matter(a: Config, b: Config, requested: Seq<char>)
    requires
        a.applies() == b.applies(),
        forall|e: EntryView| a.entries().contains(e) <==> b.entries().contains(e),
    ensures
        ({
            let lowered = lowered_entries(a.entries());
            (forall|i: int, j: int|
                0 <= i < j < lowered.len() && (#[trigger] lowered[i]).rule.mapping == Some(
                    lowercase(requested),
                ) ==> (#[trigger] lowered[j]).rule.mapping != Some(lowercase(requested)))
                ==> original_model(a, requested) == original_model(b, requested)
        }),
{
    let name = lowercase(requested);
    let ea = a.entries();
    let eb = b.entries();
    let la = lowered_entries(ea);
    let lb = lowered_entries(eb);
    if forall|i: int, j: int|
        0 <= i < j < la.len() && (#[trigger] la[i]).rule.mapping == Some(name) ==> (
        #[trigger] la[j]).rule.mapping != Some(name) {
        lemma_mapping_found(la, name);
        lemma_mapping_found(lb, name);
        let i = mapping_position(la, name);
        let k = mapping_position(lb, name);
        if i < la.len() {
            assert(ea.contains(ea[i]));
            let m = choose|m: int| 0 <= m < eb.len() && eb[m] == ea[i];
            assert(lb[m].rule.mapping == Some(name));
        }
        if k < lb.len() {
            assert(eb.contains(eb[k]));
            let m = choose|m: int| 0 <= m < ea.len() && ea[m] == eb[k];
            assert(la[m].rule.mapping == Some(name));
            if m < i {
                assert(la[m].rule.mapping != Some(name));
            } else if i < m {
                assert(la[i].rule.mapping == Some(name));
            }
        }
    }
}

} // verus!
