//! What contracts see of a value is all of the value.

use vstd::prelude::*;

use crate::answer::{AnswerCollector, AnswerStart, AnswerStartView, Progress, ProgressView};
use crate::chat::{ActionView, ChatAction};
use crate::config::{ModelConfig, ModelEntry};
use crate::errors::{ErrorBody, ErrorBodyView, ErrorReply, OpenAIErrorResponse};
use crate::events::{event_views, InitialScan};
use crate::headers::{header_view, header_views, Header, HeaderName};
use crate::identity::AnswerIdentity;
use crate::models::{entry_views, model_views, ModelInfo};
use crate::replace::{ItemView, ReplaceCollector};
use crate::sse::field_views;
use crate::stream::{frame_views, Frame, FrameView, StreamError, StreamStart, StreamStartView};
use crate::types::{
    optional_items, optional_text, ChatCompletionChunk, ChatCompletionResponse, Choice, CompletionChoice, Delta, Event,
    StreamItem, ToolCall,
};

verus! {

/// An optional text or list is seen as what it holds, and as nothing only where there is
/// nothing.
pub proof fn law_optional_values_are_seen(text: String, items: Vec<ToolCall>)
    ensures
        optional_text(Some(text)) == Some(text@),
        optional_text(None) is None,
        optional_items(Some(items)) == Some(items@),
        optional_items(None::<Vec<ToolCall>>) is None,
{
}

/// A list is seen as long as it is, and each of its elements in its place.
pub proof fn law_lists_are_seen_whole(
    models: Seq<ModelInfo>,
    entries: Seq<ModelEntry>,
    events: Seq<Event>,
    headers: Seq<Header>,
    frames: Seq<Frame>,
    fields: Seq<(String, String)>,
    i: int,
)
    ensures
        model_views(models).len() == models.len(),
        0 <= i < models.len() ==> model_views(models)[i] == models[i]@,
        entry_views(entries).len() == entries.len(),
        0 <= i < entries.len() ==> entry_views(entries)[i] == entries[i]@,
        event_views(events).len() == events.len(),
        0 <= i < events.len() ==> event_views(events)[i] == events[i]@,
        header_views(headers).len() == headers.len(),
        0 <= i < headers.len() ==> header_views(headers)[i] == headers[i]@,
        frame_views(frames).len() == frames.len(),
        0 <= i < frames.len() ==> frame_views(frames)[i] == frames[i]@,
        field_views(fields).len() == fields.len(),
        0 <= i < fields.len() ==> field_views(fields)[i] == (fields[i].0@, fields[i].1@),
{
}

/// A model, a rule and an entry are seen with all their fields.
pub proof fn law_models_are_seen(model: ModelInfo, rule: ModelConfig, entry: ModelEntry)
    ensures
        model@.id == model.id@,
        model@.object == model.object@,
        model@.created == model.created,
        model@.owned_by == model.owned_by@,
        rule@.mapping == optional_text(rule.mapping),
        rule@.enable == rule.enable,
        entry@.name == entry.name@,
        entry@.rule == entry.rule@,
{
}

/// An event and what a look at the stream brings are seen with all that they hold.
pub proof fn law_events_are_seen(event: Event, scan: InitialScan)
    ensures
        event@.kind == event.kind,
        event@.text == optional_text(event.text),
        event@.error == optional_text(event.error),
        event@.tool_calls == optional_items(event.tool_calls),
        StreamItem::Event(event)@ == ItemView::Event(event@),
        StreamItem::Failed@ == ItemView::Failed,
        StreamItem::Ended@ == ItemView::Ended,
        scan@.replace == scan.replace,
        scan@.content == scan.content@,
        scan@.tool_calls == scan.tool_calls@,
        scan@.ended == scan.ended,
        scan@.failure == optional_text(scan.failure),
{
}

/// A chunk is seen with all its fields.
pub proof fn law_chunks_are_seen(chunk: ChatCompletionChunk, choice: Choice, delta: Delta, i: int)
    ensures
        chunk@.id == chunk.id@,
        chunk@.object == chunk.object@,
        chunk@.created == chunk.created,
        chunk@.model == chunk.model@,
        chunk@.choices.len() == chunk.choices@.len(),
        0 <= i < chunk.choices@.len() ==> chunk@.choices[i] == chunk.choices@[i]@,
        choice@.index == choice.index,
        choice@.delta == choice.delta@,
        choice@.finish_reason == optional_text(choice.finish_reason),
        delta@.role == optional_text(delta.role),
        delta@.content == optional_text(delta.content),
        delta@.refusal == optional_text(delta.refusal),
        delta@.tool_calls == optional_items(delta.tool_calls),
{
}

/// A complete answer is seen with all its fields.
pub proof fn law_answers_are_seen(answer: ChatCompletionResponse, choice: CompletionChoice, i: int)
    ensures
        answer@.id == answer.id@,
        answer@.object == answer.object@,
        answer@.created == answer.created,
        answer@.model == answer.model@,
        answer@.usage == answer.usage,
        answer@.choices.len() == answer.choices@.len(),
        0 <= i < answer.choices@.len() ==> answer@.choices[i] == answer.choices@[i]@,
        choice@.index == choice.index,
        choice@.role == choice.message.role@,
        choice@.content == choice.message.content@,
        choice@.refusal == optional_text(choice.message.refusal),
        choice@.tool_calls == optional_items(choice.message.tool_calls),
        choice@.logprobs == choice.logprobs,
        choice@.finish_reason == optional_text(choice.finish_reason),
{
}

/// What is collected of an answer, and its identity, are seen with all their fields.
pub proof fn law_collected_answers_are_seen(
    collector: ReplaceCollector,
    answer: AnswerCollector,
    identity: AnswerIdentity,
)
    ensures
        collector@.replaced == collector.replaced@,
        collector@.accumulated == collector.accumulated@,
        collector@.finished == collector.finished,
        answer@.content == answer.content@,
        answer@.tool_calls == answer.tool_calls@,
        identity@.id == identity.id@,
        identity@.created == identity.created,
        identity@.model == identity.model@,
{
}

/// A reply that reports an error is seen with all its fields.
pub proof fn law_error_replies_are_seen(
    reply: ErrorReply,
    response: OpenAIErrorResponse,
    message: String,
)
    ensures
        reply@.status == reply.status,
        reply@.body == reply.body@,
        ErrorBody::Message(message)@ == ErrorBodyView::Message(message@),
        ErrorBody::OpenAI(response)@ == ErrorBodyView::OpenAI(response@),
        response@.message == response.error.message@,
        response@.kind == response.error.kind@,
        response@.code == response.error.code@,
        response@.param == optional_text(response.error.param),
{
}

/// How an answer begins and goes on is seen with all that it holds.
pub proof fn law_ways_of_answers_are_seen(
    reply: ErrorReply,
    collector: ReplaceCollector,
    answer: AnswerCollector,
    identity: AnswerIdentity,
)
    ensures
        Progress::Continue@ == ProgressView::Continue,
        Progress::Finished@ == ProgressView::Finished,
        Progress::Failed(reply)@ == ProgressView::Failed(reply@),
        AnswerStart::Failed(reply)@ == AnswerStartView::Failed(reply@),
        AnswerStart::Replace(collector)@ == AnswerStartView::Replace(collector@),
        AnswerStart::Collect(answer)@ == AnswerStartView::Collect(answer@),
        StreamStart::Failed(reply)@ == StreamStartView::Failed(reply@),
        StreamStart::Replace(identity, collector)@ == StreamStartView::Replace(
            identity@,
            collector@,
        ),
{
}

/// A frame, a header and what is done with a request are seen with all that they hold.
pub proof fn law_frames_headers_and_actions_are_seen(
    chunk: ChatCompletionChunk,
    error: StreamError,
    header: Header,
    name: HeaderName,
    value: Seq<char>,
    key: String,
    model: String,
    reply: ErrorReply,
)
    ensures
        Frame::Chunk(chunk)@ == FrameView::Chunk(chunk@),
        Frame::Error(error)@ == FrameView::Error(error.message@, error.kind@, error.code@),
        Frame::Done@ == FrameView::Done,
        header@.name == header.name,
        header@.value == header.value@,
        header_view(name, value).name == name,
        header_view(name, value).value == value,
        ChatAction::ReadBody@ == ActionView::ReadBody,
        (ChatAction::Send { access_key: key, model })@ == (ActionView::Send {
            access_key: key@,
            model: model@,
        }),
        ChatAction::StreamAnswer(model)@ == ActionView::StreamAnswer(model@),
        ChatAction::CompleteAnswer(model)@ == ActionView::CompleteAnswer(model@),
        ChatAction::Reply(reply)@ == ActionView::Reply(reply@),
        ChatAction::Nothing@ == ActionView::Nothing,
{
}

} // verus!
