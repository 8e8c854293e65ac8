//! The events of the chat service and the messages of the interface it is offered
//! through.

use vstd::prelude::*;
use vstd::string::StringExecFns;

verus! {

/// The text of an optional string.
pub open spec fn optional_text(text: Option<String>) -> Option<Seq<char>> {
    match text {
        Some(t) => Some(t@),
        None => None,
    }
}

/// The elements of an optional vector.
pub open spec fn optional_items<T>(items: Option<Vec<T>>) -> Option<Seq<T>> {
    match items {
        Some(v) => Some(v@),
        None => None,
    }
}

/// The function that a tool call names.
#[derive(Clone, Debug, PartialEq, Eq)]
pub struct ToolCallFunction {
    pub name: String,
    pub arguments: String,
}

/// A call of a tool that the model asks for.
#[derive(Clone, Debug, PartialEq, Eq)]
pub struct ToolCall {
    pub id: String,
    pub kind: String,
    pub function: ToolCallFunction,
}

/// The kinds of events that the service sends.
#[derive(Clone, Copy, Debug, PartialEq, Eq, Structural)]
pub enum EventKind {
    Text,
    ReplaceResponse,
    Json,
    Error,
    Done,
}

/// An event of the service, with the parts that its kind may carry.
#[derive(Clone, Debug, PartialEq, Eq)]
pub struct Event {
    pub kind: EventKind,
    pub text: Option<String>,
    pub error: Option<String>,
    pub tool_calls: Option<Vec<ToolCall>>,
}

/// What one look at the stream of events brings.
#[derive(Clone, Debug, PartialEq, Eq)]
pub enum StreamItem {
    /// An event.
    Event(Event),
    /// An event could not be received.
    Failed,
    /// The stream has ended.
    Ended,
}

/// The part of an answer that a chunk adds.
#[derive(Clone, Debug, PartialEq, Eq)]
pub struct Delta {
    pub role: Option<String>,
    pub content: Option<String>,
    pub refusal: Option<String>,
    pub tool_calls: Option<Vec<ToolCall>>,
}

/// One alternative of a chunk.
#[derive(Clone, Debug, PartialEq, Eq)]
pub struct Choice {
    pub index: u32,
    pub delta: Delta,
    pub finish_reason: Option<String>,
}

/// A piece of a streamed answer.
#[derive(Clone, Debug, PartialEq, Eq)]
pub struct ChatCompletionChunk {
    pub id: String,
    pub object: String,
    pub created: i64,
    pub model: String,
    pub choices: Vec<Choice>,
}

/// The message of a complete answer.
#[derive(Clone, Debug, PartialEq, Eq)]
pub struct CompletionMessage {
    pub role: String,
    pub content: String,
    pub refusal: Option<String>,
    pub tool_calls: Option<Vec<ToolCall>>,
}

/// One alternative of a complete answer. Token probabilities are never reported.
#[derive(Clone, Debug, PartialEq, Eq)]
pub struct CompletionChoice {
    pub index: u32,
    pub message: CompletionMessage,
    pub logprobs: Option<()>,
    pub finish_reason: Option<String>,
}

/// A complete answer. Token counts are never reported.
#[derive(Clone, Debug, PartialEq, Eq)]
pub struct ChatCompletionResponse {
    pub id: String,
    pub object: String,
    pub created: i64,
    pub model: String,
    pub choices: Vec<CompletionChoice>,
    pub usage: Option<()>,
}

/// The contents of a `Delta`.
#[verifier::ext_equal]
pub struct DeltaView {
    pub role: Option<Seq<char>>,
    pub content: Option<Seq<char>>,
    pub refusal: Option<Seq<char>>,
    pub tool_calls: Option<Seq<ToolCall>>,
}

impl View for Delta {
    type V = DeltaView;

    open spec fn view(&self) -> DeltaView {
        DeltaView {
            role: optional_text(self.role),
            content: optional_text(self.content),
            refusal: optional_text(self.refusal),
            tool_calls: optional_items(self.tool_calls),
        }
    }
}

/// The contents of a `Choice`.
#[verifier::ext_equal]
pub struct ChoiceView {
    pub index: u32,
    pub delta: DeltaView,
    pub finish_reason: Option<Seq<char>>,
}

impl View for Choice {
    type V = ChoiceView;

    open spec fn view(&self) -> ChoiceView {
        ChoiceView {
            index: self.index,
            delta: self.delta@,
            finish_reason: optional_text(self.finish_reason),
        }
    }
}

/// The contents of a `ChatCompletionChunk`.
#[verifier::ext_equal]
pub struct ChunkView {
    pub id: Seq<char>,
    pub object: Seq<char>,
    pub created: i64,
    pub model: Seq<char>,
    pub choices: Seq<ChoiceView>,
}

impl View for ChatCompletionChunk {
    type V = ChunkView;

    open spec fn view(&self) -> ChunkView {
        ChunkView {
            id: self.id@,
            object: self.object@,
            created: self.created,
            model: self.model@,
            choices: self.choices@.map_values(|c: Choice| c@),
        }
    }
}

/// The contents of a `CompletionChoice` and its message.
#[verifier::ext_equal]
pub struct CompletionChoiceView {
    pub index: u32,
    pub role: Seq<char>,
    pub content: Seq<char>,
    pub refusal: Option<Seq<char>>,
    pub tool_calls: Option<Seq<ToolCall>>,
    pub logprobs: Option<()>,
    pub finish_reason: Option<Seq<char>>,
}

impl View for CompletionChoice {
    type V = CompletionChoiceView;

    open spec fn view(&self) -> CompletionChoiceView {
        CompletionChoiceView {
            index: self.index,
            role: self.message.role@,
            content: self.message.content@,
            refusal: optional_text(self.message.refusal),
            tool_calls: optional_items(self.message.tool_calls),
            logprobs: self.logprobs,
            finish_reason: optional_text(self.finish_reason),
        }
    }
}

/// The contents of a `ChatCompletionResponse`.
#[verifier::ext_equal]
pub struct ResponseView {
    pub id: Seq<char>,
    pub object: Seq<char>,
    pub created: i64,
    pub model: Seq<char>,
    pub choices: Seq<CompletionChoiceView>,
    pub usage: Option<()>,
}

impl View for ChatCompletionResponse {
    type V = ResponseView;

    open spec fn view(&self) -> ResponseView {
        ResponseView {
            id: self.id@,
            object: self.object@,
            created: self.created,
            model: self.model@,
            choices: self.choices@.map_values(|c: CompletionChoice| c@),
            usage: self.usage,
        }
    }
}

/// The identifier of an answer.
pub open spec fn completion_id_text(id: Seq<char>) -> Seq<char> {
    "chatcmpl-"@ + id
}

/// The identifier of an answer, made of the random part `id`.
pub fn completion_id(id: &str) -> (r: String)
    ensures
        r@ == completion_id_text(id@),
{
    let mut out = "chatcmpl-".to_string();
    out.append(id);
    out
}

/// The chunk with the single alternative made of `delta` and `finish_reason`.
pub open spec fn single_chunk(
    id: Seq<char>,
    created: i64,
    model: Seq<char>,
    delta: DeltaView,
    finish_reason: Option<Seq<char>>,
) -> ChunkView {
    ChunkView {
        id: completion_id_text(id),
        object: "chat.completion.chunk"@,
        created,
        model,
        choices: seq![ChoiceView { index: 0, delta, finish_reason }],
    }
}

/// The chunk that carries text. The one that carries neither text nor a reason to
/// finish opens the answer and names the role instead.
pub open spec fn text_chunk(
    id: Seq<char>,
    created: i64,
    model: Seq<char>,
    content: Seq<char>,
    finish_reason: Option<Seq<char>>,
) -> ChunkView {
    let opens = content.len() == 0 && finish_reason is None;
    single_chunk(
        id,
        created,
        model,
        DeltaView {
            role: if opens { Some("assistant"@) } else { None },
            content: if opens { None } else { Some(content) },
            refusal: None,
            tool_calls: None,
        },
        finish_reason,
    )
}

/// The chunk that carries tool calls.
pub open spec fn tool_chunk(
    id: Seq<char>,
    created: i64,
    model: Seq<char>,
    tool_calls: Seq<ToolCall>,
) -> ChunkView {
    single_chunk(
        id,
        created,
        model,
        DeltaView {
            role: Some("assistant"@),
            content: None,
            refusal: None,
            tool_calls: Some(tool_calls),
        },
        Some("tool_calls"@),
    )
}

fn chunk_of(
    id: &str,
    created: i64,
    model: &str,
    delta: Delta,
    finish_reason: Option<String>,
) -> (r: ChatCompletionChunk)
    ensures
        r@ == single_chunk(id@, created, model@, delta@, optional_text(finish_reason)),
{
    let mut choices: Vec<Choice> = Vec::new();
    choices.push(Choice { index: 0, delta, finish_reason });
    let r = ChatCompletionChunk {
        id: completion_id(id),
        object: "chat.completion.chunk".to_string(),
        created,
        model: model.to_string(),
        choices,
    };
    assert(r@.choices =~= seq![
        ChoiceView {
            index: 0,
            delta: delta@,
            finish_reason: optional_text(finish_reason),
        },
    ]);
    r
}

/// The chunk that carries `content`.
pub fn create_stream_chunk(
    id: &str,
    created: i64,
    model: &str,
    content: &str,
    finish_reason: Option<String>,
) -> (r: ChatCompletionChunk)
    ensures
        r@ == text_chunk(id@, created, model@, content@, optional_text(finish_reason)),
{
    let delta = if content.is_empty() && finish_reason.is_none() {
        Delta {
            role: Some("assistant".to_string()),
            content: None,
            refusal: None,
            tool_calls: None,
        }
    } else {
        Delta { role: None, content: Some(content.to_string()), refusal: None, tool_calls: None }
    };
    chunk_of(id, created, model, delta, finish_reason)
}

/// The chunk that carries `tool_calls`.
pub fn create_tool_chunk(id: &str, created: i64, model: &str, tool_calls: Vec<ToolCall>) -> (r:
    ChatCompletionChunk)
    ensures
        r@ == tool_chunk(id@, created, model@, tool_calls@),
{
    let delta = Delta {
        role: Some("assistant".to_string()),
        content: None,
        refusal: None,
        tool_calls: Some(tool_calls),
    };
    chunk_of(id, created, model, delta, Some("tool_calls".to_string()))
}

} // verus!
