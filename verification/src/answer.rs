//! Answers that are sent in one piece.

use vstd::prelude::*;
use vstd::string::StringExecFns;

use crate::errors::{service_error_reply, service_error_view, ErrorReply, ErrorReplyView};
use crate::events::{empty_scan, event_views, scan_events, scan_initial, ScanView};
use crate::identity::{is_fresh, AnswerIdentity, IdentityView};
use crate::reasoning::{format_reasoning_content, rewritten};
use crate::replace::{CollectorView, ItemView, ReplaceCollector};
use crate::types::{
    completion_id, completion_id_text, ChatCompletionResponse, CompletionChoice, CompletionChoiceView,
    CompletionMessage, Event, EventKind, ResponseView, StreamItem, ToolCall,
};

verus! {

/// A complete answer: its reasoning rewritten, and with it the tool calls, where there
/// are any.
pub open spec fn completion_view(
    identity: IdentityView,
    content: Seq<char>,
    tool_calls: Seq<ToolCall>,
) -> ResponseView {
    ResponseView {
        id: completion_id_text(identity.id),
        object: "chat.completion"@,
        created: identity.created,
        model: identity.model,
        choices: seq![
            CompletionChoiceView {
                index: 0,
                role: "assistant"@,
                content: rewritten(content),
                refusal: None,
                tool_calls: if tool_calls.len() == 0 {
                    None
                } else {
                    Some(tool_calls)
                },
                logprobs: None,
                finish_reason: Some(
                    if tool_calls.len() == 0 {
                        "stop"@
                    } else {
                        "tool_calls"@
                    },
                ),
            },
        ],
        usage: None,
    }
}

/// The complete answer with this identity.
pub fn completion(identity: AnswerIdentity, content: &str, tool_calls: Vec<ToolCall>) -> (r:
    ChatCompletionResponse)
    ensures
        r@ == completion_view(identity@, content@, tool_calls@),
{
    let finish_reason = if tool_calls.len() > 0 {
        "tool_calls".to_string()
    } else {
        "stop".to_string()
    };
    let message = CompletionMessage {
        role: "assistant".to_string(),
        content: format_reasoning_content(content),
        refusal: None,
        tool_calls: if tool_calls.len() == 0 {
            None
        } else {
            Some(tool_calls)
        },
    };
    let mut choices: Vec<CompletionChoice> = Vec::new();
    choices.push(
        CompletionChoice { index: 0, message, logprobs: None, finish_reason: Some(finish_reason) },
    );
    let r = ChatCompletionResponse {
        id: completion_id(identity.id.as_str()),
        object: "chat.completion".to_string(),
        created: identity.created,
        model: identity.model,
        choices,
        usage: None,
    };
    assert(r@.choices =~= completion_view(identity@, content@, tool_calls@).choices);
    r
}

/// What has come of an answer that is sent in one piece.
#[derive(Debug)]
pub struct AnswerCollector {
    pub content: String,
    pub tool_calls: Vec<ToolCall>,
}

/// The contents of an `AnswerCollector`.
#[verifier::ext_equal]
pub struct AnswerView {
    pub content: Seq<char>,
    pub tool_calls: Seq<ToolCall>,
}

impl View for AnswerCollector {
    type V = AnswerView;

    open spec fn view(&self) -> AnswerView {
        AnswerView { content: self.content@, tool_calls: self.tool_calls@ }
    }
}

/// How an answer goes on.
#[derive(Debug)]
pub enum Progress {
    /// More is to come.
    Continue,
    /// It is complete.
    Finished,
    /// It failed, and this is the reply.
    Failed(ErrorReply),
}

/// The contents of a `Progress`.
#[verifier::ext_equal]
pub enum ProgressView {
    Continue,
    Finished,
    Failed(ErrorReplyView),
}

impl View for Progress {
    type V = ProgressView;

    open spec fn view(&self) -> ProgressView {
        match self {
            Progress::Continue => ProgressView::Continue,
            Progress::Finished => ProgressView::Finished,
            Progress::Failed(reply) => ProgressView::Failed(reply@),
        }
    }
}

/// What one item adds to an answer. Replacements do not count any more.
pub open spec fn gather(answer: AnswerView, item: ItemView) -> AnswerView {
    match item {
        ItemView::Event(event) => AnswerView {
            content: if event.kind == EventKind::Text && event.text is Some {
                answer.content + event.text->0
            } else {
                answer.content
            },
            tool_calls: if event.kind == EventKind::Json && event.tool_calls is Some {
                answer.tool_calls + event.tool_calls->0
            } else {
                answer.tool_calls
            },
        },
        _ => answer,
    }
}

/// How an answer goes on behind an item. What cannot be received ends it.
pub open spec fn progress(item: ItemView) -> ProgressView {
    match item {
        ItemView::Event(event) => match event.kind {
            EventKind::Done => ProgressView::Finished,
            EventKind::Error => match event.error {
                Some(text) => ProgressView::Failed(service_error_view(text)),
                None => ProgressView::Continue,
            },
            _ => ProgressView::Continue,
        },
        _ => ProgressView::Finished,
    }
}

impl AnswerCollector {
    /// Takes in one item more, and says how the answer goes on.
    pub fn observe(&mut self, item: StreamItem) -> (r: Progress)
        ensures
            final(self)@ == gather(old(self)@, item@),
            r@ == progress(item@),
    {
        let r = match item {
            StreamItem::Event(event) => {
                let Event { kind, text, error, tool_calls } = event;
                match kind {
                    EventKind::Text => {
                        if let Some(t) = text {
                            self.content.append(t.as_str());
                        }
                        Progress::Continue
                    },
                    EventKind::Json => {
                        if let Some(mut calls) = tool_calls {
                            self.tool_calls.append(&mut calls);
                        }
                        Progress::Continue
                    },
                    EventKind::Error => match error {
                        Some(text) => Progress::Failed(service_error_reply(text.as_str())),
                        None => Progress::Continue,
                    },
                    EventKind::Done => Progress::Finished,
                    EventKind::ReplaceResponse => Progress::Continue,
                }
            },
            StreamItem::Failed => Progress::Finished,
            StreamItem::Ended => Progress::Finished,
        };
        assert(self@ =~= gather(old(self)@, item@));
        r
    }

    /// The complete answer of `model`, with an identity of its own.
    pub fn complete(self, model: &str) -> (r: ChatCompletionResponse)
        ensures
            exists|identity: IdentityView| #[trigger]
                is_fresh(identity, model@) && r@ == completion_view(
                    identity,
                    self@.content,
                    self@.tool_calls,
                ),
    {
        let identity = AnswerIdentity::fresh(model);
        assert(is_fresh(identity@, model@));
        completion(identity, self.content.as_str(), self.tool_calls)
    }
}

/// The complete answer of `model` that was replaced as a whole, with an identity of its
/// own. It has no tool calls.
pub fn complete_replaced(collector: ReplaceCollector, model: &str) -> (r: ChatCompletionResponse)
    ensures
        exists|identity: IdentityView| #[trigger]
            is_fresh(identity, model@) && r@ == completion_view(
                identity,
                crate::replace::longer_text(collector@.replaced, collector@.accumulated),
                Seq::empty(),
            ),
{
    let identity = AnswerIdentity::fresh(model);
    assert(is_fresh(identity@, model@));
    let content = collector.handle_replace_response();
    let tool_calls: Vec<ToolCall> = Vec::new();
    completion(identity, content.as_str(), tool_calls)
}

/// How an answer that is sent in one piece is read.
#[derive(Debug)]
pub enum AnswerStart {
    /// Not at all: it failed, and this is the reply.
    Failed(ErrorReply),
    /// As one that is replaced as a whole.
    Replace(ReplaceCollector),
    /// As one that grows.
    Collect(AnswerCollector),
}

/// The contents of an `AnswerStart`.
#[verifier::ext_equal]
pub enum AnswerStartView {
    Failed(ErrorReplyView),
    Replace(CollectorView),
    Collect(AnswerView),
}

impl View for AnswerStart {
    type V = AnswerStartView;

    open spec fn view(&self) -> AnswerStartView {
        match self {
            AnswerStart::Failed(reply) => AnswerStartView::Failed(reply@),
            AnswerStart::Replace(collector) => AnswerStartView::Replace(collector@),
            AnswerStart::Collect(collector) => AnswerStartView::Collect(collector@),
        }
    }
}

/// How an answer that is sent in one piece is read, by what its first events say.
pub open spec fn answer_start(scan: ScanView) -> AnswerStartView {
    match scan.failure {
        Some(text) => AnswerStartView::Failed(service_error_view(text)),
        None => if scan.replace {
            AnswerStartView::Replace(
                CollectorView {
                    replaced: scan.content,
                    accumulated: Seq::empty(),
                    finished: false,
                },
            )
        } else {
            AnswerStartView::Collect(
                AnswerView { content: scan.content, tool_calls: scan.tool_calls },
            )
        },
    }
}

/// How an answer that is sent in one piece is read, by its first events.
pub fn handle_non_stream_response(events: Vec<Event>) -> (r: AnswerStart)
    ensures
        r@ == answer_start(scan_events(empty_scan(), event_views(events@), false)),
{
    let scan = scan_initial(events, false);
    match scan.failure {
        Some(text) => AnswerStart::Failed(service_error_reply(text.as_str())),
        None => if scan.replace {
            AnswerStart::Replace(ReplaceCollector::new(scan.content))
        } else {
            AnswerStart::Collect(
                AnswerCollector { content: scan.content, tool_calls: scan.tool_calls },
            )
        },
    }
}

/// What has come of an answer with `items` more.
pub open spec fn gather_all(answer: AnswerView, items: Seq<ItemView>) -> AnswerView
    decreases items.len(),
{
    if items.len() == 0 {
        answer
    } else {
        gather(gather_all(answer, items.drop_last()), items.last())
    }
}

/// The tool calls among `items`.
pub open spec fn all_tool_calls(items: Seq<ItemView>) -> Seq<ToolCall>
    decreases items.len(),
{
    if items.len() == 0 {
        Seq::empty()
    } else {
        all_tool_calls(items.drop_last()) + (match items.last() {
            ItemView::Event(event) => if event.kind == EventKind::Json && event.tool_calls is Some {
                event.tool_calls->0
            } else {
                Seq::empty()
            },
            _ => Seq::empty(),
        })
    }
}

/// An answer holds all text and all tool calls that have come, in their order.
pub proof fn law_gathers_everything(answer: AnswerView, items: Seq<ItemView>)
    ensures
        gather_all(answer, items) == (AnswerView {
            content: answer.content + crate::replace::all_text(items),
            tool_calls: answer.tool_calls + all_tool_calls(items),
        }),
    decreases items.len(),
{
    let whole = AnswerView {
        content: answer.content + crate::replace::all_text(items),
        tool_calls: answer.tool_calls + all_tool_calls(items),
    };
    if items.len() > 0 {
        law_gathers_everything(answer, items.drop_last());
    }
    assert(gather_all(answer, items) =~= whole);
}

} // verus!
