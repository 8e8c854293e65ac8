//! Answers that are streamed.

use vstd::prelude::*;

use crate::answer::all_tool_calls;
use crate::errors::{service_error_reply, service_error_view, ErrorReply, ErrorReplyView};
use crate::events::{empty_scan, event_views, scan_events, scan_initial, EventView, ScanView};
use crate::identity::{is_fresh, AnswerIdentity, IdentityView};
use crate::reasoning::{format_reasoning_content, rewritten};
use crate::replace::{added_text, all_text, longer_text, CollectorView, ItemView, ReplaceCollector};
use crate::thinking_stream::{
    closing_output, law_read_in_two_pieces, read, streamed, PoeThinkingStreamProcessor, ThinkMode,
};
use crate::types::{
    create_stream_chunk, create_tool_chunk, text_chunk, tool_chunk, ChatCompletionChunk, ChunkView, Event,
    EventKind, StreamItem, ToolCall,
};

verus! {

/// The report of an error in the midst of a stream.
#[derive(Clone, Debug, PartialEq, Eq)]
pub struct StreamError {
    pub message: String,
    pub kind: String,
    pub code: String,
}

/// One message of a stream.
#[derive(Clone, Debug, PartialEq, Eq)]
pub enum Frame {
    /// A piece of the answer.
    Chunk(ChatCompletionChunk),
    /// The report of an error.
    Error(StreamError),
    /// The mark that nothing follows.
    Done,
}

/// The contents of a `Frame`.
#[verifier::ext_equal]
pub enum FrameView {
    Chunk(ChunkView),
    Error(Seq<char>, Seq<char>, Seq<char>),
    Done,
}

impl View for Frame {
    type V = FrameView;

    open spec fn view(&self) -> FrameView {
        match self {
            Frame::Chunk(chunk) => FrameView::Chunk(chunk@),
            Frame::Error(error) => FrameView::Error(error.message@, error.kind@, error.code@),
            Frame::Done => FrameView::Done,
        }
    }
}

/// The contents of a list of frames.
pub open spec fn frame_views(frames: Seq<Frame>) -> Seq<FrameView> {
    frames.map_values(|f: Frame| f@)
}

/// The frame that carries text.
pub open spec fn text_frame(
    identity: IdentityView,
    content: Seq<char>,
    finish_reason: Option<Seq<char>>,
) -> FrameView {
    FrameView::Chunk(
        text_chunk(identity.id, identity.created, identity.model, content, finish_reason),
    )
}

fn content_frame(identity: &AnswerIdentity, content: &str, finish_reason: Option<String>) -> (r:
    Frame)
    ensures
        r@ == text_frame(identity@, content@, crate::types::optional_text(finish_reason)),
{
    Frame::Chunk(
        create_stream_chunk(
            identity.id.as_str(),
            identity.created,
            identity.model.as_str(),
            content,
            finish_reason,
        ),
    )
}

/// The frame that carries tool calls.
pub open spec fn tool_frame(identity: IdentityView, tool_calls: Seq<ToolCall>) -> FrameView {
    FrameView::Chunk(tool_chunk(identity.id, identity.created, identity.model, tool_calls))
}

fn calls_frame(identity: &AnswerIdentity, tool_calls: Vec<ToolCall>) -> (r: Frame)
    ensures
        r@ == tool_frame(identity@, tool_calls@),
{
    Frame::Chunk(
        create_tool_chunk(
            identity.id.as_str(),
            identity.created,
            identity.model.as_str(),
            tool_calls,
        ),
    )
}

/// A stream in which the answer grows.
pub struct AnswerStream {
    identity: AnswerIdentity,
    processor: PoeThinkingStreamProcessor,
    done: bool,
}

/// The contents of an `AnswerStream`.
#[verifier::ext_equal]
pub struct StreamView {
    pub identity: IdentityView,
    pub mode: ThinkMode,
    pub buffered: Seq<char>,
    pub done: bool,
}

/// The stream behind its end.
pub open spec fn ended_stream(stream: StreamView) -> StreamView {
    StreamView { mode: ThinkMode::Idle, buffered: Seq::empty(), done: true, ..stream }
}

/// The frames that end an answer: what was held back of it, the reason to finish, and
/// the mark that nothing follows.
pub open spec fn closing_frames(identity: IdentityView, held_back: Seq<char>) -> Seq<FrameView> {
    let stop = seq![text_frame(identity, Seq::empty(), Some("stop"@)), FrameView::Done];
    if held_back.len() == 0 {
        stop
    } else {
        seq![text_frame(identity, held_back, None)] + stop
    }
}

/// Appends the frames that end an answer.
fn append_closing_frames(frames: &mut Vec<Frame>, identity: &AnswerIdentity, held_back: &str)
    ensures
        frame_views(final(frames)@) == frame_views(old(frames)@) + closing_frames(
            identity@,
            held_back@,
        ),
{
    if !held_back.is_empty() {
        frames.push(content_frame(identity, held_back, None));
    }
    frames.push(content_frame(identity, "", Some("stop".to_string())));
    frames.push(Frame::Done);
    proof {
        reveal_strlit("");
        assert(""@ =~= Seq::empty());
        assert(frame_views(frames@) =~= frame_views(old(frames)@) + closing_frames(
            identity@,
            held_back@,
        ));
    }
}

/// The stream of an answer whose first events bring the text `content`, and its end
/// where `ended`.
pub open spec fn begun_stream(identity: IdentityView, content: Seq<char>, ended: bool) -> StreamView {
    let reading = read(ThinkMode::Idle, content);
    let stream = StreamView {
        identity,
        mode: reading.mode,
        buffered: reading.rest,
        done: false,
    };
    if ended {
        ended_stream(stream)
    } else {
        stream
    }
}

/// The frames for the first events of an answer: their text as far as its lines are
/// complete, their tool calls, where there are any, and the frames that end the answer,
/// where it has ended with them.
pub open spec fn first_frames(
    identity: IdentityView,
    content: Seq<char>,
    tool_calls: Seq<ToolCall>,
    ended: bool,
) -> Seq<FrameView> {
    let reading = read(ThinkMode::Idle, content);
    let text = seq![text_frame(identity, reading.output, None)];
    let calls = if tool_calls.len() > 0 {
        seq![tool_frame(identity, tool_calls)]
    } else {
        Seq::empty()
    };
    let closing = if ended {
        closing_frames(identity, closing_output(reading.mode, reading.rest))
    } else {
        Seq::empty()
    };
    text + calls + closing
}

/// What an item does to a stream: how the stream stands behind it, and the frames to
/// send, or none where the stream breaks off.
pub open spec fn advance_view(stream: StreamView, item: ItemView) -> (
    StreamView,
    Option<Seq<FrameView>>,
) {
    if stream.done {
        (stream, None)
    } else {
        match item {
            ItemView::Event(event) => match event.kind {
                EventKind::Text => match event.text {
                    Some(text) => {
                        let reading = read(stream.mode, stream.buffered + text);
                        (
                            StreamView { mode: reading.mode, buffered: reading.rest, ..stream },
                            Some(
                                if reading.output.len() == 0 {
                                    Seq::empty()
                                } else {
                                    seq![text_frame(stream.identity, reading.output, None)]
                                },
                            ),
                        )
                    },
                    None => (stream, Some(Seq::empty())),
                },
                EventKind::Json => match event.tool_calls {
                    Some(calls) => (
                        stream,
                        Some(seq![tool_frame(stream.identity, calls)]),
                    ),
                    None => (stream, Some(Seq::empty())),
                },
                EventKind::Error => match event.error {
                    Some(text) => (
                        ended_stream(stream),
                        Some(
                            seq![
                                FrameView::Error(text, "stream_error"@, "stream_error"@),
                                FrameView::Done,
                            ],
                        ),
                    ),
                    None => (StreamView { done: true, ..stream }, Some(Seq::empty())),
                },
                EventKind::Done => (
                    ended_stream(stream),
                    Some(
                        closing_frames(
                            stream.identity,
                            closing_output(stream.mode, stream.buffered),
                        ),
                    ),
                ),
                EventKind::ReplaceResponse => (stream, Some(Seq::empty())),
            },
            _ => (stream, None),
        }
    }
}

impl AnswerStream {
    /// How the stream stands.
    pub closed spec fn state(&self) -> StreamView {
        StreamView {
            identity: self.identity@,
            mode: self.processor.mode(),
            buffered: self.processor.buffered(),
            done: self.done,
        }
    }

    /// Whether the stream has ended, so that no further item is of interest.
    pub fn is_done(&self) -> (r: bool)
        ensures
            r == self.state().done,
    {
        self.done
    }

    /// Begins a stream with what its first events said, and returns its first frames.
    fn begin(identity: AnswerIdentity, content: &str, tool_calls: Vec<ToolCall>, ended: bool) -> (r:
        (AnswerStream, Vec<Frame>))
        ensures
            r.0.state() == begun_stream(identity@, content@, ended),
            frame_views(r.1@) == first_frames(identity@, content@, tool_calls@, ended),
    {
        let mut processor = PoeThinkingStreamProcessor::new();
        assert(processor.buffered() + content@ =~= content@);
        let ghost reading = read(ThinkMode::Idle, content@);
        let text = processor.process_chunk(content);
        let mut frames: Vec<Frame> = Vec::new();
        frames.push(content_frame(&identity, text.as_str(), None));
        if tool_calls.len() > 0 {
            frames.push(calls_frame(&identity, tool_calls));
        }
        assert(frame_views(frames@) =~= seq![text_frame(identity@, reading.output, None)] + (
        if tool_calls@.len() > 0 {
            seq![tool_frame(identity@, tool_calls@)]
        } else {
            Seq::empty()
        }));
        if ended {
            let output = processor.finalize();
            append_closing_frames(&mut frames, &identity, output.as_str());
        }
        let stream = AnswerStream { identity, processor, done: ended };
        assert(stream.state() =~= begun_stream(identity@, content@, ended));
        assert(frame_views(frames@) =~= first_frames(identity@, content@, tool_calls@, ended));
        (stream, frames)
    }

    /// Takes in one item more, and returns the frames to send for it, or none where the
    /// stream breaks off.
    pub fn advance(&mut self, item: StreamItem) -> (r: Option<Vec<Frame>>)
        ensures
            final(self).state() == advance_view(old(self).state(), item@).0,
            match r {
                Some(frames) => advance_view(old(self).state(), item@).1 == Some(
                    frame_views(frames@),
                ),
                None => advance_view(old(self).state(), item@).1 is None,
            },
    {
        if self.done {
            return None;
        }
        let mut frames: Vec<Frame> = Vec::new();
        match item {
            StreamItem::Event(event) => {
                let Event { kind, text, error, tool_calls } = event;
                match kind {
                    EventKind::Text => {
                        if let Some(t) = text {
                            let output = self.processor.process_chunk(t.as_str());
                            if !output.as_str().is_empty() {
                                frames.push(
                                    content_frame(&self.identity, output.as_str(), None),
                                );
                            }
                        }
                    },
                    EventKind::Json => {
                        if let Some(calls) = tool_calls {
                            frames.push(calls_frame(&self.identity, calls));
                        }
                    },
                    EventKind::Error => {
                        if let Some(message) = error {
                            let _ = self.processor.finalize();
                            frames.push(
                                Frame::Error(
                                    StreamError {
                                        message,
                                        kind: "stream_error".to_string(),
                                        code: "stream_error".to_string(),
                                    },
                                ),
                            );
                            frames.push(Frame::Done);
                        }
                        self.done = true;
                    },
                    EventKind::Done => {
                        let output = self.processor.finalize();
                        append_closing_frames(&mut frames, &self.identity, output.as_str());
                        self.done = true;
                    },
                    EventKind::ReplaceResponse => {},
                }
            },
            StreamItem::Failed => {
                return None;
            },
            StreamItem::Ended => {
                return None;
            },
        }
        assert(self.state() =~= advance_view(old(self).state(), item@).0);
        assert(frame_views(frames@) =~= advance_view(old(self).state(), item@).1->0);
        Some(frames)
    }
}

/// The frames of an answer that was replaced as a whole: its text, the reason to
/// finish, and the mark that nothing follows.
pub open spec fn replaced_frames(identity: IdentityView, content: Seq<char>) -> Seq<FrameView> {
    seq![
        text_frame(identity, rewritten(content), None),
        text_frame(identity, Seq::empty(), Some("stop"@)),
        FrameView::Done,
    ]
}

/// The frames of an answer that was replaced as a whole.
pub fn complete_replaced_stream(identity: &AnswerIdentity, collector: ReplaceCollector) -> (r: Vec<
    Frame,
>)
    ensures
        frame_views(r@) == replaced_frames(
            identity@,
            longer_text(collector@.replaced, collector@.accumulated),
        ),
{
    let content = collector.handle_replace_response();
    let text = format_reasoning_content(content.as_str());
    let mut frames: Vec<Frame> = Vec::new();
    frames.push(content_frame(identity, text.as_str(), None));
    frames.push(content_frame(identity, "", Some("stop".to_string())));
    frames.push(Frame::Done);
    proof {
        reveal_strlit("");
        assert(""@ =~= Seq::empty());
        assert(frame_views(frames@) =~= replaced_frames(identity@, content@));
    }
    frames
}

/// How an answer is streamed.
pub enum StreamStart {
    /// Not at all: it failed, and this is the reply.
    Failed(ErrorReply),
    /// In one piece, once it is complete, for the service replaces it as a whole.
    Replace(AnswerIdentity, ReplaceCollector),
    /// As it grows, beginning with these frames.
    Grow(AnswerStream, Vec<Frame>),
}

/// The contents of a `StreamStart`.
#[verifier::ext_equal]
pub enum StreamStartView {
    Failed(ErrorReplyView),
    Replace(IdentityView, CollectorView),
    Grow(StreamView, Seq<FrameView>),
}

impl View for StreamStart {
    type V = StreamStartView;

    open spec fn view(&self) -> StreamStartView {
        match self {
            StreamStart::Failed(reply) => StreamStartView::Failed(reply@),
            StreamStart::Replace(identity, collector) => StreamStartView::Replace(
                identity@,
                collector@,
            ),
            StreamStart::Grow(stream, frames) => StreamStartView::Grow(
                stream.state(),
                frame_views(frames@),
            ),
        }
    }
}

/// How an answer is streamed, by what its first events say.
pub open spec fn stream_start(identity: IdentityView, scan: ScanView) -> StreamStartView {
    match scan.failure {
        Some(text) => StreamStartView::Failed(service_error_view(text)),
        None => if scan.replace {
            StreamStartView::Replace(
                identity,
                CollectorView {
                    replaced: scan.content,
                    accumulated: Seq::empty(),
                    finished: false,
                },
            )
        } else {
            StreamStartView::Grow(
                begun_stream(identity, scan.content, scan.ended),
                first_frames(identity, scan.content, scan.tool_calls, scan.ended),
            )
        },
    }
}

/// How the answer with this identity is streamed, by its first events.
pub fn start_stream(identity: AnswerIdentity, events: Vec<Event>) -> (r: StreamStart)
    ensures
        r@ == stream_start(identity@, scan_events(empty_scan(), event_views(events@), true)),
{
    let scan = scan_initial(events, true);
    match scan.failure {
        Some(text) => StreamStart::Failed(service_error_reply(text.as_str())),
        None => if scan.replace {
            StreamStart::Replace(identity, ReplaceCollector::new(scan.content))
        } else {
            let (stream, frames) = AnswerStream::begin(
                identity,
                scan.content.as_str(),
                scan.tool_calls,
                scan.ended,
            );
            StreamStart::Grow(stream, frames)
        },
    }
}

/// How a new answer of `model` is streamed, by its first events.
pub fn handle_stream_response(model: &str, events: Vec<Event>) -> (r: StreamStart)
    ensures
        exists|identity: IdentityView| #[trigger]
            is_fresh(identity, model@) && r@ == stream_start(
                identity,
                scan_events(empty_scan(), event_views(events@), true),
            ),
{
    let identity = AnswerIdentity::fresh(model);
    assert(is_fresh(identity@, model@));
    start_stream(identity, events)
}

/// Behind its end a stream sends nothing and stays as it is.
pub proof fn law_nothing_follows_the_end(stream: StreamView, item: ItemView)
    requires
        stream.done,
    ensures
        advance_view(stream, item) == (stream, None::<Seq<FrameView>>),
{
}

/// The mark that nothing follows is sent only with the end of a stream, and as the last
/// of its frames.
pub proof fn law_done_is_last(stream: StreamView, item: ItemView, k: int)
    requires
        advance_view(stream, item).1 is Some,
        0 <= k < advance_view(stream, item).1->0.len(),
        advance_view(stream, item).1->0[k] == FrameView::Done,
    ensures
        advance_view(stream, item).0.done,
        k == advance_view(stream, item).1->0.len() - 1,
{
}

/// An answer that the service ends, or fails with a reason, is marked as ended.
pub proof fn law_end_is_marked(stream: StreamView, event: EventView)
    requires
        !stream.done,
        event.kind == EventKind::Done || (event.kind == EventKind::Error && event.error is Some),
    ensures
        ({
            let sent = advance_view(stream, ItemView::Event(event));
            sent.0.done && sent.1 is Some && sent.1->0.len() > 0 && sent.1->0.last()
                == FrameView::Done
        }),
{
}

/// An answer keeps its identity, and every piece of it carries it.
pub proof fn law_pieces_carry_the_identity(stream: StreamView, item: ItemView, k: int)
    requires
        advance_view(stream, item).1 is Some,
        0 <= k < advance_view(stream, item).1->0.len(),
    ensures
        advance_view(stream, item).0.identity == stream.identity,
        advance_view(stream, item).1->0[k] matches FrameView::Chunk(chunk) ==> {
            &&& chunk.id == crate::types::completion_id_text(stream.identity.id)
            &&& chunk.created == stream.identity.created
            &&& chunk.model == stream.identity.model
        },
{
}

/// The text that a frame carries.
pub open spec fn frame_text(frame: FrameView) -> Seq<char> {
    match frame {
        FrameView::Chunk(chunk) => match chunk.choices[0].delta.content {
            Some(content) => content,
            None => Seq::empty(),
        },
        _ => Seq::empty(),
    }
}

/// The text that frames carry, one behind the other.
pub open spec fn frames_text(frames: Seq<FrameView>) -> Seq<char>
    decreases frames.len(),
{
    if frames.len() == 0 {
        Seq::empty()
    } else {
        frames_text(frames.drop_last()) + frame_text(frames.last())
    }
}

/// Whether an answer goes on behind an item: it is an event that neither ends the
/// answer nor reports an error.
pub open spec fn goes_on(item: ItemView) -> bool {
    match item {
        ItemView::Event(event) => event.kind != EventKind::Done && event.kind != EventKind::Error,
        _ => false,
    }
}

/// How a stream stands behind a number of items, and all frames that it has sent.
pub open spec fn send_all(stream: StreamView, items: Seq<ItemView>) -> (
    StreamView,
    Seq<FrameView>,
)
    decreases items.len(),
{
    if items.len() == 0 {
        (stream, Seq::empty())
    } else {
        let before = send_all(stream, items.drop_last());
        let last = advance_view(before.0, items.last());
        (last.0, before.1 + last.1->0)
    }
}

proof fn lemma_frames_text_join(a: Seq<FrameView>, b: Seq<FrameView>)
    ensures
        frames_text(a + b) == frames_text(a) + frames_text(b),
    decreases b.len(),
{
    if b.len() == 0 {
        assert(a + b =~= a);
        assert(frames_text(a) + frames_text(b) =~= frames_text(a));
    } else {
        assert((a + b).drop_last() =~= a + b.drop_last());
        lemma_frames_text_join(a, b.drop_last());
        assert(frames_text(a) + frames_text(b.drop_last()) + frame_text(b.last()) =~= frames_text(
            a,
        ) + frames_text(b));
    }
}

proof fn lemma_frames_text_one(frame: FrameView)
    ensures
        frames_text(seq![frame]) == frame_text(frame),
{
    assert(seq![frame].drop_last() =~= Seq::empty());
    assert(frames_text(seq![frame].drop_last()) =~= Seq::empty());
    assert(frames_text(seq![frame]) =~= frame_text(frame));
}

proof fn lemma_send_one(stream: StreamView, so_far: Seq<char>, item: ItemView)
    requires
        !stream.done,
        goes_on(item),
        stream.mode == read(ThinkMode::Idle, so_far).mode,
        stream.buffered == read(ThinkMode::Idle, so_far).rest,
    ensures
        ({
            let sent = advance_view(stream, item);
            let reading = read(ThinkMode::Idle, so_far + added_text(item));
            &&& sent.0 == (StreamView { mode: reading.mode, buffered: reading.rest, ..stream })
            &&& read(ThinkMode::Idle, so_far).output + frames_text(sent.1->0) == reading.output
        }),
{
    let sent = advance_view(stream, item);
    let text = added_text(item);
    let before = read(ThinkMode::Idle, so_far);
    let event = item->Event_0;
    if event.kind == EventKind::Text && event.text is Some {
        law_read_in_two_pieces(ThinkMode::Idle, so_far, text);
        let later = read(stream.mode, stream.buffered + text);
        if later.output.len() > 0 {
            lemma_frames_text_one(text_frame(stream.identity, later.output, None));
        }
        assert(frames_text(sent.1->0) =~= later.output);
    } else {
        assert(so_far + text =~= so_far);
        if event.kind == EventKind::Json && event.tool_calls is Some {
            lemma_frames_text_one(sent.1->0[0]);
            assert(sent.1->0 =~= seq![sent.1->0[0]]);
        }
        assert(frames_text(sent.1->0) =~= Seq::empty());
        assert(before.output + frames_text(sent.1->0) =~= before.output);
    }
}

proof fn lemma_send_all(stream: StreamView, content: Seq<char>, items: Seq<ItemView>)
    requires
        !stream.done,
        stream.mode == read(ThinkMode::Idle, content).mode,
        stream.buffered == read(ThinkMode::Idle, content).rest,
        forall|i: int| 0 <= i < items.len() ==> goes_on(#[trigger] items[i]),
    ensures
        ({
            let sent = send_all(stream, items);
            let reading = read(ThinkMode::Idle, content + all_text(items));
            &&& sent.0 == (StreamView { mode: reading.mode, buffered: reading.rest, ..stream })
            &&& read(ThinkMode::Idle, content).output + frames_text(sent.1) == reading.output
        }),
    decreases items.len(),
{
    let sent = send_all(stream, items);
    let first = read(ThinkMode::Idle, content).output;
    if items.len() == 0 {
        assert(content + all_text(items) =~= content);
        assert(first + frames_text(sent.1) =~= first);
    } else {
        let earlier = items.drop_last();
        assert forall|i: int| 0 <= i < earlier.len() implies goes_on(#[trigger] earlier[i]) by {
            assert(earlier[i] == items[i]);
        }
        lemma_send_all(stream, content, earlier);
        let before = send_all(stream, earlier);
        let so_far = content + all_text(earlier);
        assert(goes_on(items[items.len() - 1]));
        lemma_send_one(before.0, so_far, items.last());
        assert(content + all_text(items) =~= so_far + added_text(items.last()));
        let last = advance_view(before.0, items.last());
        lemma_frames_text_join(before.1, last.1->0);
        assert(first + frames_text(sent.1) =~= (first + frames_text(before.1)) + frames_text(
            last.1->0,
        ));
    }
}

proof fn lemma_closing_text(identity: IdentityView, held_back: Seq<char>)
    ensures
        frames_text(closing_frames(identity, held_back)) == held_back,
{
    let stop = text_frame(identity, Seq::empty(), Some("stop"@));
    let tail = seq![stop, FrameView::Done];
    assert(tail =~= seq![stop] + seq![FrameView::Done]);
    lemma_frames_text_join(seq![stop], seq![FrameView::Done]);
    lemma_frames_text_one(stop);
    lemma_frames_text_one(FrameView::Done);
    assert(frames_text(tail) =~= Seq::empty());
    if held_back.len() > 0 {
        let last = text_frame(identity, held_back, None);
        lemma_frames_text_join(seq![last], tail);
        lemma_frames_text_one(last);
        assert(frames_text(seq![last] + tail) =~= held_back);
    } else {
        assert(frames_text(tail) =~= held_back);
    }
}

proof fn lemma_first_text(
    identity: IdentityView,
    content: Seq<char>,
    tool_calls: Seq<ToolCall>,
    ended: bool,
)
    ensures
        frames_text(first_frames(identity, content, tool_calls, ended)) == (if ended {
            streamed(content)
        } else {
            read(ThinkMode::Idle, content).output
        }),
{
    let reading = read(ThinkMode::Idle, content);
    let text = seq![text_frame(identity, reading.output, None)];
    let calls = if tool_calls.len() > 0 {
        seq![tool_frame(identity, tool_calls)]
    } else {
        Seq::empty()
    };
    let held_back = closing_output(reading.mode, reading.rest);
    let closing = if ended {
        closing_frames(identity, held_back)
    } else {
        Seq::empty()
    };
    lemma_frames_text_one(text_frame(identity, reading.output, None));
    lemma_frames_text_one(tool_frame(identity, tool_calls));
    lemma_frames_text_join(text, calls);
    lemma_frames_text_join(text + calls, closing);
    lemma_closing_text(identity, held_back);
    assert(frames_text(text) =~= reading.output);
    assert(frames_text(calls) =~= Seq::empty());
    assert(frames_text(text + calls) =~= reading.output);
    if ended {
        assert(frames_text(first_frames(identity, content, tool_calls, ended)) =~= streamed(content));
    } else {
        assert(frames_text(first_frames(identity, content, tool_calls, ended)) =~= reading.output);
    }
}

/// The text that a client receives of a streamed answer, from the first frame to the
/// last, is the rewritten form of the whole text of the answer, however the service cut
/// that text into events and whatever came between them. The answer may end with its
/// first events; else it goes on behind them up to the event that ends it.
pub proof fn law_stream_carries_the_whole_text(
    identity: IdentityView,
    scan: ScanView,
    items: Seq<ItemView>,
    end: EventView,
)
    requires
        scan.failure is None,
        !scan.replace,
        forall|i: int| 0 <= i < items.len() ==> goes_on(#[trigger] items[i]),
        end.kind == EventKind::Done,
    ensures
        ({
            &&& stream_start(identity, scan) matches StreamStartView::Grow(stream, first)
            &&& scan.ended ==> stream.done && frames_text(first) == streamed(scan.content)
            &&& !scan.ended ==> {
                let sent = send_all(stream, items);
                let closing = advance_view(sent.0, ItemView::Event(end));
                &&& closing.0.done
                &&& closing.1 is Some
                &&& frames_text(first) + frames_text(sent.1) + frames_text(closing.1->0)
                    == streamed(scan.content + all_text(items))
            }
        }),
{
    let stream = begun_stream(identity, scan.content, scan.ended);
    lemma_first_text(identity, scan.content, scan.tool_calls, scan.ended);
    if !scan.ended {
        lemma_send_all(stream, scan.content, items);
        let sent = send_all(stream, items);
        lemma_closing_text(identity, closing_output(sent.0.mode, sent.0.buffered));
    }
}

/// The tool calls that a frame carries.
pub open spec fn frame_calls(frame: FrameView) -> Seq<ToolCall> {
    match frame {
        FrameView::Chunk(chunk) => match chunk.choices[0].delta.tool_calls {
            Some(calls) => calls,
            None => Seq::empty(),
        },
        _ => Seq::empty(),
    }
}

/// The tool calls that frames carry, one behind the other.
pub open spec fn frames_calls(frames: Seq<FrameView>) -> Seq<ToolCall>
    decreases frames.len(),
{
    if frames.len() == 0 {
        Seq::empty()
    } else {
        frames_calls(frames.drop_last()) + frame_calls(frames.last())
    }
}

proof fn lemma_frames_calls_join(a: Seq<FrameView>, b: Seq<FrameView>)
    ensures
        frames_calls(a + b) == frames_calls(a) + frames_calls(b),
    decreases b.len(),
{
    if b.len() == 0 {
        assert(a + b =~= a);
        assert(frames_calls(a) + frames_calls(b) =~= frames_calls(a));
    } else {
        assert((a + b).drop_last() =~= a + b.drop_last());
        lemma_frames_calls_join(a, b.drop_last());
        assert(frames_calls(a) + frames_calls(b.drop_last()) + frame_calls(b.last())
            =~= frames_calls(a) + frames_calls(b));
    }
}

proof fn lemma_frames_without_calls(frames: Seq<FrameView>)
    requires
        forall|i: int| 0 <= i < frames.len() ==> (#[trigger] frame_calls(frames[i])).len() == 0,
    ensures
        frames_calls(frames).len() == 0,
    decreases frames.len(),
{
    if frames.len() > 0 {
        assert(frame_calls(frames[frames.len() - 1]).len() == 0);
        assert forall|i: int| 0 <= i < frames.drop_last().len() implies (#[trigger] frame_calls(
            frames.drop_last()[i],
        )).len() == 0 by {
            assert(frame_calls(frames[i]).len() == 0);
        }
        lemma_frames_without_calls(frames.drop_last());
    }
}

proof fn lemma_first_calls(
    identity: IdentityView,
    content: Seq<char>,
    tool_calls: Seq<ToolCall>,
    ended: bool,
)
    ensures
        frames_calls(first_frames(identity, content, tool_calls, ended)) == tool_calls,
{
    let reading = read(ThinkMode::Idle, content);
    let text = seq![text_frame(identity, reading.output, None)];
    let calls = if tool_calls.len() > 0 {
        seq![tool_frame(identity, tool_calls)]
    } else {
        Seq::empty()
    };
    let closing = if ended {
        closing_frames(identity, closing_output(reading.mode, reading.rest))
    } else {
        Seq::empty()
    };
    lemma_frames_without_calls(text);
    lemma_frames_without_calls(closing);
    lemma_frames_calls_join(text, calls);
    lemma_frames_calls_join(text + calls, closing);
    if tool_calls.len() > 0 {
        let one = tool_frame(identity, tool_calls);
        assert(calls.drop_last() =~= Seq::empty());
        assert(frames_calls(calls.drop_last()) =~= Seq::empty());
        assert(frame_calls(one) == tool_calls);
    }
    assert(frames_calls(calls) =~= tool_calls);
    assert(frames_calls(first_frames(identity, content, tool_calls, ended)) =~= tool_calls);
}

proof fn lemma_send_all_calls(stream: StreamView, items: Seq<ItemView>)
    requires
        !stream.done,
        forall|i: int| 0 <= i < items.len() ==> goes_on(#[trigger] items[i]),
    ensures
        !send_all(stream, items).0.done,
        frames_calls(send_all(stream, items).1) == all_tool_calls(items),
    decreases items.len(),
{
    if items.len() > 0 {
        let earlier = items.drop_last();
        assert forall|i: int| 0 <= i < earlier.len() implies goes_on(#[trigger] earlier[i]) by {
            assert(earlier[i] == items[i]);
        }
        lemma_send_all_calls(stream, earlier);
        let before = send_all(stream, earlier);
        let item = items.last();
        assert(goes_on(items[items.len() - 1]));
        let last = advance_view(before.0, item);
        let event = item->Event_0;
        lemma_frames_calls_join(before.1, last.1->0);
        if event.kind == EventKind::Json && event.tool_calls is Some {
            assert(last.1->0.drop_last() =~= Seq::empty());
            assert(frames_calls(last.1->0.drop_last()) =~= Seq::empty());
            assert(frames_calls(last.1->0) =~= event.tool_calls->0);
        } else {
            lemma_frames_without_calls(last.1->0);
        }
        assert(frames_calls(send_all(stream, items).1) =~= all_tool_calls(items));
    } else {
        assert(frames_calls(send_all(stream, items).1) =~= all_tool_calls(items));
    }
}

/// A client receives every tool call of a streamed answer, in their order, those among
/// the first events too.
pub proof fn law_stream_carries_all_tool_calls(
    identity: IdentityView,
    scan: ScanView,
    items: Seq<ItemView>,
    end: EventView,
)
    requires
        scan.failure is None,
        !scan.replace,
        forall|i: int| 0 <= i < items.len() ==> goes_on(#[trigger] items[i]),
        end.kind == EventKind::Done,
    ensures
        ({
            &&& stream_start(identity, scan) matches StreamStartView::Grow(stream, first)
            &&& frames_calls(first) == scan.tool_calls
            &&& !scan.ended ==> {
                let sent = send_all(stream, items);
                let closing = advance_view(sent.0, ItemView::Event(end));
                frames_calls(first) + frames_calls(sent.1) + frames_calls(closing.1->0)
                    == scan.tool_calls + all_tool_calls(items)
            }
        }),
{
    let stream = begun_stream(identity, scan.content, scan.ended);
    lemma_first_calls(identity, scan.content, scan.tool_calls, scan.ended);
    if !scan.ended {
        lemma_send_all_calls(stream, items);
        let sent = send_all(stream, items);
        let closing = advance_view(sent.0, ItemView::Event(end));
        lemma_frames_without_calls(closing.1->0);
        assert(scan.tool_calls + all_tool_calls(items) + frames_calls(closing.1->0)
            =~= scan.tool_calls + all_tool_calls(items));
    }
}

/// The frames for the first events carry the identity of the answer. The mark that
/// nothing follows is among them exactly where the answer has ended with these events,
/// and then it is the last.
pub proof fn law_first_frames_are_marked(identity: IdentityView, scan: ScanView, k: int)
    requires
        scan.failure is None,
        !scan.replace,
    ensures
        ({
            &&& stream_start(identity, scan) matches StreamStartView::Grow(stream, first)
            &&& stream.identity == identity
            &&& stream.done == scan.ended
            &&& first.len() > 0
            &&& (first.last() == FrameView::Done) == scan.ended
            &&& 0 <= k < first.len() ==> {
                &&& first[k] == FrameView::Done ==> k == first.len() - 1
                &&& first[k] matches FrameView::Chunk(chunk) ==> {
                    &&& chunk.id == crate::types::completion_id_text(identity.id)
                    &&& chunk.created == identity.created
                    &&& chunk.model == identity.model
                }
            }
        }),
{
}

/// The frames of an answer that was replaced as a whole carry its rewritten text, as the
/// answer in one piece does.
pub proof fn law_replaced_stream_carries_the_text(identity: IdentityView, content: Seq<char>)
    ensures
        frames_text(replaced_frames(identity, content)) == rewritten(content),
{
    let text = text_frame(identity, rewritten(content), None);
    let stop = text_frame(identity, Seq::empty(), Some("stop"@));
    let tail = seq![stop] + seq![FrameView::Done];
    assert(replaced_frames(identity, content) =~= seq![text] + tail);
    lemma_frames_text_join(seq![text], tail);
    lemma_frames_text_join(seq![stop], seq![FrameView::Done]);
    lemma_frames_text_one(text);
    lemma_frames_text_one(stop);
    lemma_frames_text_one(FrameView::Done);
    assert(frames_text(replaced_frames(identity, content)) =~= rewritten(content));
}

} // verus!
