//! What a client of a streamed answer gets, frame by frame and as a whole.

use vstd::prelude::*;

use crate::answer::all_tool_calls;
use crate::errors::service_error_view;
use crate::events::{empty_scan, scan_events, EventView, ScanView};
use crate::identity::IdentityView;
use crate::laws::answers::{items_of, replaced_start};
use crate::laws::events::{
    calls_of, law_nothing_counts_behind_the_end, law_texts_and_calls_are_gathered, quiet, replaces, texts_of,
};
use crate::reasoning::rewritten;
use crate::replace::{all_text, ItemView};
use crate::stream::{
    advance_view, frames_calls, frames_text, goes_on, law_first_frames_are_marked, law_stream_carries_all_tool_calls,
    law_stream_carries_the_whole_text, replaced_frames, send_all, stream_start, FrameView, StreamStartView,
    StreamView,
};
use crate::thinking_stream::{closing_output, read, streamed, ThinkMode};
use crate::types::{text_chunk, tool_chunk, EventKind, ToolCall};

verus! {

/// The frame with a text or a reason to finish.
pub open spec fn piece(
    identity: IdentityView,
    content: Seq<char>,
    reason: Option<Seq<char>>,
) -> FrameView {
    FrameView::Chunk(text_chunk(identity.id, identity.created, identity.model, content, reason))
}

/// The frame with tool calls.
pub open spec fn calls_piece(identity: IdentityView, tool_calls: Seq<ToolCall>) -> FrameView {
    FrameView::Chunk(tool_chunk(identity.id, identity.created, identity.model, tool_calls))
}

/// The last two frames of an answer.
pub open spec fn stop_pieces(identity: IdentityView) -> Seq<FrameView> {
    seq![piece(identity, Seq::empty(), Some("stop"@)), FrameView::Done]
}

/// The frames with what was held back of an answer and its end.
pub open spec fn last_pieces(identity: IdentityView, held_back: Seq<char>) -> Seq<FrameView> {
    if held_back.len() == 0 {
        stop_pieces(identity)
    } else {
        seq![piece(identity, held_back, None)] + stop_pieces(identity)
    }
}

/// What a text does to a stream: it is read behind what is held back, and what that
/// writes is sent, if it is anything. The identity stays, and the stream goes on.
pub proof fn law_stream_takes_a_text(stream: StreamView, event: EventView)
    requires
        !stream.done,
        event.kind == EventKind::Text,
    ensures
        ({
            let (after, sent) = advance_view(stream, ItemView::Event(event));
            &&& event.text is None ==> after == stream && sent == Some(Seq::<FrameView>::empty())
            &&& event.text matches Some(text) ==> {
                let reading = read(stream.mode, stream.buffered + text);
                &&& after == (StreamView { mode: reading.mode, buffered: reading.rest, ..stream })
                &&& reading.output.len() == 0 ==> sent == Some(Seq::<FrameView>::empty())
                &&& reading.output.len() > 0 ==> sent == Some(
                    seq![piece(stream.identity, reading.output, None)],
                )
            }
        }),
{
}

/// What any other event does to a stream. Tool calls are sent at once, a replacement is
/// passed over, an error is reported and ends the stream, and the end of the answer sends
/// what is held back and ends the stream.
pub proof fn law_stream_takes_another_event(stream: StreamView, event: EventView)
    requires
        !stream.done,
    ensures
        ({
            let (after, sent) = advance_view(stream, ItemView::Event(event));
            &&& event.kind == EventKind::Json && event.tool_calls is None ==> after == stream
                && sent == Some(Seq::<FrameView>::empty())
            &&& event.kind == EventKind::Json && event.tool_calls is Some ==> after == stream
                && sent == Some(seq![calls_piece(stream.identity, event.tool_calls->0)])
            &&& event.kind == EventKind::ReplaceResponse ==> after == stream && sent == Some(
                Seq::<FrameView>::empty(),
            )
            &&& event.kind == EventKind::Error && event.error is None ==> after == (StreamView {
                done: true,
                ..stream
            }) && sent == Some(Seq::<FrameView>::empty())
            &&& event.kind == EventKind::Error && event.error is Some ==> after.done
                && after.identity == stream.identity && sent == Some(
                seq![
                    FrameView::Error(event.error->0, "stream_error"@, "stream_error"@),
                    FrameView::Done,
                ],
            )
            &&& event.kind == EventKind::Done ==> after.done && after.identity == stream.identity
                && sent == Some(
                last_pieces(stream.identity, closing_output(stream.mode, stream.buffered)),
            )
        }),
{
}

/// A stream that cannot go on breaks off, and behind its end it sends nothing.
pub proof fn law_stream_breaks_off(stream: StreamView, item: ItemView)
    ensures
        advance_view(stream, ItemView::Failed) == (stream, None::<Seq<FrameView>>),
        advance_view(stream, ItemView::Ended) == (stream, None::<Seq<FrameView>>),
        stream.done ==> advance_view(stream, item) == (stream, None::<Seq<FrameView>>),
{
}

/// How an answer is streamed: not at all where it has failed, in one piece where it is
/// replaced as a whole, and else beginning with the text, the tool calls and the end that
/// the first events bring.
pub proof fn law_stream_begins(identity: IdentityView, scan: ScanView)
    ensures
        scan.failure is Some ==> stream_start(identity, scan) == StreamStartView::Failed(
            service_error_view(scan.failure->0),
        ),
        scan.failure is None && scan.replace ==> stream_start(identity, scan)
            == StreamStartView::Replace(identity, replaced_start(scan.content)),
        scan.failure is None && !scan.replace ==> {
            let reading = read(ThinkMode::Idle, scan.content);
            &&& stream_start(identity, scan) matches StreamStartView::Grow(stream, frames)
            &&& stream.identity == identity
            &&& stream.done == scan.ended
            &&& !scan.ended ==> stream.mode == reading.mode && stream.buffered == reading.rest
            &&& frames == seq![piece(identity, reading.output, None)] + (
            if scan.tool_calls.len() > 0 {
                seq![calls_piece(identity, scan.tool_calls)]
            } else {
                Seq::empty()
            }) + (if scan.ended {
                last_pieces(identity, closing_output(reading.mode, reading.rest))
            } else {
                Seq::empty()
            })
        },
{
}

/// An answer that was replaced as a whole is sent in one piece, rewritten, with the end.
pub proof fn law_replaced_answer_is_one_piece(identity: IdentityView, content: Seq<char>)
    ensures
        replaced_frames(identity, content) == seq![piece(identity, rewritten(content), None)]
            + stop_pieces(identity),
{
    assert(replaced_frames(identity, content) =~= seq![piece(identity, rewritten(content), None)]
        + stop_pieces(identity));
}

proof fn lemma_items(events: Seq<EventView>)
    requires
        quiet(events),
        forall|i: int| 0 <= i < events.len() ==> (#[trigger] events[i]).kind != EventKind::Error,
    ensures
        all_text(items_of(events)) == texts_of(events),
        all_tool_calls(items_of(events)) == calls_of(events),
        forall|i: int| 0 <= i < events.len() ==> goes_on(#[trigger] items_of(events)[i]),
    decreases events.len(),
{
    let items = items_of(events);
    if events.len() > 0 {
        let front = events.drop_last();
        assert(items.drop_last() =~= items_of(front));
        assert(items.last() == ItemView::Event(events.last()));
        assert forall|i: int| 0 <= i < front.len() implies (#[trigger] front[i]).kind
            != EventKind::Done && !(front[i].kind == EventKind::Error && front[i].error is Some) by {
            assert(front[i] == events[i]);
        }
        assert forall|i: int| 0 <= i < front.len() implies (#[trigger] front[i]).kind
            != EventKind::Error by {
            assert(front[i] == events[i]);
        }
        lemma_items(front);
        assert(all_text(items) =~= texts_of(events));
        assert(all_tool_calls(items) =~= calls_of(events));
        assert forall|i: int| 0 <= i < events.len() implies goes_on(#[trigger] items[i]) by {
            assert(items[i] == ItemView::Event(events[i]));
        }
    } else {
        assert(all_text(items) =~= texts_of(events));
        assert(all_tool_calls(items) =~= calls_of(events));
    }
}

/// A client receives the whole text of a streamed answer, its reasoning rewritten, and
/// all its tool calls in their order: those of the first events, and those of the events
/// behind them up to the end.
pub proof fn law_client_receives_everything(
    identity: IdentityView,
    first: Seq<EventView>,
    later: Seq<EventView>,
    end: EventView,
)
    requires
        quiet(first),
        !replaces(first),
        quiet(later),
        forall|i: int| 0 <= i < later.len() ==> (#[trigger] later[i]).kind != EventKind::Error,
        end.kind == EventKind::Done,
    ensures
        ({
            let scan = scan_events(empty_scan(), first, true);
            &&& stream_start(identity, scan) matches StreamStartView::Grow(stream, frames)
            &&& {
                let sent = send_all(stream, items_of(later));
                let closing = advance_view(sent.0, ItemView::Event(end));
                &&& closing.0.done
                &&& closing.1 is Some
                &&& frames_text(frames) + frames_text(sent.1) + frames_text(closing.1->0)
                    == streamed(texts_of(first) + texts_of(later))
                &&& frames_calls(frames) + frames_calls(sent.1) + frames_calls(closing.1->0)
                    == calls_of(first) + calls_of(later)
            }
        }),
{
    let scan = scan_events(empty_scan(), first, true);
    law_texts_and_calls_are_gathered(first, true);
    lemma_items(later);
    law_stream_carries_the_whole_text(identity, scan, items_of(later), end);
    law_stream_carries_all_tool_calls(identity, scan, items_of(later), end);
}

/// A client receives everything of an answer that ends with its first events, and nothing
/// of what stands behind the end.
pub proof fn law_short_answer_is_received(
    identity: IdentityView,
    first: Seq<EventView>,
    end: EventView,
    behind: Seq<EventView>,
)
    requires
        quiet(first),
        !replaces(first),
        end.kind == EventKind::Done,
    ensures
        ({
            let scan = scan_events(empty_scan(), first + seq![end] + behind, true);
            &&& stream_start(identity, scan) matches StreamStartView::Grow(stream, frames)
            &&& stream.done
            &&& frames.last() == FrameView::Done
            &&& frames_text(frames) == streamed(texts_of(first))
            &&& frames_calls(frames) == calls_of(first)
        }),
{
    let scan = scan_events(empty_scan(), first + seq![end] + behind, true);
    law_nothing_counts_behind_the_end(first, end, behind, true);
    law_texts_and_calls_are_gathered(first, true);
    let none = Seq::<ItemView>::empty();
    law_stream_carries_the_whole_text(identity, scan, none, end);
    law_stream_carries_all_tool_calls(identity, scan, none, end);
    law_first_frames_are_marked(identity, scan, 0);
}

} // verus!
