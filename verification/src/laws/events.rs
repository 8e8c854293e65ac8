//! What the first events of an answer say, by what they are.

use vstd::prelude::*;

use crate::events::{empty_scan, received, scan_event, scan_events, EventView, ScanView};
use crate::types::{Event, EventKind, StreamItem, ToolCall};

verus! {

/// The texts of the text events, put together.
pub open spec fn texts_of(events: Seq<EventView>) -> Seq<char>
    decreases events.len(),
{
    if events.len() == 0 {
        Seq::empty()
    } else {
        texts_of(events.drop_last()) + (match (events.last().kind, events.last().text) {
            (EventKind::Text, Some(text)) => text,
            _ => Seq::empty(),
        })
    }
}

/// The tool calls of the JSON events, put together.
pub open spec fn calls_of(events: Seq<EventView>) -> Seq<ToolCall>
    decreases events.len(),
{
    if events.len() == 0 {
        Seq::empty()
    } else {
        calls_of(events.drop_last()) + (match (events.last().kind, events.last().tool_calls) {
            (EventKind::Json, Some(calls)) => calls,
            _ => Seq::empty(),
        })
    }
}

/// Whether no event ends the answer or reports what went wrong.
pub open spec fn quiet(events: Seq<EventView>) -> bool {
    forall|i: int|
        0 <= i < events.len() ==> (#[trigger] events[i]).kind != EventKind::Done && !(events[i].kind
            == EventKind::Error && events[i].error is Some)
}

/// Whether an event replaces the answer.
pub open spec fn replaces(events: Seq<EventView>) -> bool {
    exists|i: int| 0 <= i < events.len() && (#[trigger] events[i]).kind == EventKind::ReplaceResponse
}

/// Whether no event brings a text in the place of the answer.
pub open spec fn brings_no_replacement(events: Seq<EventView>) -> bool {
    forall|i: int|
        0 <= i < events.len() ==> !((#[trigger] events[i]).kind == EventKind::ReplaceResponse
            && events[i].text is Some)
}

/// An event that was received counts, in its place, and nothing else does.
pub proof fn law_what_is_received_counts(items: Seq<StreamItem>, event: Event)
    ensures
        received(Seq::<StreamItem>::empty()) == Seq::<Event>::empty(),
        received(items.push(StreamItem::Event(event))) == received(items).push(event),
        received(items.push(StreamItem::Failed)) == received(items),
        received(items.push(StreamItem::Ended)) == received(items),
{
    assert(items.push(StreamItem::Event(event)).drop_last() =~= items);
    assert(items.push(StreamItem::Failed).drop_last() =~= items);
    assert(items.push(StreamItem::Ended).drop_last() =~= items);
}

proof fn lemma_scan_on(scan: ScanView, a: Seq<EventView>, b: Seq<EventView>, streaming: bool)
    requires
        quiet(a),
    ensures
        scan_events(scan, a + b, streaming) == scan_events(
            scan_events(scan, a, streaming),
            b,
            streaming,
        ),
    decreases a.len(),
{
    if a.len() == 0 {
        assert(a + b =~= b);
    } else {
        assert(a[0].kind != EventKind::Done);
        assert((a + b).drop_first() =~= a.drop_first() + b);
        assert forall|i: int| 0 <= i < a.drop_first().len() implies (
        #[trigger] a.drop_first()[i]).kind != EventKind::Done && !(a.drop_first()[i].kind
            == EventKind::Error && a.drop_first()[i].error is Some) by {
            assert(a.drop_first()[i] == a[i + 1]);
        }
        lemma_scan_on(scan_event(scan, a[0], streaming), a.drop_first(), b, streaming);
    }
}

proof fn lemma_scan_one(scan: ScanView, event: EventView, rest: Seq<EventView>, streaming: bool)
    requires
        quiet(seq![event]),
    ensures
        scan_events(scan, seq![event] + rest, streaming) == scan_events(
            scan_event(scan, event, streaming),
            rest,
            streaming,
        ),
{
    assert(seq![event][0].kind != EventKind::Done);
    assert((seq![event] + rest).drop_first() =~= rest);
}

proof fn lemma_scan_last(events: Seq<EventView>, streaming: bool)
    requires
        quiet(events),
        events.len() > 0,
    ensures
        quiet(events.drop_last()),
        scan_events(empty_scan(), events, streaming) == scan_event(
            scan_events(empty_scan(), events.drop_last(), streaming),
            events.last(),
            streaming,
        ),
{
    let front = events.drop_last();
    let last = events.last();
    assert forall|i: int| 0 <= i < front.len() implies (#[trigger] front[i]).kind
        != EventKind::Done && !(front[i].kind == EventKind::Error && front[i].error is Some) by {
        assert(front[i] == events[i]);
    }
    assert(events[events.len() - 1].kind != EventKind::Done);
    assert(events =~= front + seq![last]);
    lemma_scan_on(empty_scan(), front, seq![last], streaming);
    let none = Seq::<EventView>::empty();
    assert(seq![last] + none =~= seq![last]);
    lemma_scan_one(scan_events(empty_scan(), front, streaming), last, none, streaming);
}

proof fn lemma_quiet_scan(events: Seq<EventView>, streaming: bool)
    requires
        quiet(events),
    ensures
        ({
            let scan = scan_events(empty_scan(), events, streaming);
            &&& scan.replace == replaces(events)
            &&& scan.tool_calls == calls_of(events)
            &&& !scan.ended
            &&& scan.failure is None
            &&& !replaces(events) ==> scan.content == texts_of(events)
        }),
    decreases events.len(),
{
    if events.len() > 0 {
        let front = events.drop_last();
        lemma_scan_last(events, streaming);
        lemma_quiet_scan(front, streaming);
        assert(events[events.len() - 1].kind != EventKind::Done);
        let before = scan_events(empty_scan(), front, streaming);
        let scan = scan_events(empty_scan(), events, streaming);
        if replaces(front) {
            let i = choose|i: int|
                0 <= i < front.len() && (#[trigger] front[i]).kind == EventKind::ReplaceResponse;
            assert(events[i].kind == EventKind::ReplaceResponse);
        }
        if replaces(events) {
            let i = choose|i: int|
                0 <= i < events.len() && (#[trigger] events[i]).kind == EventKind::ReplaceResponse;
            if i < front.len() {
                assert(front[i].kind == EventKind::ReplaceResponse);
            }
        }
        assert(scan.tool_calls =~= calls_of(events));
        if !replaces(events) {
            assert(scan.content =~= texts_of(events));
        }
    } else {
        assert(scan_events(empty_scan(), events, streaming).content =~= texts_of(events));
        assert(scan_events(empty_scan(), events, streaming).tool_calls =~= calls_of(events));
    }
}

/// Where nothing is replaced, the texts and the tool calls of the events are known, all
/// of them and in their order, and nothing else.
pub proof fn law_texts_and_calls_are_gathered(events: Seq<EventView>, streaming: bool)
    requires
        quiet(events),
        !replaces(events),
    ensures
        scan_events(empty_scan(), events, streaming) == (ScanView {
            replace: false,
            content: texts_of(events),
            tool_calls: calls_of(events),
            ended: false,
            failure: None,
        }),
{
    lemma_quiet_scan(events, streaming);
}

proof fn lemma_content_stays(a: Seq<EventView>, b: Seq<EventView>, streaming: bool)
    requires
        quiet(a + b),
        replaces(a),
        brings_no_replacement(b),
    ensures
        scan_events(empty_scan(), a + b, streaming).content == scan_events(
            empty_scan(),
            a,
            streaming,
        ).content,
    decreases b.len(),
{
    if b.len() == 0 {
        assert(a + b =~= a);
    } else {
        let shorter = b.drop_last();
        assert((a + b).drop_last() =~= a + shorter);
        lemma_scan_last(a + b, streaming);
        assert forall|i: int| 0 <= i < shorter.len() implies !((#[trigger] shorter[i]).kind
            == EventKind::ReplaceResponse && shorter[i].text is Some) by {
            assert(shorter[i] == b[i]);
        }
        lemma_content_stays(a, shorter, streaming);
        lemma_quiet_scan(a + shorter, streaming);
        let i = choose|i: int|
            0 <= i < a.len() && (#[trigger] a[i]).kind == EventKind::ReplaceResponse;
        assert((a + shorter)[i].kind == EventKind::ReplaceResponse);
        let last = b[b.len() - 1];
        assert(!(last.kind == EventKind::ReplaceResponse && last.text is Some));
        assert((a + b).last() == last);
    }
}

/// The last text that replaces the answer is its text, whatever came before it and
/// whatever text comes behind it.
pub proof fn law_last_replacement_counts(
    a: Seq<EventView>,
    replacement: EventView,
    b: Seq<EventView>,
    streaming: bool,
)
    requires
        quiet(a + seq![replacement] + b),
        replacement.kind == EventKind::ReplaceResponse,
        replacement.text is Some,
        brings_no_replacement(b),
    ensures
        scan_events(empty_scan(), a + seq![replacement] + b, streaming) == (ScanView {
            replace: true,
            content: replacement.text->0,
            tool_calls: calls_of(a + seq![replacement] + b),
            ended: false,
            failure: None,
        }),
{
    let front = a + seq![replacement];
    assert(front[a.len() as int].kind == EventKind::ReplaceResponse);
    assert((front + b)[a.len() as int].kind == EventKind::ReplaceResponse);
    assert forall|i: int| 0 <= i < front.len() implies (#[trigger] front[i]).kind
        != EventKind::Done && !(front[i].kind == EventKind::Error && front[i].error is Some) by {
        assert(front[i] == (front + b)[i]);
    }
    lemma_quiet_scan(front + b, streaming);
    lemma_scan_last(front, streaming);
    lemma_content_stays(front, b, streaming);
}

/// An event that replaces the answer without bringing a text keeps what there was, and
/// keeps later text out.
pub proof fn law_bare_replacement_keeps_the_text(
    a: Seq<EventView>,
    replacement: EventView,
    b: Seq<EventView>,
    streaming: bool,
)
    requires
        quiet(a + seq![replacement] + b),
        !replaces(a),
        replacement.kind == EventKind::ReplaceResponse,
        replacement.text is None,
        brings_no_replacement(b),
    ensures
        scan_events(empty_scan(), a + seq![replacement] + b, streaming) == (ScanView {
            replace: true,
            content: texts_of(a),
            tool_calls: calls_of(a + seq![replacement] + b),
            ended: false,
            failure: None,
        }),
{
    let front = a + seq![replacement];
    assert(front[a.len() as int].kind == EventKind::ReplaceResponse);
    assert((front + b)[a.len() as int].kind == EventKind::ReplaceResponse);
    assert forall|i: int| 0 <= i < front.len() implies (#[trigger] front[i]).kind
        != EventKind::Done && !(front[i].kind == EventKind::Error && front[i].error is Some) by {
        assert(front[i] == (front + b)[i]);
    }
    lemma_quiet_scan(front + b, streaming);
    lemma_scan_last(front, streaming);
    assert(front.drop_last() =~= a);
    lemma_quiet_scan(a, streaming);
    lemma_content_stays(front, b, streaming);
}

/// The event that ends the answer is known, and nothing behind it counts.
pub proof fn law_nothing_counts_behind_the_end(
    a: Seq<EventView>,
    end: EventView,
    b: Seq<EventView>,
    streaming: bool,
)
    requires
        quiet(a),
        end.kind == EventKind::Done,
    ensures
        scan_events(empty_scan(), a + seq![end] + b, streaming) == (ScanView {
            ended: true,
            ..scan_events(empty_scan(), a, streaming)
        }),
{
    assert(a + seq![end] + b =~= a + (seq![end] + b));
    lemma_scan_on(empty_scan(), a, seq![end] + b, streaming);
}

/// The first error with a reason fails the answer with that reason. Only while an answer
/// is streamed, one that comes behind a replacement does not; it is passed over, as an
/// error without a reason is.
pub proof fn law_error_fails_the_answer(
    a: Seq<EventView>,
    error: EventView,
    b: Seq<EventView>,
    streaming: bool,
)
    requires
        quiet(a),
        error.kind == EventKind::Error,
    ensures
        error.error is Some && !(streaming && replaces(a)) ==> scan_events(
            empty_scan(),
            a + seq![error] + b,
            streaming,
        ).failure == error.error,
        error.error is None || (streaming && replaces(a)) ==> scan_events(
            empty_scan(),
            a + seq![error] + b,
            streaming,
        ) == scan_events(empty_scan(), a + b, streaming),
{
    assert(a + seq![error] + b =~= a + (seq![error] + b));
    assert((seq![error] + b).drop_first() =~= b);
    lemma_scan_on(empty_scan(), a, seq![error] + b, streaming);
    lemma_scan_on(empty_scan(), a, b, streaming);
    lemma_quiet_scan(a, streaming);
    let scan = scan_events(empty_scan(), a, streaming);
    assert(ScanView { failure: scan.failure, ..scan } =~= scan);
}

} // verus!
