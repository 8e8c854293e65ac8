//! The first events of an answer, which decide how the rest of it is read.

use vstd::prelude::*;
use vstd::string::StringExecFns;

use crate::types::{optional_items, optional_text, Event, EventKind, StreamItem, ToolCall};

verus! {

/// The contents of an `Event`.
#[verifier::ext_equal]
pub struct EventView {
    pub kind: EventKind,
    pub text: Option<Seq<char>>,
    pub error: Option<Seq<char>>,
    pub tool_calls: Option<Seq<ToolCall>>,
}

impl View for Event {
    type V = EventView;

    open spec fn view(&self) -> EventView {
        EventView {
            kind: self.kind,
            text: optional_text(self.text),
            error: optional_text(self.error),
            tool_calls: optional_items(self.tool_calls),
        }
    }
}

/// The contents of a list of events.
pub open spec fn event_views(events: Seq<Event>) -> Seq<EventView> {
    events.map_values(|e: Event| e@)
}

/// The events among `items`.
pub open spec fn received(items: Seq<StreamItem>) -> Seq<Event>
    decreases items.len(),
{
    if items.len() == 0 {
        Seq::empty()
    } else {
        let before = received(items.drop_last());
        match items.last() {
            StreamItem::Event(event) => before.push(event),
            _ => before,
        }
    }
}

/// The events that the first two looks at the stream bring.
pub fn initial_events(first: StreamItem, second: StreamItem) -> (r: Vec<Event>)
    ensures
        r@ == received(seq![first, second]),
{
    let mut out: Vec<Event> = Vec::new();
    proof {
        assert(seq![first, second].drop_last() =~= seq![first]);
        assert(seq![first].drop_last() =~= Seq::empty());
        assert(received(seq![first].drop_last()) =~= Seq::empty());
    }
    if let StreamItem::Event(event) = first {
        out.push(event);
    }
    assert(out@ =~= received(seq![first]));
    if let StreamItem::Event(event) = second {
        out.push(event);
    }
    assert(out@ =~= received(seq![first, second]));
    out
}

/// What the first events of an answer say.
#[derive(Debug)]
pub struct InitialScan {
    /// Whether the service replaces its answer as a whole.
    pub replace: bool,
    /// The text so far.
    pub content: String,
    /// The tool calls so far.
    pub tool_calls: Vec<ToolCall>,
    /// Whether the end of the answer is among them.
    pub ended: bool,
    /// The error that ends the answer.
    pub failure: Option<String>,
}

/// The contents of an `InitialScan`.
#[verifier::ext_equal]
pub struct ScanView {
    pub replace: bool,
    pub content: Seq<char>,
    pub tool_calls: Seq<ToolCall>,
    pub ended: bool,
    pub failure: Option<Seq<char>>,
}

impl View for InitialScan {
    type V = ScanView;

    open spec fn view(&self) -> ScanView {
        ScanView {
            replace: self.replace,
            content: self.content@,
            tool_calls: self.tool_calls@,
            ended: self.ended,
            failure: optional_text(self.failure),
        }
    }
}

/// Nothing said yet.
pub open spec fn empty_scan() -> ScanView {
    ScanView {
        replace: false,
        content: Seq::empty(),
        tool_calls: Seq::empty(),
        ended: false,
        failure: None,
    }
}

/// Whether an error event ends the answer. While an answer is streamed, one that
/// comes behind a replacement does not.
pub open spec fn fails_at(scan: ScanView, event: EventView, streaming: bool) -> bool {
    event.kind == EventKind::Error && event.error is Some && !(streaming && scan.replace)
}

/// What is said with one event more.
pub open spec fn scan_event(scan: ScanView, event: EventView, streaming: bool) -> ScanView {
    match event.kind {
        EventKind::ReplaceResponse => ScanView {
            replace: true,
            content: match event.text {
                Some(text) => text,
                None => scan.content,
            },
            ..scan
        },
        EventKind::Text => ScanView {
            content: match event.text {
                Some(text) => if scan.replace {
                    scan.content
                } else {
                    scan.content + text
                },
                None => scan.content,
            },
            ..scan
        },
        EventKind::Json => ScanView {
            tool_calls: match event.tool_calls {
                Some(calls) => scan.tool_calls + calls,
                None => scan.tool_calls,
            },
            ..scan
        },
        EventKind::Error => ScanView {
            failure: if fails_at(scan, event, streaming) {
                event.error
            } else {
                scan.failure
            },
            ..scan
        },
        EventKind::Done => ScanView { ended: true, ..scan },
    }
}

/// What is said with `events` more, up to one that ends the answer.
pub open spec fn scan_events(scan: ScanView, events: Seq<EventView>, streaming: bool) -> ScanView
    decreases events.len(),
{
    if events.len() == 0 {
        scan
    } else if events[0].kind == EventKind::Done || fails_at(scan, events[0], streaming) {
        scan_event(scan, events[0], streaming)
    } else {
        scan_events(scan_event(scan, events[0], streaming), events.drop_first(), streaming)
    }
}

/// What the first events of an answer say.
pub fn scan_initial(events: Vec<Event>, streaming: bool) -> (r: InitialScan)
    ensures
        r@ == scan_events(empty_scan(), event_views(events@), streaming),
{
    let ghost views = event_views(events@);
    let mut replace = false;
    let mut content = String::new();
    let mut tool_calls: Vec<ToolCall> = Vec::new();
    assert(views.skip(0) =~= views);
    for event in iter: events
        invariant
            iter.seq() == events@,
            views == event_views(events@),
            scan_events(empty_scan(), views, streaming) == scan_events(
                ScanView {
                    replace,
                    content: content@,
                    tool_calls: tool_calls@,
                    ended: false,
                    failure: None,
                },
                views.skip(iter.index() as int),
                streaming,
            ),
    {
        let ghost k = iter.index() as int;
        let ghost scan = ScanView {
            replace,
            content: content@,
            tool_calls: tool_calls@,
            ended: false,
            failure: None,
        };
        assert(views.skip(k)[0] == event@);
        assert(views.skip(k).drop_first() =~= views.skip(k + 1));
        let Event { kind, text, error, tool_calls: calls } = event;
        match kind {
            EventKind::ReplaceResponse => {
                replace = true;
                if let Some(t) = text {
                    content = t;
                }
            },
            EventKind::Text => {
                if let Some(t) = text {
                    if !replace {
                        content.append(t.as_str());
                    }
                }
            },
            EventKind::Json => {
                if let Some(mut c) = calls {
                    tool_calls.append(&mut c);
                }
            },
            EventKind::Error => {
                if error.is_some() && !(streaming && replace) {
                    return InitialScan {
                        replace,
                        content,
                        tool_calls,
                        ended: false,
                        failure: error,
                    };
                }
            },
            EventKind::Done => {
                return InitialScan { replace, content, tool_calls, ended: true, failure: None };
            },
        }
        assert(scan_event(scan, event@, streaming) =~= ScanView {
            replace,
            content: content@,
            tool_calls: tool_calls@,
            ended: false,
            failure: None,
        });
    }
    InitialScan { replace, content, tool_calls, ended: false, failure: None }
}

/// The text of the events up to the one that ends the answer.
pub open spec fn text_to_end(events: Seq<EventView>) -> Seq<char>
    decreases events.len(),
{
    if events.len() == 0 || events[0].kind == EventKind::Done {
        Seq::empty()
    } else if events[0].kind == EventKind::Text && events[0].text is Some {
        events[0].text->0 + text_to_end(events.drop_first())
    } else {
        text_to_end(events.drop_first())
    }
}

/// The tool calls of the events up to the one that ends the answer.
pub open spec fn tool_calls_to_end(events: Seq<EventView>) -> Seq<ToolCall>
    decreases events.len(),
{
    if events.len() == 0 || events[0].kind == EventKind::Done {
        Seq::empty()
    } else if events[0].kind == EventKind::Json && events[0].tool_calls is Some {
        events[0].tool_calls->0 + tool_calls_to_end(events.drop_first())
    } else {
        tool_calls_to_end(events.drop_first())
    }
}

proof fn lemma_scan_keeps_everything(scan: ScanView, events: Seq<EventView>, streaming: bool)
    requires
        !scan.ended,
        scan_events(scan, events, streaming).failure is None,
        !scan_events(scan, events, streaming).replace,
    ensures
        !scan.replace,
        scan_events(scan, events, streaming).content == scan.content + text_to_end(events),
        scan_events(scan, events, streaming).tool_calls == scan.tool_calls + tool_calls_to_end(
            events,
        ),
        scan_events(scan, events, streaming).ended == exists|i: int|
            0 <= i < events.len() && #[trigger] events[i].kind == EventKind::Done,
    decreases events.len(),
{
    let after = scan_events(scan, events, streaming);
    if events.len() == 0 || events[0].kind == EventKind::Done {
        assert(after.content =~= scan.content + text_to_end(events));
        assert(after.tool_calls =~= scan.tool_calls + tool_calls_to_end(events));
    } else {
        let next = scan_event(scan, events[0], streaming);
        let rest = events.drop_first();
        lemma_scan_keeps_everything(next, rest, streaming);
        assert(after.content =~= scan.content + text_to_end(events));
        assert(after.tool_calls =~= scan.tool_calls + tool_calls_to_end(events));
        if exists|i: int| 0 <= i < events.len() && #[trigger] events[i].kind == EventKind::Done {
            let i = choose|i: int|
                0 <= i < events.len() && #[trigger] events[i].kind == EventKind::Done;
            assert(rest[i - 1].kind == EventKind::Done);
        }
        if after.ended {
            let i = choose|i: int|
                0 <= i < rest.len() && #[trigger] rest[i].kind == EventKind::Done;
            assert(events[i + 1].kind == EventKind::Done);
        }
    }
}

/// Nothing of the first events is lost where the answer neither fails nor is replaced:
/// their text, their tool calls and the end of the answer are all known.
pub proof fn law_first_events_are_kept(events: Seq<EventView>, streaming: bool)
    requires
        scan_events(empty_scan(), events, streaming).failure is None,
        !scan_events(empty_scan(), events, streaming).replace,
    ensures
        ({
            let scan = scan_events(empty_scan(), events, streaming);
            &&& scan.content == text_to_end(events)
            &&& scan.tool_calls == tool_calls_to_end(events)
            &&& scan.ended == exists|i: int|
                0 <= i < events.len() && #[trigger] events[i].kind == EventKind::Done
        }),
{
    let scan = scan_events(empty_scan(), events, streaming);
    lemma_scan_keeps_everything(empty_scan(), events, streaming);
    assert(scan.content =~= text_to_end(events));
    assert(scan.tool_calls =~= tool_calls_to_end(events));
}

} // verus!
