//! What a client gets of an answer, by the events that the service sends.

use vstd::prelude::*;

use crate::answer::{
    answer_start, completion_view, gather, gather_all, progress, AnswerStartView, AnswerView, ProgressView,
};
use crate::errors::service_error_view;
use crate::events::{empty_scan, scan_events, EventView, ScanView};
use crate::identity::{is_fresh, IdentityView};
use crate::laws::events::{brings_no_replacement, calls_of, law_last_replacement_counts, quiet, replaces, texts_of};
use crate::reasoning::rewritten;
use crate::replace::{collect, collect_all, longer_text, CollectorView, ItemView};
use crate::types::{text_chunk, tool_chunk, EventKind, ToolCall};

verus! {

/// The items that bring these events.
pub open spec fn items_of(events: Seq<EventView>) -> Seq<ItemView> {
    events.map_values(|e: EventView| ItemView::Event(e))
}

/// An item that is no event to an answer in one piece.
pub open spec fn breaks_off(item: ItemView) -> bool {
    item == ItemView::Failed || item == ItemView::Ended
}

/// What an item does to an answer that is replaced as a whole. A replacement takes the
/// place of the one before, a text is added to the texts before, the end of the answer or
/// of the stream finishes it, and nothing else does anything. Once it is finished,
/// nothing changes it.
pub proof fn law_replaced_answer_takes_an_item(state: CollectorView, event: EventView, item: ItemView)
    ensures
        state.finished ==> collect(state, item) == state,
        !state.finished ==> {
            let after = collect(state, ItemView::Event(event));
            &&& event.kind == EventKind::ReplaceResponse && event.text is Some ==> after == (
            CollectorView { replaced: event.text->0, ..state })
            &&& event.kind == EventKind::Text && event.text is Some ==> after == (CollectorView {
                accumulated: state.accumulated + event.text->0,
                ..state
            })
            &&& event.kind == EventKind::Done ==> after == (CollectorView {
                finished: true,
                ..state
            })
            &&& event.kind == EventKind::Json || event.kind == EventKind::Error ==> after == state
            &&& event.text is None && event.kind != EventKind::Done ==> after == state
            &&& collect(state, ItemView::Failed) == state
            &&& collect(state, ItemView::Ended) == (CollectorView { finished: true, ..state })
        },
{
    let none = Seq::<char>::empty();
    assert(state.accumulated + none =~= state.accumulated);
}

proof fn lemma_collect_events(state: CollectorView, events: Seq<EventView>)
    requires
        !state.finished,
        forall|i: int| 0 <= i < events.len() ==> (#[trigger] events[i]).kind != EventKind::Done,
    ensures
        ({
            let after = collect_all(state, items_of(events));
            &&& !after.finished
            &&& after.accumulated == state.accumulated + texts_of(events)
            &&& brings_no_replacement(events) ==> after.replaced == state.replaced
        }),
    decreases events.len(),
{
    let items = items_of(events);
    if events.len() == 0 {
        assert(state.accumulated + texts_of(events) =~= state.accumulated);
    } else {
        let front = events.drop_last();
        let last = events.last();
        assert(items.drop_last() =~= items_of(front));
        assert(items.last() == ItemView::Event(last));
        assert forall|i: int| 0 <= i < front.len() implies (#[trigger] front[i]).kind
            != EventKind::Done by {
            assert(front[i] == events[i]);
        }
        lemma_collect_events(state, front);
        let before = collect_all(state, items_of(front));
        assert(events[events.len() - 1].kind != EventKind::Done);
        law_replaced_answer_takes_an_item(before, last, ItemView::Failed);
        let after = collect_all(state, items);
        assert(after.accumulated =~= state.accumulated + texts_of(events));
        if brings_no_replacement(events) {
            assert(brings_no_replacement(front)) by {
                assert forall|i: int| 0 <= i < front.len() implies !((#[trigger] front[i]).kind
                    == EventKind::ReplaceResponse && front[i].text is Some) by {
                    assert(front[i] == events[i]);
                }
            }
            assert(!(last.kind == EventKind::ReplaceResponse && last.text is Some));
        }
    }
}

proof fn lemma_collect_on(state: CollectorView, a: Seq<ItemView>, b: Seq<ItemView>)
    ensures
        collect_all(state, a + b) == collect_all(collect_all(state, a), b),
    decreases b.len(),
{
    if b.len() == 0 {
        assert(a + b =~= a);
    } else {
        assert((a + b).drop_last() =~= a + b.drop_last());
        lemma_collect_on(state, a, b.drop_last());
    }
}

/// The answer as it begins where its first events replace it.
pub open spec fn replaced_start(content: Seq<char>) -> CollectorView {
    CollectorView { replaced: content, accumulated: Seq::empty(), finished: false }
}

/// Of an answer that is replaced as a whole, the last replacement is collected, and all
/// text that comes behind the first events.
pub proof fn law_replaced_answer_collects(
    content: Seq<char>,
    a: Seq<EventView>,
    replacement: EventView,
    b: Seq<EventView>,
)
    requires
        forall|i: int|
            0 <= i < (a + seq![replacement] + b).len() ==> (#[trigger] (a + seq![replacement]
                + b)[i]).kind != EventKind::Done,
        replacement.kind == EventKind::ReplaceResponse,
        replacement.text is Some,
        brings_no_replacement(b),
    ensures
        collect_all(replaced_start(content), items_of(a + seq![replacement] + b)) == (
        CollectorView {
            replaced: replacement.text->0,
            accumulated: texts_of(a + seq![replacement] + b),
            finished: false,
        }),
        brings_no_replacement(a) ==> collect_all(replaced_start(content), items_of(a)) == (
        CollectorView { replaced: content, accumulated: texts_of(a), finished: false }),
{
    let none = Seq::<char>::empty();
    let all = a + seq![replacement] + b;
    let start = replaced_start(content);
    assert forall|i: int| 0 <= i < a.len() implies (#[trigger] a[i]).kind != EventKind::Done by {
        assert(a[i] == all[i]);
    }
    assert forall|i: int| 0 <= i < b.len() implies (#[trigger] b[i]).kind != EventKind::Done by {
        assert(b[i] == all[a.len() + 1 + i]);
    }
    lemma_collect_events(start, a);
    lemma_collect_events(start, all);
    let one = items_of(seq![replacement]);
    assert(items_of(all) =~= items_of(a) + one + items_of(b));
    lemma_collect_on(start, items_of(a) + one, items_of(b));
    lemma_collect_on(start, items_of(a), one);
    let before = collect_all(start, items_of(a));
    assert(one =~= seq![ItemView::Event(replacement)]);
    assert(one.drop_last() =~= Seq::empty());
    assert(collect_all(before, one.drop_last()) == before);
    law_replaced_answer_takes_an_item(before, replacement, ItemView::Failed);
    let middle = collect_all(before, one);
    lemma_collect_events(middle, b);
    assert(none + texts_of(all) =~= texts_of(all));
    assert(none + texts_of(a) =~= texts_of(a));
}

/// Over its first events and those behind them together, the collected replacement of an
/// answer is the last one: among those behind, or else among the first.
pub proof fn law_replacement_is_the_last_of_the_answer(
    a: Seq<EventView>,
    replacement: EventView,
    b: Seq<EventView>,
    later: Seq<EventView>,
    streaming: bool,
)
    requires
        quiet(a + seq![replacement] + b),
        replacement.kind == EventKind::ReplaceResponse,
        replacement.text is Some,
        brings_no_replacement(b),
        brings_no_replacement(later),
        forall|i: int| 0 <= i < later.len() ==> (#[trigger] later[i]).kind != EventKind::Done,
    ensures
        ({
            let scan = scan_events(empty_scan(), a + seq![replacement] + b, streaming);
            &&& answer_start(scan) == AnswerStartView::Replace(
                replaced_start(replacement.text->0),
            )
            &&& collect_all(replaced_start(scan.content), items_of(later)) == (CollectorView {
                replaced: replacement.text->0,
                accumulated: texts_of(later),
                finished: false,
            })
        }),
{
    law_last_replacement_counts(a, replacement, b, streaming);
    let start = replaced_start(replacement.text->0);
    lemma_collect_events(start, later);
    assert(start.accumulated + texts_of(later) =~= texts_of(later));
}

/// The text of a replaced answer is its last replacement, unless the texts that came are
/// longer in bytes.
pub proof fn law_longer_text_is_taken(replaced: Seq<char>, accumulated: Seq<char>)
    ensures
        vstd::utf8::encode_utf8(accumulated).len() <= vstd::utf8::encode_utf8(replaced).len()
            ==> longer_text(replaced, accumulated) == replaced,
        vstd::utf8::encode_utf8(accumulated).len() > vstd::utf8::encode_utf8(replaced).len()
            ==> longer_text(replaced, accumulated) == accumulated,
{
}

/// A new identity names the model and has an identifier of ten letters, digits, `_` and
/// `-`.
pub proof fn law_identity_is_fresh(identity: IdentityView, model: Seq<char>)
    requires
        is_fresh(identity, model),
    ensures
        identity.model == model,
        identity.created >= 0,
        identity.id.len() == 10,
        forall|i: int|
            0 <= i < 10 ==> ({
                let c = #[trigger] identity.id[i];
                'a' <= c <= 'z' || 'A' <= c <= 'Z' || '0' <= c <= '9' || c == '_' || c == '-'
            }),
{
}

/// The message of a complete answer has the rewritten text, whatever the tool calls are,
/// and the tool calls, whatever the text is; the reason to finish tells whether there are
/// any.
pub proof fn law_complete_answer(
    identity: IdentityView,
    content: Seq<char>,
    tool_calls: Seq<ToolCall>,
    other_identity: IdentityView,
    other_calls: Seq<ToolCall>,
)
    ensures
        ({
            let answer = completion_view(identity, content, tool_calls);
            let other = completion_view(other_identity, content, other_calls);
            let choice = answer.choices[0];
            &&& answer.id == "chatcmpl-"@ + identity.id
            &&& answer.object == "chat.completion"@
            &&& answer.created == identity.created
            &&& answer.model == identity.model
            &&& answer.usage is None
            &&& answer.choices.len() == 1
            &&& choice.index == 0
            &&& choice.role == "assistant"@
            &&& choice.refusal is None
            &&& choice.logprobs is None
            &&& choice.content == rewritten(content)
            &&& choice.content == other.choices[0].content
            &&& tool_calls.len() == 0 ==> choice.tool_calls is None && choice.finish_reason == Some(
                "stop"@,
            )
            &&& tool_calls.len() > 0 ==> choice.tool_calls == Some(tool_calls)
                && choice.finish_reason == Some("tool_calls"@)
        }),
{
}

/// What an item does to an answer in one piece that grows: a text is added, tool calls
/// are added, an error with a reason fails it, the end of the answer or of the stream
/// completes it, and nothing else does anything.
pub proof fn law_growing_answer_takes_an_item(answer: AnswerView, event: EventView, item: ItemView)
    ensures
        ({
            let after = gather(answer, ItemView::Event(event));
            let goes = progress(ItemView::Event(event));
            &&& event.kind == EventKind::Text && event.text is Some ==> after == (AnswerView {
                content: answer.content + event.text->0,
                ..answer
            })
            &&& event.kind == EventKind::Json && event.tool_calls is Some ==> after == (
            AnswerView { tool_calls: answer.tool_calls + event.tool_calls->0, ..answer })
            &&& event.kind == EventKind::Text && event.text is None ==> after == answer
            &&& event.kind == EventKind::Json && event.tool_calls is None ==> after == answer
            &&& event.kind != EventKind::Text && event.kind != EventKind::Json ==> after == answer
            &&& event.kind == EventKind::Done ==> goes == ProgressView::Finished
            &&& event.kind == EventKind::Error && event.error is Some ==> goes
                == ProgressView::Failed(service_error_view(event.error->0))
            &&& event.kind == EventKind::Error && event.error is None ==> goes
                == ProgressView::Continue
            &&& event.kind != EventKind::Done && event.kind != EventKind::Error ==> goes
                == ProgressView::Continue
            &&& breaks_off(item) ==> gather(answer, item) == answer && progress(item)
                == ProgressView::Finished
        }),
{
}

proof fn lemma_gather_events(answer: AnswerView, events: Seq<EventView>)
    ensures
        gather_all(answer, items_of(events)) == (AnswerView {
            content: answer.content + texts_of(events),
            tool_calls: answer.tool_calls + calls_of(events),
        }),
    decreases events.len(),
{
    let items = items_of(events);
    let whole = AnswerView {
        content: answer.content + texts_of(events),
        tool_calls: answer.tool_calls + calls_of(events),
    };
    if events.len() > 0 {
        let front = events.drop_last();
        assert(items.drop_last() =~= items_of(front));
        assert(items.last() == ItemView::Event(events.last()));
        lemma_gather_events(answer, front);
        law_growing_answer_takes_an_item(
            gather_all(answer, items_of(front)),
            events.last(),
            ItemView::Failed,
        );
    }
    assert(gather_all(answer, items) =~= whole);
}

/// An answer in one piece holds the text and the tool calls of all its events, the first
/// and those behind them, in their order.
pub proof fn law_answer_holds_everything(
    first: Seq<EventView>,
    later: Seq<EventView>,
)
    requires
        quiet(first),
        !replaces(first),
    ensures
        ({
            let scan = scan_events(empty_scan(), first, false);
            &&& answer_start(scan) matches AnswerStartView::Collect(answer)
            &&& gather_all(answer, items_of(later)) == (AnswerView {
                content: texts_of(first) + texts_of(later),
                tool_calls: calls_of(first) + calls_of(later),
            })
        }),
{
    crate::laws::events::law_texts_and_calls_are_gathered(first, false);
    lemma_gather_events(
        AnswerView { content: texts_of(first), tool_calls: calls_of(first) },
        later,
    );
}

/// How an answer in one piece is read: not at all where it has failed, as one that is
/// replaced as a whole where it is replaced, and else as one that grows.
pub proof fn law_answer_begins(scan: ScanView)
    ensures
        scan.failure is Some ==> answer_start(scan) == AnswerStartView::Failed(
            service_error_view(scan.failure->0),
        ),
        scan.failure is None && scan.replace ==> answer_start(scan) == AnswerStartView::Replace(
            replaced_start(scan.content),
        ),
        scan.failure is None && !scan.replace ==> answer_start(scan) == AnswerStartView::Collect(
            AnswerView { content: scan.content, tool_calls: scan.tool_calls },
        ),
{
}

/// A chunk carries the text it is made for, and names the role instead where it has
/// neither a text nor a reason to finish.
pub proof fn law_text_chunk(
    id: Seq<char>,
    created: i64,
    model: Seq<char>,
    content: Seq<char>,
    reason: Option<Seq<char>>,
)
    ensures
        ({
            let chunk = text_chunk(id, created, model, content, reason);
            let choice = chunk.choices[0];
            &&& chunk.id == "chatcmpl-"@ + id
            &&& chunk.object == "chat.completion.chunk"@
            &&& chunk.created == created
            &&& chunk.model == model
            &&& chunk.choices.len() == 1
            &&& choice.index == 0
            &&& choice.finish_reason == reason
            &&& choice.delta.refusal is None
            &&& choice.delta.tool_calls is None
            &&& content.len() > 0 || reason is Some ==> choice.delta.content == Some(content)
                && choice.delta.role is None
            &&& content.len() == 0 && reason is None ==> choice.delta.content is None
                && choice.delta.role == Some("assistant"@)
        }),
{
}

/// A chunk carries the tool calls it is made for, all of them, and says that they are the
/// reason to finish.
pub proof fn law_tool_chunk(
    id: Seq<char>,
    created: i64,
    model: Seq<char>,
    tool_calls: Seq<ToolCall>,
)
    ensures
        ({
            let chunk = tool_chunk(id, created, model, tool_calls);
            let choice = chunk.choices[0];
            &&& chunk.id == "chatcmpl-"@ + id
            &&& chunk.object == "chat.completion.chunk"@
            &&& chunk.created == created
            &&& chunk.model == model
            &&& chunk.choices.len() == 1
            &&& choice.index == 0
            &&& choice.finish_reason == Some("tool_calls"@)
            &&& choice.delta.role == Some("assistant"@)
            &&& choice.delta.content is None
            &&& choice.delta.refusal is None
            &&& choice.delta.tool_calls == Some(tool_calls)
        }),
{
}

} // verus!
