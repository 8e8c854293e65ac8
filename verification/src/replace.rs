//! Answers that the service replaces as a whole while they grow.

use vstd::prelude::*;
use vstd::string::StringExecFns;

use crate::events::EventView;
use crate::text::byte_length;
use crate::types::{EventKind, StreamItem};

verus! {

/// The contents of a `StreamItem`.
#[verifier::ext_equal]
pub enum ItemView {
    Event(EventView),
    Failed,
    Ended,
}

impl View for StreamItem {
    type V = ItemView;

    open spec fn view(&self) -> ItemView {
        match self {
            StreamItem::Event(event) => ItemView::Event(event@),
            StreamItem::Failed => ItemView::Failed,
            StreamItem::Ended => ItemView::Ended,
        }
    }
}

/// What has come of an answer that is replaced as a whole.
#[derive(Debug)]
pub struct ReplaceCollector {
    /// The last replacement.
    pub replaced: String,
    /// The text of all text events.
    pub accumulated: String,
    /// Whether the answer is complete.
    pub finished: bool,
}

/// The contents of a `ReplaceCollector`.
#[verifier::ext_equal]
pub struct CollectorView {
    pub replaced: Seq<char>,
    pub accumulated: Seq<char>,
    pub finished: bool,
}

impl View for ReplaceCollector {
    type V = CollectorView;

    open spec fn view(&self) -> CollectorView {
        CollectorView {
            replaced: self.replaced@,
            accumulated: self.accumulated@,
            finished: self.finished,
        }
    }
}

/// Whether an item ends an answer.
pub open spec fn is_last(item: ItemView) -> bool {
    match item {
        ItemView::Event(event) => event.kind == EventKind::Done,
        ItemView::Failed => false,
        ItemView::Ended => true,
    }
}

/// The replacement that an item brings.
pub open spec fn replacement(item: ItemView) -> Option<Seq<char>> {
    match item {
        ItemView::Event(event) => if event.kind == EventKind::ReplaceResponse {
            event.text
        } else {
            None
        },
        _ => None,
    }
}

/// The text that an item adds.
pub open spec fn added_text(item: ItemView) -> Seq<char> {
    match item {
        ItemView::Event(event) => if event.kind == EventKind::Text && event.text is Some {
            event.text->0
        } else {
            Seq::empty()
        },
        _ => Seq::empty(),
    }
}

/// What has come of the answer with one item more. Behind the end nothing counts.
pub open spec fn collect(state: CollectorView, item: ItemView) -> CollectorView {
    if state.finished {
        state
    } else {
        CollectorView {
            replaced: match replacement(item) {
                Some(text) => text,
                None => state.replaced,
            },
            accumulated: state.accumulated + added_text(item),
            finished: is_last(item),
        }
    }
}

/// The text of the answer: the text of all text events where it is longer than the
/// last replacement, in bytes, else that replacement.
pub open spec fn longer_text(replaced: Seq<char>, accumulated: Seq<char>) -> Seq<char> {
    if vstd::utf8::encode_utf8(accumulated).len() > vstd::utf8::encode_utf8(replaced).len() {
        accumulated
    } else {
        replaced
    }
}

impl ReplaceCollector {
    /// An answer that begins with `initial_content`.
    pub fn new(initial_content: String) -> (r: ReplaceCollector)
        ensures
            r@ == (CollectorView {
                replaced: initial_content@,
                accumulated: Seq::empty(),
                finished: false,
            }),
    {
        ReplaceCollector {
            replaced: initial_content,
            accumulated: String::new(),
            finished: false,
        }
    }

    /// Takes in one item more.
    pub fn observe(&mut self, item: StreamItem)
        ensures
            final(self)@ == collect(old(self)@, item@),
    {
        if self.finished {
            return;
        }
        match item {
            StreamItem::Event(event) => match event.kind {
                EventKind::ReplaceResponse => {
                    if let Some(text) = event.text {
                        self.replaced = text;
                    }
                },
                EventKind::Text => {
                    if let Some(text) = event.text {
                        self.accumulated.append(text.as_str());
                    }
                },
                EventKind::Done => {
                    self.finished = true;
                },
                EventKind::Json => {},
                EventKind::Error => {},
            },
            StreamItem::Failed => {},
            StreamItem::Ended => {
                self.finished = true;
            },
        }
        assert(self@ =~= collect(old(self)@, item@));
    }

    /// The text of the answer.
    pub fn handle_replace_response(self) -> (r: String)
        ensures
            r@ == longer_text(self@.replaced, self@.accumulated),
    {
        if byte_length(self.accumulated.as_str()) > byte_length(self.replaced.as_str()) {
            self.accumulated
        } else {
            self.replaced
        }
    }
}

/// What has come of the answer with `items` more.
pub open spec fn collect_all(state: CollectorView, items: Seq<ItemView>) -> CollectorView
    decreases items.len(),
{
    if items.len() == 0 {
        state
    } else {
        collect(collect_all(state, items.drop_last()), items.last())
    }
}

/// The number of items that belong to the answer: those up to its end.
pub open spec fn answer_length(items: Seq<ItemView>) -> int
    decreases items.len(),
{
    if items.len() == 0 {
        0
    } else if is_last(items[0]) {
        1
    } else {
        1 + answer_length(items.drop_first())
    }
}

/// The last replacement among `items`, or `initial` where there is none.
pub open spec fn last_replacement(initial: Seq<char>, items: Seq<ItemView>) -> Seq<char>
    decreases items.len(),
{
    if items.len() == 0 {
        initial
    } else {
        match replacement(items.last()) {
            Some(text) => text,
            None => last_replacement(initial, items.drop_last()),
        }
    }
}

/// The text of all text events among `items`.
pub open spec fn all_text(items: Seq<ItemView>) -> Seq<char>
    decreases items.len(),
{
    if items.len() == 0 {
        Seq::empty()
    } else {
        all_text(items.drop_last()) + added_text(items.last())
    }
}

/// What has come of an answer is the last replacement and all text up to its end, and
/// nothing of what follows.
pub proof fn law_collects_to_the_end(initial: Seq<char>, items: Seq<ItemView>)
    ensures
        ({
            let start = CollectorView {
                replaced: initial,
                accumulated: Seq::empty(),
                finished: false,
            };
            let answer = items.take(answer_length(items));
            collect_all(start, items) == (CollectorView {
                replaced: last_replacement(initial, answer),
                accumulated: all_text(answer),
                finished: exists|i: int| 0 <= i < items.len() && is_last(#[trigger] items[i]),
            })
        }),
    decreases items.len(),
{
    lemma_answer_length(items);
    if items.len() > 0 {
        let earlier = items.drop_last();
        law_collects_to_the_end(initial, earlier);
        lemma_answer_length(earlier);
        let ended = exists|i: int| 0 <= i < earlier.len() && is_last(#[trigger] earlier[i]);
        if ended {
            let i = choose|i: int| 0 <= i < earlier.len() && is_last(#[trigger] earlier[i]);
            assert(is_last(items[i]));
            lemma_answer_end(items, answer_length(earlier));
            assert(items.take(answer_length(items)) =~= earlier.take(answer_length(earlier)));
        } else {
            assert forall|i: int| 0 <= i < items.len() - 1 implies !is_last(
                #[trigger] items[i],
            ) by {
                assert(earlier[i] == items[i]);
            }
            lemma_answer_end(items, items.len() as int);
            lemma_answer_end(earlier, earlier.len() as int);
            assert(items.take(items.len() as int) =~= items);
            assert(earlier.take(earlier.len() as int) =~= earlier);
            if is_last(items.last()) {
                assert(is_last(items[items.len() - 1]));
            }
        }
    } else {
        assert(items.take(0) =~= items);
    }
}

proof fn lemma_answer_length(items: Seq<ItemView>)
    ensures
        0 <= answer_length(items) <= items.len(),
        forall|i: int| 0 <= i < answer_length(items) - 1 ==> !is_last(#[trigger] items[i]),
        answer_length(items) < items.len() ==> answer_length(items) > 0 && is_last(
            items[answer_length(items) - 1],
        ),
        (exists|i: int| 0 <= i < items.len() && is_last(#[trigger] items[i])) ==> answer_length(
            items,
        ) > 0 && is_last(items[answer_length(items) - 1]),
    decreases items.len(),
{
    if items.len() > 0 && !is_last(items[0]) {
        let rest = items.drop_first();
        lemma_answer_length(rest);
        assert forall|i: int| 0 <= i < answer_length(items) - 1 implies !is_last(
            #[trigger] items[i],
        ) by {
            if i > 0 {
                assert(rest[i - 1] == items[i]);
            }
        }
        if exists|i: int| 0 <= i < items.len() && is_last(#[trigger] items[i]) {
            let i = choose|i: int| 0 <= i < items.len() && is_last(#[trigger] items[i]);
            assert(is_last(rest[i - 1]));
        }
    }
}

/// The length of an answer, from where its end stands.
proof fn lemma_answer_end(items: Seq<ItemView>, n: int)
    requires
        0 <= n <= items.len(),
        n == 0 ==> items.len() == 0,
        forall|i: int| 0 <= i < n - 1 ==> !is_last(#[trigger] items[i]),
        n == items.len() || is_last(items[n - 1]),
    ensures
        answer_length(items) == n,
{
    lemma_answer_length(items);
    let m = answer_length(items);
    if m < n {
        assert(!is_last(items[m - 1]));
    } else if n < m {
        assert(!is_last(items[n - 1]));
    }
}

} // verus!
