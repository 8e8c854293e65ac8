//! The tags around reasoning in a text, and the order in which they come.

use vstd::prelude::*;

use crate::text::{contains, ends_with_newline, occurs_at, starts_with, trim_newlines};

verus! {

/// The tags of a text from front to back: `true` for `<think>`, `false` for `</think>`.
pub open spec fn tags(s: Seq<char>) -> Seq<bool>
    decreases s.len(),
{
    if s.len() == 0 {
        Seq::empty()
    } else if starts_with(s, "<think>"@) {
        seq![true] + tags(s.drop_first())
    } else if starts_with(s, "</think>"@) {
        seq![false] + tags(s.drop_first())
    } else {
        tags(s.drop_first())
    }
}

/// Whether a text holds no tag.
pub open spec fn tagless(s: Seq<char>) -> bool {
    !contains(s, "<think>"@) && !contains(s, "</think>"@)
}

/// Whether tags alternate, with an opening one first and a closing one last.
pub open spec fn well_nested(ts: Seq<bool>) -> bool {
    ts.len() % 2 == 0 && forall|i: int| 0 <= i < ts.len() ==> #[trigger] ts[i] == (i % 2 == 0)
}

/// Whether tags alternate, from where a block is open or not to where one is or not.
pub open spec fn alternate(ts: Seq<bool>, open: bool, after: bool) -> bool {
    &&& (ts.len() % 2 == 1) == (open != after)
    &&& forall|i: int| 0 <= i < ts.len() ==> #[trigger] ts[i] == ((i % 2 == 0) != open)
}

/// What alternates between blocks is well nested.
pub proof fn lemma_well_nested(ts: Seq<bool>)
    requires
        alternate(ts, false, false),
    ensures
        well_nested(ts),
{
}

/// Tags that alternate go on alternating.
pub proof fn lemma_alternate_join(a: Seq<bool>, b: Seq<bool>, x: bool, y: bool, z: bool)
    requires
        alternate(a, x, y),
        alternate(b, y, z),
    ensures
        alternate(a + b, x, z),
{
    assert forall|i: int| 0 <= i < (a + b).len() implies #[trigger] (a + b)[i] == ((i % 2 == 0)
        != x) by {
        if i >= a.len() {
            assert((a + b)[i] == b[i - a.len()]);
        }
    }
}

/// Whether no tag can reach from a text into what follows it.
pub open spec fn ends_cleanly(s: Seq<char>) -> bool {
    s.len() == 0 || s.last() == '\n' || s.last() == '>'
}

proof fn lemma_prefix_of_join(a: Seq<char>, b: Seq<char>, tag: Seq<char>)
    requires
        a.len() > 0,
        tag.len() > 0,
        forall|i: int| 0 <= i < tag.len() - 1 ==> tag[i] != '\n' && tag[i] != '>',
        forall|i: int| 1 <= i < tag.len() ==> tag[i] != '<',
        ends_cleanly(a) || (b.len() > 0 && b[0] == '<'),
    ensures
        starts_with(a + b, tag) == starts_with(a, tag),
{
    if starts_with(a + b, tag) {
        assert forall|i: int| 0 <= i < tag.len() implies tag[i] == (a + b)[i] by {
            assert((a + b).take(tag.len() as int)[i] == tag[i]);
        }
        if tag.len() > a.len() {
            assert(tag[a.len() - 1] == a.last());
            assert(tag[a.len() as int] == b[0]);
        }
        assert(a.take(tag.len() as int) =~= tag);
    }
    if starts_with(a, tag) {
        assert((a + b).take(tag.len() as int) =~= a.take(tag.len() as int));
    }
}

/// The tags of two texts are those of the one and those of the other, where none can
/// reach from the one into the other.
pub proof fn lemma_tags_join(a: Seq<char>, b: Seq<char>)
    requires
        ends_cleanly(a) || (b.len() > 0 && b[0] == '<'),
    ensures
        tags(a + b) == tags(a) + tags(b),
    decreases a.len(),
{
    if a.len() == 0 {
        assert(a + b =~= b);
        assert(tags(a) + tags(b) =~= tags(b));
    } else {
        reveal_strlit("<think>");
        reveal_strlit("</think>");
        lemma_prefix_of_join(a, b, "<think>"@);
        lemma_prefix_of_join(a, b, "</think>"@);
        assert((a + b).drop_first() =~= a.drop_first() + b);
        lemma_tags_join(a.drop_first(), b);
        assert(tags(a + b) =~= tags(a) + tags(b));
    }
}

/// A text without `<` has no tags.
pub proof fn lemma_no_bracket(s: Seq<char>)
    requires
        forall|i: int| 0 <= i < s.len() ==> #[trigger] s[i] != '<',
    ensures
        tags(s) == Seq::<bool>::empty(),
    decreases s.len(),
{
    if s.len() > 0 {
        reveal_strlit("<think>");
        reveal_strlit("</think>");
        if starts_with(s, "<think>"@) {
            assert(s.take(7)[0] == '<');
        }
        if starts_with(s, "</think>"@) {
            assert(s.take(8)[0] == '<');
        }
        assert forall|i: int| 0 <= i < s.drop_first().len() implies #[trigger] s.drop_first()[i]
            != '<' by {
            assert(s[i + 1] != '<');
        }
        lemma_no_bracket(s.drop_first());
    }
}

/// A newline at the back adds no tag.
pub proof fn lemma_newline_adds_no_tag(s: Seq<char>)
    ensures
        tags(s.push('\n')) == tags(s),
    decreases s.len(),
{
    if s.len() == 0 {
        assert forall|i: int| 0 <= i < s.push('\n').len() implies #[trigger] s.push('\n')[i]
            != '<' by {}
        lemma_no_bracket(s.push('\n'));
        assert(tags(s) =~= Seq::empty());
    } else {
        reveal_strlit("<think>");
        reveal_strlit("</think>");
        lemma_prefix_of_push(s, "<think>"@);
        lemma_prefix_of_push(s, "</think>"@);
        assert(s.push('\n').drop_first() =~= s.drop_first().push('\n'));
        lemma_newline_adds_no_tag(s.drop_first());
    }
}

proof fn lemma_prefix_of_push(s: Seq<char>, tag: Seq<char>)
    requires
        forall|i: int| 0 <= i < tag.len() ==> #[trigger] tag[i] != '\n',
    ensures
        starts_with(s.push('\n'), tag) == starts_with(s, tag),
{
    let longer = s.push('\n');
    if starts_with(longer, tag) {
        if tag.len() == longer.len() {
            assert(longer.take(tag.len() as int)[tag.len() - 1] == '\n');
            assert(tag[tag.len() - 1] != '\n');
        }
        assert(s.take(tag.len() as int) =~= longer.take(tag.len() as int));
    }
    if starts_with(s, tag) {
        assert(s.take(tag.len() as int) =~= longer.take(tag.len() as int));
    }
}

/// Newlines at the back do not matter to the tags.
pub proof fn lemma_trim_keeps_tags(s: Seq<char>)
    ensures
        tags(trim_newlines(s)) == tags(s),
    decreases s.len(),
{
    if ends_with_newline(s) {
        assert(s =~= s.drop_last().push('\n'));
        lemma_newline_adds_no_tag(s.drop_last());
        lemma_trim_keeps_tags(s.drop_last());
    }
}

/// A part of a text without tags has none.
pub proof fn lemma_part_is_tagless(s: Seq<char>, from: int, to: int)
    requires
        tagless(s),
        0 <= from <= to <= s.len(),
    ensures
        tagless(s.subrange(from, to)),
        tags(s.subrange(from, to)) == Seq::<bool>::empty(),
    decreases to - from,
{
    let part = s.subrange(from, to);
    lemma_part_lacks(s, from, to, "<think>"@);
    lemma_part_lacks(s, from, to, "</think>"@);
    if part.len() > 0 {
        if starts_with(part, "<think>"@) {
            assert(part.subrange(0, "<think>"@.len() as int) =~= part.take("<think>"@.len() as int));
            assert(occurs_at(part, "<think>"@, 0));
        }
        if starts_with(part, "</think>"@) {
            assert(part.subrange(0, "</think>"@.len() as int) =~= part.take(
                "</think>"@.len() as int,
            ));
            assert(occurs_at(part, "</think>"@, 0));
        }
        assert(part.drop_first() =~= s.subrange(from + 1, to));
        lemma_part_is_tagless(s, from + 1, to);
    }
}

proof fn lemma_part_lacks(s: Seq<char>, from: int, to: int, pattern: Seq<char>)
    requires
        !contains(s, pattern),
        0 <= from <= to <= s.len(),
    ensures
        !contains(s.subrange(from, to), pattern),
{
    let part = s.subrange(from, to);
    if contains(part, pattern) {
        let i = choose|i: int| #[trigger] occurs_at(part, pattern, i);
        assert(s.subrange(from + i, from + i + pattern.len()) =~= part.subrange(
            i,
            i + pattern.len(),
        ));
        assert(occurs_at(s, pattern, from + i));
    }
}

/// A newline at the back does not complete a tag.
pub proof fn lemma_line_is_tagless(s: Seq<char>)
    requires
        tagless(s),
    ensures
        tagless(s.push('\n')),
{
    reveal_strlit("<think>");
    reveal_strlit("</think>");
    lemma_push_lacks(s, "<think>"@);
    lemma_push_lacks(s, "</think>"@);
}

proof fn lemma_push_lacks(s: Seq<char>, pattern: Seq<char>)
    requires
        !contains(s, pattern),
        pattern.len() > 0,
        pattern.last() != '\n',
    ensures
        !contains(s.push('\n'), pattern),
{
    let longer = s.push('\n');
    if contains(longer, pattern) {
        let i = choose|i: int| #[trigger] occurs_at(longer, pattern, i);
        let found = longer.subrange(i, i + pattern.len());
        if i + pattern.len() == longer.len() {
            assert(found[pattern.len() - 1] == '\n');
        }
        assert(s.subrange(i, i + pattern.len()) =~= found);
        assert(occurs_at(s, pattern, i));
    }
}

/// The tag that opens a block, at the front of a text.
pub proof fn lemma_opening_tag(s: Seq<char>)
    ensures
        tags("<think>"@ + s) == seq![true] + tags(s),
{
    reveal_strlit("<think>");
    let tag = "<think>"@;
    assert(tag.take(7) =~= tag);
    assert forall|i: int| 0 <= i < tag.drop_first().len() implies #[trigger] tag.drop_first()[i]
        != '<' by {}
    lemma_no_bracket(tag.drop_first());
    assert(tags(tag) =~= seq![true]);
    lemma_tags_join(tag, s);
}

/// The tag that closes a block, with its newline, at the front of a text.
pub proof fn lemma_closing_tag(s: Seq<char>)
    ensures
        tags("</think>\n"@ + s) == seq![false] + tags(s),
{
    reveal_strlit("</think>\n");
    reveal_strlit("</think>");
    reveal_strlit("<think>");
    let tag = "</think>\n"@;
    assert(tag.take(8) =~= "</think>"@);
    assert(tag.take(7)[1] == '/');
    assert forall|i: int| 0 <= i < tag.drop_first().len() implies #[trigger] tag.drop_first()[i]
        != '<' by {}
    lemma_no_bracket(tag.drop_first());
    assert(tags(tag) =~= seq![false]);
    lemma_tags_join(tag, s);
}

} // verus!
