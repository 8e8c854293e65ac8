//! What becomes of the reasoning in a complete answer.

use vstd::prelude::*;

use crate::laws::text::{all_white, law_blank, law_marker, law_quote, law_trim_newlines, made_of};
use crate::reasoning::{is_marker, rewrite, rewrite_block, rewritten, skip_blank, unquote};
use crate::text::{lines, trim_newlines, white_space};

verus! {

/// Lines put together, each with a newline.
pub open spec fn with_newlines(ls: Seq<Seq<char>>) -> Seq<char>
    decreases ls.len(),
{
    if ls.len() == 0 {
        Seq::empty()
    } else {
        ls[0].push('\n') + with_newlines(ls.drop_first())
    }
}

/// A line inside a block: behind `>` and one blank where it begins so, else as it is.
pub open spec fn inside(line: Seq<char>) -> Seq<char> {
    if line.len() > 1 && line[0] == '>' && line[1] == ' ' {
        line.skip(2)
    } else if line.len() > 0 && line[0] == '>' {
        line.skip(1)
    } else {
        line
    }
}

/// The lines of a block put together, each with a newline.
pub open spec fn block_text(ls: Seq<Seq<char>>) -> Seq<char>
    decreases ls.len(),
{
    if ls.len() == 0 {
        Seq::empty()
    } else {
        inside(ls[0]).push('\n') + block_text(ls.drop_first())
    }
}

/// Whether a line begins with `>`.
pub open spec fn begins_quote(line: Seq<char>) -> bool {
    line.len() > 0 && line[0] == '>'
}

proof fn lemma_inside(line: Seq<char>)
    ensures
        begins_quote(line) ==> unquote(line) == inside(line),
{
    if begins_quote(line) {
        if line.len() > 1 && line[1] == ' ' {
            let text = line.skip(2);
            assert(line =~= seq!['>', ' '] + text);
            law_quote(line, text);
        } else {
            let text = line.skip(1);
            assert(line =~= seq!['>'] + text);
            law_quote(line, text);
        }
    }
}

proof fn lemma_marker_is_no_quote(line: Seq<char>)
    requires
        is_marker(line),
    ensures
        !begins_quote(line),
        !all_white(line),
{
    let none = Seq::<char>::empty();
    law_marker(line, none, none);
    reveal_strlit("Thinking...");
    reveal_strlit("*Thinking...*");
    let (x, y) = choose|x: Seq<char>, y: Seq<char>|
        all_white(x) && all_white(y) && (#[trigger] made_of(line, x, "Thinking..."@, y) || made_of(
            line,
            x,
            "*Thinking...*"@,
            y,
        ));
    assert(!white_space(line[x.len() as int]));
    if x.len() > 0 {
        assert(line[0] == x[0]);
        assert(white_space(x[0]));
    }
}

proof fn lemma_skip(blanks: Seq<Seq<char>>, rest: Seq<Seq<char>>)
    requires
        forall|i: int| 0 <= i < blanks.len() ==> all_white(#[trigger] blanks[i]),
        rest.len() > 0 ==> !all_white(rest[0]),
    ensures
        skip_blank(blanks + rest) == rest,
    decreases blanks.len(),
{
    if blanks.len() == 0 {
        assert(blanks + rest =~= rest);
        if rest.len() > 0 {
            law_blank(rest[0]);
        }
    } else {
        law_blank(blanks[0]);
        assert(all_white(blanks[0]));
        assert((blanks + rest).drop_first() =~= blanks.drop_first() + rest);
        lemma_skip(blanks.drop_first(), rest);
    }
}

proof fn lemma_lead(lead: Seq<Seq<char>>, rest: Seq<Seq<char>>)
    requires
        forall|i: int| 0 <= i < lead.len() ==> is_marker(#[trigger] lead[i]),
    ensures
        rewrite_block(lead + rest, Seq::empty()) == with_newlines(lead) + rewrite_block(
            rest,
            Seq::empty(),
        ),
    decreases lead.len(),
{
    let none = Seq::<char>::empty();
    if lead.len() == 0 {
        assert(lead + rest =~= rest);
        assert(with_newlines(lead) + rewrite_block(rest, none) =~= rewrite_block(rest, none));
    } else {
        assert(is_marker(lead[0]));
        assert((lead + rest).drop_first() =~= lead.drop_first() + rest);
        lemma_lead(lead.drop_first(), rest);
        assert(rewrite_block(lead + rest, none) =~= with_newlines(lead) + rewrite_block(
            rest,
            none,
        ));
    }
}

proof fn lemma_body(body: Seq<Seq<char>>, tail: Seq<Seq<char>>, reasoning: Seq<char>)
    requires
        forall|i: int|
            0 <= i < body.len() ==> begins_quote(#[trigger] body[i]) || is_marker(body[i]),
        reasoning.len() > 0 || (body.len() > 0 && begins_quote(body[0])),
    ensures
        rewrite_block(body + tail, reasoning) == rewrite_block(
            tail,
            reasoning + block_text(body),
        ),
    decreases body.len(),
{
    if body.len() == 0 {
        assert(body + tail =~= tail);
        assert(reasoning + block_text(body) =~= reasoning);
    } else {
        let line = body[0];
        assert(begins_quote(line) || is_marker(line));
        assert((body + tail).drop_first() =~= body.drop_first() + tail);
        lemma_inside(line);
        law_quote(line, line);
        if is_marker(line) {
            lemma_marker_is_no_quote(line);
        }
        let next = reasoning + inside(line).push('\n');
        lemma_body(body.drop_first(), tail, next);
        assert(next + block_text(body.drop_first()) =~= reasoning + block_text(body));
    }
}

/// A line that announces no block is kept, and what follows it is rewritten as if it
/// stood alone.
pub proof fn law_line_outside_a_block_is_kept(line: Seq<char>, rest: Seq<Seq<char>>)
    requires
        !is_marker(line),
    ensures
        rewrite(seq![line] + rest) == line.push('\n') + rewrite(rest),
        rewrite(Seq::<Seq<char>>::empty()) == Seq::<char>::empty(),
{
    assert((seq![line] + rest).drop_first() =~= rest);
}

/// A block becomes its text between the two tags. The block is a marker line, white
/// lines, and lines that begin with `>`, from the first of these up to the first line
/// that neither begins so nor is a marker; that line and what follows are rewritten as
/// if they stood alone. Markers in front of the first quote are kept in front of the
/// block, and those behind it belong to its text.
pub proof fn law_block_is_tagged(
    marker: Seq<char>,
    whites: Seq<Seq<char>>,
    lead: Seq<Seq<char>>,
    body: Seq<Seq<char>>,
    tail: Seq<Seq<char>>,
)
    requires
        is_marker(marker),
        forall|i: int| 0 <= i < whites.len() ==> all_white(#[trigger] whites[i]),
        forall|i: int| 0 <= i < lead.len() ==> is_marker(#[trigger] lead[i]),
        body.len() > 0,
        begins_quote(body[0]),
        forall|i: int|
            0 <= i < body.len() ==> begins_quote(#[trigger] body[i]) || is_marker(body[i]),
        tail.len() > 0 ==> !begins_quote(tail[0]) && !is_marker(tail[0]),
    ensures
        rewrite(seq![marker] + whites + lead + body + tail) == with_newlines(lead) + "<think>"@
            + trim_newlines(block_text(body)) + "</think>\n"@ + rewrite(tail),
{
    let none = Seq::<char>::empty();
    let rest = lead + (body + tail);
    assert((seq![marker] + whites + lead + body + tail).drop_first() =~= whites + rest);
    if lead.len() > 0 {
        assert(is_marker(lead[0]));
        lemma_marker_is_no_quote(lead[0]);
        assert(rest[0] == lead[0]);
    } else {
        assert(rest[0] == body[0]);
        assert(!white_space('>'));
        assert(!white_space(body[0][0]));
    }
    lemma_skip(whites, rest);
    lemma_lead(lead, body + tail);
    lemma_body(body, tail, none);
    let text = block_text(body);
    assert(none + text =~= text);
    assert(text.len() > 0);
    let tagged = "<think>"@ + trim_newlines(text) + "</think>\n"@;
    if tail.len() > 0 {
        law_quote(tail[0], tail[0]);
        assert(rewrite(tail) == tail[0].push('\n') + rewrite(tail.drop_first()));
        assert(rewrite_block(tail, text) =~= tagged + rewrite(tail));
    } else {
        assert(rewrite_block(tail, text) =~= tagged + rewrite(tail));
    }
    assert(with_newlines(lead) + (tagged + rewrite(tail)) =~= with_newlines(lead) + "<think>"@
        + trim_newlines(text) + "</think>\n"@ + rewrite(tail));
}

/// A marker line with no quote behind it goes, with the white lines behind it. Further
/// markers are kept, and the rest is rewritten as if it stood alone.
pub proof fn law_empty_block_goes(
    marker: Seq<char>,
    whites: Seq<Seq<char>>,
    lead: Seq<Seq<char>>,
    tail: Seq<Seq<char>>,
)
    requires
        is_marker(marker),
        forall|i: int| 0 <= i < whites.len() ==> all_white(#[trigger] whites[i]),
        forall|i: int| 0 <= i < lead.len() ==> is_marker(#[trigger] lead[i]),
        tail.len() > 0 ==> !begins_quote(tail[0]) && !is_marker(tail[0]),
        tail.len() > 0 && lead.len() == 0 ==> !all_white(tail[0]),
    ensures
        rewrite(seq![marker] + whites + lead + tail) == with_newlines(lead) + rewrite(tail),
{
    let none = Seq::<char>::empty();
    let rest = lead + tail;
    assert((seq![marker] + whites + lead + tail).drop_first() =~= whites + rest);
    if lead.len() > 0 {
        assert(is_marker(lead[0]));
        lemma_marker_is_no_quote(lead[0]);
        assert(rest[0] == lead[0]);
    } else {
        assert(rest =~= tail);
    }
    lemma_skip(whites, rest);
    lemma_lead(lead, tail);
    if tail.len() > 0 {
        law_quote(tail[0], tail[0]);
        assert(rewrite(tail) == tail[0].push('\n') + rewrite(tail.drop_first()));
        assert(rewrite_block(tail, none) =~= rewrite(tail));
    } else {
        assert(rewrite_block(tail, none) =~= rewrite(tail));
    }
}

/// A rewritten answer is its rewritten lines without the newlines at the back, and with
/// one where the answer itself ends with one and anything is left.
pub proof fn law_whole_answer(content: Seq<char>, body: Seq<char>, count: nat)
    requires
        rewrite(lines(content)) == body + Seq::new(count, |i: int| '\n'),
        body.len() > 0 ==> body.last() != '\n',
    ensures
        rewritten(content) == (if content.len() > 0 && content.last() == '\n' && body.len() > 0 {
            body.push('\n')
        } else {
            body
        }),
{
    law_trim_newlines(body, count);
}

} // verus!
