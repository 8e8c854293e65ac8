//! What becomes of the reasoning in an answer that comes in pieces.

use vstd::prelude::*;

use crate::laws::reasoning::{begins_quote, block_text, inside, with_newlines};
use crate::laws::text::{law_first_line, law_quote, law_trim_newlines, on_one_line};
use crate::reasoning::{is_marker, unquote};
use crate::text::trim_newlines;
use crate::thinking_stream::{closing_output, read, streamed, Reading, ThinkMode};

verus! {

/// A number of newlines.
pub open spec fn empty_lines(count: nat) -> Seq<char> {
    Seq::new(count, |i: int| '\n')
}

/// What is read with `output` written before it.
pub open spec fn behind(output: Seq<char>, later: Reading) -> Reading {
    Reading { mode: later.mode, output: output + later.output, rest: later.rest }
}

proof fn lemma_one_newline(line: Seq<char>)
    requires
        on_one_line(line),
    ensures
        trim_newlines(line.push('\n')) == line,
{
    assert(line.push('\n') =~= line + Seq::new(1, |i: int| '\n'));
    if line.len() > 0 {
        assert(line[line.len() - 1] != '\n');
    }
    law_trim_newlines(line, 1);
}

proof fn lemma_quote_text(line: Seq<char>)
    requires
        begins_quote(line),
    ensures
        unquote(line) == inside(line),
{
    if line.len() > 1 && line[1] == ' ' {
        assert(line =~= seq!['>', ' '] + line.skip(2));
        law_quote(line, line.skip(2));
    } else {
        assert(line =~= seq!['>'] + line.skip(1));
        law_quote(line, line.skip(1));
    }
}

/// What a line does to a reader that stands in front of it, and what is read behind it.
/// Outside a block a marker line is swallowed and any other kept. Behind a marker an
/// empty line is swallowed, a line that begins with `>` opens the block, and any other is
/// kept. Inside a block every line that begins with `>` belongs to it, and any other ends
/// it and is kept. A line that is not complete is left for later.
pub proof fn law_reader_takes_a_line(line: Seq<char>, rest: Seq<char>, mode: ThinkMode)
    requires
        on_one_line(line),
    ensures
        ({
            let text = line.push('\n') + rest;
            let kept = line.push('\n');
            let idle = read(ThinkMode::Idle, rest);
            let waiting = read(ThinkMode::Waiting, rest);
            let thinking = read(ThinkMode::Thinking, rest);
            &&& is_marker(line) ==> read(ThinkMode::Idle, text) == waiting
            &&& !is_marker(line) ==> read(ThinkMode::Idle, text) == behind(kept, idle)
            &&& line.len() == 0 ==> read(ThinkMode::Waiting, text) == waiting
            &&& begins_quote(line) ==> read(ThinkMode::Waiting, text) == behind(
                "<think>"@ + inside(line).push('\n'),
                thinking,
            )
            &&& line.len() > 0 && !begins_quote(line) ==> read(ThinkMode::Waiting, text) == behind(
                kept,
                idle,
            )
            &&& begins_quote(line) ==> read(ThinkMode::Thinking, text) == behind(
                inside(line).push('\n'),
                thinking,
            )
            &&& !begins_quote(line) ==> read(ThinkMode::Thinking, text) == behind(
                "</think>\n"@ + kept,
                idle,
            )
            &&& read(mode, line) == (Reading { mode, output: Seq::empty(), rest: line })
        }),
{
    let text = line.push('\n') + rest;
    law_first_line(line, rest);
    lemma_one_newline(line);
    law_quote(line, line);
    if begins_quote(line) {
        lemma_quote_text(line);
    }
    let waiting = read(ThinkMode::Waiting, rest);
    assert(behind(Seq::empty(), waiting) =~= waiting);
}

/// What the end of the text adds: what the incomplete line gives, as if it were complete
/// but without its newline, and the tag that closes a block which is open then.
pub proof fn law_end_of_text(line: Seq<char>)
    requires
        on_one_line(line),
    ensures
        is_marker(line) ==> closing_output(ThinkMode::Idle, line) == Seq::<char>::empty(),
        !is_marker(line) ==> closing_output(ThinkMode::Idle, line) == line,
        begins_quote(line) ==> closing_output(ThinkMode::Waiting, line) == "<think>"@ + inside(line)
            + "\n</think>\n"@,
        !begins_quote(line) ==> closing_output(ThinkMode::Waiting, line) == line,
        line.len() == 0 || (begins_quote(line) && inside(line).len() == 0) ==> closing_output(
            ThinkMode::Thinking,
            line,
        ) == "</think>\n"@,
        begins_quote(line) && inside(line).len() > 0 ==> closing_output(ThinkMode::Thinking, line)
            == inside(line) + "\n</think>\n"@,
        line.len() > 0 && !begins_quote(line) ==> closing_output(ThinkMode::Thinking, line)
            == "</think>\n"@ + line,
{
    reveal_strlit("</think>\n");
    reveal_strlit("\n</think>\n");
    reveal_strlit("<think>");
    let none = Seq::<char>::empty();
    let close = "</think>\n"@;
    let newline_close = "\n</think>\n"@;
    assert(newline_close =~= seq!['\n'] + close);
    lemma_one_newline(line);
    law_quote(line, line);
    assert(trim_newlines(none) == none);
    if begins_quote(line) {
        lemma_quote_text(line);
        let text = inside(line);
        assert forall|i: int| 0 <= i < text.len() implies #[trigger] text[i] != '\n' by {
            if line.len() > 1 && line[1] == ' ' {
                assert(text[i] == line[i + 2]);
            } else {
                assert(text[i] == line[i + 1]);
            }
        }
        lemma_one_newline(text);
        let opened = "<think>"@ + text;
        assert forall|i: int| 0 <= i < opened.len() implies #[trigger] opened[i] != '\n' by {
            if i >= 7 {
                assert(opened[i] == text[i - 7]);
            }
        }
        lemma_one_newline(opened);
        assert("<think>"@ + text.push('\n') =~= opened.push('\n'));
        assert(opened.push('\n') + close =~= "<think>"@ + text + newline_close);
        assert(text.push('\n') + close =~= text + newline_close);
    }
    if line.len() > 0 && !begins_quote(line) {
        let all = close + line;
        assert(all.last() == line[line.len() - 1]);
        assert(close + line.push('\n') =~= all + Seq::new(1, |i: int| '\n'));
        law_trim_newlines(all, 1);
    }
}

/// Outside a block, a line that announces none is written as it is, whatever follows.
pub proof fn law_streamed_line_is_kept(line: Seq<char>, rest: Seq<char>)
    requires
        on_one_line(line),
        !is_marker(line),
    ensures
        streamed(line.push('\n') + rest) == line.push('\n') + streamed(rest),
        streamed(line) == line,
{
    law_reader_takes_a_line(line, rest, ThinkMode::Idle);
    law_end_of_text(line);
    assert(streamed(line.push('\n') + rest) =~= line.push('\n') + streamed(rest));
    assert(streamed(line) =~= line);
}

/// What is written of a text from where the reader stands.
pub open spec fn written(mode: ThinkMode, text: Seq<char>) -> Seq<char> {
    let reading = read(mode, text);
    reading.output + closing_output(reading.mode, reading.rest)
}

proof fn lemma_written_behind(output: Seq<char>, later: Reading)
    ensures
        behind(output, later).output + closing_output(later.mode, later.rest) == output + (
        later.output + closing_output(later.mode, later.rest)),
{
    assert(behind(output, later).output + closing_output(later.mode, later.rest) =~= output + (
    later.output + closing_output(later.mode, later.rest)));
}

proof fn lemma_empty_lines(count: nat, rest: Seq<char>)
    ensures
        read(ThinkMode::Waiting, empty_lines(count) + rest) == read(ThinkMode::Waiting, rest),
    decreases count,
{
    if count == 0 {
        assert(empty_lines(count) + rest =~= rest);
    } else {
        let none = Seq::<char>::empty();
        let later = empty_lines((count - 1) as nat) + rest;
        assert(empty_lines(count) + rest =~= none.push('\n') + later);
        law_reader_takes_a_line(none, later, ThinkMode::Waiting);
        lemma_empty_lines((count - 1) as nat, rest);
    }
}

proof fn lemma_quotes(quotes: Seq<Seq<char>>, rest: Seq<char>)
    requires
        forall|i: int|
            0 <= i < quotes.len() ==> on_one_line(#[trigger] quotes[i]) && begins_quote(quotes[i]),
    ensures
        read(ThinkMode::Thinking, with_newlines(quotes) + rest) == behind(
            block_text(quotes),
            read(ThinkMode::Thinking, rest),
        ),
    decreases quotes.len(),
{
    let later = read(ThinkMode::Thinking, rest);
    if quotes.len() == 0 {
        assert(with_newlines(quotes) + rest =~= rest);
        assert(behind(block_text(quotes), later) =~= later);
    } else {
        let others = quotes.drop_first();
        assert(on_one_line(quotes[0]) && begins_quote(quotes[0]));
        assert(with_newlines(quotes) + rest =~= quotes[0].push('\n') + (with_newlines(others)
            + rest));
        law_reader_takes_a_line(quotes[0], with_newlines(others) + rest, ThinkMode::Thinking);
        lemma_quotes(others, rest);
        assert(behind(
            inside(quotes[0]).push('\n'),
            behind(block_text(others), later),
        ) =~= behind(block_text(quotes), later));
    }
}

proof fn lemma_block(marker: Seq<char>, count: nat, quotes: Seq<Seq<char>>, rest: Seq<char>)
    requires
        is_marker(marker),
        on_one_line(marker),
        quotes.len() > 0,
        forall|i: int|
            0 <= i < quotes.len() ==> on_one_line(#[trigger] quotes[i]) && begins_quote(quotes[i]),
    ensures
        streamed(marker.push('\n') + empty_lines(count) + with_newlines(quotes) + rest)
            == "<think>"@ + block_text(quotes) + written(ThinkMode::Thinking, rest),
{
    let others = quotes.drop_first();
    let later = read(ThinkMode::Thinking, rest);
    let block = with_newlines(quotes) + rest;
    assert(marker.push('\n') + empty_lines(count) + with_newlines(quotes) + rest =~= marker.push(
        '\n',
    ) + (empty_lines(count) + block));
    law_reader_takes_a_line(marker, empty_lines(count) + block, ThinkMode::Idle);
    lemma_empty_lines(count, block);
    assert(on_one_line(quotes[0]) && begins_quote(quotes[0]));
    assert(block =~= quotes[0].push('\n') + (with_newlines(others) + rest));
    law_reader_takes_a_line(quotes[0], with_newlines(others) + rest, ThinkMode::Waiting);
    assert forall|i: int| 0 <= i < others.len() implies on_one_line(#[trigger] others[i])
        && begins_quote(others[i]) by {
        assert(others[i] == quotes[i + 1]);
    }
    lemma_quotes(others, rest);
    let first = "<think>"@ + inside(quotes[0]).push('\n');
    assert(behind(first, behind(block_text(others), later)) =~= behind(
        "<think>"@ + block_text(quotes),
        later,
    ));
    lemma_written_behind("<think>"@ + block_text(quotes), later);
}

/// A block becomes its text between the two tags, each on the way as it comes. The block
/// is a marker line, empty lines, and lines that all have `>` as their first character;
/// each gives what stands behind that and behind one blank. The first line that does not
/// begin with `>` ends the block and is kept, whatever it is, and what follows it is
/// written as if it stood alone.
pub proof fn law_streamed_block_is_tagged(
    marker: Seq<char>,
    count: nat,
    quotes: Seq<Seq<char>>,
    line: Seq<char>,
    rest: Seq<char>,
)
    requires
        is_marker(marker),
        on_one_line(marker),
        quotes.len() > 0,
        forall|i: int|
            0 <= i < quotes.len() ==> on_one_line(#[trigger] quotes[i]) && begins_quote(quotes[i]),
        on_one_line(line),
        !begins_quote(line),
    ensures
        streamed(
            marker.push('\n') + empty_lines(count) + with_newlines(quotes) + (line.push('\n')
                + rest),
        ) == "<think>"@ + block_text(quotes) + "</think>\n"@ + line.push('\n') + streamed(rest),
        streamed(marker.push('\n') + empty_lines(count) + with_newlines(quotes) + line)
            == "<think>"@ + block_text(quotes) + "</think>\n"@ + line,
{
    let opened = "<think>"@ + block_text(quotes);
    lemma_block(marker, count, quotes, line.push('\n') + rest);
    lemma_block(marker, count, quotes, line);
    law_reader_takes_a_line(line, rest, ThinkMode::Thinking);
    law_end_of_text(line);
    lemma_written_behind("</think>\n"@ + line.push('\n'), read(ThinkMode::Idle, rest));
    assert(opened + ("</think>\n"@ + line.push('\n') + streamed(rest)) =~= opened + "</think>\n"@
        + line.push('\n') + streamed(rest));
    assert(opened + (Seq::<char>::empty() + ("</think>\n"@ + line)) =~= opened + "</think>\n"@
        + line);
    if line.len() == 0 {
        assert("</think>\n"@ + line =~= "</think>\n"@);
    }
}

/// A block whose last line is not complete when the text ends is closed behind that line,
/// with a newline before the tag; the line counts where it opens the block or holds
/// anything behind `>`.
pub proof fn law_streamed_block_is_closed_at_the_end(
    marker: Seq<char>,
    count: nat,
    quotes: Seq<Seq<char>>,
    last: Seq<char>,
)
    requires
        is_marker(marker),
        on_one_line(marker),
        forall|i: int|
            0 <= i < quotes.len() ==> on_one_line(#[trigger] quotes[i]) && begins_quote(quotes[i]),
        on_one_line(last),
        begins_quote(last),
    ensures
        streamed(marker.push('\n') + empty_lines(count) + with_newlines(quotes) + last)
            == "<think>"@ + block_text(quotes) + (if quotes.len() == 0 || inside(last).len() > 0 {
            inside(last).push('\n')
        } else {
            Seq::empty()
        }) + "</think>\n"@,
{
    reveal_strlit("</think>\n");
    reveal_strlit("\n</think>\n");
    let close = "</think>\n"@;
    let none = Seq::<char>::empty();
    assert("\n</think>\n"@ =~= seq!['\n'] + close);
    law_end_of_text(last);
    law_reader_takes_a_line(last, none, ThinkMode::Thinking);
    let opened = "<think>"@ + block_text(quotes);
    if quotes.len() > 0 {
        lemma_block(marker, count, quotes, last);
        if inside(last).len() > 0 {
            assert(opened + (none + (inside(last) + "\n</think>\n"@)) =~= opened + inside(last).push(
                '\n',
            ) + close);
        } else {
            assert(opened + (none + close) =~= opened + none + close);
        }
    } else {
        let text = marker.push('\n') + empty_lines(count) + with_newlines(quotes) + last;
        assert(text =~= marker.push('\n') + (empty_lines(count) + last));
        law_reader_takes_a_line(marker, empty_lines(count) + last, ThinkMode::Idle);
        lemma_empty_lines(count, last);
        law_reader_takes_a_line(last, none, ThinkMode::Waiting);
        assert(streamed(text) =~= none + ("<think>"@ + inside(last) + "\n</think>\n"@));
        assert(none + ("<think>"@ + inside(last) + "\n</think>\n"@) =~= "<think>"@ + block_text(
            quotes,
        ) + inside(last).push('\n') + close);
    }
}

/// A marker line with no quote behind it goes, with the empty lines behind it. The line
/// that follows them is kept, whatever it is, and the rest is written as if it stood
/// alone.
pub proof fn law_streamed_empty_block_goes(
    marker: Seq<char>,
    count: nat,
    line: Seq<char>,
    rest: Seq<char>,
)
    requires
        is_marker(marker),
        on_one_line(marker),
        on_one_line(line),
        !begins_quote(line),
    ensures
        line.len() > 0 ==> streamed(
            marker.push('\n') + empty_lines(count) + (line.push('\n') + rest),
        ) == line.push('\n') + streamed(rest),
        streamed(marker.push('\n') + empty_lines(count) + line) == line,
        streamed(marker) == Seq::<char>::empty(),
{
    let none = Seq::<char>::empty();
    let more = line.push('\n') + rest;
    assert(marker.push('\n') + empty_lines(count) + more =~= marker.push('\n') + (empty_lines(
        count,
    ) + more));
    assert(marker.push('\n') + empty_lines(count) + line =~= marker.push('\n') + (empty_lines(
        count,
    ) + line));
    law_reader_takes_a_line(marker, empty_lines(count) + more, ThinkMode::Idle);
    law_reader_takes_a_line(marker, empty_lines(count) + line, ThinkMode::Idle);
    lemma_empty_lines(count, more);
    lemma_empty_lines(count, line);
    law_reader_takes_a_line(line, rest, ThinkMode::Waiting);
    law_end_of_text(line);
    law_end_of_text(marker);
    lemma_written_behind(line.push('\n'), read(ThinkMode::Idle, rest));
    assert(none + line =~= line);
    assert(streamed(marker) =~= none);
}

} // verus!
