//! Rewriting of reasoning blocks while an answer is still arriving.

use vstd::prelude::*;
use vstd::string::StringExecFns;

use crate::reasoning::{is_marker, is_quoted, lemma_trim_newlines, range_is_marker, unquote, unquoted_start};
use crate::tags::{
    alternate, ends_cleanly, lemma_alternate_join, lemma_closing_tag, lemma_line_is_tagless,
    lemma_newline_adds_no_tag, lemma_opening_tag, lemma_part_is_tagless, lemma_tags_join, lemma_trim_keeps_tags,
    lemma_well_nested, tagless, tags, well_nested,
};
use crate::text::{
    append_range, ends_with_newline, from_range, lemma_newline_position, lemma_newline_position_is, newline_position, next_newline,
    to_chars, trim_newlines, trim_newlines_range, without_trailing_newlines,
};

verus! {

/// Where the reader stands with respect to a reasoning block.
#[derive(Clone, Copy, PartialEq, Eq, Structural, Debug)]
pub enum ThinkMode {
    /// Outside a block.
    Idle,
    /// Behind a marker line, before any reasoning.
    Waiting,
    /// Inside a block whose `<think>` has been written.
    Thinking,
}

/// What one complete line does: the mode behind it and the text it gives.
pub open spec fn line_step(mode: ThinkMode, line: Seq<char>) -> (ThinkMode, Seq<char>) {
    let body = trim_newlines(line);
    match mode {
        ThinkMode::Idle => if is_marker(body) {
            (ThinkMode::Waiting, Seq::empty())
        } else {
            (ThinkMode::Idle, line)
        },
        ThinkMode::Waiting => if body.len() == 0 {
            (ThinkMode::Waiting, Seq::empty())
        } else if is_quoted(body) {
            (ThinkMode::Thinking, "<think>"@ + unquote(body).push('\n'))
        } else {
            (ThinkMode::Idle, line)
        },
        ThinkMode::Thinking => if is_quoted(body) {
            (ThinkMode::Thinking, unquote(body).push('\n'))
        } else {
            (ThinkMode::Idle, "</think>\n"@ + line)
        },
    }
}

/// The outcome of reading a text: the mode behind its last complete line, the text
/// given so far, and the incomplete line that is left.
#[verifier::ext_equal]
pub struct Reading {
    pub mode: ThinkMode,
    pub output: Seq<char>,
    pub rest: Seq<char>,
}

/// Reads `text`, one complete line after the other.
pub open spec fn read(mode: ThinkMode, text: Seq<char>) -> Reading
    decreases text.len(),
    via read_decreases
{
    let n = newline_position(text);
    if n == text.len() {
        Reading { mode, output: Seq::empty(), rest: text }
    } else {
        let step = line_step(mode, text.take(n + 1));
        let later = read(step.0, text.skip(n + 1));
        Reading { mode: later.mode, output: step.1 + later.output, rest: later.rest }
    }
}

#[via_fn]
proof fn read_decreases(mode: ThinkMode, text: Seq<char>) {
    lemma_newline_position(text);
}

/// What is written once the text has ended behind the incomplete line `rest`: what
/// that line gives, without its newline, and the tag that closes an open block.
pub open spec fn closing_output(mode: ThinkMode, rest: Seq<char>) -> Seq<char> {
    let step = if rest.len() == 0 {
        (mode, Seq::empty())
    } else {
        line_step(mode, rest.push('\n'))
    };
    let body = trim_newlines(step.1);
    if step.0 != ThinkMode::Thinking {
        body
    } else if body.len() == 0 {
        "</think>\n"@
    } else {
        body.push('\n') + "</think>\n"@
    }
}

/// A reader that rewrites reasoning blocks in text that comes in pieces.
pub struct PoeThinkingStreamProcessor {
    mode: ThinkMode,
    buffer: String,
}

impl PoeThinkingStreamProcessor {
    /// Where the reader stands.
    pub closed spec fn mode(&self) -> ThinkMode {
        self.mode
    }

    /// The incomplete line that it keeps.
    pub closed spec fn buffered(&self) -> Seq<char> {
        self.buffer@
    }

    /// The reader keeps no complete line.
    #[verifier::type_invariant]
    closed spec fn keeps_partial_line(self) -> bool {
        newline_position(self.buffer@) == self.buffer@.len()
    }

    /// A reader that has read nothing.
    pub fn new() -> (r: PoeThinkingStreamProcessor)
        ensures
            r.mode() == ThinkMode::Idle,
            r.buffered().len() == 0,
    {
        PoeThinkingStreamProcessor { mode: ThinkMode::Idle, buffer: String::new() }
    }

    /// Handles the complete line `chars[from..to]` in the given mode.
    fn process_line_internal(mode: ThinkMode, out: &mut String, chars: &Vec<char>, from: usize, to: usize) -> (r:
        ThinkMode)
        requires
            from < to <= chars@.len(),
        ensures
            r == line_step(mode, chars@.subrange(from as int, to as int)).0,
            final(out)@ == old(out)@ + line_step(mode, chars@.subrange(from as int, to as int)).1,
    {
        let ghost line = chars@.subrange(from as int, to as int);
        let end: usize = trim_newlines_range(chars, from, to);
        let ghost body = chars@.subrange(from as int, end as int);
        let quoted = from < end && chars[from] == '>';
        assert(quoted == is_quoted(body));
        match mode {
            ThinkMode::Idle => {
                if range_is_marker(chars, from, end) {
                    assert(out@ =~= old(out)@ + line_step(mode, line).1);
                    ThinkMode::Waiting
                } else {
                    append_range(out, chars, from, to);
                    ThinkMode::Idle
                }
            },
            ThinkMode::Waiting => {
                if from == end {
                    assert(out@ =~= old(out)@ + line_step(mode, line).1);
                    ThinkMode::Waiting
                } else if quoted {
                    let start: usize = unquoted_start(chars, from, end);
                    out.append("<think>");
                    append_range(out, chars, start, end);
                    out.push('\n');
                    assert(out@ =~= old(out)@ + line_step(mode, line).1);
                    ThinkMode::Thinking
                } else {
                    append_range(out, chars, from, to);
                    ThinkMode::Idle
                }
            },
            ThinkMode::Thinking => {
                if quoted {
                    let start: usize = unquoted_start(chars, from, end);
                    append_range(out, chars, start, end);
                    out.push('\n');
                    assert(out@ =~= old(out)@ + line_step(mode, line).1);
                    ThinkMode::Thinking
                } else {
                    out.append("</think>\n");
                    append_range(out, chars, from, to);
                    assert(out@ =~= old(out)@ + line_step(mode, line).1);
                    ThinkMode::Idle
                }
            },
        }
    }

    /// Reads a further piece of text, which may hold several lines or part of one,
    /// and returns what its complete lines give.
    pub fn process_chunk(&mut self, chunk: &str) -> (r: String)
        ensures
            ({
                let reading = read(old(self).mode(), old(self).buffered() + chunk@);
                &&& r@ == reading.output
                &&& final(self).mode() == reading.mode
                &&& final(self).buffered() == reading.rest
            }),
    {
        let mut text = self.buffer.clone();
        text.append(chunk);
        let chars = to_chars(text.as_str());
        let ghost whole = read(self.mode, chars@);
        let mut out = String::new();
        let mut mode = self.mode;
        let mut pos: usize = 0;
        assert(chars@.skip(0) =~= chars@);
        assert(whole.output =~= out@ + whole.output);
        let mut next: usize = next_newline(&chars, 0);
        while next < chars.len()
            invariant
                pos <= next <= chars@.len(),
                next - pos == newline_position(chars@.skip(pos as int)),
                whole.mode == read(mode, chars@.skip(pos as int)).mode,
                whole.rest == read(mode, chars@.skip(pos as int)).rest,
                whole.output == out@ + read(mode, chars@.skip(pos as int)).output,
            decreases chars@.len() - pos,
        {
            let ghost rest = chars@.skip(pos as int);
            let ghost before = out@;
            assert(rest.take(next - pos + 1) =~= chars@.subrange(pos as int, next + 1));
            assert(rest.skip(next - pos + 1) =~= chars@.skip(next + 1));
            let ghost step = line_step(mode, chars@.subrange(pos as int, next + 1));
            mode = Self::process_line_internal(mode, &mut out, &chars, pos, next + 1);
            assert(whole.output =~= before + (step.1 + read(step.0, chars@.skip(next + 1)).output));
            assert(whole.output =~= out@ + read(step.0, chars@.skip(next + 1)).output);
            pos = next + 1;
            next = next_newline(&chars, pos);
        }
        let rest = from_range(&chars, pos, chars.len());
        assert(rest@ =~= chars@.skip(pos as int));
        assert(whole.output =~= out@);
        *self = PoeThinkingStreamProcessor { mode, buffer: rest };
        out
    }

    /// Ends the text: handles the line that is still incomplete and closes a block
    /// that is still open.
    pub fn finalize(&mut self) -> (r: String)
        ensures
            r@ == closing_output(old(self).mode(), old(self).buffered()),
            final(self).mode() == ThinkMode::Idle,
            final(self).buffered().len() == 0,
    {
        let mut chars = to_chars(self.buffer.as_str());
        let mut mode = self.mode;
        let mut out = String::new();
        if chars.len() > 0 {
            chars.push('\n');
            let count: usize = chars.len();
            assert(chars@.subrange(0, count as int) =~= chars@);
            mode = Self::process_line_internal(mode, &mut out, &chars, 0, count);
            assert(out@ =~= line_step(self.mode, chars@).1);
            out = without_trailing_newlines(out.as_str());
        }
        if mode == ThinkMode::Thinking {
            if !out.as_str().is_empty() {
                out.push('\n');
            }
            out.append("</think>\n");
        }
        assert(out@ =~= closing_output(self.mode(), self.buffered()));
        *self = PoeThinkingStreamProcessor { mode: ThinkMode::Idle, buffer: String::new() };
        out
    }
}

/// Reading a text in one piece or in two gives the same: the same text, the same
/// mode and the same incomplete line.
pub proof fn law_read_in_two_pieces(mode: ThinkMode, a: Seq<char>, b: Seq<char>)
    ensures
        ({
            let first = read(mode, a);
            let second = read(first.mode, first.rest + b);
            read(mode, a + b) == (Reading {
                mode: second.mode,
                output: first.output + second.output,
                rest: second.rest,
            })
        }),
    decreases a.len(),
{
    let n = newline_position(a);
    lemma_newline_position(a);
    if n == a.len() {
        let second = read(mode, a + b);
        assert(Seq::<char>::empty() + second.output =~= second.output);
    } else {
        lemma_newline_position_is(a + b, n);
        assert((a + b).take(n + 1) =~= a.take(n + 1));
        assert((a + b).skip(n + 1) =~= a.skip(n + 1) + b);
        let step = line_step(mode, a.take(n + 1));
        law_read_in_two_pieces(step.0, a.skip(n + 1), b);
        let later = read(step.0, a.skip(n + 1));
        let second = read(later.mode, later.rest + b);
        assert(step.1 + (later.output + second.output) =~= (step.1 + later.output)
            + second.output);
    }
}

/// What is left behind the last complete line holds no newline.
pub proof fn law_rest_is_partial(mode: ThinkMode, text: Seq<char>)
    ensures
        forall|i: int|
            0 <= i < read(mode, text).rest.len() ==> #[trigger] read(mode, text).rest[i] != '\n',
    decreases text.len(),
{
    let n = newline_position(text);
    lemma_newline_position(text);
    if n < text.len() {
        law_rest_is_partial(line_step(mode, text.take(n + 1)).0, text.skip(n + 1));
    }
}

/// The pieces of a text put together.
pub open spec fn joined(pieces: Seq<Seq<char>>) -> Seq<char>
    decreases pieces.len(),
{
    if pieces.len() == 0 {
        Seq::empty()
    } else {
        joined(pieces.drop_last()) + pieces.last()
    }
}

/// Reading a text piece by piece, from a reader that stands at its beginning.
pub open spec fn read_pieces(pieces: Seq<Seq<char>>) -> Reading
    decreases pieces.len(),
{
    if pieces.len() == 0 {
        Reading { mode: ThinkMode::Idle, output: Seq::empty(), rest: Seq::empty() }
    } else {
        let before = read_pieces(pieces.drop_last());
        let last = read(before.mode, before.rest + pieces.last());
        Reading { mode: last.mode, output: before.output + last.output, rest: last.rest }
    }
}

/// How a text is cut into pieces makes no difference to what is written.
pub proof fn law_pieces_do_not_matter(pieces: Seq<Seq<char>>)
    ensures
        read_pieces(pieces) == read(ThinkMode::Idle, joined(pieces)),
    decreases pieces.len(),
{
    if pieces.len() > 0 {
        law_pieces_do_not_matter(pieces.drop_last());
        law_read_in_two_pieces(ThinkMode::Idle, joined(pieces.drop_last()), pieces.last());
    } else {
        assert(read(ThinkMode::Idle, joined(pieces)) =~= read_pieces(pieces));
    }
}

/// Everything that is written of a text that is read to its end.
pub open spec fn streamed(text: Seq<char>) -> Seq<char> {
    let reading = read(ThinkMode::Idle, text);
    reading.output + closing_output(reading.mode, reading.rest)
}

/// Whether a line of `text`, the last and incomplete one counted, is a marker.
pub open spec fn has_marker(text: Seq<char>) -> bool
    decreases text.len(),
    via has_marker_decreases
{
    let n = newline_position(text);
    is_marker(text.take(n)) || (n < text.len() && has_marker(text.skip(n + 1)))
}

#[via_fn]
proof fn has_marker_decreases(text: Seq<char>) {
    lemma_newline_position(text);
}

proof fn lemma_trim_newlines_line(body: Seq<char>)
    requires
        forall|i: int| 0 <= i < body.len() ==> body[i] != '\n',
    ensures
        trim_newlines(body) == body,
        trim_newlines(body.push('\n')) == body,
{
    assert(body.push('\n').drop_last() =~= body);
}

/// A text without a marker line is written as it is.
pub proof fn law_plain_text_is_kept(text: Seq<char>)
    requires
        !has_marker(text),
    ensures
        streamed(text) == text,
    decreases text.len(),
{
    let n = newline_position(text);
    lemma_newline_position(text);
    let line = text.take(n);
    lemma_trim_newlines_line(line);
    if n == text.len() {
        assert(line =~= text);
        assert(streamed(text) =~= text);
    } else {
        assert(text.take(n + 1) =~= line.push('\n'));
        law_plain_text_is_kept(text.skip(n + 1));
        assert(streamed(text) =~= text.take(n + 1) + streamed(text.skip(n + 1)));
        assert(text =~= text.take(n + 1) + text.skip(n + 1));
    }
}

/// How often reading `text` writes `<think>`.
pub open spec fn tags_opened(mode: ThinkMode, text: Seq<char>) -> nat
    decreases text.len(),
    via tags_opened_decreases
{
    let n = newline_position(text);
    if n == text.len() {
        0
    } else {
        let next = line_step(mode, text.take(n + 1)).0;
        let here: nat = if mode != ThinkMode::Thinking && next == ThinkMode::Thinking {
            1
        } else {
            0
        };
        here + tags_opened(next, text.skip(n + 1))
    }
}

#[via_fn]
proof fn tags_opened_decreases(mode: ThinkMode, text: Seq<char>) {
    lemma_newline_position(text);
}

/// How often reading `text` writes `</think>`.
pub open spec fn tags_closed(mode: ThinkMode, text: Seq<char>) -> nat
    decreases text.len(),
    via tags_closed_decreases
{
    let n = newline_position(text);
    if n == text.len() {
        0
    } else {
        let next = line_step(mode, text.take(n + 1)).0;
        let here: nat = if mode == ThinkMode::Thinking && next != ThinkMode::Thinking {
            1
        } else {
            0
        };
        here + tags_closed(next, text.skip(n + 1))
    }
}

#[via_fn]
proof fn tags_closed_decreases(mode: ThinkMode, text: Seq<char>) {
    lemma_newline_position(text);
}

/// A line writes `<think>` exactly where it leads into a block, and `</think>`
/// exactly where it leads out of one. A complete line writes nothing, or complete lines.
pub proof fn law_line_writes_its_tag(mode: ThinkMode, line: Seq<char>)
    ensures
        ({
            let step = line_step(mode, line);
            &&& (mode != ThinkMode::Thinking && step.0 == ThinkMode::Thinking) ==> step.1
                == "<think>"@ + unquote(trim_newlines(line)).push('\n')
            &&& (mode == ThinkMode::Thinking && step.0 != ThinkMode::Thinking) ==> step.1
                == "</think>\n"@ + line
            &&& mode == step.0 ==> step.1.len() == 0 || step.1 == line || step.1 == unquote(
                trim_newlines(line),
            ).push('\n')
            &&& ends_with_newline(line) ==> step.1.len() == 0 || ends_with_newline(step.1)
        }),
{
}

/// Tags are balanced: as many have been closed as opened, but for one that is open
/// where the reader stands inside a block.
pub proof fn law_tags_balance(mode: ThinkMode, text: Seq<char>)
    ensures
        tags_opened(mode, text) + (if mode == ThinkMode::Thinking { 1nat } else { 0nat })
            == tags_closed(mode, text) + (if read(mode, text).mode == ThinkMode::Thinking {
            1nat
        } else {
            0nat
        }),
    decreases text.len(),
{
    let n = newline_position(text);
    lemma_newline_position(text);
    if n < text.len() {
        law_tags_balance(line_step(mode, text.take(n + 1)).0, text.skip(n + 1));
    }
}

/// The mode in which the incomplete line `rest` leaves the reader at the end.
pub open spec fn closing_mode(mode: ThinkMode, rest: Seq<char>) -> ThinkMode {
    if rest.len() == 0 {
        mode
    } else {
        line_step(mode, rest.push('\n')).0
    }
}

/// How often the end of a text writes `<think>`.
pub open spec fn closing_tags_opened(mode: ThinkMode, rest: Seq<char>) -> nat {
    if mode != ThinkMode::Thinking && closing_mode(mode, rest) == ThinkMode::Thinking {
        1
    } else {
        0
    }
}

/// How often the end of a text writes `</think>`: for a block that its last line
/// leaves, or for one that is still open behind it.
pub open spec fn closing_tags_closed(mode: ThinkMode, rest: Seq<char>) -> nat {
    if mode == ThinkMode::Thinking || closing_mode(mode, rest) == ThinkMode::Thinking {
        1
    } else {
        0
    }
}

/// Every `<think>` that is written of a text is closed once the text has ended.
pub proof fn law_every_block_is_closed(text: Seq<char>)
    ensures
        ({
            let reading = read(ThinkMode::Idle, text);
            tags_opened(ThinkMode::Idle, text) + closing_tags_opened(reading.mode, reading.rest)
                == tags_closed(ThinkMode::Idle, text) + closing_tags_closed(
                reading.mode,
                reading.rest,
            )
        }),
{
    law_tags_balance(ThinkMode::Idle, text);
}

/// A block that is open at the end of the text is closed: what is written then ends
/// with `</think>` and a newline.
pub proof fn law_end_closes_block(mode: ThinkMode, rest: Seq<char>)
    requires
        closing_mode(mode, rest) == ThinkMode::Thinking,
    ensures
        "</think>\n"@.is_suffix_of(closing_output(mode, rest)),
{
    let out = closing_output(mode, rest);
    let tag = "</think>\n"@;
    assert(out.subrange(out.len() - tag.len(), out.len() as int) =~= tag);
}

proof fn lemma_line_tags(mode: ThinkMode, line: Seq<char>)
    requires
        tagless(line),
        ends_with_newline(line),
    ensures
        ({
            let step = line_step(mode, line);
            &&& alternate(tags(step.1), mode == ThinkMode::Thinking, step.0 == ThinkMode::Thinking)
            &&& ends_cleanly(step.1)
        }),
{
    let step = line_step(mode, line);
    let body = trim_newlines(line);
    lemma_trim_newlines(line);
    lemma_part_is_tagless(line, 0, line.len() as int);
    assert(line.subrange(0, line.len() as int) =~= line);
    if is_quoted(body) {
        let from: int = if body.len() > 1 && body[1] == ' ' { 2 } else { 1 };
        assert(body =~= line.subrange(0, body.len() as int));
        assert(unquote(body) =~= line.subrange(from, body.len() as int));
        lemma_part_is_tagless(line, from, body.len() as int);
        lemma_newline_adds_no_tag(unquote(body));
        lemma_opening_tag(unquote(body).push('\n'));
        if mode == ThinkMode::Waiting {
            assert(tags(step.1) =~= seq![true]);
        }
    } else if mode == ThinkMode::Thinking {
        lemma_closing_tag(line);
        assert(tags(step.1) =~= seq![false]);
    }
}

proof fn lemma_read_tags(mode: ThinkMode, text: Seq<char>)
    requires
        tagless(text),
    ensures
        ({
            let reading = read(mode, text);
            &&& alternate(
                tags(reading.output),
                mode == ThinkMode::Thinking,
                reading.mode == ThinkMode::Thinking,
            )
            &&& ends_cleanly(reading.output)
            &&& tagless(reading.rest)
        }),
    decreases text.len(),
{
    let n = newline_position(text);
    lemma_newline_position(text);
    if n < text.len() {
        let line = text.take(n + 1);
        let rest = text.skip(n + 1);
        assert(line =~= text.subrange(0, n + 1));
        assert(rest =~= text.subrange(n + 1, text.len() as int));
        lemma_part_is_tagless(text, 0, n + 1);
        lemma_part_is_tagless(text, n + 1, text.len() as int);
        lemma_line_tags(mode, line);
        let step = line_step(mode, line);
        lemma_read_tags(step.0, rest);
        let later = read(step.0, rest);
        lemma_tags_join(step.1, later.output);
        lemma_alternate_join(
            tags(step.1),
            tags(later.output),
            mode == ThinkMode::Thinking,
            step.0 == ThinkMode::Thinking,
            later.mode == ThinkMode::Thinking,
        );
        if later.output.len() == 0 {
            assert(step.1 + later.output =~= step.1);
        }
    }
}

proof fn lemma_closing_tags(mode: ThinkMode, rest: Seq<char>)
    requires
        tagless(rest),
    ensures
        alternate(tags(closing_output(mode, rest)), mode == ThinkMode::Thinking, false),
{
    let open = mode == ThinkMode::Thinking;
    let step = if rest.len() == 0 {
        (mode, Seq::empty())
    } else {
        line_step(mode, rest.push('\n'))
    };
    let body = trim_newlines(step.1);
    if rest.len() > 0 {
        lemma_line_is_tagless(rest);
        lemma_line_tags(mode, rest.push('\n'));
    }
    lemma_trim_keeps_tags(step.1);
    assert(alternate(tags(body), open, step.0 == ThinkMode::Thinking));
    if step.0 == ThinkMode::Thinking {
        let end = "</think>\n"@;
        lemma_closing_tag(Seq::empty());
        assert(end + Seq::<char>::empty() =~= end);
        assert(tags(end) =~= seq![false]);
        lemma_newline_adds_no_tag(body);
        lemma_tags_join(body.push('\n'), end);
        lemma_alternate_join(tags(body), tags(end), open, true, false);
        if body.len() == 0 {
            assert(tags(body) + tags(end) =~= tags(end));
        }
    }
}

/// In what is written of a text the tags alternate, with `<think>` first and `</think>`
/// last, where the text itself holds none.
pub proof fn law_tags_alternate(text: Seq<char>)
    requires
        tagless(text),
    ensures
        well_nested(tags(streamed(text))),
{
    let reading = read(ThinkMode::Idle, text);
    let closing = closing_output(reading.mode, reading.rest);
    lemma_read_tags(ThinkMode::Idle, text);
    lemma_closing_tags(reading.mode, reading.rest);
    lemma_tags_join(reading.output, closing);
    lemma_alternate_join(
        tags(reading.output),
        tags(closing),
        false,
        reading.mode == ThinkMode::Thinking,
        false,
    );
    lemma_well_nested(tags(streamed(text)));
}

} // verus!
