//! Rewriting of the reasoning block of a complete answer.
//!
//! The service announces a reasoning block with a marker line and quotes the
//! reasoning itself with `>`. Clients expect it between `<think>` and `</think>`.

use vstd::prelude::*;
use vstd::string::StringExecFns;

use crate::tags::{
    alternate, ends_cleanly, lemma_alternate_join, lemma_closing_tag, lemma_newline_adds_no_tag, lemma_opening_tag,
    lemma_part_is_tagless, lemma_tags_join, lemma_trim_keeps_tags, lemma_well_nested, tagless, tags, well_nested,
};
use crate::text::{
    append_range, ends_with_newline, lemma_newline_position, lines, newline_position, next_newline, range_is,
    to_chars, trim, trim_end, trim_newlines, trim_range, white_space, without_trailing_newlines,
};

verus! {

/// Whether a line announces a reasoning block.
pub open spec fn is_marker(line: Seq<char>) -> bool {
    trim(line) == "Thinking..."@ || trim(line) == "*Thinking...*"@
}

/// Whether a line holds nothing but white space.
pub open spec fn is_blank(line: Seq<char>) -> bool {
    trim(line).len() == 0
}

/// Whether a line is quoted.
pub open spec fn is_quoted(line: Seq<char>) -> bool {
    line.len() > 0 && line[0] == '>'
}

/// A quoted line without `>` and the one blank that may follow it.
pub open spec fn unquote(line: Seq<char>) -> Seq<char> {
    if line.len() > 1 && line[1] == ' ' {
        line.skip(2)
    } else {
        line.skip(1)
    }
}

/// `ls` from its first line that is not blank.
pub open spec fn skip_blank(ls: Seq<Seq<char>>) -> Seq<Seq<char>>
    decreases ls.len(),
{
    if ls.len() > 0 && is_blank(ls[0]) {
        skip_blank(ls.drop_first())
    } else {
        ls
    }
}

/// The tagged form of the reasoning collected so far; nothing where there is none.
pub open spec fn think_block(reasoning: Seq<char>) -> Seq<char> {
    if reasoning.len() == 0 {
        Seq::empty()
    } else {
        "<think>"@ + trim_newlines(reasoning) + "</think>\n"@
    }
}

/// The rewritten form of `ls`, read outside a reasoning block.
pub open spec fn rewrite(ls: Seq<Seq<char>>) -> Seq<char>
    decreases ls.len(),
    via rewrite_decreases
{
    if ls.len() == 0 {
        Seq::empty()
    } else if is_marker(ls[0]) {
        rewrite_block(skip_blank(ls.drop_first()), Seq::empty())
    } else {
        ls[0].push('\n') + rewrite(ls.drop_first())
    }
}

/// The rewritten form of `ls`, read inside a reasoning block that has collected
/// `reasoning`. A further marker line is part of the reasoning once there is any,
/// and plain text before that.
pub open spec fn rewrite_block(ls: Seq<Seq<char>>, reasoning: Seq<char>) -> Seq<char>
    decreases ls.len(),
    via rewrite_block_decreases
{
    if ls.len() == 0 {
        think_block(reasoning)
    } else if is_marker(ls[0]) {
        if reasoning.len() > 0 {
            rewrite_block(ls.drop_first(), reasoning + ls[0].push('\n'))
        } else {
            ls[0].push('\n') + rewrite_block(ls.drop_first(), reasoning)
        }
    } else if is_quoted(ls[0]) {
        rewrite_block(ls.drop_first(), reasoning + unquote(ls[0]).push('\n'))
    } else {
        think_block(reasoning) + ls[0].push('\n') + rewrite(ls.drop_first())
    }
}

#[via_fn]
proof fn rewrite_decreases(ls: Seq<Seq<char>>) {
    if ls.len() > 0 {
        lemma_skip_blank_len(ls.drop_first());
    }
}

#[via_fn]
proof fn rewrite_block_decreases(ls: Seq<Seq<char>>, reasoning: Seq<char>) {
}

proof fn lemma_skip_blank_len(ls: Seq<Seq<char>>)
    ensures
        skip_blank(ls).len() <= ls.len(),
    decreases ls.len(),
{
    if ls.len() > 0 && is_blank(ls[0]) {
        lemma_skip_blank_len(ls.drop_first());
    }
}

/// The rewritten form of a whole answer: its lines rewritten, with at most one
/// newline at the end, which is there where the answer itself ends with one and
/// anything is left of it.
pub open spec fn rewritten(content: Seq<char>) -> Seq<char> {
    let body = trim_newlines(rewrite(lines(content)));
    if ends_with_newline(content) && body.len() > 0 {
        body.push('\n')
    } else {
        body
    }
}

/// The end of the line of `chars` that begins at `from`, and where the next begins.
fn next_line(chars: &Vec<char>, from: usize) -> (r: (usize, usize))
    requires
        from < chars@.len(),
    ensures
        from <= r.0 <= r.1 <= chars@.len(),
        from < r.1,
        lines(chars@.skip(from as int)) == seq![chars@.subrange(from as int, r.0 as int)] + lines(
            chars@.skip(r.1 as int),
        ),
{
    let ghost rest = chars@.skip(from as int);
    let n: usize = next_newline(chars, from);
    if n == chars.len() {
        assert(rest =~= chars@.subrange(from as int, n as int));
        assert(lines(chars@.skip(n as int)) =~= Seq::empty());
        assert(lines(rest) =~= seq![rest] + lines(chars@.skip(n as int)));
        (n, n)
    } else {
        assert(rest.skip(n - from + 1) =~= chars@.skip(n + 1));
        assert(rest.take(n - from) =~= chars@.subrange(from as int, n as int));
        if n > from && chars[n - 1] == '\r' {
            assert(chars@.subrange(from as int, n as int).drop_last() =~= chars@.subrange(
                from as int,
                n - 1,
            ));
            (n - 1, n + 1)
        } else {
            (n, n + 1)
        }
    }
}

/// Whether `chars[from..to]` announces a reasoning block.
pub fn range_is_marker(chars: &Vec<char>, from: usize, to: usize) -> (r: bool)
    requires
        from <= to <= chars@.len(),
    ensures
        r == is_marker(chars@.subrange(from as int, to as int)),
{
    let (a, b) = trim_range(chars, from, to);
    range_is(chars, a, b, "Thinking...") || range_is(chars, a, b, "*Thinking...*")
}

/// Where the text of the quoted line `chars[from..to]` begins.
pub fn unquoted_start(chars: &Vec<char>, from: usize, to: usize) -> (r: usize)
    requires
        from < to <= chars@.len(),
        chars@[from as int] == '>',
    ensures
        from <= r <= to,
        chars@.subrange(r as int, to as int) == unquote(chars@.subrange(from as int, to as int)),
{
    let ghost line = chars@.subrange(from as int, to as int);
    if to - from > 1 && chars[from + 1] == ' ' {
        assert(chars@.subrange(from + 2, to as int) =~= line.skip(2));
        from + 2
    } else {
        assert(chars@.subrange(from + 1, to as int) =~= line.skip(1));
        from + 1
    }
}

/// Where the first line at or after `from` that is not blank begins.
fn skip_blank_lines(chars: &Vec<char>, from: usize) -> (r: usize)
    requires
        from <= chars@.len(),
    ensures
        from <= r <= chars@.len(),
        lines(chars@.skip(r as int)) == skip_blank(lines(chars@.skip(from as int))),
{
    let mut pos: usize = from;
    while pos < chars.len()
        invariant
            from <= pos <= chars@.len(),
            skip_blank(lines(chars@.skip(pos as int))) == skip_blank(
                lines(chars@.skip(from as int)),
            ),
        decreases chars@.len() - pos,
    {
        let ghost rest = lines(chars@.skip(pos as int));
        let (end, next) = next_line(chars, pos);
        assert(rest.drop_first() =~= lines(chars@.skip(next as int)));
        let (a, b) = trim_range(chars, pos, end);
        if a != b {
            assert(!is_blank(rest[0]));
            return pos;
        }
        assert(is_blank(rest[0]));
        pos = next;
    }
    assert(lines(chars@.skip(pos as int)) =~= Seq::empty());
    pos
}

/// Appends the tagged form of `reasoning`, where there is any.
fn append_think_block(out: &mut String, reasoning: &str)
    ensures
        final(out)@ == old(out)@ + think_block(reasoning@),
{
    if !reasoning.is_empty() {
        let trimmed = without_trailing_newlines(reasoning);
        out.append("<think>");
        out.append(trimmed.as_str());
        out.append("</think>\n");
    }
    assert(out@ =~= old(out)@ + think_block(reasoning@));
}

/// Rewrites the reasoning blocks of a complete answer.
#[verifier::rlimit(40)]
pub fn format_reasoning_content(content: &str) -> (r: String)
    ensures
        r@ == rewritten(content@),
{
    let chars = to_chars(content);
    let mut result = String::new();
    let mut reasoning = String::new();
    let mut in_block = false;
    let mut pos: usize = 0;
    assert(chars@.skip(0) =~= chars@);
    assert(result@ + rewrite(lines(chars@)) =~= rewrite(lines(chars@)));
    while pos < chars.len()
        invariant
            chars@ == content@,
            pos <= chars@.len(),
            rewrite(lines(content@)) == result@ + (if in_block {
                rewrite_block(lines(chars@.skip(pos as int)), reasoning@)
            } else {
                rewrite(lines(chars@.skip(pos as int)))
            }),
        decreases chars@.len() - pos,
    {
        let ghost rest = lines(chars@.skip(pos as int));
        let ghost before = result@;
        let ghost collected = reasoning@;
        let (end, next) = next_line(&chars, pos);
        let ghost line = chars@.subrange(pos as int, end as int);
        assert(rest[0] == line);
        assert(rest.drop_first() =~= lines(chars@.skip(next as int)));
        let ghost after = lines(chars@.skip(next as int));
        if range_is_marker(&chars, pos, end) {
            if in_block {
                if !reasoning.as_str().is_empty() {
                    append_range(&mut reasoning, &chars, pos, end);
                    reasoning.push('\n');
                    assert(reasoning@ =~= collected + line.push('\n'));
                } else {
                    append_range(&mut result, &chars, pos, end);
                    result.push('\n');
                    assert(result@ + rewrite_block(after, collected) =~= before + (line.push('\n')
                        + rewrite_block(after, collected)));
                }
                pos = next;
            } else {
                in_block = true;
                reasoning = String::new();
                pos = skip_blank_lines(&chars, next);
            }
        } else if in_block {
            if pos < end && chars[pos] == '>' {
                let start: usize = unquoted_start(&chars, pos, end);
                append_range(&mut reasoning, &chars, start, end);
                reasoning.push('\n');
                assert(reasoning@ =~= collected + unquote(line).push('\n'));
            } else {
                append_think_block(&mut result, reasoning.as_str());
                append_range(&mut result, &chars, pos, end);
                result.push('\n');
                assert(result@ + rewrite(after) =~= before + (think_block(collected) + line.push(
                    '\n',
                ) + rewrite(after)));
                reasoning = String::new();
                in_block = false;
            }
            pos = next;
        } else {
            append_range(&mut result, &chars, pos, end);
            result.push('\n');
            assert(result@ + rewrite(after) =~= before + (line.push('\n') + rewrite(after)));
            pos = next;
        }
    }
    assert(lines(chars@.skip(pos as int)) =~= Seq::empty());
    let ghost before = result@;
    if in_block {
        append_think_block(&mut result, reasoning.as_str());
    }
    assert(result@ =~= rewrite(lines(content@)));
    let mut body = without_trailing_newlines(result.as_str());
    let count: usize = chars.len();
    if count > 0 && chars[count - 1] == '\n' && !body.as_str().is_empty() {
        body.push('\n');
    }
    body
}

/// What is left without the newlines at the back is the front of a text, and a further
/// newline makes no difference to it.
pub proof fn lemma_trim_newlines(s: Seq<char>)
    ensures
        !ends_with_newline(trim_newlines(s)),
        trim_newlines(s).is_prefix_of(s),
        trim_newlines(s.push('\n')) == trim_newlines(s),
    decreases s.len(),
{
    assert(s.push('\n').drop_last() =~= s);
    if ends_with_newline(s) {
        lemma_trim_newlines(s.drop_last());
        assert(trim_newlines(s).is_prefix_of(s.drop_last()));
        assert(trim_newlines(s).is_prefix_of(s));
    }
}

/// A rewritten answer ends with a newline where the answer itself does, unless
/// nothing is left of it, and never with two.
pub proof fn law_ending_is_preserved(content: Seq<char>)
    ensures
        ends_with_newline(rewritten(content)) <==> ends_with_newline(content)
            && rewritten(content).len() > 0,
        ends_with_newline(rewritten(content)) ==> !ends_with_newline(
            rewritten(content).drop_last(),
        ),
{
    let body = trim_newlines(rewrite(lines(content)));
    lemma_trim_newlines(rewrite(lines(content)));
    assert(body.push('\n').drop_last() =~= body);
}

proof fn lemma_rewrite_plain(content: Seq<char>)
    requires
        forall|i: int| 0 <= i < lines(content).len() ==> !is_marker(#[trigger] lines(content)[i]),
        forall|i: int| 0 <= i < content.len() ==> content[i] != '\r',
    ensures
        trim_newlines(rewrite(lines(content))) == trim_newlines(content),
        content.len() > 0 ==> rewrite(lines(content)) == (if ends_with_newline(content) {
            content
        } else {
            content.push('\n')
        }),
    decreases content.len(),
{
    lemma_newline_position(content);
    let n = newline_position(content);
    let ls = lines(content);
    if content.len() == 0 {
        assert(rewrite(ls) =~= content);
    } else {
        assert(!is_marker(ls[0]));
        if n == content.len() {
            assert(ls.drop_first() =~= lines(Seq::empty()));
            assert(rewrite(ls.drop_first()) =~= Seq::empty());
            assert(rewrite(ls) =~= content.push('\n'));
        } else {
            let rest = content.skip(n + 1);
            assert(ls.drop_first() =~= lines(rest));
            assert(ls[0] =~= content.take(n));
            assert forall|i: int| 0 <= i < lines(rest).len() implies !is_marker(
                #[trigger] lines(rest)[i],
            ) by {
                assert(lines(rest)[i] == ls[i + 1]);
            }
            lemma_rewrite_plain(rest);
            assert(content.take(n).push('\n') =~= content.take(n + 1));
            assert(content =~= content.take(n + 1) + rest);
            if rest.len() == 0 {
                assert(rewrite(lines(rest)) =~= Seq::empty());
                assert(rewrite(ls) =~= content);
            } else {
                assert(rest.last() == content.last());
                if ends_with_newline(content) {
                    assert(rewrite(ls) =~= content);
                } else {
                    assert(rewrite(ls) =~= content.push('\n'));
                }
            }
        }
        lemma_trim_newlines(content);
    }
}

/// An answer without a marker line and without carriage returns is kept, but for
/// newlines at its end beyond the first.
pub proof fn law_plain_answer_is_kept(content: Seq<char>)
    requires
        forall|i: int| 0 <= i < lines(content).len() ==> !is_marker(#[trigger] lines(content)[i]),
        forall|i: int| 0 <= i < content.len() ==> content[i] != '\r',
    ensures
        rewritten(content) == (if ends_with_newline(content) && trim_newlines(content).len() > 0 {
            trim_newlines(content).push('\n')
        } else {
            trim_newlines(content)
        }),
{
    lemma_rewrite_plain(content);
}

proof fn lemma_trim_end_keeps_front(s: Seq<char>)
    requires
        s.len() > 0,
        s[0] == '>',
    ensures
        trim_end(s).len() > 0,
        trim_end(s)[0] == '>',
    decreases s.len(),
{
    if white_space(s.last()) {
        lemma_trim_end_keeps_front(s.drop_last());
    }
}

proof fn lemma_quoted_line(line: Seq<char>)
    requires
        is_quoted(line),
    ensures
        !is_marker(line),
        !is_blank(line),
{
    lemma_trim_end_keeps_front(line);
    reveal_strlit("Thinking...");
    reveal_strlit("*Thinking...*");
}

proof fn lemma_quotes(quotes: Seq<Seq<char>>, tail: Seq<Seq<char>>, reasoning: Seq<char>)
    requires
        forall|i: int| 0 <= i < quotes.len() ==> is_quoted(#[trigger] quotes[i]),
    ensures
        rewrite_block(quotes + tail, reasoning) == rewrite_block(
            tail,
            reasoning + unquoted(quotes),
        ),
    decreases quotes.len(),
{
    if quotes.len() == 0 {
        assert(quotes + tail =~= tail);
        assert(reasoning + unquoted(quotes) =~= reasoning);
    } else {
        lemma_quoted_line(quotes[0]);
        let line = unquote(quotes[0]).push('\n');
        assert((quotes + tail).drop_first() =~= quotes.drop_first() + tail);
        lemma_quotes(quotes.drop_first(), tail, reasoning + line);
        assert(reasoning + line + unquoted(quotes.drop_first()) =~= reasoning + unquoted(quotes));
    }
}

proof fn lemma_skip_blank(blanks: Seq<Seq<char>>, rest: Seq<Seq<char>>)
    requires
        forall|i: int| 0 <= i < blanks.len() ==> is_blank(#[trigger] blanks[i]),
        rest.len() > 0 ==> !is_blank(rest[0]),
    ensures
        skip_blank(blanks + rest) == rest,
    decreases blanks.len(),
{
    if blanks.len() == 0 {
        assert(blanks + rest =~= rest);
    } else {
        assert((blanks + rest).drop_first() =~= blanks.drop_first() + rest);
        lemma_skip_blank(blanks.drop_first(), rest);
    }
}

/// A marker line, blank lines and quoted lines become the text of the quotes between the
/// two tags, or nothing where there is no quote. What follows them, from the first line
/// that is no part of the block, is rewritten as if it stood alone.
pub proof fn law_quotes_become_one_block(
    marker: Seq<char>,
    blanks: Seq<Seq<char>>,
    quotes: Seq<Seq<char>>,
    tail: Seq<Seq<char>>,
)
    requires
        is_marker(marker),
        forall|i: int| 0 <= i < blanks.len() ==> is_blank(#[trigger] blanks[i]),
        forall|i: int| 0 <= i < quotes.len() ==> is_quoted(#[trigger] quotes[i]),
        tail.len() > 0 ==> !is_marker(tail[0]) && !is_quoted(tail[0]),
        tail.len() > 0 && quotes.len() == 0 ==> !is_blank(tail[0]),
    ensures
        rewrite(seq![marker] + blanks + quotes + tail) == think_block(unquoted(quotes)) + rewrite(
            tail,
        ),
{
    assert((seq![marker] + blanks + quotes + tail).drop_first() =~= blanks + (quotes + tail));
    if quotes.len() > 0 {
        lemma_quoted_line(quotes[0]);
    } else {
        assert(quotes + tail =~= tail);
    }
    lemma_skip_blank(blanks, quotes + tail);
    lemma_quotes(quotes, tail, Seq::empty());
    assert(Seq::<char>::empty() + unquoted(quotes) =~= unquoted(quotes));
    let block = think_block(unquoted(quotes));
    if tail.len() > 0 {
        assert(rewrite_block(tail, unquoted(quotes)) =~= block + rewrite(tail));
    } else {
        assert(block + rewrite(tail) =~= block);
    }
}

/// The text of quoted lines.
pub open spec fn unquoted(quotes: Seq<Seq<char>>) -> Seq<char>
    decreases quotes.len(),
{
    if quotes.len() == 0 {
        Seq::empty()
    } else {
        unquote(quotes[0]).push('\n') + unquoted(quotes.drop_first())
    }
}

proof fn lemma_lines_are_tagless(content: Seq<char>)
    requires
        tagless(content),
    ensures
        forall|i: int| 0 <= i < lines(content).len() ==> tagless(#[trigger] lines(content)[i]),
    decreases content.len(),
{
    let ls = lines(content);
    let n = newline_position(content);
    lemma_newline_position(content);
    if content.len() > 0 && n < content.len() {
        let rest = content.skip(n + 1);
        assert(rest =~= content.subrange(n + 1, content.len() as int));
        lemma_part_is_tagless(content, n + 1, content.len() as int);
        lemma_lines_are_tagless(rest);
        let line = content.take(n);
        assert(line =~= content.subrange(0, n));
        lemma_part_is_tagless(content, 0, n);
        if n > 0 {
            assert(line.drop_last() =~= content.subrange(0, n - 1));
            lemma_part_is_tagless(content, 0, n - 1);
        }
        assert forall|i: int| 0 <= i < ls.len() implies tagless(#[trigger] ls[i]) by {
            if i > 0 {
                assert(ls[i] == lines(rest)[i - 1]);
            }
        }
    }
}

proof fn lemma_line_tags(line: Seq<char>)
    requires
        tagless(line),
    ensures
        tags(line) == Seq::<bool>::empty(),
        tags(line.push('\n')) == Seq::<bool>::empty(),
{
    lemma_part_is_tagless(line, 0, line.len() as int);
    assert(line.subrange(0, line.len() as int) =~= line);
    lemma_newline_adds_no_tag(line);
}

proof fn lemma_unquoted_tags(line: Seq<char>)
    requires
        tagless(line),
        is_quoted(line),
    ensures
        tags(unquote(line).push('\n')) == Seq::<bool>::empty(),
{
    let from: int = if line.len() > 1 && line[1] == ' ' { 2 } else { 1 };
    assert(unquote(line) =~= line.subrange(from, line.len() as int));
    lemma_part_is_tagless(line, from, line.len() as int);
    lemma_line_tags(unquote(line));
}

proof fn lemma_block_tags(reasoning: Seq<char>)
    requires
        tags(reasoning) == Seq::<bool>::empty(),
    ensures
        alternate(tags(think_block(reasoning)), false, false),
        ends_cleanly(think_block(reasoning)),
{
    if reasoning.len() > 0 {
        let inner = trim_newlines(reasoning);
        let end = "</think>\n"@;
        reveal_strlit("</think>\n");
        lemma_trim_keeps_tags(reasoning);
        lemma_tags_join(inner, end);
        lemma_closing_tag(Seq::empty());
        assert(end + Seq::<char>::empty() =~= end);
        lemma_opening_tag(inner + end);
        assert(think_block(reasoning) =~= "<think>"@ + (inner + end));
        assert(tags(think_block(reasoning)) =~= seq![true, false]);
    }
}

proof fn lemma_skip_blank_is_tagless(ls: Seq<Seq<char>>)
    requires
        forall|i: int| 0 <= i < ls.len() ==> tagless(#[trigger] ls[i]),
    ensures
        forall|i: int| 0 <= i < skip_blank(ls).len() ==> tagless(#[trigger] skip_blank(ls)[i]),
    decreases ls.len(),
{
    if ls.len() > 0 && is_blank(ls[0]) {
        lemma_skip_blank_is_tagless(ls.drop_first());
        assert(skip_blank(ls) == skip_blank(ls.drop_first()));
    } else {
        assert(skip_blank(ls) == ls);
    }
}

proof fn lemma_rewrite_tags(ls: Seq<Seq<char>>)
    requires
        forall|i: int| 0 <= i < ls.len() ==> tagless(#[trigger] ls[i]),
    ensures
        alternate(tags(rewrite(ls)), false, false),
    decreases ls.len(),
{
    if ls.len() > 0 {
        let rest = ls.drop_first();
        if is_marker(ls[0]) {
            lemma_skip_blank_is_tagless(rest);
            lemma_skip_blank_len(rest);
            lemma_rewrite_block_tags(skip_blank(rest), Seq::empty());
        } else {
            let line = ls[0].push('\n');
            lemma_line_tags(ls[0]);
            lemma_rewrite_tags(rest);
            lemma_tags_join(line, rewrite(rest));
            assert(tags(line) + tags(rewrite(rest)) =~= tags(rewrite(rest)));
        }
    }
}

proof fn lemma_rewrite_block_tags(ls: Seq<Seq<char>>, reasoning: Seq<char>)
    requires
        forall|i: int| 0 <= i < ls.len() ==> tagless(#[trigger] ls[i]),
        tags(reasoning) == Seq::<bool>::empty(),
        ends_cleanly(reasoning),
    ensures
        alternate(tags(rewrite_block(ls, reasoning)), false, false),
    decreases ls.len(),
{
    if ls.len() == 0 {
        lemma_block_tags(reasoning);
    } else {
        let rest = ls.drop_first();
        let line = ls[0].push('\n');
        lemma_line_tags(ls[0]);
        if is_marker(ls[0]) {
            if reasoning.len() > 0 {
                lemma_tags_join(reasoning, line);
                assert(tags(reasoning + line) =~= Seq::empty());
                lemma_rewrite_block_tags(rest, reasoning + line);
            } else {
                lemma_rewrite_block_tags(rest, reasoning);
                let later = rewrite_block(rest, reasoning);
                lemma_tags_join(line, later);
                assert(tags(line) + tags(later) =~= tags(later));
            }
        } else if is_quoted(ls[0]) {
            let text = unquote(ls[0]).push('\n');
            lemma_unquoted_tags(ls[0]);
            lemma_tags_join(reasoning, text);
            assert(tags(reasoning + text) =~= Seq::empty());
            lemma_rewrite_block_tags(rest, reasoning + text);
        } else {
            let block = think_block(reasoning);
            lemma_block_tags(reasoning);
            lemma_rewrite_tags(rest);
            lemma_tags_join(line, rewrite(rest));
            assert(tags(line) + tags(rewrite(rest)) =~= tags(rewrite(rest)));
            lemma_tags_join(block, line + rewrite(rest));
            assert(block + line + rewrite(rest) =~= block + (line + rewrite(rest)));
            lemma_alternate_join(tags(block), tags(rewrite(rest)), false, false, false);
        }
    }
}

/// In a rewritten answer the tags alternate, with `<think>` first and `</think>` last,
/// where the answer itself holds none.
pub proof fn law_tags_alternate(content: Seq<char>)
    requires
        tagless(content),
    ensures
        well_nested(tags(rewritten(content))),
{
    let all = rewrite(lines(content));
    lemma_lines_are_tagless(content);
    lemma_rewrite_tags(lines(content));
    lemma_trim_keeps_tags(all);
    lemma_newline_adds_no_tag(trim_newlines(all));
    lemma_well_nested(tags(all));
}

} // verus!
