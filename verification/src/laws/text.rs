//! Trimming, searching and splitting, by how a text is put together.

use vstd::prelude::*;

use crate::reasoning::{is_blank, is_marker, is_quoted, unquote};
use crate::text::{
    contains, lemma_newline_position_is, lines, newline_position, occurs_at, starts_with,
    trim, trim_end, trim_newlines, trim_start, white_space,
};

verus! {

/// Whether a text is white space throughout.
pub open spec fn all_white(s: Seq<char>) -> bool {
    forall|i: int| 0 <= i < s.len() ==> white_space(#[trigger] s[i])
}

/// Whether a text has no newline.
pub open spec fn on_one_line(s: Seq<char>) -> bool {
    forall|i: int| 0 <= i < s.len() ==> #[trigger] s[i] != '\n'
}

/// Whether a text is `word` between `a` and `b`.
pub open spec fn made_of(s: Seq<char>, a: Seq<char>, word: Seq<char>, b: Seq<char>) -> bool {
    s == a + word + b
}

proof fn lemma_trim_start(a: Seq<char>, s: Seq<char>)
    requires
        all_white(a),
        s.len() > 0 ==> !white_space(s[0]),
    ensures
        trim_start(a + s) == s,
    decreases a.len(),
{
    if a.len() == 0 {
        assert(a + s =~= s);
    } else {
        assert((a + s).drop_first() =~= a.drop_first() + s);
        assert(white_space((a + s)[0]));
        assert forall|i: int| 0 <= i < a.drop_first().len() implies white_space(
            #[trigger] a.drop_first()[i],
        ) by {
            assert(white_space(a[i + 1]));
        }
        lemma_trim_start(a.drop_first(), s);
    }
}

proof fn lemma_trim_end(s: Seq<char>, b: Seq<char>)
    requires
        all_white(b),
        s.len() > 0 ==> !white_space(s.last()),
    ensures
        trim_end(s + b) == s,
    decreases b.len(),
{
    if b.len() == 0 {
        assert(s + b =~= s);
    } else {
        assert((s + b).drop_last() =~= s + b.drop_last());
        assert(white_space(b[b.len() - 1]));
        assert forall|i: int| 0 <= i < b.drop_last().len() implies white_space(
            #[trigger] b.drop_last()[i],
        ) by {
            assert(white_space(b[i]));
        }
        lemma_trim_end(s, b.drop_last());
    }
}

/// Trimming takes away the white space in front of a text and behind it, and nothing of
/// the text.
pub proof fn law_trim(a: Seq<char>, word: Seq<char>, b: Seq<char>)
    requires
        all_white(a),
        all_white(b),
        word.len() > 0 ==> !white_space(word[0]) && !white_space(word.last()),
    ensures
        trim(a + word + b) == word,
{
    if word.len() > 0 {
        assert(a + word + b =~= a + (word + b));
        lemma_trim_start(a, word + b);
        lemma_trim_end(word, b);
    } else {
        let all = a + word + b;
        assert forall|i: int| 0 <= i < all.len() implies white_space(#[trigger] all[i]) by {
            if i >= a.len() {
                assert(all[i] == b[i - a.len()]);
            }
        }
        assert(all + word =~= all);
        lemma_trim_start(all, word);
        lemma_trim_end(word, word);
        assert(word + word =~= word);
    }
}

proof fn lemma_trim_parts(s: Seq<char>) -> (r: (Seq<char>, Seq<char>))
    ensures
        all_white(r.0),
        all_white(r.1),
        s == r.0 + trim(s) + r.1,
    decreases s.len(),
{
    let none = Seq::<char>::empty();
    if s.len() > 0 && white_space(s[0]) {
        let r = lemma_trim_parts(s.drop_first());
        let front = seq![s[0]] + r.0;
        assert(front + trim(s) + r.1 =~= seq![s[0]] + (r.0 + trim(s) + r.1));
        assert(s =~= seq![s[0]] + s.drop_first());
        (front, r.1)
    } else if s.len() > 0 && white_space(s.last()) {
        let shorter = s.drop_last();
        assert(trim_start(s) == s);
        assert(trim(s) == trim_end(shorter));
        let r = if shorter.len() > 0 {
            assert(shorter[0] == s[0]);
            lemma_trim_parts(shorter)
        } else {
            lemma_trim_parts(shorter)
        };
        assert(trim_start(shorter) == shorter);
        assert(r.0 + trim(s) + r.1.push(s.last()) =~= (r.0 + trim(s) + r.1).push(s.last()));
        assert(s =~= shorter.push(s.last()));
        (r.0, r.1.push(s.last()))
    } else {
        assert(none + s + none =~= s);
        (none, none)
    }
}

/// Newlines at the back of a text are taken away, however many there are.
pub proof fn law_trim_newlines(s: Seq<char>, count: nat)
    requires
        s.len() > 0 ==> s.last() != '\n',
    ensures
        trim_newlines(s + Seq::new(count, |i: int| '\n')) == s,
    decreases count,
{
    let all = s + Seq::new(count, |i: int| '\n');
    if count == 0 {
        assert(all =~= s);
    } else {
        assert(all.drop_last() =~= s + Seq::new((count - 1) as nat, |i: int| '\n'));
        assert(all.last() == '\n');
        law_trim_newlines(s, (count - 1) as nat);
    }
}

/// A pattern is found in a text exactly where the text has it between a front and a back.
pub proof fn law_contains(s: Seq<char>, pattern: Seq<char>, a: Seq<char>, b: Seq<char>)
    ensures
        s == a + pattern + b ==> contains(s, pattern),
        contains(s, pattern) ==> exists|x: Seq<char>, y: Seq<char>| #[trigger]
            made_of(s, x, pattern, y),
{
    if s == a + pattern + b {
        let i = a.len() as int;
        assert(s.subrange(i, i + pattern.len()) =~= pattern);
        assert(occurs_at(s, pattern, i));
    }
    if contains(s, pattern) {
        let i = choose|i: int| #[trigger] occurs_at(s, pattern, i);
        let x = s.take(i);
        let y = s.skip(i + pattern.len());
        assert(s =~= (x + s.subrange(i, i + pattern.len())) + y);
        assert(made_of(s, x, pattern, y));
    }
}

/// A text begins with a prefix exactly where it is the prefix and something more.
pub proof fn law_starts_with(s: Seq<char>, prefix: Seq<char>, rest: Seq<char>)
    ensures
        s == prefix + rest ==> starts_with(s, prefix),
        starts_with(s, prefix) ==> s == prefix + s.skip(prefix.len() as int),
{
    if s == prefix + rest {
        assert(s.take(prefix.len() as int) =~= prefix);
    }
    if starts_with(s, prefix) {
        assert(s =~= s.take(prefix.len() as int) + s.skip(prefix.len() as int));
    }
}

/// How a text with a newline reads, from its first line on.
pub proof fn law_first_line(line: Seq<char>, rest: Seq<char>)
    requires
        on_one_line(line),
    ensures
        ({
            let all = line.push('\n') + rest;
            &&& newline_position(all) == line.len()
            &&& all.take(line.len() as int) == line
            &&& all.take(line.len() as int + 1) == line.push('\n')
            &&& all.skip(line.len() as int + 1) == rest
            &&& newline_position(line) == line.len()
        }),
{
    let all = line.push('\n') + rest;
    assert forall|i: int| 0 <= i < line.len() implies all[i] != '\n' by {
        assert(all[i] == line[i]);
    }
    lemma_newline_position_is(all, line.len() as int);
    lemma_newline_position_is(line, line.len() as int);
    assert(all.take(line.len() as int) =~= line);
    assert(all.take(line.len() as int + 1) =~= line.push('\n'));
    assert(all.skip(line.len() as int + 1) =~= rest);
}

/// The lines of a text: the first, without its newline and the carriage return in front
/// of that, and then those of the rest; the last counts where there is anything of it.
pub proof fn law_lines(line: Seq<char>, rest: Seq<char>)
    requires
        on_one_line(line),
    ensures
        line.len() == 0 || line.last() != '\r' ==> lines(line.push('\n') + rest) == seq![line]
            + lines(rest),
        lines(line.push('\r').push('\n') + rest) == seq![line] + lines(rest),
        line.len() > 0 ==> lines(line) == seq![line],
        lines(Seq::<char>::empty()) == Seq::<Seq<char>>::empty(),
{
    law_first_line(line, rest);
    let with_return = line.push('\r');
    assert forall|i: int| 0 <= i < with_return.len() implies #[trigger] with_return[i] != '\n' by {
        if i < line.len() {
            assert(with_return[i] == line[i]);
        }
    }
    law_first_line(with_return, rest);
    assert(with_return.drop_last() =~= line);
    lemma_newline_position_is(line, line.len() as int);
}

/// A line announces a reasoning block exactly where it is `Thinking...`, plain or between
/// asterisks, with nothing but white space around it.
pub proof fn law_marker(line: Seq<char>, a: Seq<char>, b: Seq<char>)
    ensures
        all_white(a) && all_white(b) && (line == a + "Thinking..."@ + b || line == a
            + "*Thinking...*"@ + b) ==> is_marker(line),
        is_marker(line) ==> exists|x: Seq<char>, y: Seq<char>|
            all_white(x) && all_white(y) && (#[trigger] made_of(line, x, "Thinking..."@, y)
                || made_of(line, x, "*Thinking...*"@, y)),
{
    reveal_strlit("Thinking...");
    reveal_strlit("*Thinking...*");
    if all_white(a) && all_white(b) {
        law_trim(a, "Thinking..."@, b);
        law_trim(a, "*Thinking...*"@, b);
    }
    if is_marker(line) {
        let (x, y) = lemma_trim_parts(line);
        let plain = made_of(line, x, "Thinking..."@, y);
        assert(plain || made_of(line, x, "*Thinking...*"@, y));
    }
}

/// A line is blank exactly where it is white space throughout.
pub proof fn law_blank(line: Seq<char>)
    ensures
        is_blank(line) <==> all_white(line),
{
    let none = Seq::<char>::empty();
    if all_white(line) {
        law_trim(line, none, none);
        assert(line + none + none =~= line);
    }
    if is_blank(line) {
        let (x, y) = lemma_trim_parts(line);
        assert forall|i: int| 0 <= i < line.len() implies white_space(#[trigger] line[i]) by {
            if i < x.len() {
                assert(line[i] == x[i]);
            } else {
                assert(line[i] == y[i - x.len()]);
            }
        }
    }
}

/// A line is quoted exactly where it begins with `>`, and its text is what stands behind
/// that and behind one blank, where there is one.
pub proof fn law_quote(line: Seq<char>, text: Seq<char>)
    ensures
        is_quoted(line) <==> line.len() > 0 && line[0] == '>',
        unquote(seq!['>', ' '] + text) == text,
        text.len() == 0 || text[0] != ' ' ==> unquote(seq!['>'] + text) == text,
{
    assert((seq!['>', ' '] + text).skip(2) =~= text);
    assert((seq!['>'] + text).skip(1) =~= text);
}

} // verus!
