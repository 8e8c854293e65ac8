use poe_bridge::reasoning::format_reasoning_content;

/// The rewriting in terms of the string functions of std.
fn reference(content: &str) -> String {
    let mut result = String::new();
    let mut lines = content.lines().peekable();
    let mut in_block = false;
    let mut reasoning = String::new();
    while let Some(line) = lines.next() {
        let trimmed = line.trim();
        if trimmed == "Thinking..." || trimmed == "*Thinking...*" {
            if in_block {
                let target = if reasoning.is_empty() { &mut result } else { &mut reasoning };
                target.push_str(line);
                target.push('\n');
            } else {
                in_block = true;
                reasoning.clear();
                while lines.peek().map(|next| next.trim().is_empty()).unwrap_or(false) {
                    lines.next();
                }
            }
        } else if in_block && line.starts_with('>') {
            reasoning.push_str(&line[if line.starts_with("> ") { 2 } else { 1 }..]);
            reasoning.push('\n');
        } else {
            if in_block && !reasoning.is_empty() {
                result.push_str(&format!("<think>{}</think>\n", reasoning.trim_end_matches('\n')));
                reasoning.clear();
            }
            in_block = false;
            result.push_str(line);
            result.push('\n');
        }
    }
    if in_block && !reasoning.is_empty() {
        result.push_str(&format!("<think>{}</think>\n", reasoning.trim_end_matches('\n')));
    }
    let body = result.trim_end_matches('\n').to_string();
    if content.ends_with('\n') && !body.is_empty() {
        format!("{}\n", body)
    } else {
        body
    }
}

/// Whether the tags of a text alternate, with an opening one first and a closing one last.
fn alternates(text: &str) -> bool {
    let mut open = false;
    for (at, _) in text.match_indices('<') {
        let rest = &text[at..];
        if rest.starts_with("<think>") {
            if open {
                return false;
            }
            open = true;
        } else if rest.starts_with("</think>") {
            if !open {
                return false;
            }
            open = false;
        }
    }
    !open
}

#[test]
fn plain_text_is_kept() {
    assert_eq!(format_reasoning_content(""), "");
    assert_eq!(format_reasoning_content("a"), "a");
    assert_eq!(format_reasoning_content("a\nb\n"), "a\nb\n");
    assert_eq!(format_reasoning_content("> quoted\n"), "> quoted\n");
}

#[test]
fn surplus_newlines_at_the_end_go() {
    assert_eq!(format_reasoning_content("a\n\n\n"), "a\n");
    assert_eq!(format_reasoning_content("\n\n"), "");
    assert_eq!(format_reasoning_content("\n\na"), "\n\na");
}

#[test]
fn carriage_returns_before_newlines_go() {
    assert_eq!(format_reasoning_content("a\r\nb\r\n"), "a\nb\n");
    assert_eq!(format_reasoning_content("a\rb\r"), "a\rb\r");
}

#[test]
fn quotes_become_a_block() {
    assert_eq!(
        format_reasoning_content("Thinking...\n\n> first\n>second\n>\n\nThe answer\n"),
        "<think>first\nsecond</think>\n\nThe answer\n"
    );
    assert_eq!(
        format_reasoning_content("  *Thinking...*  \n> why\nso"),
        "<think>why</think>\nso"
    );
}

#[test]
fn block_at_the_end_is_closed() {
    assert_eq!(format_reasoning_content("Thinking...\n> only"), "<think>only</think>");
    assert_eq!(format_reasoning_content("Thinking...\n> only\n"), "<think>only</think>\n");
    assert_eq!(format_reasoning_content("Thinking...\n>\n"), "<think></think>\n");
}

#[test]
fn marker_without_quotes_vanishes() {
    assert_eq!(format_reasoning_content("Thinking..."), "");
    assert_eq!(format_reasoning_content("Thinking...\n"), "");
    assert_eq!(format_reasoning_content("Thinking...\n \n\t\nanswer"), "answer");
}

#[test]
fn further_marker_depends_on_what_was_collected() {
    assert_eq!(
        format_reasoning_content("Thinking...\nThinking...\n> a\nb"),
        "Thinking...\n<think>a</think>\nb"
    );
    assert_eq!(
        format_reasoning_content("Thinking...\n> a\nThinking...\n> b\nc"),
        "<think>a\nThinking...\nb</think>\nc"
    );
}

#[test]
fn two_blocks_are_rewritten() {
    assert_eq!(
        format_reasoning_content("Thinking...\n> a\nx\nThinking...\n> b\ny\n"),
        "<think>a</think>\nx\n<think>b</think>\ny\n"
    );
}

#[test]
fn ending_follows_that_of_the_answer() {
    for text in ["a", "a\n", "Thinking...\n> a\n\n", "Thinking...\n> a", "\n", "Thinking...\n"] {
        let out = format_reasoning_content(text);
        assert_eq!(out.ends_with('\n'), text.ends_with('\n') && !out.is_empty());
        assert!(!out.ends_with("\n\n"));
    }
}

#[test]
fn rewriting_agrees_with_line_by_line_reading() {
    let parts = ["Thinking...", "*Thinking...*", ">", "> a", ">b", "", " ", "c", "\r", "\u{3000}", "<think>"];
    let ends = ["\n", "\r\n", "\n\n", ""];
    let mut state: u32 = 12345;
    for _ in 0..20_000 {
        let mut text = String::new();
        state = state.wrapping_mul(1664525).wrapping_add(1013904223);
        let count = (state >> 16) % 8;
        for _ in 0..count {
            state = state.wrapping_mul(1664525).wrapping_add(1013904223);
            text.push_str(parts[(state >> 16) as usize % parts.len()]);
            text.push_str(ends[(state >> 24) as usize % ends.len()]);
        }
        assert_eq!(format_reasoning_content(&text), reference(&text), "{:?}", text);
    }
}

#[test]
fn tags_of_a_rewritten_answer_alternate() {
    let lines = ["Thinking...\n", "> a<\n", "\n", "b<think\n", "> </think\n"];
    for code in 0..3125usize {
        let mut rest = code;
        let mut text = String::new();
        for _ in 0..5 {
            text.push_str(lines[rest % 5]);
            rest /= 5;
        }
        let out = format_reasoning_content(&text);
        assert!(alternates(&out), "{:?}", out);
    }
    assert!(alternates("<think></think>"));
    assert!(!alternates("</think><think>"));
}
