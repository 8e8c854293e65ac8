use poe_bridge::thinking_stream::PoeThinkingStreamProcessor;

/// The whole output for a text that comes in the given pieces.
fn stream(pieces: &[&str]) -> String {
    let mut processor = PoeThinkingStreamProcessor::new();
    let mut out = String::new();
    for piece in pieces {
        out.push_str(&processor.process_chunk(piece));
    }
    out.push_str(&processor.finalize());
    out
}

/// Whether the tags of a text alternate, with an opening one first and a closing one last.
fn alternates(text: &str) -> bool {
    let mut open = false;
    for (at, _) in text.match_indices('<') {
        let rest = &text[at..];
        if rest.starts_with("<think>") {
            if open {
                return false;
            }
            open = true;
        } else if rest.starts_with("</think>") {
            if !open {
                return false;
            }
            open = false;
        }
    }
    !open
}

#[test]
fn complete_lines_are_written_at_once() {
    let mut processor = PoeThinkingStreamProcessor::new();
    assert_eq!(processor.process_chunk("one\ntw"), "one\n");
    assert_eq!(processor.process_chunk(""), "");
    assert_eq!(processor.process_chunk("o\n\nthree"), "two\n\n");
    assert_eq!(processor.finalize(), "three");
    assert_eq!(processor.finalize(), "");
}

#[test]
fn streamed_text_without_marker_is_kept() {
    for text in ["", "a", "a\n", "a\n\n\n", "\r\n> b\n", "Thinking\n...", "x Thinking...\n"] {
        assert_eq!(stream(&[text]), text);
    }
}

#[test]
fn streamed_quotes_become_a_block() {
    assert_eq!(
        stream(&["Thinking...\n\n> first\n>second\n\nThe answer\n"]),
        "<think>first\nsecond\n</think>\n\nThe answer\n"
    );
    assert_eq!(stream(&[" *Thinking...* \r\n> a\nb"]), "<think>a\n</think>\nb");
}

#[test]
fn streamed_block_at_the_end_is_closed() {
    assert_eq!(stream(&["Thinking...\n> a"]), "<think>a\n</think>\n");
    assert_eq!(stream(&["Thinking...\n> a\n"]), "<think>a\n</think>\n");
    assert_eq!(stream(&["Thinking...\n> a\n>"]), "<think>a\n</think>\n");
    assert_eq!(stream(&["Thinking...\n>"]), "<think>\n</think>\n");
}

#[test]
fn streamed_marker_without_quotes_vanishes() {
    assert_eq!(stream(&["Thinking..."]), "");
    assert_eq!(stream(&["Thinking...\n\n\n"]), "");
    assert_eq!(stream(&["Thinking...\nanswer"]), "answer");
    assert_eq!(stream(&["Thinking...\n \n> a"]), " \n> a");
}

#[test]
fn marker_inside_a_block_ends_it() {
    assert_eq!(
        stream(&["Thinking...\n> a\nThinking...\n> b\n"]),
        "<think>a\n</think>\nThinking...\n> b\n"
    );
}

#[test]
fn pieces_do_not_matter() {
    let text = "Hi\nThinking...\n\n> 是\n>b\nanswer\n*Thinking...*\n>\n> end";
    let whole = stream(&[text]);
    let chars: Vec<char> = text.chars().collect();
    for width in 1..chars.len() {
        let pieces: Vec<String> = chars.chunks(width).map(|part| part.iter().collect()).collect();
        let borrowed: Vec<&str> = pieces.iter().map(|piece| piece.as_str()).collect();
        assert_eq!(stream(&borrowed), whole);
    }
    for cut in 0..chars.len() {
        let head: String = chars[..cut].iter().collect();
        let tail: String = chars[cut..].iter().collect();
        assert_eq!(stream(&[&head, &tail]), whole);
    }
}

#[test]
fn every_opened_tag_is_closed() {
    let lines = ["Thinking...\n", "> a<\n", "\n", "b<think\n", ">\n"];
    for code in 0..3125usize {
        let mut rest = code;
        let mut text = String::new();
        for _ in 0..5 {
            text.push_str(lines[rest % 5]);
            rest /= 5;
        }
        for input in [text.as_str(), text.trim_end_matches('\n')] {
            let out = stream(&[input]);
            assert_eq!(out.matches("<think>").count(), out.matches("</think>").count());
            assert!(alternates(&out), "{:?}", out);
        }
    }
}

#[test]
fn reader_can_be_used_again_after_the_end() {
    let mut processor = PoeThinkingStreamProcessor::new();
    processor.process_chunk("Thinking...\n> a\n");
    processor.finalize();
    assert_eq!(processor.process_chunk("> b\n"), "> b\n");
}
