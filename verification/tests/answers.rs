use poe_bridge::answer::{
    complete_replaced, completion, handle_non_stream_response, AnswerCollector, AnswerStart, Progress,
};
use poe_bridge::errors::service_error_reply;
use poe_bridge::events::{initial_events, scan_initial};
use poe_bridge::identity::AnswerIdentity;
use poe_bridge::replace::ReplaceCollector;
use poe_bridge::stream::{complete_replaced_stream, handle_stream_response, start_stream, AnswerStream, Frame, StreamStart};
use poe_bridge::types::{
    completion_id, create_stream_chunk, create_tool_chunk, Event, EventKind, StreamItem, ToolCall, ToolCallFunction,
};

fn event(kind: EventKind) -> Event {
    Event {
        kind,
        text: None,
        error: None,
        tool_calls: None,
    }
}

fn text(content: &str) -> Event {
    Event {
        text: Some(content.to_string()),
        ..event(EventKind::Text)
    }
}

fn replacement(content: &str) -> Event {
    Event {
        text: Some(content.to_string()),
        ..event(EventKind::ReplaceResponse)
    }
}

fn failure(message: &str) -> Event {
    Event {
        error: Some(message.to_string()),
        ..event(EventKind::Error)
    }
}

fn call(name: &str) -> ToolCall {
    ToolCall {
        id: format!("call-{}", name),
        kind: "function".to_string(),
        function: ToolCallFunction {
            name: name.to_string(),
            arguments: "{}".to_string(),
        },
    }
}

fn calls(names: &[&str]) -> Event {
    Event {
        tool_calls: Some(names.iter().map(|name| call(name)).collect()),
        ..event(EventKind::Json)
    }
}

fn item(event: Event) -> StreamItem {
    StreamItem::Event(event)
}

fn identity() -> AnswerIdentity {
    AnswerIdentity {
        id: "abc".to_string(),
        created: 42,
        model: "gpt".to_string(),
    }
}

fn frame_text(frame: &Frame) -> String {
    match frame {
        Frame::Chunk(chunk) => chunk.choices[0].delta.content.clone().unwrap_or_default(),
        _ => String::new(),
    }
}

fn stop_frame() -> Frame {
    Frame::Chunk(create_stream_chunk("abc", 42, "gpt", "", Some("stop".to_string())))
}

fn content_frame(content: &str) -> Frame {
    Frame::Chunk(create_stream_chunk("abc", 42, "gpt", content, None))
}

fn begun(events: Vec<Event>) -> (AnswerStream, Vec<Frame>) {
    match start_stream(identity(), events) {
        StreamStart::Grow(stream, frames) => (stream, frames),
        _ => panic!("the answer does not grow"),
    }
}

fn grown(events: Vec<Event>) -> (AnswerStream, Frame) {
    let (stream, mut frames) = begun(events);
    assert_eq!(frames.len(), 1);
    (stream, frames.remove(0))
}

fn tool_frame(names: &[&str]) -> Frame {
    let calls = names.iter().map(|name| call(name)).collect();
    Frame::Chunk(create_tool_chunk("abc", 42, "gpt", calls))
}

#[test]
fn chunk_carries_text_or_the_role() {
    let chunk = create_stream_chunk("abc", 42, "gpt", "hi", None);
    assert_eq!(chunk.id, "chatcmpl-abc");
    assert_eq!(chunk.object, "chat.completion.chunk");
    assert_eq!(chunk.created, 42);
    assert_eq!(chunk.model, "gpt");
    assert_eq!(chunk.choices.len(), 1);
    assert_eq!(chunk.choices[0].index, 0);
    assert_eq!(chunk.choices[0].delta.content.as_deref(), Some("hi"));
    assert_eq!(chunk.choices[0].delta.role, None);
    assert_eq!(chunk.choices[0].finish_reason, None);
    let opening = create_stream_chunk("abc", 42, "gpt", "", None);
    assert_eq!(opening.choices[0].delta.role.as_deref(), Some("assistant"));
    assert_eq!(opening.choices[0].delta.content, None);
    let stop = create_stream_chunk("abc", 42, "gpt", "", Some("stop".to_string()));
    assert_eq!(stop.choices[0].delta.role, None);
    assert_eq!(stop.choices[0].delta.content.as_deref(), Some(""));
    assert_eq!(stop.choices[0].finish_reason.as_deref(), Some("stop"));
    assert_eq!(completion_id("x"), "chatcmpl-x");
}

#[test]
fn chunk_carries_tool_calls() {
    let chunk = create_tool_chunk("abc", 42, "gpt", vec![call("f")]);
    assert_eq!(chunk.choices[0].delta.role.as_deref(), Some("assistant"));
    assert_eq!(chunk.choices[0].delta.content, None);
    assert_eq!(chunk.choices[0].delta.tool_calls, Some(vec![call("f")]));
    assert_eq!(chunk.choices[0].finish_reason.as_deref(), Some("tool_calls"));
}

#[test]
fn first_two_looks_keep_what_was_received() {
    assert_eq!(
        initial_events(item(text("a")), item(text("b"))),
        vec![text("a"), text("b")]
    );
    assert_eq!(initial_events(StreamItem::Failed, item(text("b"))), vec![text("b")]);
    assert_eq!(initial_events(item(text("a")), StreamItem::Ended), vec![text("a")]);
    assert_eq!(initial_events(StreamItem::Ended, StreamItem::Ended), vec![]);
}

#[test]
fn scan_collects_text_and_calls() {
    let scan = scan_initial(vec![text("a"), text("b")], true);
    assert!(!scan.replace);
    assert_eq!(scan.content, "ab");
    assert_eq!(scan.failure, None);
    let scan = scan_initial(vec![calls(&["f"]), calls(&["g", "h"])], false);
    assert_eq!(scan.tool_calls, vec![call("f"), call("g"), call("h")]);
}

#[test]
fn scan_sees_a_replacement() {
    let scan = scan_initial(vec![text("a"), replacement("b")], true);
    assert!(scan.replace);
    assert_eq!(scan.content, "b");
    let scan = scan_initial(vec![replacement("b"), text("a")], true);
    assert_eq!(scan.content, "b");
    let scan = scan_initial(vec![text("a"), event(EventKind::ReplaceResponse)], true);
    assert!(scan.replace);
    assert_eq!(scan.content, "a");
}

#[test]
fn scan_stops_at_the_end() {
    let scan = scan_initial(vec![event(EventKind::Done), text("a")], true);
    assert_eq!(scan.content, "");
    assert!(scan.ended);
    assert!(!scan_initial(vec![text("a"), text("b")], true).ended);
    let scan = scan_initial(vec![failure("bad"), text("a")], false);
    assert!(!scan.ended);
    assert_eq!(scan.failure.as_deref(), Some("bad"));
    assert_eq!(scan.content, "");
}

#[test]
fn error_behind_a_replacement_depends_on_streaming() {
    let events = vec![replacement("a"), failure("bad")];
    assert_eq!(scan_initial(events.clone(), true).failure, None);
    assert_eq!(scan_initial(events, false).failure.as_deref(), Some("bad"));
    assert_eq!(scan_initial(vec![event(EventKind::Error)], false).failure, None);
}

#[test]
fn longer_text_of_a_replaced_answer_is_taken() {
    let mut collector = ReplaceCollector::new("start".to_string());
    collector.observe(item(text("12")));
    collector.observe(StreamItem::Failed);
    collector.observe(item(calls(&["f"])));
    collector.observe(item(failure("bad")));
    collector.observe(item(replacement("abc")));
    collector.observe(item(text("3")));
    assert!(!collector.finished);
    collector.observe(item(event(EventKind::Done)));
    assert!(collector.finished);
    collector.observe(item(text("behind the end")));
    assert_eq!(collector.handle_replace_response(), "abc");

    let mut collector = ReplaceCollector::new("ab".to_string());
    collector.observe(item(text("是")));
    collector.observe(StreamItem::Ended);
    assert!(collector.finished);
    assert_eq!(collector.handle_replace_response(), "是");
}

#[test]
fn completion_has_its_parts() {
    let response = completion(identity(), "Thinking...\n> a\nb", vec![]);
    assert_eq!(response.id, "chatcmpl-abc");
    assert_eq!(response.object, "chat.completion");
    assert_eq!(response.created, 42);
    assert_eq!(response.model, "gpt");
    assert_eq!(response.usage, None);
    assert_eq!(response.choices.len(), 1);
    let choice = &response.choices[0];
    assert_eq!(choice.index, 0);
    assert_eq!(choice.message.role, "assistant");
    assert_eq!(choice.message.content, "<think>a</think>\nb");
    assert_eq!(choice.message.refusal, None);
    assert_eq!(choice.message.tool_calls, None);
    assert_eq!(choice.logprobs, None);
    assert_eq!(choice.finish_reason.as_deref(), Some("stop"));
    let response = completion(identity(), "", vec![call("f")]);
    assert_eq!(response.choices[0].message.tool_calls, Some(vec![call("f")]));
    assert_eq!(response.choices[0].finish_reason.as_deref(), Some("tool_calls"));
}

#[test]
fn answer_in_one_piece_is_gathered() {
    let mut collector = match handle_non_stream_response(vec![text("a"), calls(&["f"])]) {
        AnswerStart::Collect(collector) => collector,
        _ => panic!("the answer is not gathered"),
    };
    for next in [text("b"), replacement("x"), event(EventKind::Error), calls(&["g"]), event(EventKind::Text)] {
        assert!(matches!(collector.observe(item(next)), Progress::Continue));
    }
    assert!(matches!(collector.observe(item(event(EventKind::Done))), Progress::Finished));
    let response = collector.complete("gpt");
    assert_eq!(response.model, "gpt");
    assert_eq!(response.id.len(), "chatcmpl-".len() + 10);
    assert_eq!(response.choices[0].message.content, "ab");
    assert_eq!(
        response.choices[0].message.tool_calls,
        Some(vec![call("f"), call("g")])
    );
}

#[test]
fn broken_stream_ends_an_answer_in_one_piece() {
    for end in [StreamItem::Failed, StreamItem::Ended] {
        let mut collector = AnswerCollector {
            content: "a".to_string(),
            tool_calls: vec![],
        };
        assert!(matches!(collector.observe(end), Progress::Finished));
        assert_eq!(collector.complete("gpt").choices[0].message.content, "a");
    }
}

#[test]
fn error_ends_an_answer_in_one_piece() {
    match handle_non_stream_response(vec![failure("rate limit")]) {
        AnswerStart::Failed(reply) => assert_eq!(reply, service_error_reply("rate limit")),
        _ => panic!("the answer goes on"),
    }
    let mut collector = AnswerCollector {
        content: String::new(),
        tool_calls: vec![],
    };
    match collector.observe(item(failure("Unauthorized"))) {
        Progress::Failed(reply) => assert_eq!(reply.status, 401),
        _ => panic!("the answer goes on"),
    }
}

#[test]
fn replaced_answer_in_one_piece_has_no_tool_calls() {
    let collector = match handle_non_stream_response(vec![calls(&["f"]), replacement("Thinking...\n> a")]) {
        AnswerStart::Replace(collector) => collector,
        _ => panic!("the answer is not replaced"),
    };
    let response = complete_replaced(collector, "gpt");
    assert_eq!(response.choices[0].message.content, "<think>a</think>");
    assert_eq!(response.choices[0].message.tool_calls, None);
    assert_eq!(response.choices[0].finish_reason.as_deref(), Some("stop"));
}

#[test]
fn stream_begins_with_the_text_so_far() {
    let (stream, frame) = grown(vec![text("one\ntw"), text("o")]);
    assert_eq!(frame, content_frame("one\n"));
    assert!(!stream.is_done());
    let (_, frame) = grown(vec![]);
    assert_eq!(frame, content_frame(""));
}

#[test]
fn stream_sends_text_as_lines_complete() {
    let (mut stream, _) = grown(vec![]);
    assert_eq!(stream.advance(item(text("a"))), Some(vec![]));
    assert_eq!(stream.advance(item(text("b\nc"))), Some(vec![content_frame("ab\n")]));
    assert_eq!(stream.advance(item(event(EventKind::Text))), Some(vec![]));
    assert_eq!(stream.advance(item(replacement("x"))), Some(vec![]));
    assert_eq!(
        stream.advance(item(event(EventKind::Done))),
        Some(vec![content_frame("c"), stop_frame(), Frame::Done])
    );
    assert!(stream.is_done());
    assert_eq!(stream.advance(item(text("behind the end\n"))), None);
}

#[test]
fn stream_without_held_back_text_just_stops() {
    let (mut stream, _) = grown(vec![text("a\n")]);
    assert_eq!(
        stream.advance(item(event(EventKind::Done))),
        Some(vec![stop_frame(), Frame::Done])
    );
}

#[test]
fn stream_passes_tool_calls_on() {
    let (mut stream, _) = grown(vec![]);
    let frames = stream.advance(item(calls(&["f"])));
    assert_eq!(
        frames,
        Some(vec![Frame::Chunk(create_tool_chunk("abc", 42, "gpt", vec![call("f")]))])
    );
    assert_eq!(stream.advance(item(event(EventKind::Json))), Some(vec![]));
    assert!(!stream.is_done());
}

#[test]
fn stream_reports_an_error_and_ends() {
    let (mut stream, _) = grown(vec![text("Thinking...\n> a")]);
    let frames = stream.advance(item(failure("bad"))).unwrap();
    assert_eq!(frames.len(), 2);
    match &frames[0] {
        Frame::Error(error) => {
            assert_eq!(error.message, "bad");
            assert_eq!(error.kind, "stream_error");
            assert_eq!(error.code, "stream_error");
        }
        _ => panic!("no error is reported"),
    }
    assert_eq!(frames[1], Frame::Done);
    assert!(stream.is_done());

    let (mut stream, _) = grown(vec![]);
    assert_eq!(stream.advance(item(event(EventKind::Error))), Some(vec![]));
    assert!(stream.is_done());
}

#[test]
fn broken_stream_breaks_off() {
    for end in [StreamItem::Failed, StreamItem::Ended] {
        let (mut stream, _) = grown(vec![text("a")]);
        assert_eq!(stream.advance(end), None);
    }
}

#[test]
fn stream_carries_the_whole_text() {
    let whole = "Hi\nThinking...\n\n> why\n> so\nThe answer\nends";
    let rewritten = "Hi\n<think>why\nso\n</think>\nThe answer\nends";
    for width in 1..whole.len() {
        let mut pieces: Vec<Event> = whole
            .as_bytes()
            .chunks(width)
            .map(|part| text(std::str::from_utf8(part).unwrap()))
            .collect();
        pieces.push(event(EventKind::Done));
        let rest = pieces.split_off(pieces.len().min(1));
        let (mut stream, first) = grown(pieces);
        let mut received = frame_text(&first);
        for next in rest {
            for frame in stream.advance(item(next)).unwrap() {
                received.push_str(&frame_text(&frame));
            }
        }
        assert_eq!(received, rewritten);
        assert!(stream.is_done());
    }
}

#[test]
fn error_at_the_beginning_fails_the_stream() {
    match start_stream(identity(), vec![text("a"), failure("Bot does not exist")]) {
        StreamStart::Failed(reply) => assert_eq!(reply, service_error_reply("Bot does not exist")),
        _ => panic!("the stream begins"),
    }
}

#[test]
fn replaced_answer_is_streamed_in_one_piece() {
    let (identity, mut collector) = match start_stream(identity(), vec![replacement("x"), failure("bad")]) {
        StreamStart::Replace(identity, collector) => (identity, collector),
        _ => panic!("the answer is not replaced"),
    };
    collector.observe(item(replacement("Thinking...\n> a\nb")));
    collector.observe(item(event(EventKind::Done)));
    assert_eq!(
        complete_replaced_stream(&identity, collector),
        vec![content_frame("<think>a</think>\nb"), stop_frame(), Frame::Done]
    );
}

#[test]
fn streamed_answer_has_one_identity() {
    match handle_stream_response("gpt", vec![text("a\n")]) {
        StreamStart::Grow(mut stream, mut frames) => {
            let first = frames.remove(0);
            let next = stream.advance(item(text("b\n"))).unwrap().remove(0);
            match (first, next) {
                (Frame::Chunk(a), Frame::Chunk(b)) => {
                    assert_eq!(a.id, b.id);
                    assert_eq!(a.id.len(), "chatcmpl-".len() + 10);
                    assert_eq!(a.created, b.created);
                    assert_eq!(a.model, "gpt");
                    assert_eq!(b.model, "gpt");
                }
                _ => panic!("no chunks"),
            }
        }
        _ => panic!("the answer does not grow"),
    }
}

#[test]
fn other_events_do_not_touch_the_text() {
    let (mut stream, first) = grown(vec![text("Thinking...\n")]);
    let mut received = frame_text(&first);
    for next in [text("> a"), calls(&["f"]), replacement("x"), text("b\nc"), event(EventKind::Done)] {
        for frame in stream.advance(item(next)).unwrap() {
            received.push_str(&frame_text(&frame));
        }
    }
    assert_eq!(received, "<think>ab\n</think>\nc");
}

#[test]
fn replaced_text_is_the_same_streamed_or_in_one_piece() {
    for content in ["", "a\n\n", "Thinking...\n> a\nb", "Thinking...\n"] {
        let streamed: String = complete_replaced_stream(&identity(), ReplaceCollector::new(content.to_string()))
            .iter()
            .map(frame_text)
            .collect();
        let whole = complete_replaced(ReplaceCollector::new(content.to_string()), "gpt");
        assert_eq!(streamed, whole.choices[0].message.content);
    }
}

#[test]
fn stream_that_ends_with_its_first_events_is_complete() {
    let (mut stream, frames) = begun(vec![text("Hi"), event(EventKind::Done)]);
    assert_eq!(
        frames,
        vec![content_frame(""), content_frame("Hi"), stop_frame(), Frame::Done]
    );
    assert!(stream.is_done());
    assert_eq!(stream.advance(item(text("behind the end\n"))), None);

    let (stream, frames) = begun(vec![event(EventKind::Done), text("behind the end")]);
    assert_eq!(frames, vec![content_frame(""), stop_frame(), Frame::Done]);
    assert!(stream.is_done());

    let (_, frames) = begun(vec![text("Thinking...\n> a"), event(EventKind::Done)]);
    let received: String = frames.iter().map(frame_text).collect();
    assert_eq!(received, "<think>a\n</think>\n");
}

#[test]
fn tool_calls_among_the_first_events_are_sent() {
    let (mut stream, frames) = begun(vec![calls(&["f"]), text("a\n")]);
    assert_eq!(frames, vec![content_frame("a\n"), tool_frame(&["f"])]);
    assert!(!stream.is_done());
    assert_eq!(
        stream.advance(item(event(EventKind::Done))),
        Some(vec![stop_frame(), Frame::Done])
    );

    let (_, frames) = begun(vec![calls(&["f"]), calls(&["g", "h"])]);
    assert_eq!(frames, vec![content_frame(""), tool_frame(&["f", "g", "h"])]);

    let (stream, frames) = begun(vec![calls(&["f"]), event(EventKind::Done)]);
    assert_eq!(
        frames,
        vec![content_frame(""), tool_frame(&["f"]), stop_frame(), Frame::Done]
    );
    assert!(stream.is_done());
}
