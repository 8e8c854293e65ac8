use poe_bridge::sse::{error_payload, render_events, Payload};

#[test]
fn messages_have_their_text_form() {
    assert_eq!(render_events(&vec![]), "");
    let payloads = vec![Payload::Json("{}".to_string()), Payload::Done];
    assert_eq!(render_events(&payloads), "data: {}\n\ndata: [DONE]\n\n");
}

#[test]
fn messages_join() {
    let a = Payload::Json("1".to_string());
    let b = Payload::Json("2".to_string());
    let apart = render_events(&vec![a.clone()]) + &render_events(&vec![b.clone()]);
    assert_eq!(render_events(&vec![a, b]), apart);
}

#[test]
fn error_is_written_in_json() {
    let payload = error_payload("say \"hi\"\n", "stream_error", "stream_code");
    let text = match payload {
        Payload::Json(text) => text,
        Payload::Done => panic!("no text"),
    };
    let value: serde_json::Value = serde_json::from_str(&text).unwrap();
    assert_eq!(value["error"]["message"], "say \"hi\"\n");
    assert_eq!(value["error"]["type"], "stream_error");
    assert_eq!(value["error"]["code"], "stream_code");
    assert_eq!(value.as_object().unwrap().len(), 1);
    assert_eq!(value["error"].as_object().unwrap().len(), 3);
}
