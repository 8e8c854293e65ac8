use poe_bridge::content::{deserialize_content, ContentItem, MessageContent};

fn item(text: &str) -> ContentItem {
    ContentItem {
        kind: "text".to_string(),
        text: text.to_string(),
    }
}

#[test]
fn text_is_taken_as_it_is() {
    assert_eq!(deserialize_content(MessageContent::Text("hé\n".to_string())), "hé\n");
}

#[test]
fn parts_are_put_together() {
    assert_eq!(deserialize_content(MessageContent::Items(vec![])), "");
    let items = vec![item("a"), item(""), item("b c")];
    assert_eq!(deserialize_content(MessageContent::Items(items)), "ab c");
}
