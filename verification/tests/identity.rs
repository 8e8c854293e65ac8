use poe_bridge::identity::AnswerIdentity;

#[test]
fn new_identity_has_an_identifier_and_the_time() {
    let a = AnswerIdentity::fresh("gpt");
    let b = AnswerIdentity::fresh("gpt");
    assert_eq!(a.model, "gpt");
    assert_eq!(a.id.len(), 10);
    assert!(a.id.chars().all(|c| c.is_ascii_alphanumeric() || c == '_' || c == '-'));
    assert!(a.created > 1_600_000_000);
    assert_ne!(a.id, b.id);
}
