use poe_bridge::config::{Config, ModelConfig};
use poe_bridge::errors::{ErrorBody, ErrorReply};
use poe_bridge::models::{
    bypasses_config, fetched_reply, get_models, lowercase_entries, lowercase_ids, merge_lowered, merge_models,
    FetchPurpose, ModelInfo, ModelsPlan,
};

fn model(id: &str) -> ModelInfo {
    ModelInfo {
        id: id.to_string(),
        object: "model".to_string(),
        created: 7,
        owned_by: "poe".to_string(),
    }
}

fn with(config: Config, name: &str, mapping: Option<&str>, enable: Option<bool>) -> Config {
    config.insert(
        name.to_string(),
        ModelConfig {
            mapping: mapping.map(|m| m.to_string()),
            enable,
        },
    )
}

fn rules() -> Config {
    let config = with(Config::new(Some(true)), "GPT-4o", Some("My-GPT"), None);
    let config = with(config, "Hidden", None, Some(false));
    with(config, "Shown", None, Some(true))
}

fn ids(models: &[ModelInfo]) -> Vec<&str> {
    models.iter().map(|m| m.id.as_str()).collect()
}

fn error(status: u16, message: &str) -> ErrorReply {
    ErrorReply {
        status,
        body: ErrorBody::Message(message.to_string()),
    }
}

#[test]
fn names_are_lowered() {
    let lowered = lowercase_ids(&vec![model("GPT-4o"), model("ÄÖ"), model("x")]);
    assert_eq!(ids(&lowered), ["gpt-4o", "äö", "x"]);
    assert_eq!(lowered[0].object, "model");
    assert_eq!(lowered[0].created, 7);
    assert_eq!(lowered[0].owned_by, "poe");
    let entries = lowercase_entries(rules().models());
    assert_eq!(entries[0].name, "gpt-4o");
    assert_eq!(entries[0].rule.mapping.as_deref(), Some("my-gpt"));
}

#[test]
fn rules_rename_and_hide_models() {
    let models = vec![model("Other"), model("gpt-4O"), model("HIDDEN"), model("shown")];
    let merged = merge_models(&models, &rules());
    assert_eq!(ids(&merged), ["other", "my-gpt", "shown"]);
    assert_eq!(merged[1].owned_by, "poe");
}

#[test]
fn without_rules_all_models_are_offered() {
    let models = vec![model("a"), model("b")];
    assert_eq!(merge_models(&models, &Config::new(Some(true))), models);
}

#[test]
fn last_of_several_rules_counts() {
    let config = with(Config::new(Some(true)), "A", Some("first"), None);
    let config = with(config, "a", Some("second"), None);
    assert_eq!(ids(&merge_models(&vec![model("a")], &config)), ["second"]);
}

#[test]
fn order_of_distinct_rules_does_not_matter() {
    let a = with(with(Config::new(None), "x", Some("1"), None), "y", None, Some(false));
    let b = with(with(Config::new(None), "y", None, Some(false)), "x", Some("1"), None);
    let models = vec![model("X"), model("Y"), model("Z")];
    assert_eq!(merge_models(&models, &a), merge_models(&models, &b));
}

#[test]
fn lowered_names_are_compared_as_they_are() {
    let config = with(Config::new(None), "a", Some("B"), None);
    let merged = merge_lowered(&vec![model("a"), model("A")], config.models());
    assert_eq!(ids(&merged), ["B", "A"]);
}

#[test]
fn path_and_rules_decide_the_plan() {
    assert!(bypasses_config("/api/models"));
    assert!(!bypasses_config("/api/models/"));
    for apply in [false, true] {
        for stored in [false, true] {
            assert_eq!(
                get_models("/api/models", apply, stored),
                ModelsPlan::Fetch(FetchPurpose::Unfiltered)
            );
        }
    }
    for path in ["/models", "/v1/models"] {
        assert_eq!(get_models(path, false, true), ModelsPlan::Fetch(FetchPurpose::Direct));
        assert_eq!(get_models(path, true, false), ModelsPlan::Fetch(FetchPurpose::Merge));
        assert_eq!(get_models(path, true, true), ModelsPlan::MergeStored);
    }
}

#[test]
fn unfiltered_list_is_sent_and_stored() {
    let reply = fetched_reply(FetchPurpose::Unfiltered, &rules(), Ok(vec![model("Hidden")]));
    assert_eq!(ids(&reply.store.unwrap()), ["hidden"]);
    assert_eq!(ids(&reply.body.unwrap()), ["hidden"]);
}

#[test]
fn direct_list_is_sent_only() {
    let reply = fetched_reply(FetchPurpose::Direct, &rules(), Ok(vec![model("Hidden")]));
    assert!(reply.store.is_none());
    assert_eq!(ids(&reply.body.unwrap()), ["hidden"]);
}

#[test]
fn merged_list_is_stored_before_the_rules() {
    let list = vec![model("Hidden"), model("GPT-4o")];
    let reply = fetched_reply(FetchPurpose::Merge, &rules(), Ok(list));
    let stored = reply.store.unwrap();
    assert_eq!(ids(&stored), ["hidden", "gpt-4o"]);
    let sent = reply.body.unwrap();
    assert_eq!(ids(&sent), ["my-gpt"]);
    assert_eq!(merge_models(&stored, &rules()), sent);
}

#[test]
fn failed_fetch_is_reported() {
    let cases = [
        (FetchPurpose::Unfiltered, "down"),
        (FetchPurpose::Merge, "未能檢索模型列表以填充快取：down"),
        (FetchPurpose::Direct, "無法直接從API獲取模型：down"),
    ];
    for (purpose, message) in cases {
        let reply = fetched_reply(purpose, &rules(), Err("down".to_string()));
        assert!(reply.store.is_none());
        assert_eq!(reply.body.unwrap_err(), error(500, message));
    }
}
