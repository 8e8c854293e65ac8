use std::sync::Arc;

use poe_bridge::config::{default_config, load_config_from_yaml, Config, ConfigRead, ModelConfig};
use poe_bridge::config_cache::{found_or_default, get_cached_config, new_config_cache};

fn rule(mapping: Option<&str>, enable: Option<bool>) -> ModelConfig {
    ModelConfig {
        mapping: mapping.map(|name| name.to_string()),
        enable,
    }
}

#[test]
fn rules_apply_only_where_set() {
    assert!(Config::new(Some(true)).is_enabled());
    assert!(!Config::new(Some(false)).is_enabled());
    assert!(!Config::new(None).is_enabled());
}

#[test]
fn later_rule_for_a_model_takes_the_place_of_an_earlier_one() {
    let config = Config::new(None)
        .insert("a".to_string(), rule(Some("x"), None))
        .insert("b".to_string(), rule(None, Some(false)))
        .insert("a".to_string(), rule(Some("y"), Some(true)));
    let models = config.models();
    assert_eq!(models.len(), 2);
    assert_eq!(models[0].name, "a");
    assert_eq!(models[0].rule.mapping.as_deref(), Some("y"));
    assert_eq!(models[0].rule.enable, Some(true));
    assert_eq!(models[1].name, "b");
    assert_eq!(models[1].rule.enable, Some(false));
}

#[test]
fn missing_file_gives_no_rules() {
    let config = load_config_from_yaml(ConfigRead::Missing).unwrap();
    assert!(!config.is_enabled());
    assert!(config.models().is_empty());
}

#[test]
fn parsed_file_is_taken() {
    let parsed = Config::new(Some(true)).insert("a".to_string(), rule(None, None));
    let config = load_config_from_yaml(ConfigRead::Parsed(parsed)).unwrap();
    assert!(config.is_enabled());
    assert_eq!(config.models().len(), 1);
}

#[test]
fn bad_file_is_reported() {
    assert_eq!(
        load_config_from_yaml(ConfigRead::Malformed("line 1".to_string())).unwrap_err(),
        "解析 models.yaml 失敗: line 1"
    );
    assert_eq!(
        load_config_from_yaml(ConfigRead::Unreadable("denied".to_string())).unwrap_err(),
        "讀取 models.yaml 失敗: denied"
    );
}

#[test]
fn failed_lookup_gives_the_default() {
    let config = found_or_default(Err("denied".to_string()));
    assert!(!config.is_enabled());
    assert!(config.models().is_empty());
    let found = Arc::new(Config::new(Some(true)));
    assert!(found_or_default(Ok(found)).is_enabled());
    assert!(!default_config().is_enabled());
}

fn parsed(name: &str) -> ConfigRead {
    ConfigRead::Parsed(Config::new(Some(true)).insert(name.to_string(), rule(None, None)))
}

#[test]
fn file_is_read_once() {
    let mut cache = new_config_cache();
    let first = get_cached_config(&mut cache, || parsed("a"));
    assert_eq!(first.models()[0].name, "a");
    let second = get_cached_config(&mut cache, || panic!("the file is read again"));
    assert!(Arc::ptr_eq(&first, &second));
    assert_eq!(cache.len(), 1);
    assert!(cache.contains_key("models.yaml"));
    assert_eq!(cache.capacity(), 2);
}

#[test]
fn missing_file_is_remembered() {
    let mut cache = new_config_cache();
    assert!(!get_cached_config(&mut cache, || ConfigRead::Missing).is_enabled());
    assert!(!get_cached_config(&mut cache, || parsed("a")).is_enabled());
}

#[test]
fn failed_read_is_forgotten() {
    let mut cache = new_config_cache();
    for read in [
        ConfigRead::Unreadable("denied".to_string()),
        ConfigRead::Malformed("line 1".to_string()),
    ] {
        let config = get_cached_config(&mut cache, || read);
        assert!(!config.is_enabled());
        assert!(config.models().is_empty());
        assert!(cache.is_empty());
    }
    assert!(get_cached_config(&mut cache, || parsed("a")).is_enabled());
}
