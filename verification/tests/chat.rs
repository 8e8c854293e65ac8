use poe_bridge::chat::{
    authorize, chat_completions, find_mapping, refused_reply, resolve_model, ChatAction, ChatEvent, ChatExchange,
    PayloadRead,
};
use poe_bridge::config::{Config, ModelConfig};
use poe_bridge::errors::{ErrorBody, ErrorReply, OpenAIError, OpenAIErrorResponse};
use poe_bridge::models::{merge_models, ModelInfo};

fn with(config: Config, name: &str, mapping: Option<&str>) -> Config {
    config.insert(
        name.to_string(),
        ModelConfig {
            mapping: mapping.map(|m| m.to_string()),
            enable: None,
        },
    )
}

fn plain(status: u16, message: &str) -> ErrorReply {
    ErrorReply {
        status,
        body: ErrorBody::Message(message.to_string()),
    }
}

fn openai(status: u16, message: &str, kind: &str, code: &str) -> ErrorReply {
    ErrorReply {
        status,
        body: ErrorBody::OpenAI(OpenAIErrorResponse {
            error: OpenAIError {
                message: message.to_string(),
                kind: kind.to_string(),
                code: code.to_string(),
                param: None,
            },
        }),
    }
}

#[test]
fn bearer_token_is_the_access_key() {
    assert_eq!(authorize(Some(b"Bearer abc")), Ok("abc".to_string()));
    assert_eq!(authorize(Some(b"Bearer ")), Ok(String::new()));
    assert_eq!(authorize(Some(b"Bearer  a\tb")), Ok(" a\tb".to_string()));
}

#[test]
fn other_authorization_is_refused() {
    let invalid = Err(plain(401, "無效的 Authorization"));
    assert_eq!(authorize(Some(b"bearer abc")), invalid);
    assert_eq!(authorize(Some(b"Basic abc")), invalid);
    assert_eq!(authorize(Some(b"")), invalid);
    assert_eq!(authorize(Some(b"Bearer \xe6\x98\xaf")), invalid);
    assert_eq!(authorize(Some(b"Bearer a\nb")), invalid);
    assert_eq!(authorize(None), Err(plain(401, "缺少 Authorization")));
}

#[test]
fn mapped_name_is_resolved_without_regard_to_case() {
    let config = with(with(Config::new(Some(true)), "GPT-4o", Some("My-GPT")), "Other", None);
    assert_eq!(resolve_model(&config, "my-gpt"), "GPT-4o");
    assert_eq!(resolve_model(&config, "MY-GPT"), "GPT-4o");
    assert_eq!(resolve_model(&config, "Other"), "Other");
    assert_eq!(resolve_model(&config, "GPT-4o"), "GPT-4o");
    assert_eq!(resolve_model(&config, "unknown"), "unknown");
}

#[test]
fn rules_that_do_not_apply_are_ignored() {
    for enable in [None, Some(false)] {
        let config = with(Config::new(enable), "GPT-4o", Some("My-GPT"));
        assert_eq!(resolve_model(&config, "my-gpt"), "my-gpt");
    }
}

#[test]
fn first_of_several_mappings_counts() {
    let config = with(with(Config::new(Some(true)), "a", Some("X")), "b", Some("x"));
    assert_eq!(resolve_model(&config, "x"), "a");
    assert_eq!(find_mapping(config.models(), "x"), Some(1));
    assert_eq!(find_mapping(config.models(), "X"), Some(0));
    assert_eq!(find_mapping(config.models(), "y"), None);
}

#[test]
fn order_of_mappings_to_different_names_does_not_matter() {
    let a = with(with(Config::new(Some(true)), "a", Some("x")), "b", Some("y"));
    let b = with(with(Config::new(Some(true)), "b", Some("y")), "a", Some("x"));
    for name in ["x", "Y", "z"] {
        assert_eq!(resolve_model(&a, name), resolve_model(&b, name));
    }
}

#[test]
fn offered_name_reaches_its_model() {
    let config = with(Config::new(Some(true)), "GPT-4o", Some("My-GPT"));
    let offered = merge_models(
        &vec![ModelInfo {
            id: "gpt-4O".to_string(),
            object: "model".to_string(),
            created: 0,
            owned_by: "poe".to_string(),
        }],
        &config,
    );
    assert_eq!(offered[0].id, "my-gpt");
    assert_eq!(resolve_model(&config, &offered[0].id), "GPT-4o");
}

#[test]
fn request_is_forwarded() {
    let config = with(Config::new(Some(true)), "GPT-4o", Some("My-GPT"));
    for (stream, expected) in [(None, false), (Some(false), false), (Some(true), true)] {
        let payload = PayloadRead::Request {
            model: "my-GPT".to_string(),
            stream,
        };
        let forward = chat_completions(&config, payload, 10).unwrap();
        assert_eq!(forward.display_model, "my-GPT");
        assert_eq!(forward.original_model, "GPT-4o");
        assert_eq!(forward.stream, expected);
    }
}

#[test]
fn bad_payload_is_reported() {
    let config = Config::new(None);
    assert_eq!(
        chat_completions(&config, PayloadRead::Unreadable("eof".to_string()), 1024),
        Err(openai(
            413,
            "請求大小超過限制 (1024 bytes) 或讀取失敗: eof",
            "invalid_request_error",
            "payload_too_large"
        ))
    );
    assert_eq!(
        chat_completions(&config, PayloadRead::Malformed("bad".to_string()), 1024),
        Err(openai(400, "JSON 解析失敗: bad", "invalid_request_error", "parse_error"))
    );
}

#[test]
fn refusal_of_the_service_is_reported() {
    assert_eq!(refused_reply("down"), plain(500, "down"));
}

fn header(value: &str) -> ChatEvent {
    ChatEvent::HeaderRead(Some(value.as_bytes().to_vec()))
}

fn body(stream: Option<bool>) -> ChatEvent {
    ChatEvent::BodyRead(PayloadRead::Request {
        model: "my-GPT".to_string(),
        stream,
    })
}

#[test]
fn request_goes_its_way() {
    let config = with(Config::new(Some(true)), "GPT-4o", Some("My-GPT"));
    for (stream, answer) in [
        (Some(true), ChatAction::StreamAnswer("my-GPT".to_string())),
        (None, ChatAction::CompleteAnswer("my-GPT".to_string())),
    ] {
        let mut exchange = ChatExchange::new();
        assert_eq!(exchange.advance(&config, 10, header("Bearer abc")), ChatAction::ReadBody);
        assert_eq!(
            exchange.advance(&config, 10, body(stream)),
            ChatAction::Send {
                access_key: "abc".to_string(),
                model: "GPT-4o".to_string(),
            }
        );
        assert_eq!(exchange.advance(&config, 10, ChatEvent::Taken), answer);
        assert_eq!(exchange.advance(&config, 10, ChatEvent::Taken), ChatAction::Nothing);
    }
}

#[test]
fn request_without_a_key_is_not_read() {
    let config = Config::new(None);
    for (event, reply) in [
        (ChatEvent::HeaderRead(None), plain(401, "缺少 Authorization")),
        (header("Basic abc"), plain(401, "無效的 Authorization")),
    ] {
        let mut exchange = ChatExchange::new();
        assert_eq!(exchange.advance(&config, 10, event), ChatAction::Reply(reply));
        assert_eq!(exchange.advance(&config, 10, header("Bearer abc")), ChatAction::Nothing);
        assert_eq!(exchange.advance(&config, 10, body(None)), ChatAction::Nothing);
    }
}

#[test]
fn bad_body_is_not_sent() {
    let config = Config::new(None);
    for payload in [
        PayloadRead::Unreadable("eof".to_string()),
        PayloadRead::Malformed("bad".to_string()),
    ] {
        let mut exchange = ChatExchange::new();
        exchange.advance(&config, 10, header("Bearer abc"));
        let action = exchange.advance(&config, 10, ChatEvent::BodyRead(payload));
        assert!(matches!(action, ChatAction::Reply(_)));
        assert_eq!(exchange.advance(&config, 10, body(None)), ChatAction::Nothing);
        assert_eq!(exchange.advance(&config, 10, ChatEvent::Taken), ChatAction::Nothing);
    }
}

#[test]
fn refused_request_is_answered() {
    let config = Config::new(None);
    let mut exchange = ChatExchange::new();
    exchange.advance(&config, 10, header("Bearer abc"));
    exchange.advance(&config, 10, body(None));
    assert_eq!(
        exchange.advance(&config, 10, ChatEvent::Refused("down".to_string())),
        ChatAction::Reply(plain(500, "down"))
    );
    assert_eq!(exchange.advance(&config, 10, ChatEvent::Taken), ChatAction::Nothing);
}

#[test]
fn event_out_of_turn_changes_nothing() {
    let config = Config::new(None);
    let mut exchange = ChatExchange::new();
    for event in [body(None), ChatEvent::Taken, ChatEvent::Refused("down".to_string())] {
        assert_eq!(exchange.advance(&config, 10, event), ChatAction::Nothing);
    }
    assert_eq!(exchange.advance(&config, 10, header("Bearer abc")), ChatAction::ReadBody);
}
