use poe_bridge::errors::{convert_poe_error_to_openai, service_error_reply, ErrorBody};

#[test]
fn errors_of_the_service_are_classified() {
    let cases = [
        ("x Internal server error y", 500, "internal_error", "internal_error"),
        ("hit the rate limit", 429, "rate_limit_exceeded", "rate_limit_exceeded"),
        ("Invalid token", 401, "invalid_auth", "invalid_api_key"),
        ("Unauthorized!", 401, "invalid_auth", "invalid_api_key"),
        ("Bot does not exist", 404, "model_not_found", "model_not_found"),
        ("something else", 400, "invalid_request", "bad_request"),
        ("", 400, "invalid_request", "bad_request"),
        ("internal server error", 400, "invalid_request", "bad_request"),
        ("Bot does not exist: rate limit", 429, "rate_limit_exceeded", "rate_limit_exceeded"),
        ("Unauthorized, Internal server error", 500, "internal_error", "internal_error"),
    ];
    for (text, status, kind, code) in cases {
        let (got, response) = convert_poe_error_to_openai(text);
        assert_eq!(got, status, "{}", text);
        assert_eq!(response.error.message, text);
        assert_eq!(response.error.kind, kind);
        assert_eq!(response.error.code, code);
        assert_eq!(response.error.param, None);
        let reply = service_error_reply(text);
        assert_eq!(reply.status, status);
        assert_eq!(reply.body, ErrorBody::OpenAI(response));
    }
}
