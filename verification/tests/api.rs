use onejudge::api::error_message;
use onejudge::{
    ApiJudgeProvider, ApiVendor, HttpError, HttpResponse, HttpTransport, JudgeKind, JudgeQuery,
    JudgeValue, Message, Number, PlatformProvider, ProviderErrorKind, SkillRef,
};
use std::cell::RefCell;

/// The id of the first registered harness.
fn harness_id() -> &'static str {
    oneharness_core::domain::harness::all()[0].id
}

fn model_id() -> String {
    harness_id().replace("code", "x")
}

fn number(x: f64) -> Number {
    Number::new(x.to_bits(), &x.to_string(), &format!("{x:?}"))
}

/// A deterministic transport: returns a preset status/body (or a transport
/// failure) and records the request it was handed, so tests can assert both
/// the request shape and the response handling — offline, no HTTP.
struct FakeTransport {
    status: u16,
    body: String,
    fail: Option<HttpError>,
    seen: RefCell<Option<Seen>>,
}

struct Seen {
    url: String,
    headers: Vec<(String, String)>,
    body: String,
}

impl FakeTransport {
    fn ok(body: &str) -> Self {
        Self::with_status(200, body)
    }

    fn with_status(status: u16, body: &str) -> Self {
        Self {
            status,
            body: body.to_string(),
            fail: None,
            seen: RefCell::new(None),
        }
    }

    fn failing(error: HttpError) -> Self {
        Self {
            status: 0,
            body: String::new(),
            fail: Some(error),
            seen: RefCell::new(None),
        }
    }

    fn seen(&self) -> std::cell::Ref<'_, Option<Seen>> {
        self.seen.borrow()
    }
}

impl HttpTransport for FakeTransport {
    fn post_json(
        &self,
        url: &str,
        headers: &[(&str, &str)],
        body: &str,
    ) -> Result<HttpResponse, HttpError> {
        *self.seen.borrow_mut() = Some(Seen {
            url: url.to_string(),
            headers: headers
                .iter()
                .map(|(k, v)| ((*k).to_string(), (*v).to_string()))
                .collect(),
            body: body.to_string(),
        });
        if let Some(err) = &self.fail {
            return Err(HttpError {
                message: err.message.clone(),
                timeout: err.timeout,
            });
        }
        Ok(HttpResponse {
            status: self.status,
            body: self.body.clone(),
        })
    }
}

fn anthropic(transport: FakeTransport) -> ApiJudgeProvider<FakeTransport> {
    ApiJudgeProvider::new(ApiVendor::Anthropic, "sk-ant", transport)
}

fn openai(transport: FakeTransport) -> ApiJudgeProvider<FakeTransport> {
    ApiJudgeProvider::new(ApiVendor::OpenAI, "sk-oai", transport)
}

fn skill_ref() -> SkillRef<'static> {
    SkillRef {
        name: "s",
        dir: "/s",
        instructions: "Be a terse assistant.",
    }
}

fn boolean_query() -> JudgeQuery<'static> {
    JudgeQuery {
        kind: JudgeKind::Boolean,
        criterion: "the reply was polite",
        scale: None,
    }
}

fn numeric_query() -> JudgeQuery<'static> {
    JudgeQuery {
        kind: JudgeKind::Numeric,
        criterion: "warmth",
        scale: Some((number(1.0), number(5.0))),
    }
}

fn has_header(seen: &Seen, key: &str, value: &str) -> bool {
    seen.headers.iter().any(|(k, v)| k == key && v == value)
}

#[test]
fn defaults_and_builders_configure_vendor_and_base_url() {
    let a = anthropic(FakeTransport::ok("{}"));
    assert_eq!(a.vendor(), ApiVendor::Anthropic);
    assert_eq!(a.base_url(), "https://api.anthropic.com");
    assert_eq!(
        openai(FakeTransport::ok("{}")).base_url(),
        "https://api.openai.com"
    );
    let rebased = openai(FakeTransport::ok("{}"))
        .with_max_tokens(64)
        .with_base_url("http://proxy.local/");
    assert_eq!(rebased.base_url(), "http://proxy.local/");
    // The trailing slash is trimmed when the endpoint is built.
    assert!(rebased.endpoint().ends_with("/v1/chat/completions"));
    assert!(!rebased.endpoint().contains("//v1"));
}

#[test]
fn anthropic_respond_builds_request_and_parses_reply() {
    let provider = anthropic(FakeTransport::ok(
        r#"{"content":[{"type":"text","text":"pong"}],"usage":{"input_tokens":7,"output_tokens":1}}"#,
    ));
    let turn = provider
        .respond(
            harness_id(),
            &model_id(),
            &skill_ref(),
            &[Message::user("ping")],
            None,
        )
        .unwrap();
    assert_eq!(turn.message, "pong");
    assert_eq!(turn.usage.unwrap().input_tokens, Some(7));
    assert!(turn.events.is_empty());

    let seen = provider.transport().seen();
    let seen = seen.as_ref().unwrap();
    assert!(seen.url.ends_with("/v1/messages"));
    assert!(has_header(seen, "x-api-key", "sk-ant"));
    assert!(has_header(seen, "anthropic-version", "2023-06-01"));
    assert!(seen.body.contains("\"system\":\"Be a terse assistant.\""));
    assert!(seen.body.contains("\"content\":\"ping\""));
}

#[test]
fn openai_respond_builds_request_and_parses_reply() {
    let provider = openai(FakeTransport::ok(
        r#"{"choices":[{"message":{"content":"hi there"}}],"usage":{"prompt_tokens":4,"completion_tokens":2}}"#,
    ));
    // A prior assistant turn exercises the assistant-role mapping too.
    let turn = provider
        .respond(
            "x",
            "gpt-x",
            &skill_ref(),
            &[
                Message::user("hi"),
                Message::assistant("earlier reply"),
                Message::user("again"),
            ],
            None,
        )
        .unwrap();
    assert_eq!(turn.message, "hi there");
    let usage = turn.usage.unwrap();
    assert_eq!(usage.input_tokens, Some(4));
    assert_eq!(usage.output_tokens, Some(2));

    let seen = provider.transport().seen();
    let seen = seen.as_ref().unwrap();
    assert!(seen.url.ends_with("/v1/chat/completions"));
    assert!(has_header(seen, "authorization", "Bearer sk-oai"));
    assert!(seen.body.contains("\"role\":\"system\""));
    assert!(seen.body.contains("\"role\":\"assistant\""));
}

#[test]
fn openai_error_status_is_classified_with_its_label() {
    let provider = openai(FakeTransport::with_status(
        500,
        r#"{"error":{"message":"boom"}}"#,
    ));
    let err = provider.judge("m", &boolean_query(), &[]).unwrap_err();
    assert_eq!(err.kind(), Some(ProviderErrorKind::Overloaded));
    assert!(err.render().contains("openai API returned 500"));
}

#[test]
fn anthropic_judge_parses_boolean_verdict() {
    let provider = anthropic(FakeTransport::ok(
        r#"{"content":[{"type":"text","text":"{\"value\": true, \"reason\": \"courteous\"}"}]}"#,
    ));
    let verdict = provider.judge("m", &boolean_query(), &[]).unwrap();
    assert_eq!(verdict.value, JudgeValue::Bool(true));
    assert_eq!(verdict.reason, "courteous");
}

#[test]
fn openai_judge_requests_json_object_and_parses_numeric() {
    let provider = openai(FakeTransport::ok(
        r#"{"choices":[{"message":{"content":"{\"value\": 4, \"reason\": \"warm\"}"}}]}"#,
    ));
    let verdict = provider.judge("m", &numeric_query(), &[]).unwrap();
    assert!(matches!(&verdict.value, JudgeValue::Number(n) if n.bits == 4.0f64.to_bits()));
    let seen = provider.transport().seen();
    assert!(seen
        .as_ref()
        .unwrap()
        .body
        .contains("\"response_format\":{\"type\":\"json_object\"}"));
}

#[test]
fn simulate_user_sends_the_persona_and_reads_the_reply() {
    let provider = anthropic(FakeTransport::ok(
        r#"{"content":[{"type":"text","text":"And by Friday?"}]}"#,
    ));
    let turn = provider
        .simulate_user(
            "m",
            "A hurried shopper.",
            &[Message::assistant("Sure.")],
            None,
        )
        .unwrap();
    assert_eq!(turn.message, "And by Friday?");
    assert!(!turn.stop);
    let seen = provider.transport().seen();
    assert!(seen.as_ref().unwrap().body.contains("A hurried shopper."));
}

#[test]
fn http_error_statuses_classify() {
    let cases = [
        (401, ProviderErrorKind::Auth),
        (403, ProviderErrorKind::Auth),
        (402, ProviderErrorKind::Quota),
        (404, ProviderErrorKind::ModelNotFound),
        (429, ProviderErrorKind::RateLimit),
        (400, ProviderErrorKind::Protocol),
        (503, ProviderErrorKind::Overloaded),
        (418, ProviderErrorKind::Other),
    ];
    for (status, expected) in cases {
        let provider = anthropic(FakeTransport::with_status(
            status,
            r#"{"error":{"message":"nope"}}"#,
        ));
        let err = provider.judge("m", &boolean_query(), &[]).unwrap_err();
        assert_eq!(err.kind(), Some(expected), "status {status}");
        assert!(err.render().contains("nope"));
    }
}

#[test]
fn transport_failures_classify_timeout_vs_other() {
    let timed_out = anthropic(FakeTransport::failing(HttpError::timed_out("slow")));
    assert_eq!(
        timed_out
            .judge("m", &boolean_query(), &[])
            .unwrap_err()
            .kind(),
        Some(ProviderErrorKind::Timeout)
    );
    let refused = anthropic(FakeTransport::failing(HttpError::new("connection refused")));
    assert_eq!(
        refused
            .judge("m", &boolean_query(), &[])
            .unwrap_err()
            .kind(),
        Some(ProviderErrorKind::Other)
    );
}

#[test]
fn malformed_and_empty_responses_are_protocol_errors() {
    let not_json = anthropic(FakeTransport::ok("not json"));
    assert_eq!(
        not_json
            .respond("x", "m", &skill_ref(), &[Message::user("hi")], None)
            .unwrap_err()
            .kind(),
        Some(ProviderErrorKind::Protocol)
    );
    let no_text = anthropic(FakeTransport::ok(r#"{"content":[]}"#));
    assert_eq!(
        no_text
            .respond("x", "m", &skill_ref(), &[Message::user("hi")], None)
            .unwrap_err()
            .kind(),
        Some(ProviderErrorKind::Protocol)
    );
    let no_choices = openai(FakeTransport::ok(r#"{"choices":[]}"#));
    assert_eq!(
        no_choices
            .respond("x", "m", &skill_ref(), &[Message::user("hi")], None)
            .unwrap_err()
            .kind(),
        Some(ProviderErrorKind::Protocol)
    );
}

#[test]
fn error_message_falls_back_to_raw_body() {
    // No `error.message` field: the raw (truncated) body is surfaced.
    assert_eq!(error_message("plain text failure"), "plain text failure");
    assert_eq!(error_message(r#"{"error":{"message":"bad"}}"#), "bad");
}

#[test]
fn api_provider_is_not_session_capable() {
    let provider = anthropic(FakeTransport::ok("{}"));
    assert!(!provider.session_capable(harness_id()));
}

#[test]
fn the_vendor_constructors_set_the_vendor_and_its_endpoint() {
    let a = ApiJudgeProvider::anthropic("k", FakeTransport::ok("{}"));
    assert_eq!(a.vendor(), ApiVendor::Anthropic);
    assert_eq!(a.endpoint(), "https://api.anthropic.com/v1/messages");
    let o = ApiJudgeProvider::openai("k", FakeTransport::ok("{}"));
    assert_eq!(o.vendor(), ApiVendor::OpenAI);
    assert_eq!(o.endpoint(), "https://api.openai.com/v1/chat/completions");
    assert!(o
        .headers()
        .iter()
        .any(|(k, v)| k == "authorization" && v == "Bearer k"));
}

#[test]
fn a_request_body_is_one_json_document() {
    let provider = anthropic(FakeTransport::ok(
        r#"{"content":[{"type":"text","text":"pong"}]}"#,
    ))
    .with_max_tokens(64);
    provider
        .respond("x", "m", &skill_ref(), &[Message::user("say \"hi\"\n")], None)
        .unwrap();
    let seen = provider.transport().seen();
    let body: serde_json::Value = serde_json::from_str(&seen.as_ref().unwrap().body).unwrap();
    assert_eq!(body["max_tokens"].as_u64(), Some(64));
    assert_eq!(body["model"].as_str(), Some("m"));
    assert_eq!(body["messages"][0]["content"].as_str(), Some("say \"hi\"\n"));
    assert_eq!(body["messages"][0]["role"].as_str(), Some("user"));
}

#[test]
fn a_verdict_of_the_wrong_type_is_a_protocol_error() {
    let provider = openai(FakeTransport::ok(
        r#"{"choices":[{"message":{"content":"{\"value\": true, \"reason\": \"warm\"}"}}]}"#,
    ));
    let err = provider.judge("m", &numeric_query(), &[]).unwrap_err();
    assert_eq!(err.kind(), Some(ProviderErrorKind::Protocol));
}

#[test]
fn the_token_cap_is_sent_on_each_completion() {
    let provider = openai(FakeTransport::ok(
        r#"{"choices":[{"message":{"content":"pong"}}]}"#,
    ))
    .with_max_tokens(64);
    provider
        .respond("x", "m", &skill_ref(), &[Message::user("ping")], None)
        .unwrap();
    let seen = provider.transport().seen();
    let body: serde_json::Value = serde_json::from_str(&seen.as_ref().unwrap().body).unwrap();
    assert_eq!(body["max_tokens"].as_u64(), Some(64));
    assert_eq!(body["model"].as_str(), Some("m"));
    assert_eq!(body["messages"][0]["role"].as_str(), Some("system"));
}

#[test]
fn a_body_is_written_member_by_member_in_order() {
    let provider = openai(FakeTransport::ok(
        r#"{"choices":[{"message":{"content":"pong"}}]}"#,
    ))
    .with_max_tokens(64);
    provider
        .respond("x", "m", &skill_ref(), &[Message::user("ping")], None)
        .unwrap();
    let seen = provider.transport().seen();
    assert_eq!(
        seen.as_ref().unwrap().body,
        r#"{"model":"m","max_tokens":64,"messages":[{"role":"system","content":"Be a terse assistant."},{"role":"user","content":"ping"}]}"#
    );
}
