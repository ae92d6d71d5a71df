use hs_loop::realmodel::status_error;
use hs_loop::realmodel::{extract_json_object, AttemptError, RetryDecision, RetryState, WATCHDOG_SENTINEL};

#[test]
fn first_balanced_object_is_extracted() {
    assert_eq!(
        extract_json_object("```json\n{\"a\": {\"b\": \"}\"}} trailing {\"c\":1}\n```"),
        Some("{\"a\": {\"b\": \"}\"}}".to_string())
    );
    assert_eq!(extract_json_object("x {\"q\": \"\\\"}\"} y"), Some("{\"q\": \"\\\"}\"}".to_string()));
    assert_eq!(extract_json_object("no braces"), None);
    assert_eq!(extract_json_object("{ never closed"), None);
}

#[test]
fn status_classes_and_waits() {
    let rate = AttemptError::Status { code: 429, retry_after_secs: Some(500), msg: "glm: HTTP 429".to_string() };
    assert!(rate.retryable());
    assert_eq!(rate.sleep_for(1, 5), 300);
    assert_eq!(rate.msg(), "glm: HTTP 429");
    let bad = AttemptError::Status { code: 400, retry_after_secs: None, msg: "bad".to_string() };
    assert!(!bad.retryable());
    let down = AttemptError::Status { code: 503, retry_after_secs: None, msg: "down".to_string() };
    assert!(down.retryable());
    let other = AttemptError::Other("reset".to_string());
    assert!(other.retryable());
    assert_eq!(other.sleep_for(1, 5), 5);
    assert_eq!(other.sleep_for(2, 5), 10);
    assert_eq!(other.sleep_for(3, 5), 20);
    assert_eq!(other.sleep_for(6, 5), 120);
    assert_eq!(other.sleep_for(20, 1), 32);
    assert_eq!(other.sleep_for(0, 7), 7);
}

#[test]
fn retry_loop_decisions() {
    let mut st = RetryState::new();
    assert_eq!(st.begin_attempt(2), Some(0));
    assert_eq!(st.attempt_no, 1);
    let e = AttemptError::Status { code: 429, retry_after_secs: Some(7), msg: "rate".to_string() };
    assert!(matches!(st.on_error(&e, 5), RetryDecision::Retry));
    assert_eq!(st.pending_sleep_secs, 7);
    assert_eq!(st.last_err, "rate");
    assert_eq!(st.begin_attempt(2), Some(7));
    assert_eq!(st.begin_attempt(2), None);
    let fatal = AttemptError::Status { code: 401, retry_after_secs: None, msg: "auth".to_string() };
    match st.on_error(&fatal, 5) {
        RetryDecision::Fail(m) => assert_eq!(m, "auth"),
        RetryDecision::Retry => panic!("401 must not retry"),
    }
    st.on_worker_lost("glm", 5);
    assert_eq!(st.last_err, "glm: worker thread died");
    assert_eq!(st.pending_sleep_secs, 5);
    assert_eq!(WATCHDOG_SENTINEL, "__provider_watchdog_timeout__");
}

fn jobj(members: Vec<(&str, hs_loop::json::Json)>) -> hs_loop::json::Json {
    hs_loop::json::Json::Object(members.into_iter().map(|(k, v)| (k.to_string(), v)).collect())
}

fn jnum(n: u64) -> hs_loop::json::Json {
    hs_loop::json::Json::Number(hs_loop::json::JsonNumber::PosInt(n))
}

fn jstr(s: &str) -> hs_loop::json::Json {
    hs_loop::json::Json::Str(s.to_string())
}

#[test]
fn usage_counts_with_cache_cap() {
    let u = jobj(vec![
        ("completion_tokens", jnum(20)),
        ("completion_tokens_details", jobj(vec![("reasoning_tokens", jnum(7))])),
        ("prompt_cache_hit_tokens", jnum(500)),
        ("prompt_tokens", jnum(100)),
    ]);
    let t = hs_loop::realmodel::usage_tokens(&u);
    assert_eq!((t.input, t.output, t.cached, t.reasoning), (100, 20, 100, 7));
    let u = jobj(vec![
        ("prompt_tokens", jnum(100)),
        ("prompt_tokens_details", jobj(vec![("cached_tokens", jnum(40))])),
    ]);
    let t = hs_loop::realmodel::usage_tokens(&u);
    assert_eq!((t.input, t.output, t.cached, t.reasoning), (100, 0, 40, 0));
    let t = hs_loop::realmodel::usage_tokens(&hs_loop::json::Json::Null);
    assert_eq!((t.input, t.output, t.cached, t.reasoning), (0, 0, 0, 0));
}

fn reply(content: Option<&str>, finish: Option<&str>) -> hs_loop::json::Json {
    let mut msg = vec![("reasoning_content", jstr("think"))];
    if let Some(c) = content {
        msg.insert(0, ("content", jstr(c)));
    }
    let mut choice = vec![("message", jobj(msg))];
    if let Some(f) = finish {
        choice.insert(0, ("finish_reason", jstr(f)));
    }
    jobj(vec![
        ("choices", hs_loop::json::Json::Array(vec![jobj(choice)])),
        ("usage", jobj(vec![("completion_tokens", jnum(3)), ("prompt_tokens", jnum(9))])),
    ])
}

#[test]
fn legacy_reply_extracts_the_object_or_keeps_prose() {
    let r = hs_loop::realmodel::parse_legacy_reply("glm", &reply(Some("Sure: {\"a\": {\"b\": \"}\"}} done"), None)).ok().unwrap();
    assert_eq!(r.completion, "{\"a\": {\"b\": \"}\"}}");
    assert_eq!(r.reasoning_content, "think");
    assert_eq!((r.tokens.input, r.tokens.output), (9, 3));
    let r = hs_loop::realmodel::parse_legacy_reply("glm", &reply(Some("just prose"), Some("stop"))).ok().unwrap();
    assert_eq!(r.completion, "just prose");
}

#[test]
fn legacy_reply_without_content_names_the_finish_reason() {
    let e = hs_loop::realmodel::parse_legacy_reply("deepseek", &reply(None, Some("length"))).err();
    assert_eq!(e, Some("deepseek: no choices[0].message.content (finish_reason=length)".to_string()));
    let e = hs_loop::realmodel::parse_legacy_reply("deepseek", &hs_loop::json::Json::Null).err();
    assert_eq!(e, Some("deepseek: no choices[0].message.content (finish_reason=<none>)".to_string()));
}

#[test]
fn status_errors_carry_retry_after_seconds() {
    match status_error("glm", 429, Some(" 12 ")) {
        AttemptError::Status { code, retry_after_secs, msg } => {
            assert_eq!(code, 429);
            assert_eq!(retry_after_secs, Some(12));
            assert_eq!(msg, "glm: HTTP 429 from provider");
        }
        _ => panic!("expected a status error"),
    }
    match status_error("ds", 503, Some("Wed, 21 Oct 2015 07:28:00 GMT")) {
        AttemptError::Status { retry_after_secs, .. } => assert_eq!(retry_after_secs, None),
        _ => panic!("expected a status error"),
    }
    match status_error("ds", 500, None) {
        AttemptError::Status { retry_after_secs, msg, .. } => {
            assert_eq!(retry_after_secs, None);
            assert_eq!(msg, "ds: HTTP 500 from provider");
        }
        _ => panic!("expected a status error"),
    }
}
