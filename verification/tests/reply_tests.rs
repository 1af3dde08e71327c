use xcode_ai_proxy::errors::{decimal_string, error_body, error_body_from_literals, AppError};
use xcode_ai_proxy::retry::{after_failure, first_attempt, RetryAction, RetryPolicy};

fn body_json(reply_message: &str, reply_type: &str) -> serde_json::Value {
    let body = error_body(reply_message, reply_type);
    serde_json::from_str(&body).expect("body should be valid json")
}

#[test]
fn error_response_has_expected_shape() {
    let reply = AppError::InvalidRequest("bad request".to_string()).reply();
    assert_eq!(reply.status, 400);
    assert_eq!(reply.error_type, "invalid_request_error");

    let value = body_json(&reply.message, &reply.error_type);
    assert_eq!(value["detail"]["error"]["message"], "bad request");
    assert_eq!(value["detail"]["error"]["type"], "invalid_request_error");
}

#[test]
fn app_error_upstream_api_maps_status_and_type() {
    let reply = AppError::UpstreamApi(502, "gateway failure".to_string()).reply();
    assert_eq!(reply.status, 502);

    let value = body_json(&reply.message, &reply.error_type);
    assert_eq!(value["detail"]["error"]["type"], "api_error");
    let message = value["detail"]["error"]["message"].as_str().expect("message should be string");
    assert!(
        message.contains("API 请求失败: 502 - gateway failure"),
        "unexpected message: {message}"
    );
}

#[test]
fn other_errors_answer_500() {
    let network = AppError::Network("down".to_string()).reply();
    assert_eq!((network.status, network.message.as_str(), network.error_type.as_str()), (500, "down", "network_error"));
    let proxy = AppError::Proxy("broken".to_string()).reply();
    assert_eq!((proxy.status, proxy.message.as_str(), proxy.error_type.as_str()), (500, "broken", "proxy_error"));
}

#[test]
fn error_body_quotes_and_escapes_its_strings() {
    let body = error_body("say \"hi\"\n\\ 好", "t");
    assert_eq!(body, "{\"detail\":{\"error\":{\"message\":\"say \\\"hi\\\"\\n\\\\ 好\",\"type\":\"t\"}}}");
    let value: serde_json::Value = serde_json::from_str(&body).unwrap();
    assert_eq!(value["detail"]["error"]["message"], "say \"hi\"\n\\ 好");
    let controls = error_body("\u{1}\u{8}\t\u{c}\r\u{1f}\u{7f}/", "");
    assert_eq!(
        controls,
        "{\"detail\":{\"error\":{\"message\":\"\\u0001\\b\\t\\f\\r\\u001f\u{7f}/\",\"type\":\"\"}}}"
    );
    assert_eq!(error_body_from_literals("1", "2"), "{\"detail\":{\"error\":{\"message\":1,\"type\":2}}}");
}

#[test]
fn decimal_text_of_status_codes() {
    assert_eq!(decimal_string(0), "0");
    assert_eq!(decimal_string(9), "9");
    assert_eq!(decimal_string(10), "10");
    assert_eq!(decimal_string(502), "502");
    assert_eq!(decimal_string(u64::MAX), u64::MAX.to_string());
}

#[test]
fn retries_follow_the_schedule() {
    let policy = RetryPolicy { max_retries: 3, retry_delay_ms: 1000 };
    assert_eq!(first_attempt(&policy), RetryAction::Send { attempt: 1, delay_ms: 0 });
    assert_eq!(
        after_failure(&policy, 1, AppError::Network("a".to_string())),
        RetryAction::Send { attempt: 2, delay_ms: 1000 }
    );
    assert_eq!(
        after_failure(&policy, 2, AppError::Network("b".to_string())),
        RetryAction::Send { attempt: 3, delay_ms: 2000 }
    );
    assert_eq!(
        after_failure(&policy, 3, AppError::Network("c".to_string())),
        RetryAction::GiveUp(AppError::Network("c".to_string()))
    );
}

#[test]
fn no_attempt_when_retries_are_zero() {
    let policy = RetryPolicy { max_retries: 0, retry_delay_ms: 1000 };
    assert_eq!(
        first_attempt(&policy),
        RetryAction::GiveUp(AppError::Proxy("请求失败".to_string()))
    );
    let single = RetryPolicy { max_retries: 1, retry_delay_ms: 1000 };
    assert_eq!(
        after_failure(&single, 1, AppError::Proxy("x".to_string())),
        RetryAction::GiveUp(AppError::Proxy("x".to_string()))
    );
}
