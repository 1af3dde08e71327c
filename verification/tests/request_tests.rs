use xcode_ai_proxy::config::{add_model_config, ModelConfig, ModelTable};
use xcode_ai_proxy::errors::AppError;
use xcode_ai_proxy::json::{validate_chat_completion_request, with_model_override, JsonValue};
use xcode_ai_proxy::listing::{model_summaries, sorted_model_ids, str_less};
use xcode_ai_proxy::proxy::{authorization_header, is_success_status, plan_proxy, upstream_endpoint, upstream_error};

fn text(s: &str) -> JsonValue {
    JsonValue::Str(s.to_string())
}

fn object(fields: Vec<(&str, JsonValue)>) -> JsonValue {
    JsonValue::Object(fields.into_iter().map(|(k, v)| (k.to_string(), v)).collect())
}

fn user_message(content: &str) -> JsonValue {
    JsonValue::Array(vec![object(vec![("role", text("user")), ("content", text(content))])])
}

fn model(name: &str, upstream: Option<&str>, provider: Option<&str>) -> ModelConfig {
    ModelConfig {
        api_url: format!("https://{name}.example.com/v1"),
        api_key: format!("key-{name}"),
        model_type: "openai_compat".to_string(),
        name: format!("Model {name}"),
        upstream_model: upstream.map(|u| u.to_string()),
        provider: provider.map(|p| p.to_string()),
    }
}

#[test]
fn validate_chat_completion_request_rejects_non_object() {
    let result = validate_chat_completion_request(&text("bad"));
    match result {
        Err(AppError::InvalidRequest(message)) => assert_eq!(message, "Invalid request body"),
        other => panic!("expected InvalidRequest, got {other:?}"),
    }
}

#[test]
fn validate_chat_completion_request_requires_model_and_messages() {
    let missing_model = validate_chat_completion_request(&object(vec![("messages", user_message("hi"))]));
    match missing_model {
        Err(AppError::InvalidRequest(message)) => {
            assert_eq!(message, "Missing required field: 'model'")
        }
        other => panic!("expected InvalidRequest for missing model, got {other:?}"),
    }

    let missing_messages = validate_chat_completion_request(&object(vec![("model", text("gpt-4.1-mini"))]));
    match missing_messages {
        Err(AppError::InvalidRequest(message)) => {
            assert_eq!(message, "Missing required field: 'messages'")
        }
        other => panic!("expected InvalidRequest for missing messages, got {other:?}"),
    }

    let ok = validate_chat_completion_request(&object(vec![
        ("model", text("gpt-4.1-mini")),
        ("messages", user_message("hello")),
    ]));
    assert!(ok.is_ok());
}

#[test]
fn with_model_override_replaces_model_and_keeps_other_fields() {
    let original = object(vec![
        ("model", text("local-model")),
        ("stream", JsonValue::Bool(true)),
        ("messages", user_message("hello")),
    ]);

    let overridden = with_model_override(&original, "upstream-model").expect("model override should succeed");

    assert_eq!(overridden.get("model"), Some(&text("upstream-model")));
    assert_eq!(overridden.get("stream"), Some(&JsonValue::Bool(true)));
    assert_eq!(overridden.get("messages"), original.get("messages"));

    assert_eq!(original.get("model"), Some(&text("local-model")));
}

#[test]
fn with_model_override_rejects_non_object_body() {
    let result = with_model_override(&text("invalid"), "upstream-model");
    match result {
        Err(AppError::InvalidRequest(message)) => assert_eq!(message, "Invalid request body"),
        other => panic!("expected InvalidRequest, got {other:?}"),
    }
}

#[test]
fn with_model_override_adds_a_missing_model_field() {
    let original = object(vec![("temperature", JsonValue::Number("0.5".to_string()))]);
    let overridden = with_model_override(&original, "m").unwrap();
    assert_eq!(overridden.get("model"), Some(&text("m")));
    assert_eq!(overridden.get("temperature"), Some(&JsonValue::Number("0.5".to_string())));
}

fn table() -> ModelTable {
    let mut t = ModelTable::new();
    add_model_config(&mut t, "Zeta", model("zeta", Some("zeta-upstream"), None));
    add_model_config(&mut t, "Alpha", model("alpha", None, Some("acme")));
    add_model_config(&mut t, "beta", model("beta", Some("b-1"), Some("")));
    t
}

#[test]
fn plan_proxy_sets_the_upstream_model_and_stream_flag() {
    let t = table();
    let body = object(vec![
        ("model", text("Zeta")),
        ("stream", JsonValue::Bool(true)),
        ("messages", user_message("hi")),
    ]);
    let plan = plan_proxy(&t, &body).expect("a configured model");
    assert!(plan.stream);
    assert_eq!(plan.config.api_url, "https://zeta.example.com/v1");
    assert_eq!(plan.body.get("model"), Some(&text("zeta-upstream")));
    assert_eq!(plan.body.get("messages"), body.get("messages"));

    let body = object(vec![("model", text("Alpha")), ("stream", text("yes"))]);
    let plan = plan_proxy(&t, &body).expect("a configured model");
    assert!(!plan.stream);
    assert_eq!(plan.body.get("model"), Some(&text("Alpha")));
}

#[test]
fn plan_proxy_rejects_missing_and_unknown_models() {
    let t = table();
    let missing = plan_proxy(&t, &object(vec![("model", JsonValue::Number("3".to_string()))]));
    assert_eq!(missing.unwrap_err(), AppError::InvalidRequest("请求缺少 model 字段".to_string()));
    let not_object = plan_proxy(&t, &JsonValue::Null);
    assert_eq!(not_object.unwrap_err(), AppError::InvalidRequest("请求缺少 model 字段".to_string()));
    let unknown = plan_proxy(&t, &object(vec![("model", text("gpt-5"))]));
    assert_eq!(
        unknown.unwrap_err(),
        AppError::InvalidRequest("不支持的模型: gpt-5。支持的模型: Alpha, Zeta, beta".to_string())
    );
}

#[test]
fn model_listings_are_sorted_by_id() {
    let t = table();
    assert_eq!(sorted_model_ids(&t), vec!["Alpha".to_string(), "Zeta".to_string(), "beta".to_string()]);
    let summaries = model_summaries(&t);
    assert_eq!(summaries.len(), 3);
    assert_eq!(summaries[0].id, "Alpha");
    assert_eq!(summaries[0].owned_by, "acme");
    assert_eq!(summaries[1].id, "Zeta");
    assert_eq!(summaries[1].owned_by, "openai_compat");
    assert_eq!(summaries[1].name, "Model zeta");
    assert!(summaries[1].has_api_key);
    assert_eq!(summaries[2].owned_by, "");
    assert!(sorted_model_ids(&ModelTable::new()).is_empty());
}

#[test]
fn string_order_matches_std() {
    let words = ["", "a", "A", "ab", "b", "aa", "模型", "mo", "Ω", "z", "model-a", "model_a", "Model"];
    for a in words {
        for b in words {
            assert_eq!(str_less(a, b), a.to_string() < b.to_string(), "{a:?} < {b:?}");
        }
    }
}

#[test]
fn upstream_request_parts() {
    let m = model("zeta", None, None);
    assert_eq!(upstream_endpoint(&m), "https://zeta.example.com/v1/chat/completions");
    assert_eq!(authorization_header(&m), "Bearer key-zeta");
    assert!(is_success_status(200));
    assert!(is_success_status(299));
    assert!(!is_success_status(199));
    assert!(!is_success_status(300));
    assert!(!is_success_status(502));
    assert_eq!(upstream_error(502, "bad".to_string()), AppError::UpstreamApi(502, "bad".to_string()));
    assert_eq!(upstream_error(1000, "odd".to_string()), AppError::UpstreamApi(500, "odd".to_string()));
    assert_eq!(upstream_error(99, "odd".to_string()), AppError::UpstreamApi(500, "odd".to_string()));
}

fn names_of(body: &JsonValue) -> Vec<String> {
    match body {
        JsonValue::Object(fields) => fields.iter().map(|(k, _)| k.clone()).collect(),
        _ => panic!("expected an object"),
    }
}

#[test]
fn with_model_override_keeps_field_names_in_order() {
    let present = object(vec![("a", text("1")), ("model", text("old")), ("b", text("2"))]);
    let overridden = with_model_override(&present, "new").unwrap();
    assert_eq!(names_of(&overridden), vec!["a", "model", "b"]);
    assert_eq!(
        overridden,
        object(vec![("a", text("1")), ("model", text("new")), ("b", text("2"))])
    );

    let absent = object(vec![("a", text("1")), ("b", text("2"))]);
    let added = with_model_override(&absent, "new").unwrap();
    assert_eq!(names_of(&added), vec!["a", "b", "model"]);
}
