use xcode_ai_proxy::config::{add_model_config, load_config, load_extra_models, ModelConfig, ModelTable};
use xcode_ai_proxy::env::{
    env_non_empty, parse_csv_env, parse_env_u16, parse_env_u64, parse_env_usize, EnvVars,
};
use xcode_ai_proxy::text::{is_valid_extra_model_id, normalize_api_url};

fn config(api_url: &str, api_key: &str, name: &str, upstream: &str, provider: &str) -> ModelConfig {
    ModelConfig {
        api_url: api_url.to_string(),
        api_key: api_key.to_string(),
        model_type: "openai_compat".to_string(),
        name: name.to_string(),
        upstream_model: Some(upstream.to_string()),
        provider: Some(provider.to_string()),
    }
}

#[test]
fn env_non_empty_trims_and_filters_blank() {
    let mut env = EnvVars::new();

    env.set("UNIT_TEST_ENV", "   ");
    assert_eq!(env_non_empty(&env, "UNIT_TEST_ENV"), None);

    env.set("UNIT_TEST_ENV", "  value  ");
    assert_eq!(env_non_empty(&env, "UNIT_TEST_ENV"), Some("value".to_string()));

    env.remove("UNIT_TEST_ENV");
    assert_eq!(env_non_empty(&env, "UNIT_TEST_ENV"), None);
}

#[test]
fn parse_csv_env_trims_and_ignores_empty_items() {
    let mut env = EnvVars::new();
    env.set("UNIT_TEST_CSV", " model-a, ,model-b ,, model-c ");

    let parsed = parse_csv_env(&env, "UNIT_TEST_CSV");
    assert_eq!(
        parsed,
        vec!["model-a".to_string(), "model-b".to_string(), "model-c".to_string()]
    );
}

#[test]
fn normalize_api_url_handles_trailing_slash_and_chat_suffix() {
    assert_eq!(normalize_api_url("https://api.example.com/v1/"), "https://api.example.com/v1");
    assert_eq!(
        normalize_api_url("https://api.example.com/v1/chat/completions"),
        "https://api.example.com/v1"
    );
    assert_eq!(
        normalize_api_url("https://api.example.com/v1/chat/completions/"),
        "https://api.example.com/v1"
    );
}

#[test]
fn add_model_config_keeps_first_on_id_conflict() {
    let mut models = ModelTable::new();

    add_model_config(
        &mut models,
        "model-a",
        config("https://first.example.com/v1", "first-key", "first", "model-a", "provider-a"),
    );
    add_model_config(
        &mut models,
        "model-a",
        config("https://second.example.com/v1", "second-key", "second", "model-a", "provider-b"),
    );

    let saved = models.get("model-a").expect("model-a should exist");
    assert_eq!(saved.api_url, "https://first.example.com/v1");
    assert_eq!(saved.api_key, "first-key");
    assert_eq!(saved.name, "first");
    assert_eq!(models.len(), 1);
}

#[test]
fn load_config_builds_models_from_legacy_openai_env() {
    let mut env = EnvVars::new();
    env.set("OPENAI_BASE_URL", "https://api.example.com/v1/");
    env.set("OPENAI_API_KEY", "sk-legacy-key");
    env.set("OPENAI_MODEL", "model-a, model-b");

    let config = load_config(&env).expect("load_config should succeed");
    assert_eq!(config.host, "0.0.0.0");
    assert_eq!(config.port, 3000);
    assert_eq!(config.max_retries, 3);
    assert_eq!(config.retry_delay_ms, 1000);
    assert_eq!(config.request_timeout_ms, 60_000);
    assert_eq!(config.api_configs.len(), 2);

    let model_a = config.api_configs.get("model-a").expect("model-a should be configured");
    assert_eq!(model_a.api_url, "https://api.example.com/v1");
    assert_eq!(model_a.api_key, "sk-legacy-key");
    assert_eq!(model_a.provider.as_deref(), Some("openai_compat"));
    assert_eq!(model_a.upstream_model.as_deref(), Some("model-a"));
    assert_eq!(model_a.name, "OpenAI-Compatible model-a");
}

#[test]
fn load_config_uses_default_model_id_for_single_openai_model() {
    let mut env = EnvVars::new();
    env.set("OPENAI_BASE_URL", "https://api.deepseek.com/v1/");
    env.set("OPENAI_API_KEY", "sk-default-key");
    env.set("OPENAI_MODEL", "deepseek-chat");
    env.set("DEFAULT_MODEL_ID", "DefaultModel");
    env.set("DEFAULT_MODEL_NAME", "My Default");

    let config = load_config(&env).expect("load_config should succeed");
    assert_eq!(config.api_configs.len(), 1);
    let model = config.api_configs.get("DefaultModel").expect("DefaultModel should exist");

    assert_eq!(model.api_url, "https://api.deepseek.com/v1");
    assert_eq!(model.api_key, "sk-default-key");
    assert_eq!(model.upstream_model.as_deref(), Some("deepseek-chat"));
    assert_eq!(model.name, "My Default (deepseek-chat)");
    assert_eq!(model.provider.as_deref(), Some("openai_compat"));
}

#[test]
fn load_config_supports_custom_prefix_and_provider() {
    let mut env = EnvVars::new();
    env.set("OPENAI_COMPAT_API_URL", "https://proxy.example.com/v1/chat/completions/");
    env.set("OPENAI_COMPAT_API_KEY", "sk-compat-key");
    env.set("OPENAI_COMPAT_MODELS", "kimi-2.5");
    env.set("OPENAI_COMPAT_NAME_PREFIX", "My Proxy");
    env.set("OPENAI_COMPAT_PROVIDER_NAME", "my_provider");

    let config = load_config(&env).expect("load_config should succeed");
    let model = config.api_configs.get("kimi-2.5").expect("kimi-2.5 should be configured");

    assert_eq!(model.api_url, "https://proxy.example.com/v1");
    assert_eq!(model.name, "My Proxy kimi-2.5");
    assert_eq!(model.provider.as_deref(), Some("my_provider"));
    assert_eq!(model.upstream_model.as_deref(), Some("kimi-2.5"));
}

#[test]
fn load_config_supports_extra_models_from_env() {
    let mut env = EnvVars::new();
    env.set("OPENAI_BASE_URL", "https://api.deepseek.com/v1");
    env.set("OPENAI_API_KEY", "sk-default-key");
    env.set("OPENAI_MODEL", "deepseek-chat");
    env.set("EXTRA_MODEL_IDS", "ModelA,ModelB");

    env.set("MODEL_ModelA_BASE_URL", "https://api.openai.com/v1/");
    env.set("MODEL_ModelA_API_KEY", "sk-model-a");
    env.set("MODEL_ModelA_MODEL", "gpt-4.1-mini");
    env.set("MODEL_ModelA_NAME", "OpenAI GPT-4.1 mini");

    env.set("MODEL_ModelB_BASE_URL", "https://api.moonshot.cn/v1/chat/completions");
    env.set("MODEL_ModelB_API_KEY", "sk-model-b");
    env.set("MODEL_ModelB_MODEL", "kimi-k2-0711-preview");
    env.set("MODEL_ModelB_PROVIDER", "moonshot");

    let config = load_config(&env).expect("load_config should succeed");
    assert_eq!(config.api_configs.len(), 3);

    let model_a = config.api_configs.get("ModelA").expect("ModelA should exist");
    assert_eq!(model_a.api_url, "https://api.openai.com/v1");
    assert_eq!(model_a.upstream_model.as_deref(), Some("gpt-4.1-mini"));
    assert_eq!(model_a.name, "OpenAI GPT-4.1 mini");
    assert_eq!(model_a.provider.as_deref(), Some("openai_compat"));

    let model_b = config.api_configs.get("ModelB").expect("ModelB should exist");
    assert_eq!(model_b.api_url, "https://api.moonshot.cn/v1");
    assert_eq!(model_b.upstream_model.as_deref(), Some("kimi-k2-0711-preview"));
    assert_eq!(model_b.name, "OpenAI-Compatible ModelB");
    assert_eq!(model_b.provider.as_deref(), Some("moonshot"));
}

#[test]
fn load_config_errors_on_invalid_extra_model_id() {
    let mut env = EnvVars::new();
    env.set("OPENAI_BASE_URL", "https://api.deepseek.com/v1");
    env.set("OPENAI_API_KEY", "sk-default-key");
    env.set("OPENAI_MODEL", "deepseek-chat");
    env.set("EXTRA_MODEL_IDS", "bad-id");

    let error = load_config(&env).expect_err("load_config should fail for invalid model id");
    assert!(
        error.contains("EXTRA_MODEL_IDS 中模型 id 无效: bad-id"),
        "unexpected error message: {error}"
    );
}

#[test]
fn load_config_errors_on_incomplete_extra_model_config() {
    let mut env = EnvVars::new();
    env.set("OPENAI_BASE_URL", "https://api.deepseek.com/v1");
    env.set("OPENAI_API_KEY", "sk-default-key");
    env.set("OPENAI_MODEL", "deepseek-chat");
    env.set("EXTRA_MODEL_IDS", "ModelA");
    env.set("MODEL_ModelA_BASE_URL", "https://api.openai.com/v1");
    env.set("MODEL_ModelA_API_KEY", "sk-model-a");

    let error = load_config(&env).expect_err("load_config should fail for incomplete extra model config");
    assert!(
        error.contains("模型 ModelA 配置不完整，缺少 MODEL_ModelA_MODEL"),
        "unexpected error message: {error}"
    );
}

#[test]
fn load_config_errors_when_missing_required_model_config() {
    let env = EnvVars::new();

    let error = load_config(&env).expect_err("load_config should fail without model config");
    assert!(error.contains("未配置任何模型"), "unexpected error message: {error}");
}

#[test]
fn load_config_errors_on_invalid_port() {
    let mut env = EnvVars::new();
    env.set("OPENAI_BASE_URL", "https://api.example.com/v1");
    env.set("OPENAI_API_KEY", "sk-legacy-key");
    env.set("OPENAI_MODEL", "model-a");
    env.set("PORT", "not-a-port");

    let error = load_config(&env).expect_err("load_config should fail for invalid port");
    assert!(error.contains("环境变量 PORT 不是有效端口"), "unexpected error message: {error}");
}

#[test]
fn numeric_settings_parse_like_the_unsigned_types() {
    let mut env = EnvVars::new();
    env.set("PORT", " +8080 ");
    assert_eq!(parse_env_u16(&env, "PORT", 3000), Ok(8080));
    env.set("PORT", "65535");
    assert_eq!(parse_env_u16(&env, "PORT", 3000), Ok(65535));
    env.set("PORT", "65536");
    assert_eq!(
        parse_env_u16(&env, "PORT", 3000),
        Err("环境变量 PORT 不是有效端口: 65536".to_string())
    );
    env.set("PORT", "-1");
    assert!(parse_env_u16(&env, "PORT", 3000).is_err());
    env.set("PORT", "+");
    assert!(parse_env_u16(&env, "PORT", 3000).is_err());
    env.set("PORT", "   ");
    assert_eq!(parse_env_u16(&env, "PORT", 3000), Ok(3000));

    env.set("MAX_RETRIES", "007");
    assert_eq!(parse_env_usize(&env, "MAX_RETRIES", 3), Ok(7));
    env.set("MAX_RETRIES", "1.5");
    assert_eq!(
        parse_env_usize(&env, "MAX_RETRIES", 3),
        Err("环境变量 MAX_RETRIES 不是有效整数: 1.5".to_string())
    );

    env.set("RETRY_DELAY", "18446744073709551615");
    assert_eq!(parse_env_u64(&env, "RETRY_DELAY", 1000), Ok(u64::MAX));
    env.set("RETRY_DELAY", "18446744073709551616");
    assert!(parse_env_u64(&env, "RETRY_DELAY", 1000).is_err());
    env.set("RETRY_DELAY", "99999999999999999999x");
    assert!(parse_env_u64(&env, "RETRY_DELAY", 1000).is_err());
}

#[test]
fn numeric_settings_match_std_parsing() {
    for text in ["0", "+0", "42", "+42", "-0", "", "+", "1_000", "12a", "4294967295", "99999999999999999999"] {
        let mut env = EnvVars::new();
        env.set("N", text);
        let expected = if text.is_empty() { Ok(5) } else { text.parse::<u64>().map_err(|_| ()) };
        assert_eq!(parse_env_u64(&env, "N", 5).map_err(|_| ()), expected, "input {text:?}");
    }
}

#[test]
fn load_config_reads_numeric_settings_and_host() {
    let mut env = EnvVars::new();
    env.set("HOST", " 127.0.0.1 ");
    env.set("PORT", "3020");
    env.set("MAX_RETRIES", "5");
    env.set("RETRY_DELAY", "250");
    env.set("REQUEST_TIMEOUT", "1000");
    env.set("OPENAI_BASE_URL", "https://api.example.com/v1");
    env.set("OPENAI_API_KEY", "k");
    env.set("OPENAI_MODEL", "m");
    let config = load_config(&env).expect("load_config should succeed");
    assert_eq!(config.host, "127.0.0.1");
    assert_eq!(config.port, 3020);
    assert_eq!(config.max_retries, 5);
    assert_eq!(config.retry_delay_ms, 250);
    assert_eq!(config.request_timeout_ms, 1000);
    let model = config.api_configs.get("DefaultModel").expect("DefaultModel should exist");
    assert_eq!(model.name, "Default Model (m)");
}

#[test]
fn load_config_ignores_incomplete_groups() {
    let mut env = EnvVars::new();
    env.set("OPENAI_BASE_URL", "https://api.example.com/v1");
    env.set("OPENAI_MODEL", "m");
    env.set("OPENAI_COMPAT_API_URL", "https://compat.example.com/v1");
    env.set("OPENAI_COMPAT_API_KEY", "k");
    let error = load_config(&env).expect_err("no complete group");
    assert!(error.contains("未配置任何模型"));
}

#[test]
fn load_config_keeps_first_model_across_groups() {
    let mut env = EnvVars::new();
    env.set("OPENAI_BASE_URL", "https://one.example.com/v1");
    env.set("OPENAI_API_KEY", "k1");
    env.set("OPENAI_MODEL", "same, other");
    env.set("OPENAI_COMPAT_API_URL", "https://two.example.com/v1");
    env.set("OPENAI_COMPAT_API_KEY", "k2");
    env.set("OPENAI_COMPAT_MODELS", "same,third");
    let config = load_config(&env).expect("load_config should succeed");
    assert_eq!(config.api_configs.len(), 3);
    let same = config.api_configs.get("same").unwrap();
    assert_eq!(same.api_url, "https://one.example.com/v1");
    assert_eq!(same.api_key, "k1");
    let third = config.api_configs.get("third").unwrap();
    assert_eq!(third.name, "OpenAI-Compatible third");
}

#[test]
fn load_extra_models_keeps_models_added_before_an_error() {
    let mut env = EnvVars::new();
    env.set("EXTRA_MODEL_IDS", "Good, 9bad");
    env.set("MODEL_Good_BASE_URL", "https://good.example.com/v1/");
    env.set("MODEL_Good_API_KEY", "k");
    env.set("MODEL_Good_MODEL", "g");
    let mut table = ModelTable::new();
    let result = load_extra_models(&env, &mut table);
    assert_eq!(
        result,
        Err("❌ EXTRA_MODEL_IDS 中模型 id 无效: 9bad。仅支持字母、数字、下划线，且不能以数字开头。".to_string())
    );
    assert_eq!(table.len(), 1);
    let good = table.get("Good").unwrap();
    assert_eq!(good.api_url, "https://good.example.com/v1");
    assert_eq!(good.provider.as_deref(), Some("openai_compat"));
    assert_eq!(good.model_type, "openai_compat");
}

#[test]
fn extra_model_reports_the_first_missing_setting() {
    let mut env = EnvVars::new();
    env.set("OPENAI_BASE_URL", "https://api.example.com/v1");
    env.set("OPENAI_API_KEY", "k");
    env.set("OPENAI_MODEL", "m");
    env.set("EXTRA_MODEL_IDS", "X");
    assert_eq!(
        load_config(&env).unwrap_err(),
        "❌ 模型 X 配置不完整，缺少 MODEL_X_BASE_URL"
    );
    env.set("MODEL_X_BASE_URL", "u");
    assert_eq!(load_config(&env).unwrap_err(), "❌ 模型 X 配置不完整，缺少 MODEL_X_API_KEY");
}

#[test]
fn extra_model_ids_follow_the_documented_rule() {
    assert!(is_valid_extra_model_id("ModelA"));
    assert!(is_valid_extra_model_id("_private9"));
    assert!(is_valid_extra_model_id("a"));
    assert!(!is_valid_extra_model_id(""));
    assert!(!is_valid_extra_model_id("9lives"));
    assert!(!is_valid_extra_model_id("bad-id"));
    assert!(!is_valid_extra_model_id("模型"));
    assert!(!is_valid_extra_model_id("a b"));
}

#[test]
fn normalize_api_url_edge_cases() {
    assert_eq!(normalize_api_url("https://x.example.com/v1///"), "https://x.example.com/v1");
    assert_eq!(normalize_api_url("https://x.example.com//chat/completions"), "https://x.example.com/");
    assert_eq!(normalize_api_url("/chat/completions"), "");
    assert_eq!(normalize_api_url("https://x.example.com/chat/completion"), "https://x.example.com/chat/completion");
    assert_eq!(
        normalize_api_url("https://x.example.com/chat/completions/chat/completions"),
        "https://x.example.com/chat/completions"
    );
}

#[test]
fn environment_snapshot_reads_back_the_last_write() {
    let mut env = EnvVars::new();
    env.set("A", "1");
    env.set("B", "2");
    env.set("A", "3");
    assert_eq!(env.get("A"), Some("3".to_string()));
    assert_eq!(env.get("B"), Some("2".to_string()));
    env.remove("A");
    assert_eq!(env.get("A"), None);
    assert_eq!(env.get("B"), Some("2".to_string()));
}

#[test]
fn csv_items_are_trimmed_and_comma_free() {
    let mut env = EnvVars::new();
    env.set("L", "\u{3000}a\u{a0},\tb c ,,,");
    assert_eq!(parse_csv_env(&env, "L"), vec!["a".to_string(), "b c".to_string()]);
    env.set("L", " , ");
    assert!(parse_csv_env(&env, "L").is_empty());
    assert!(parse_csv_env(&env, "UNSET").is_empty());
}

#[test]
fn load_extra_models_adds_listed_ids_and_keeps_existing_ones() {
    let mut env = EnvVars::new();
    env.set("EXTRA_MODEL_IDS", "ModelA, ModelB");
    env.set("MODEL_ModelA_BASE_URL", "https://a.example.com/v1");
    env.set("MODEL_ModelA_API_KEY", "ka");
    env.set("MODEL_ModelA_MODEL", "ma");
    env.set("MODEL_ModelB_BASE_URL", "https://b.example.com/v1/chat/completions");
    env.set("MODEL_ModelB_API_KEY", "kb");
    env.set("MODEL_ModelB_MODEL", "mb");
    let mut table = ModelTable::new();
    add_model_config(&mut table, "ModelA", config("https://kept.example.com", "old", "Kept", "k", "p"));
    let result = load_extra_models(&env, &mut table);
    assert_eq!(result, Ok(()));
    assert_eq!(table.len(), 2);
    let a = table.get("ModelA").unwrap();
    assert_eq!(a, &config("https://kept.example.com", "old", "Kept", "k", "p"));
    let b = table.get("ModelB").unwrap();
    assert_eq!(b, &config("https://b.example.com/v1", "kb", "OpenAI-Compatible ModelB", "mb", "openai_compat"));
}

#[test]
fn load_extra_models_without_ids_leaves_table_unchanged() {
    let env = EnvVars::new();
    let mut table = ModelTable::new();
    add_model_config(&mut table, "only", config("u", "k", "n", "m", "p"));
    assert_eq!(load_extra_models(&env, &mut table), Ok(()));
    assert_eq!(table.len(), 1);
    assert_eq!(table.get("only").unwrap(), &config("u", "k", "n", "m", "p"));
}

#[test]
fn load_config_with_only_extra_models_succeeds() {
    let mut env = EnvVars::new();
    env.set("EXTRA_MODEL_IDS", "_solo");
    env.set("MODEL__solo_BASE_URL", "https://solo.example.com");
    env.set("MODEL__solo_API_KEY", "  ks  ");
    env.set("MODEL__solo_MODEL", "m");
    let config = load_config(&env).expect("load_config should succeed");
    assert_eq!(config.api_configs.len(), 1);
    let solo = config.api_configs.get("_solo").unwrap();
    assert_eq!(solo.api_key, "ks");
    assert_eq!(solo.name, "OpenAI-Compatible _solo");
}

#[test]
fn load_config_holds_the_ids_of_each_group_and_trimmed_entries() {
    let mut env = EnvVars::new();
    env.set("OPENAI_BASE_URL", " https://one.example.com/v1 ");
    env.set("OPENAI_API_KEY", "  k1 ");
    env.set("OPENAI_MODEL", " solo ");
    env.set("OPENAI_COMPAT_API_URL", "https://two.example.com/v1");
    env.set("OPENAI_COMPAT_API_KEY", "k2");
    env.set("OPENAI_COMPAT_MODELS", " x , y ,");
    env.set("EXTRA_MODEL_IDS", "Extra1");
    env.set("MODEL_Extra1_BASE_URL", "https://three.example.com/v1");
    env.set("MODEL_Extra1_API_KEY", "k3");
    env.set("MODEL_Extra1_MODEL", "z");
    let config = load_config(&env).expect("load_config should succeed");
    assert_eq!(config.api_configs.len(), 4);
    let mut ids: Vec<String> = Vec::new();
    for i in 0..config.api_configs.len() {
        let id = config.api_configs.id_at(i).clone();
        let entry = config.api_configs.get(&id).unwrap();
        assert_eq!(id.trim(), id);
        assert!(!id.is_empty());
        assert_eq!(entry.api_key.trim(), entry.api_key);
        assert!(!entry.api_key.is_empty());
        assert_eq!(entry.model_type, "openai_compat");
        assert!(entry.upstream_model.is_some());
        assert!(entry.provider.is_some());
        assert!(!entry.name.is_empty());
        ids.push(id);
    }
    assert_eq!(ids, vec!["DefaultModel", "x", "y", "Extra1"]);
    let default = config.api_configs.get("DefaultModel").unwrap();
    assert_eq!(default.name, "Default Model (solo)");
    assert_eq!(default.api_key, "k1");
}
