use beview::settings::{
    classify, default_long, default_short, default_timeout, default_true, mask_key, provider_of, LlmConfigDoc,
    LlmGlobal, LlmLoad, ModelAdvanced, ModelCaps, ModelEntry, ProviderEntry, DEFAULT_REASONING_EFFORT,
    REASONING_EFFORTS,
};

fn provider(id: &str, name: &str, base_url: &str) -> ProviderEntry {
    ProviderEntry { id: id.into(), name: name.into(), base_url: base_url.into(), api_key: String::new() }
}

fn model(id: &str, provider_id: &str, name: &str) -> ModelEntry {
    ModelEntry {
        id: id.into(),
        provider_id: provider_id.into(),
        name: name.into(),
        context_length: None,
        caps: ModelCaps::default(),
        advanced: ModelAdvanced::default(),
    }
}

#[test]
fn orphan_provider_reference_classifies_broken_with_reason() {
    let doc = LlmConfigDoc {
        providers: vec![],
        models: vec![model("m1", "p_missing", "gpt-x")],
        active_model_id: Some("m1".into()),
        global: LlmGlobal::default(),
    };
    match classify(doc) {
        LlmLoad::Broken(reason) => {
            assert!(reason.contains("provider 不存在"), "应含具体原因: {reason}");
            assert!(reason.contains("gpt-x"), "应指明是哪个模型: {reason}");
            assert!(reason.contains("设置"), "应给修复入口指引: {reason}");
        }
        _ => panic!("孤儿引用必须分类为 Broken"),
    }
}

#[test]
fn valid_doc_classifies_ready() {
    let doc = LlmConfigDoc {
        providers: vec![provider("p1", "OpenAI", "https://api.openai.com/v1")],
        models: vec![model("m1", "p1", "gpt-5.2")],
        active_model_id: Some("m1".into()),
        global: LlmGlobal::default(),
    };
    match classify(doc) {
        LlmLoad::Ready(c) => {
            assert_eq!(c.model, "gpt-5.2");
            assert_eq!(c.provider, "OpenAI");
        }
        other => panic!("合法文档应为 Ready，实为 {other:?}"),
    }
}

#[test]
fn empty_base_url_classifies_broken() {
    let doc = LlmConfigDoc {
        providers: vec![provider("p1", "", "  ")],
        models: vec![model("m1", "p1", "m")],
        active_model_id: None,
        global: LlmGlobal::default(),
    };
    assert!(matches!(classify(doc), LlmLoad::Broken(_)));
}

#[test]
fn empty_doc_has_no_model() {
    let doc = LlmConfigDoc::default();
    assert!(doc.is_empty());
    assert_eq!(doc.resolve(), Err("未配置模型".to_string()));
    match classify(doc) {
        LlmLoad::Broken(reason) => {
            assert_eq!(reason, "未配置模型（请到 设置 → 模型服务 检查模型与 Provider 引用）")
        }
        other => panic!("{other:?}"),
    }
}

#[test]
fn missing_active_falls_back_to_first_model() {
    let doc = LlmConfigDoc {
        providers: vec![provider("p1", "", "https://api.example.com/v1///")],
        models: vec![model("m1", "p1", "first"), model("m2", "p1", "second")],
        active_model_id: Some("nope".into()),
        global: LlmGlobal { timeout: 1, max_output_tokens_short: 100, max_output_tokens_long: 200 },
    };
    assert_eq!(doc.active_model_index(), Some(0));
    let c = doc.resolve().unwrap();
    assert_eq!(c.model, "first");
    assert_eq!(c.provider, "api.example.com");
    assert_eq!(c.base_url, "https://api.example.com/v1");
    assert_eq!(c.timeout, 5);
    assert_eq!(c.max_tokens, 512);
    assert_eq!(c.max_tokens_long, 512);
    assert_eq!(c.reasoning_effort.as_deref(), Some(DEFAULT_REASONING_EFFORT));
    assert!(!c.store);
}

#[test]
fn active_model_chosen_and_limits_clamped() {
    let mut m2 = model("m2", "p1", "second");
    m2.advanced = ModelAdvanced { reasoning_effort: Some("low".into()), store: Some(true) };
    m2.caps = ModelCaps { structured_output: true, web_search: true };
    m2.context_length = Some(128000);
    let doc = LlmConfigDoc {
        providers: vec![provider("p1", "Name", "https://x.y/")],
        models: vec![model("m1", "p1", "first"), m2],
        active_model_id: Some("m2".into()),
        global: LlmGlobal { timeout: 9000, max_output_tokens_short: 4096, max_output_tokens_long: 8192 },
    };
    assert_eq!(doc.active_model_index(), Some(1));
    let c = doc.resolve().unwrap();
    assert_eq!(c.model, "second");
    assert_eq!(c.timeout, 600);
    assert_eq!(c.max_tokens, 4096);
    assert_eq!(c.max_tokens_long, 8192);
    assert_eq!(c.reasoning_effort.as_deref(), Some("low"));
    assert!(c.store && c.structured_output && c.web_search);
    assert_eq!(c.context_length, Some(128000));
}

#[test]
fn empty_effort_falls_back_to_default() {
    let adv = ModelAdvanced { reasoning_effort: Some(String::new()), store: None };
    assert_eq!(adv.effort_or_default().as_deref(), Some("xhigh"));
    assert!(!adv.store_or_default());
    assert!(REASONING_EFFORTS.contains(&DEFAULT_REASONING_EFFORT));
}

#[test]
fn provider_of_takes_host() {
    assert_eq!(provider_of("https://api.openai.com/v1"), "api.openai.com");
    assert_eq!(provider_of("http://localhost:8080/"), "localhost:8080");
    assert_eq!(provider_of("no-scheme/path"), "no-scheme");
    assert_eq!(provider_of(""), "");
}

#[test]
fn mask_key_hides_all_but_last_four() {
    assert_eq!(mask_key("short"), "****");
    assert_eq!(mask_key("12345678"), "****");
    assert_eq!(mask_key("sk-abcdefghijkl"), "****...ijkl");
}

#[test]
fn serde_defaults() {
    assert!(default_true());
    assert_eq!(default_timeout(), 120);
    assert_eq!(default_short(), 4096);
    assert_eq!(default_long(), 8192);
    let g = LlmGlobal::default();
    assert_eq!((g.timeout, g.max_output_tokens_short, g.max_output_tokens_long), (120, 4096, 8192));
}
