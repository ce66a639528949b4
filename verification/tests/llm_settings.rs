use beview::error::AppError;
use beview::json::{parse_json, Json};
use beview::random_id::{fresh_entry_id, new_token, prefixed_hex};
use beview::routes::settings::{
    assemble_llm_config, check_context_length, check_global, collect_models, collect_providers, collect_providers_with, delete_model, delete_provider, normalize_effort, replace_model,
    replace_provider, upsert_model, upsert_provider, validate_model_head, validate_model_head_with,
    validate_provider_entry, validate_provider_entry_with, ApiKey, normalize_extra_body, test_target, TestRequest, TestTarget, EXTRA_BODY_INNER,
};
use beview::settings::{LlmConfigDoc, LlmGlobal, ModelAdvanced, ModelCaps, ModelEntry, ProviderEntry};

fn bad(m: &str) -> AppError {
    AppError::BadRequest(m.to_string())
}

fn provider(id: &str, key: &str) -> ProviderEntry {
    ProviderEntry { id: id.into(), name: format!("name-{id}"), base_url: "https://x.y".into(), api_key: key.into() }
}

fn model(id: &str, provider_id: &str) -> ModelEntry {
    ModelEntry {
        id: id.into(),
        provider_id: provider_id.into(),
        name: format!("model-{id}"),
        context_length: None,
        caps: ModelCaps::default(),
        advanced: ModelAdvanced::default(),
    }
}

fn doc() -> LlmConfigDoc {
    LlmConfigDoc {
        providers: vec![provider("p1", "enc:1"), provider("p2", "enc:2")],
        models: vec![model("m1", "p1"), model("m2", "p2"), model("m3", "p1")],
        active_model_id: Some("m1".into()),
        global: LlmGlobal::default(),
    }
}

#[test]
fn global_limits() {
    assert_eq!(check_global(&LlmGlobal::default()), Ok(()));
    let g = |timeout, s, l| LlmGlobal { timeout, max_output_tokens_short: s, max_output_tokens_long: l };
    assert_eq!(check_global(&g(4, 4096, 8192)), Err(bad("timeout 需在 5-600 秒")));
    assert_eq!(check_global(&g(601, 4096, 8192)), Err(bad("timeout 需在 5-600 秒")));
    assert_eq!(check_global(&g(5, 511, 8192)), Err(bad("max_output_tokens_short 至少 512")));
    assert_eq!(check_global(&g(600, 1024, 1000)), Err(bad("max_output_tokens_long 不能小于短任务档")));
    assert_eq!(check_global(&g(600, 512, 512)), Ok(()));
}

#[test]
fn provider_validation_and_key_rules() {
    let d = doc();
    let pv = parse_json(r#"{"id":" p1 ","name":" 官方 ","base_url":" https://api.x.com/v1// ","api_key":"****abcd"}"#).unwrap();
    let p = validate_provider_entry_with(&pv, &d, &[0xab; 6]).unwrap();
    assert_eq!(p.id, "p1");
    assert_eq!(p.name, "官方");
    assert_eq!(p.base_url, "https://api.x.com/v1");
    assert_eq!(p.api_key, ApiKey::Stored("enc:1".into()));
    let fresh = parse_json(r#"{"base_url":"http://h","api_key":" sk-new "}"#).unwrap();
    let p = validate_provider_entry_with(&fresh, &d, &[0, 1, 0x0a, 0xff, 0x10, 0x2b]).unwrap();
    assert_eq!(p.id, "prov-00010aff102b");
    assert_eq!(p.api_key, ApiKey::Encrypt("sk-new".into()));
    let cleared = parse_json(r#"{"id":"p2","base_url":"http://h","api_key":""}"#).unwrap();
    assert_eq!(validate_provider_entry_with(&cleared, &d, &[0; 6]).unwrap().api_key, ApiKey::Stored(String::new()));
    let masked_new = parse_json(r#"{"id":"p9","base_url":"http://h","api_key":"***"}"#).unwrap();
    assert_eq!(validate_provider_entry_with(&masked_new, &d, &[0; 6]).unwrap().api_key, ApiKey::Stored(String::new()));
    let bad_url = parse_json(r#"{"name":"本地","base_url":"ftp://h"}"#).unwrap();
    assert_eq!(
        validate_provider_entry_with(&bad_url, &d, &[0; 6]),
        Err(bad("provider「本地」base_url 需以 http(s):// 开头"))
    );
}

#[test]
fn blank_provider_id_is_random() {
    let pv = parse_json(r#"{"base_url":"https://h"}"#).unwrap();
    let p = validate_provider_entry(&pv, &LlmConfigDoc::default()).unwrap();
    assert!(p.id.starts_with("prov-"));
    assert_eq!(p.id.len(), 17);
    assert!(p.id[5..].chars().all(|c| c.is_ascii_hexdigit() && !c.is_ascii_uppercase()));
}

#[test]
fn model_head_validation() {
    let ps = vec![provider("p1", "")];
    let mv = parse_json(r#"{"id":"","provider_id":"p1","name":" gpt "}"#).unwrap();
    let (id, pid, name) = validate_model_head_with(&mv, &ps, 3, &[1, 2, 3, 4, 5, 6]).unwrap();
    assert_eq!((id.as_str(), pid.as_str(), name.as_str()), ("model-010203040506", "p1", "gpt"));
    let orphan = parse_json(r#"{"provider_id":"px","name":"n"}"#).unwrap();
    assert_eq!(validate_model_head_with(&orphan, &ps, 2, &[0; 6]), Err(bad("model[2] 引用的 provider 不存在")));
    let unnamed = parse_json(r#"{"provider_id":"p1","name":"  "}"#).unwrap();
    assert_eq!(validate_model_head_with(&unnamed, &ps, 0, &[0; 6]), Err(bad("model[0] 名称不能为空")));
    let (rid, _, _) = validate_model_head(&mv, &ps, 0).unwrap();
    assert!(rid.starts_with("model-") && rid.len() == 18);
}

#[test]
fn effort_and_context_length() {
    assert_eq!(normalize_effort(None, 0), Ok(None));
    assert_eq!(normalize_effort(Some("  "), 0), Ok(None));
    assert_eq!(normalize_effort(Some(" high "), 0), Ok(Some("high".into())));
    assert_eq!(
        normalize_effort(Some("turbo"), 4),
        Err(bad("model[4] 思考强度非法：可选 none/minimal/low/medium/high/xhigh/max"))
    );
    assert_eq!(check_context_length(None, 0), Ok(()));
    assert_eq!(check_context_length(Some(1024), 0), Ok(()));
    assert_eq!(check_context_length(Some(10_000_000), 0), Ok(()));
    assert_eq!(
        check_context_length(Some(1023), 1),
        Err(bad("model[1] 上下文长度需在 1024-10000000 之间（元数据仅作展示与输入护栏）"))
    );
}

#[test]
fn deleting_a_provider_cascades_and_heals_active() {
    let d = delete_provider(doc(), "p1").unwrap();
    assert_eq!(d.providers, vec![provider("p2", "enc:2")]);
    assert_eq!(d.models, vec![model("m2", "p2")]);
    assert_eq!(d.active_model_id.as_deref(), Some("m2"));
    assert_eq!(delete_provider(doc(), "zz"), Err(AppError::NotFound));
    let mut keep = doc();
    keep.active_model_id = Some("m2".into());
    assert_eq!(delete_provider(keep, "p1").unwrap().active_model_id.as_deref(), Some("m2"));
    let last = delete_provider(delete_provider(doc(), "p1").unwrap(), "p2").unwrap();
    assert!(last.models.is_empty());
    assert_eq!(last.active_model_id, None);
}

#[test]
fn deleting_a_model_heals_active() {
    let d = delete_model(doc(), "m1").unwrap();
    assert_eq!(d.models.iter().map(|m| m.id.as_str()).collect::<Vec<_>>(), vec!["m2", "m3"]);
    assert_eq!(d.active_model_id.as_deref(), Some("m2"));
    assert_eq!(delete_model(doc(), "m9"), Err(AppError::NotFound));
    assert_eq!(delete_model(doc(), "m3").unwrap().active_model_id.as_deref(), Some("m1"));
}

#[test]
fn saving_entries() {
    let d = upsert_provider(doc(), provider("p2", "enc:new"));
    assert_eq!(d.providers[1].api_key, "enc:new");
    assert_eq!(d.providers.len(), 2);
    let d = upsert_provider(d, provider("p3", ""));
    assert_eq!(d.providers.len(), 3);
    let mut nd = doc();
    nd.active_model_id = None;
    let d = upsert_model(nd, model("m4", "p2"));
    assert_eq!(d.models.len(), 4);
    assert_eq!(d.active_model_id.as_deref(), Some("m4"));
    let d = upsert_model(doc(), model("m2", "p1"));
    assert_eq!(d.models[1].provider_id, "p1");
    assert_eq!(d.active_model_id.as_deref(), Some("m1"));
    let mut dangling = doc();
    dangling.active_model_id = Some("gone".into());
    assert_eq!(upsert_model(dangling, model("m5", "p1")).active_model_id.as_deref(), Some("m5"));
}

#[test]
fn replacing_entries_keeps_the_path_id() {
    let d = replace_provider(doc(), "p2", provider("other", "k")).unwrap();
    assert_eq!(d.providers[1].id, "p2");
    assert_eq!(d.providers[1].api_key, "k");
    assert_eq!(replace_provider(doc(), "nope", provider("x", "")), Err(AppError::NotFound));
    let d = replace_model(doc(), "m3", model("zzz", "p2")).unwrap();
    assert_eq!(d.models[2].id, "m3");
    assert_eq!(d.models[2].provider_id, "p2");
    assert_eq!(replace_model(doc(), "nope", model("x", "p1")), Err(AppError::NotFound));
}

#[test]
fn random_identifiers() {
    assert_eq!(prefixed_hex("p-", &[0x0f, 0xa0, 0x00]), "p-0fa000");
    let t = new_token();
    assert_eq!(t.len(), 64);
    assert!(t.chars().all(|c| c.is_ascii_hexdigit() && !c.is_ascii_uppercase()));
    assert_ne!(new_token(), t);
    let id = fresh_entry_id("x-");
    assert_eq!(id.len(), 14);
}

#[test]
fn legacy_settings_become_one_active_model() {
    let d = beview::settings::legacy_doc("https://api.example.com/v1//", "enc".to_string(), "gpt".to_string(), true, 2, 100);
    assert_eq!(d.providers.len(), 1);
    assert_eq!(d.providers[0].id, "p_legacy");
    assert_eq!(d.providers[0].name, "api.example.com");
    assert_eq!(d.providers[0].base_url, "https://api.example.com/v1");
    assert_eq!(d.providers[0].api_key, "enc");
    assert_eq!(d.models.len(), 1);
    assert_eq!((d.models[0].id.as_str(), d.models[0].provider_id.as_str(), d.models[0].name.as_str()), ("m_legacy", "p_legacy", "gpt"));
    assert_eq!(d.models[0].advanced.reasoning_effort.as_deref(), Some("medium"));
    assert_eq!(d.models[0].advanced.store, Some(false));
    assert!(d.models[0].caps.structured_output && !d.models[0].caps.web_search);
    assert_eq!(d.active_model_id.as_deref(), Some("m_legacy"));
    assert_eq!((d.global.timeout, d.global.max_output_tokens_short, d.global.max_output_tokens_long), (5, 512, 8192));
    let e = beview::settings::legacy_doc("host", String::new(), "m".to_string(), false, 9000, 10000);
    assert_eq!(e.models[0].advanced.reasoning_effort.as_deref(), Some("xhigh"));
    assert_eq!(e.providers[0].name, "host");
    assert_eq!((e.global.timeout, e.global.max_output_tokens_short, e.global.max_output_tokens_long), (600, 10000, 10000));
    let w = beview::settings::legacy_doc("h", String::new(), "m".to_string(), false, 120, (1u64 << 32) + 700);
    assert_eq!(w.global.max_output_tokens_short, 700);
}

#[test]
fn extra_body_normalisation() {
    assert_eq!(normalize_extra_body(Json::Null, 0), Ok(parse_json("{}").unwrap()));
    assert_eq!(normalize_extra_body(parse_json(r#"{"a":1}"#).unwrap(), 0), Ok(parse_json(r#"{"a":1}"#).unwrap()));
    assert_eq!(
        normalize_extra_body(parse_json(r#"{"extra_body":{"enable_thinking":true},"x":2}"#).unwrap(), 1),
        Ok(parse_json(r#"{"enable_thinking":true}"#).unwrap())
    );
    assert_eq!(
        normalize_extra_body(parse_json(r#"{"extra_body":null,"x":2}"#).unwrap(), 1),
        Ok(parse_json(r#"{"extra_body":null,"x":2}"#).unwrap())
    );
    assert_eq!(normalize_extra_body(parse_json("[1]").unwrap(), 2), Err(bad("model[2] extra_body 必须是对象")));
    assert_eq!(
        normalize_extra_body(parse_json(r#"{"extra_body":3}"#).unwrap(), 3),
        Err(bad(&format!("model[3] {EXTRA_BODY_INNER}")))
    );
    assert_eq!(EXTRA_BODY_INNER, "extra_body 内层必须是对象，如 {\"extra_body\": {\"enable_thinking\": true}}");
}

#[test]
fn connection_test_targets() {
    let d = doc();
    let saved = test_target(&d, &TestRequest { model_id: Some("m2".into()), ..Default::default() }).unwrap();
    assert_eq!(
        saved,
        TestTarget {
            provider: "name-p2".into(),
            base_url: "https://x.y".into(),
            api_key: "enc:2".into(),
            model: "model-m2".into(),
            web_search: false,
            structured_output: false,
            reasoning_effort: Some("xhigh".into()),
            store: false,
            saved_model: Some(1),
        }
    );
    let over = test_target(
        &d,
        &TestRequest {
            model_id: Some("m1".into()),
            base_url: Some("https://o.z/v1/".into()),
            api_key: Some(" sk-9 ".into()),
            model: Some("  ".into()),
            web_search: Some(true),
            reasoning_effort: Some("low".into()),
            store: Some(true),
            ..Default::default()
        },
    )
    .unwrap();
    assert_eq!((over.base_url.as_str(), over.api_key.as_str(), over.model.as_str()), ("https://o.z/v1", "sk-9", "model-m1"));
    assert_eq!((over.web_search, over.reasoning_effort.as_deref(), over.store, over.saved_model), (true, Some("low"), true, Some(0)));
    let masked = test_target(&d, &TestRequest { model_id: Some("m1".into()), api_key: Some("****x".into()), ..Default::default() }).unwrap();
    assert_eq!(masked.api_key, "enc:1");
    let inline = test_target(&d, &TestRequest { model_id: Some("zz".into()), ..Default::default() }).unwrap();
    assert_eq!((inline.provider.as_str(), inline.model.as_str(), inline.api_key.as_str(), inline.saved_model), ("x.y", "model-m1", "enc:1", None));
    let empty = LlmConfigDoc::default();
    assert_eq!(test_target(&empty, &TestRequest::default()), Err(bad("请填写 base_url（或先保存配置）")));
    assert_eq!(
        test_target(&empty, &TestRequest { base_url: Some("http://h/".into()), ..Default::default() }),
        Err(bad("请填写 model"))
    );
    let t = test_target(&empty, &TestRequest { base_url: Some("http://h/".into()), model: Some("m".into()), ..Default::default() }).unwrap();
    assert_eq!((t.provider.as_str(), t.base_url.as_str(), t.api_key.as_str(), t.structured_output), ("h", "http://h", "", true));
}

#[test]
fn full_save_collects_providers_in_order() {
    let d = doc();
    let pvs = vec![
        parse_json(r#"{"id":"p1","base_url":"https://a","api_key":"*"}"#).unwrap(),
        parse_json(r#"{"base_url":"https://b","api_key":""}"#).unwrap(),
    ];
    let ps = collect_providers_with(&pvs, &d, &vec![[0; 6], [1, 2, 3, 4, 5, 6]]).unwrap();
    assert_eq!(ps.len(), 2);
    assert_eq!(ps[0].api_key, ApiKey::Stored("enc:1".into()));
    assert_eq!(ps[1].id, "prov-010203040506");
    let p1 = || parse_json(r#"{"id":"p1","base_url":"https://a","api_key":"*"}"#).unwrap();
    let dup = vec![p1(), parse_json(r#"{"id":"p1","base_url":"http://c"}"#).unwrap()];
    assert_eq!(collect_providers_with(&dup, &d, &vec![[0; 6]; 2]), Err(bad("provider[1] id 重复")));
    // a refused entry is reported before a later duplicate
    let refused = vec![parse_json(r#"{"id":"x","name":"坏","base_url":"ftp://c"}"#).unwrap(), p1(), p1()];
    assert_eq!(
        collect_providers_with(&refused, &d, &vec![[0; 6]; 3]),
        Err(bad("provider「坏」base_url 需以 http(s):// 开头"))
    );
    let drawn = collect_providers(&pvs, &d).unwrap();
    assert!(drawn[1].id.starts_with("prov-") && drawn[1].id.len() == 17);
}

#[test]
fn full_save_collects_models_in_order() {
    assert_eq!(collect_models(vec![Ok(model("a", "p1")), Ok(model("b", "p1"))]), Ok(vec![model("a", "p1"), model("b", "p1")]));
    assert_eq!(
        collect_models(vec![Ok(model("a", "p1")), Ok(model("a", "p2")), Err(bad("model[2] 名称不能为空"))]),
        Err(bad("model[1] id 重复"))
    );
    assert_eq!(
        collect_models(vec![Ok(model("a", "p1")), Err(bad("model[1] 名称不能为空")), Ok(model("a", "p1"))]),
        Err(bad("model[1] 名称不能为空"))
    );
    assert_eq!(collect_models(vec![]), Ok(vec![]));
}

#[test]
fn full_save_assembles_the_document() {
    let raw = vec![parse_json(r#"{"id":" m1 ","name":"x"}"#).unwrap()];
    let d = assemble_llm_config(vec![provider("p1", "k")], vec![model("m1", "p1")], None, &raw, LlmGlobal::default()).unwrap();
    assert_eq!(d.active_model_id, Some(" m1 ".to_string()));
    assert_eq!(d.models, vec![model("m1", "p1")]);
    let chosen = assemble_llm_config(vec![], vec![model("m1", "p1")], Some("m1".into()), &raw, LlmGlobal::default()).unwrap();
    assert_eq!(chosen.active_model_id, Some("m1".to_string()));
    assert_eq!(
        assemble_llm_config(vec![], vec![model("m1", "p1")], Some("m9".into()), &raw, LlmGlobal::default()),
        Err(bad("active_model_id 不存在"))
    );
    let g = LlmGlobal { timeout: 3, max_output_tokens_short: 4096, max_output_tokens_long: 8192 };
    assert_eq!(assemble_llm_config(vec![], vec![], None, &[], g), Err(bad("timeout 需在 5-600 秒")));
    assert_eq!(assemble_llm_config(vec![], vec![], None, &[], LlmGlobal::default()).unwrap().active_model_id, None);
    let numeric = vec![parse_json(r#"{"id":7}"#).unwrap()];
    assert_eq!(assemble_llm_config(vec![], vec![], None, &numeric, LlmGlobal::default()).unwrap().active_model_id, None);
}
