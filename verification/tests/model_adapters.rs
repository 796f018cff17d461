use vellum::model::{
    mask_api_key, validate_profile, MockStoryModel, ModelClient, ModelProviderKind,
    ModelProviderProfile, ModelRequest,
};

fn profile(kind: ModelProviderKind, base: Option<&str>, key: Option<&str>) -> ModelProviderProfile {
    ModelProviderProfile {
        id: "p1".to_string(),
        display_name: "测试".to_string(),
        kind,
        base_url: base.map(|s| s.to_string()),
        model: "gpt-x".to_string(),
        api_key: key.map(|s| s.to_string()),
        enabled: true,
    }
}

#[test]
fn validates_mock_profile() {
    let result = validate_profile(&ModelProviderProfile::mock());
    assert!(result.ok);
}

#[test]
fn mock_model_returns_scene_text() {
    let model = MockStoryModel;
    let response = model
        .complete(ModelRequest {
            system: "你是穿书导演".to_string(),
            prompt: "玩家动作：提醒主角小心".to_string(),
            max_output_chars: 120,
        })
        .unwrap();
    assert!(response.text.contains("提醒主角小心"));
}

#[test]
fn mock_profile_fields() {
    let p = ModelProviderProfile::mock();
    assert_eq!(p.id, "mock-local");
    assert_eq!(p.display_name, "本地演示模型");
    assert_eq!(p.kind, ModelProviderKind::Mock);
    assert_eq!(p.model, "mock-story-v1");
    assert!(p.base_url.is_none());
    assert!(p.api_key.is_none());
    assert!(p.enabled);
    let r = validate_profile(&p);
    assert_eq!(r.message, "本地演示模型可用，不会上传任何原文");
}

#[test]
fn disabled_profile_is_rejected() {
    let mut p = ModelProviderProfile::mock();
    p.enabled = false;
    let r = validate_profile(&p);
    assert!(!r.ok);
    assert_eq!(r.message, "这个模型配置还没有启用");
}

#[test]
fn blank_model_name_is_rejected() {
    let mut p = ModelProviderProfile::mock();
    p.model = " \t\u{3000}".to_string();
    let r = validate_profile(&p);
    assert!(!r.ok);
    assert_eq!(r.message, "请填写模型名称");
}

#[test]
fn ollama_needs_base_url() {
    let r = validate_profile(&profile(ModelProviderKind::Ollama, Some("   "), None));
    assert!(!r.ok);
    assert_eq!(r.message, "Ollama 需要填写本地地址，例如 http://localhost:11434");
    let r = validate_profile(&profile(ModelProviderKind::Ollama, None, None));
    assert!(!r.ok);
    let r = validate_profile(&profile(ModelProviderKind::Ollama, Some("http://localhost:11434"), None));
    assert!(r.ok);
    assert_eq!(r.message, "配置格式有效。V1 会只发送当前回合检索片段");
}

#[test]
fn cloud_providers_need_key_and_base() {
    for kind in [
        ModelProviderKind::OpenAiCompatible,
        ModelProviderKind::AnthropicCompatible,
        ModelProviderKind::GeminiCompatible,
    ] {
        let r = validate_profile(&profile(kind, Some("https://api.example.com"), Some("sk-1")));
        assert!(r.ok);
        assert_eq!(r.message, "配置格式有效。联网连通性测试会在真实模型适配器接入后启用");
        let r = validate_profile(&profile(kind, Some("https://api.example.com"), Some(" ")));
        assert!(!r.ok);
        assert_eq!(r.message, "请填写 API Key 和 Base URL");
        let r = validate_profile(&profile(kind, None, Some("sk-1")));
        assert!(!r.ok);
    }
}

#[test]
fn new_id_is_a_hyphenated_uuid() {
    let p = ModelProviderProfile::mock().with_new_id();
    assert_eq!(p.id.len(), 36);
    assert_ne!(p.id, "mock-local");
    assert_eq!(&p.id[14..15], "4");
    assert_eq!(p.model, "mock-story-v1");
}

#[test]
fn api_key_is_masked_before_storing() {
    let p = mask_api_key(profile(ModelProviderKind::OpenAiCompatible, None, Some("sk-secret")));
    assert_eq!(p.api_key.as_deref(), Some("__local_secret_not_persisted__"));
    let p = mask_api_key(profile(ModelProviderKind::OpenAiCompatible, None, Some("  ")));
    assert!(p.api_key.is_none());
    let p = mask_api_key(profile(ModelProviderKind::OpenAiCompatible, None, None));
    assert!(p.api_key.is_none());
}

#[test]
fn mock_model_uses_last_marked_line() {
    let model = MockStoryModel;
    let prompt = "玩家动作：第一步\n\n其他\n继续剧情：第二步\r\n结尾\n";
    let text = model
        .complete(ModelRequest { system: String::new(), prompt: prompt.to_string(), max_output_chars: 1000 })
        .unwrap()
        .text;
    assert!(text.starts_with("你稳住呼吸，顺着原文里留下的线索往前试探。\n\n继续剧情：第二步\n\n故事没有立刻偏离主线"));
    assert!(!text.contains("第一步"));
}

#[test]
fn mock_model_default_seed_and_truncation() {
    let model = MockStoryModel;
    let text = model
        .complete(ModelRequest { system: String::new(), prompt: "没有标记".to_string(), max_output_chars: 5000 })
        .unwrap()
        .text;
    assert!(text.contains("\n\n玩家选择继续向前。\n\n"));
    let short = model
        .complete(ModelRequest { system: String::new(), prompt: "x".to_string(), max_output_chars: 7 })
        .unwrap()
        .text;
    assert_eq!(short, "你稳住呼吸，顺");
    assert_eq!(short.chars().count(), 7);
}
