use dahuang_dog::ai::{
    clear_api_key, credential_saved, has_api_key, normalize_api_key, parse_diagnosis, read_api_key, response_json,
    reply_span_ok, save_api_key, status, validate_api_key, validate_model, StoredCredential,
};

#[test]
fn parses_json_after_reasoning_block() {
    let text = response_json("<think>private reasoning</think>\n{\"summary\":\"正常\",\"details\":[],\"suggestions\":[],\"confidence\":\"high\"}").unwrap();
    let parsed: serde_json::Value = serde_json::from_str(&text).unwrap();
    assert_eq!(parsed["summary"], "正常");
}

#[test]
fn model_allowlist_rejects_unexpected_values() {
    assert!(validate_model("MiniMax-M2.7").is_ok());
    assert!(validate_model("custom-model").is_err());
}

#[test]
fn normalizes_pasted_bearer_prefix_and_quotes() {
    assert_eq!(normalize_api_key("  \"Bearer sk-test-1234567890\"  ").unwrap(), "sk-test-1234567890");
    assert!(normalize_api_key("sk-test 1234567890").is_err());
}

#[test]
fn every_listed_model_is_accepted() {
    for model in ["MiniMax-M2.7", "MiniMax-M2.7-highspeed", "MiniMax-M2.5", "MiniMax-M2.5-highspeed"] {
        assert!(validate_model(model).is_ok());
    }
    assert_eq!(validate_model("minimax-m2.7").unwrap_err(), "不支持的 MiniMax 模型");
}

#[test]
fn api_key_length_bounds() {
    assert!(validate_api_key(&"k".repeat(15)).is_err());
    assert!(validate_api_key(&"k".repeat(16)).is_ok());
    assert!(validate_api_key(&"k".repeat(2500)).is_ok());
    assert_eq!(validate_api_key(&"k".repeat(2501)).unwrap_err(), "MiniMax API Key 格式不正确");
}

#[test]
fn short_normalized_key_reports_format_error() {
    assert_eq!(normalize_api_key("Bearer abc").unwrap_err(), "MiniMax API Key 格式不正确");
    assert_eq!(
        normalize_api_key("sk-test 1234567890").unwrap_err(),
        "API Key 中包含空格或换行，请只粘贴密钥本身"
    );
}

#[test]
fn reply_without_json_is_refused() {
    assert_eq!(response_json("<think>only thoughts</think> no braces").unwrap_err(), "MiniMax 返回内容缺少 JSON");
    assert_eq!(response_json("prefix {\"a\":1} suffix").unwrap(), "{\"a\":1}");
}

#[test]
fn reply_json_becomes_a_diagnosis() {
    let content = "<think>x</think>{\"summary\":\"内存压力大\",\"details\":[\"a\",1,\"b\"],\"suggestions\":\"no\",\"confidence\":\"high\"}";
    let d = parse_diagnosis("MiniMax-M2.7", content).unwrap();
    assert_eq!(d.summary, "内存压力大");
    assert_eq!(d.details, vec!["a".to_string(), "b".to_string()]);
    assert!(d.suggestions.is_empty());
    assert_eq!(d.confidence, "high");
    assert_eq!(d.source, "minimax");
    assert_eq!(d.model.as_deref(), Some("MiniMax-M2.7"));
    assert_eq!(
        parse_diagnosis("MiniMax-M2.7", "{not json}").unwrap_err(),
        "MiniMax 返回内容格式不正确"
    );
}

#[test]
fn credential_records_and_status() {
    let record = save_api_key(&StoredCredential::Missing, " 'Bearer sk-test-1234567890' ").unwrap();
    assert_eq!(record.secret, b"sk-test-1234567890".to_vec());
    assert_eq!(record.target, "DahuangDog/MiniMaxApiKey".encode_utf16().chain(Some(0)).collect::<Vec<u16>>());
    assert_eq!(record.user_name, "MiniMax API".encode_utf16().chain(Some(0)).collect::<Vec<u16>>());
    assert!(save_api_key(&StoredCredential::Missing, "short").is_err());
    assert_eq!(
        save_api_key(&StoredCredential::Unsupported, "sk-test-1234567890").err().unwrap(),
        "MiniMax 凭据管理仅支持 Windows"
    );
    assert!(credential_saved(true).unwrap().configured);
    assert_eq!(credential_saved(false).unwrap_err(), "无法将 API Key 保存到 Windows 凭据管理器");
    let present = StoredCredential::Present("sk-test-1234567890".into());
    assert!(has_api_key(&present));
    assert!(status(&present).configured);
    assert!(!has_api_key(&StoredCredential::Missing));
    assert_eq!(read_api_key(&StoredCredential::Missing).unwrap_err(), "尚未配置 MiniMax API Key");
    assert_eq!(read_api_key(&StoredCredential::Unsupported).unwrap_err(), "MiniMax 凭据管理仅支持 Windows");
    assert_eq!(clear_api_key(false, &present).unwrap_err(), "无法从 Windows 凭据管理器删除 API Key");
    assert!(!clear_api_key(false, &StoredCredential::Missing).unwrap().configured);
    assert!(!clear_api_key(true, &present).unwrap().configured);
    assert_eq!(clear_api_key(false, &StoredCredential::Unsupported).unwrap_err(), "MiniMax 凭据管理仅支持 Windows");
}

#[test]
fn reply_with_closing_brace_just_before_opening_gives_the_format_error() {
    assert_eq!(response_json("}{").unwrap(), "");
    assert_eq!(parse_diagnosis("MiniMax-M2.7", "}{").unwrap_err(), "MiniMax 返回内容格式不正确");
}

#[test]
fn reply_span_check_matches_what_can_be_cut() {
    assert!(reply_span_ok("{\"summary\":\"x\"}"));
    assert!(reply_span_ok("}{"));
    assert!(reply_span_ok("no braces"));
    assert!(reply_span_ok("<think>} x {</think>{}"));
    assert!(!reply_span_ok("} x {"));
}
