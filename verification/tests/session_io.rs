use rneter::json::{encode_json, parse_json, Json};
use rneter::params::{matches_connection_params, SessionFingerprint};
use rneter::security::ConnectionSecurityOptions;
use rneter::session::{clean_output_content, strip_line_artifacts};
use rneter::templates::{by_name, diagnose_all_templates_json, diagnose_template_json};

#[test]
fn clean_output_strips_echo_and_trailing_prompt() {
    let raw = "show version\nVersion 1.0\nrouter#";
    let content = clean_output_content("show version", raw);
    assert_eq!(content, "Version 1.0");
}

#[test]
fn clean_output_without_echo_keeps_leading_text() {
    let raw = "Version 1.0\nrouter#";
    let content = clean_output_content("show clock", raw);
    assert_eq!(content, "Version 1.0");
}

#[test]
fn clean_output_of_prompt_only_capture_is_empty() {
    let content = clean_output_content("", "router#");
    assert_eq!(content, "");
}

#[test]
fn strip_line_artifacts_removes_carriage_return_runs() {
    assert_eq!(strip_line_artifacts("\r\r  \rreal text"), "real text");
    assert_eq!(strip_line_artifacts("\u{8}\u{8} \u{8}rest"), "rest");
    assert_eq!(strip_line_artifacts("plain"), "plain");
    // the run must end at the last marker, not swallow later spaces
    assert_eq!(strip_line_artifacts("\r  indented"), "  indented");
}

#[test]
fn json_codec_roundtrips_nested_values() {
    let v = Json::JObj(vec![
        ("a".to_string(), Json::JNum(7)),
        (
            "b".to_string(),
            Json::JArr(vec![Json::JNull, Json::JBool(true), Json::JStr("x\ny".to_string())]),
        ),
    ]);
    let text = encode_json(&v);
    let parsed = parse_json(&text).expect("parse back");
    let reencoded = encode_json(&parsed);
    assert_eq!(text, reencoded);
}

#[test]
fn json_parser_decodes_unicode_escapes() {
    let parsed = parse_json(r#"{"s":"tab\u0009end"}"#).expect("parse");
    match parsed {
        Json::JObj(fields) => match &fields[0].1 {
            Json::JStr(s) => assert_eq!(s, "tab\tend"),
            other => panic!("unexpected value: {:?}", encode_json(other)),
        },
        other => panic!("unexpected value: {:?}", encode_json(&other)),
    }
}

#[test]
fn json_parser_rejects_trailing_garbage() {
    assert!(parse_json("{}x").is_none());
    assert!(parse_json("").is_none());
}

#[test]
fn matching_parameters_allow_cache_reuse() {
    let handler = by_name("cisco").expect("template");
    let same_handler = by_name("cisco").expect("template");
    let security = ConnectionSecurityOptions::secure_default();
    let fp = SessionFingerprint::capture("s3cret", &None, security);
    assert!(matches_connection_params(
        &fp,
        &handler,
        "s3cret",
        &None,
        &same_handler,
        &security
    ));
}

#[test]
fn changed_password_blocks_cache_reuse() {
    let handler = by_name("cisco").expect("template");
    let security = ConnectionSecurityOptions::secure_default();
    let fp = SessionFingerprint::capture("s3cret", &None, security);
    assert!(!matches_connection_params(
        &fp,
        &handler,
        "different",
        &None,
        &handler,
        &security
    ));
}

#[test]
fn changed_security_profile_blocks_cache_reuse() {
    let handler = by_name("cisco").expect("template");
    let secure = ConnectionSecurityOptions::secure_default();
    let legacy = ConnectionSecurityOptions::legacy_compatible();
    let fp = SessionFingerprint::capture("s3cret", &None, secure);
    assert!(!matches_connection_params(
        &fp,
        &handler,
        "s3cret",
        &None,
        &handler,
        &legacy
    ));
}

#[test]
fn different_template_blocks_cache_reuse() {
    let cisco = by_name("cisco").expect("template");
    let huawei = by_name("huawei").expect("template");
    let security = ConnectionSecurityOptions::secure_default();
    let fp = SessionFingerprint::capture("s3cret", &None, security);
    assert!(!matches_connection_params(
        &fp,
        &cisco,
        "s3cret",
        &None,
        &huawei,
        &security
    ));
}

#[test]
fn diagnose_template_json_returns_valid_json() {
    let json = diagnose_template_json("cisco").expect("json diagnostics");
    let value: serde_json::Value = serde_json::from_str(&json).expect("parse diagnostics json");
    assert!(value.get("total_states").is_some());
    assert!(value.get("missing_edge_sources").is_some());
}

#[test]
fn diagnose_all_templates_json_includes_builtin_template_keys() {
    let json = diagnose_all_templates_json().expect("all diagnostics json");
    let value: serde_json::Value = serde_json::from_str(&json).expect("parse json");
    for name in ["cisco", "huawei", "h3c", "hillstone", "juniper", "array"] {
        assert!(value.get(name).is_some(), "missing template key: {name}");
    }
}

#[test]
fn array_template_plans_sys_switch_with_substitution() {
    let mut handler = by_name("array").expect("array template");
    handler.read("box#");
    assert_eq!(handler.current_state(), "enable");
    let sys = "site1".to_string();
    let plan = handler
        .trans_state_write("vsiteconfig", Some(&sys))
        .expect("plan to vsite config");
    assert_eq!(
        plan,
        vec![
            ("switch site1".to_string(), "vsiteenable".to_string()),
            ("configure terminal".to_string(), "vsiteconfig".to_string()),
        ]
    );
}
