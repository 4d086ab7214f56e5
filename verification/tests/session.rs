use spark_cli::errors::ChatError;
use spark_cli::history::{MessageRecord, parse_record_line, record_to_json_line};
use spark_cli::session::{SessionManager, parse_current_marker};
use spark_cli::settings::Settings;
use spark_cli::text::i64_to_string;

#[test]
fn test_create_then_list_single_entry() {
    let mut mgr = SessionManager::new();
    let id = mgr.create_session("x", 1700000000123);
    assert_eq!(id, "1700000000123");
    let list = mgr.list_sessions();
    assert_eq!(list.len(), 1);
    assert_eq!(list[0].name, "x");
    assert_eq!(list[0].id, "1700000000123");
    assert_eq!(list[0].created_ms, 1700000000123);
}

#[test]
fn test_list_sorted_descending() {
    let mut mgr = SessionManager::new();
    mgr.create_session("a", 100);
    mgr.create_session("b", 300);
    mgr.create_session("c", 200);
    let list = mgr.list_sessions();
    assert_eq!(list.len(), 3);
    assert_eq!(list[0].name, "b");
    assert_eq!(list[1].name, "c");
    assert_eq!(list[2].name, "a");
}

#[test]
fn test_append_and_read_back() {
    let mut mgr = SessionManager::new();
    let id = mgr.create_session("chat", 42);
    let rec = MessageRecord {
        role: "user".to_string(),
        content: "hello".to_string(),
        timestamp_ms: 43,
    };
    mgr.append_message(&id, &rec).unwrap();
    let history = mgr.session_history(&id).unwrap();
    assert_eq!(history.len(), 1);
    assert_eq!(history[0].role, "user");
    assert_eq!(history[0].content, "hello");
    assert_eq!(history[0].timestamp_ms, 43);
}

#[test]
fn test_append_to_missing_session_fails() {
    let mut mgr = SessionManager::new();
    let rec = MessageRecord { role: "user".into(), content: "x".into(), timestamp_ms: 1 };
    let r = mgr.append_message("12345", &rec);
    assert!(matches!(r, Err(ChatError::SessionIo { .. })));
}

#[test]
fn test_delete_clears_current() {
    let mut mgr = SessionManager::new();
    let id = mgr.create_session("s", 7);
    mgr.set_current_session_id(&id);
    assert_eq!(mgr.current_session_id().as_deref(), Some("7"));
    mgr.delete_session(&id);
    assert_eq!(mgr.current_session_id(), None);
    assert_eq!(mgr.list_sessions().len(), 0);
}

#[test]
fn test_delete_other_keeps_current() {
    let mut mgr = SessionManager::new();
    let a = mgr.create_session("a", 1);
    let b = mgr.create_session("b", 2);
    mgr.set_current_session_id(&a);
    mgr.delete_session(&b);
    assert_eq!(mgr.current_session_id().as_deref(), Some("1"));
    assert_eq!(mgr.list_sessions().len(), 1);
}

#[test]
fn test_current_marker_parse() {
    assert_eq!(parse_current_marker(" 1700000000123 \n").as_deref(), Some("1700000000123"));
    assert_eq!(parse_current_marker(""), None);
    assert_eq!(parse_current_marker("  \n "), None);
}

#[test]
fn test_record_round_trip() {
    let rec = MessageRecord {
        role: "assistant".to_string(),
        content: "say \"hi\"\nwith\ttabs\\and\u{1}control".to_string(),
        timestamp_ms: -42,
    };
    let line = record_to_json_line(&rec);
    let back = parse_record_line(&line).expect("round trip must parse");
    assert_eq!(back.role, rec.role);
    assert_eq!(back.content, rec.content);
    assert_eq!(back.timestamp_ms, rec.timestamp_ms);
}

#[test]
fn test_record_line_is_valid_json() {
    let rec = MessageRecord {
        role: "user".to_string(),
        content: "hello \u{201c}world\u{201d}".to_string(),
        timestamp_ms: 1700000000123,
    };
    let line = record_to_json_line(&rec);
    let v: serde_json::Value = serde_json::from_str(&line).expect("line must be valid JSON");
    assert_eq!(v["role"], "user");
    assert_eq!(v["content"], "hello \u{201c}world\u{201d}");
    assert_eq!(v["timestamp_ms"], 1700000000123i64);
}

#[test]
fn test_record_round_trip_extremes() {
    for ts in [i64::MIN, -1, 0, 1, i64::MAX] {
        let rec = MessageRecord { role: "r".into(), content: String::new(), timestamp_ms: ts };
        let line = record_to_json_line(&rec);
        let back = parse_record_line(&line).unwrap();
        assert_eq!(back.timestamp_ms, ts);
    }
}

#[test]
fn test_parse_rejects_malformed_lines() {
    assert!(parse_record_line("").is_none());
    assert!(parse_record_line("{}").is_none());
    assert!(parse_record_line("{\"role\":\"user\"}").is_none());
    assert!(parse_record_line("{\"role\":\"u\",\"content\":\"c\",\"timestamp_ms\":1}x").is_none());
}

#[test]
fn test_i64_rendering() {
    assert_eq!(i64_to_string(0), "0");
    assert_eq!(i64_to_string(-1), "-1");
    assert_eq!(i64_to_string(i64::MIN), "-9223372036854775808");
    assert_eq!(i64_to_string(i64::MAX), "9223372036854775807");
}

#[test]
fn test_settings_defaults_and_assignment() {
    let mut s = Settings::default();
    assert_eq!(s.provider, "openrouter");
    assert_eq!(s.api_key, None);
    assert_eq!(s.model.as_deref(), Some("openrouter/auto"));
    assert_eq!(s.base_url, None);
    assert!(s.auto_code_write);
    assert_eq!(s.output_dir.as_deref(), Some("generated"));

    assert!(s.apply_setting("api-key", "sk-1"));
    assert_eq!(s.api_key.as_deref(), Some("sk-1"));
    assert!(s.apply_setting("api_key", "sk-2"));
    assert_eq!(s.api_key.as_deref(), Some("sk-2"));
    assert!(s.apply_setting("provider", "deepseek"));
    assert_eq!(s.provider, "deepseek");
    assert!(!s.apply_setting("nonsense", "v"));
    assert_eq!(s.provider, "deepseek");
}
