use spark_cli::adapter::{
    AdapterKind, interpret_response, plan_request, reconcile_final_text,
};
use spark_cli::errors::ChatError;
use spark_cli::models::ChatMessage;
use spark_cli::wire::{build_endpoint, build_request_body};

#[test]
fn test_complete_returns_message_content() {
    let body = b"{\"choices\":[{\"message\":{\"content\":\"hi\"}}]}";
    let r = interpret_response(200, body);
    assert_eq!(r.unwrap(), "hi");
}

#[test]
fn test_provider_error_carries_status_and_body() {
    let r = interpret_response(429, b"rate limited");
    match r {
        Err(ChatError::Provider { status, body }) => {
            assert_eq!(status, 429);
            assert_eq!(body, "rate limited");
        },
        other => panic!("expected a provider error, got {:?}", other),
    }
}

#[test]
fn test_provider_error_body_is_lossily_decoded() {
    let r = interpret_response(500, b"\xffoops");
    match r {
        Err(ChatError::Provider { status, body }) => {
            assert_eq!(status, 500);
            assert_eq!(body, "\u{fffd}oops");
        },
        other => panic!("expected a provider error, got {:?}", other),
    }
}

#[test]
fn test_malformed_response() {
    let r = interpret_response(200, b"{\"choices\":[]}");
    assert!(matches!(r, Err(ChatError::MalformedResponse)));
    let r2 = interpret_response(200, b"{\"choices\":[{\"delta\":{\"content\":\"x\"}}]}");
    assert!(matches!(r2, Err(ChatError::MalformedResponse)));
}

#[test]
fn test_endpoint_strips_trailing_slash() {
    assert_eq!(build_endpoint("https://x.com/"), "https://x.com/chat/completions");
    assert_eq!(build_endpoint("https://x.com"), "https://x.com/chat/completions");
    assert_eq!(build_endpoint("https://x.com///"), "https://x.com/chat/completions");
}

#[test]
fn test_request_body_shape() {
    let msgs = vec![ChatMessage::user("hello")];
    let body = build_request_body("m1", &msgs, None);
    assert_eq!(body, "{\"model\":\"m1\",\"messages\":[{\"role\":\"user\",\"content\":\"hello\"}]}");
    let streaming = build_request_body("m1", &msgs, Some(true));
    assert_eq!(
        streaming,
        "{\"model\":\"m1\",\"messages\":[{\"role\":\"user\",\"content\":\"hello\"}],\"stream\":true}",
    );
}

#[test]
fn test_request_body_escapes_and_parses() {
    let msgs = vec![
        ChatMessage::new("system", "say \"hi\"\nplease\ttab\\slash"),
        ChatMessage::user("two"),
    ];
    let body = build_request_body("m", &msgs, Some(true));
    let v: serde_json::Value = serde_json::from_str(&body).expect("body must be valid JSON");
    assert_eq!(v["model"], "m");
    assert_eq!(v["stream"], true);
    assert_eq!(v["messages"][0]["role"], "system");
    assert_eq!(v["messages"][0]["content"], "say \"hi\"\nplease\ttab\\slash");
    assert_eq!(v["messages"][1]["content"], "two");
}

#[test]
fn test_plan_request_openrouter() {
    let msgs = vec![ChatMessage::user("q")];
    let plan = plan_request(AdapterKind::OpenRouter, None, "sk-1", None, &msgs, false).unwrap();
    assert_eq!(plan.url, "https://openrouter.ai/api/v1/chat/completions");
    assert!(plan.body.contains("\"model\":\"openrouter/auto\""));
    assert_eq!(plan.headers.len(), 4);
    assert_eq!(plan.headers[0].0, "Authorization");
    assert_eq!(plan.headers[0].1, "Bearer sk-1");
    assert_eq!(plan.headers[1].1, "application/json");
    assert_eq!(plan.headers[2].0, "HTTP-Referer");
    assert_eq!(plan.headers[3].0, "X-Title");
}

#[test]
fn test_plan_request_compat_needs_base_url() {
    let msgs = vec![ChatMessage::user("q")];
    let r = plan_request(AdapterKind::OpenAiCompatible, None, "k", None, &msgs, false);
    assert!(matches!(r, Err(ChatError::Config { .. })));
    let plan = plan_request(
        AdapterKind::OpenAiCompatible,
        Some("https://api.deepseek.com/"),
        "k",
        Some("deepseek-chat"),
        &msgs,
        true,
    )
    .unwrap();
    assert_eq!(plan.url, "https://api.deepseek.com/chat/completions");
    assert!(plan.body.contains("\"stream\":true"));
    assert!(plan.body.contains("\"model\":\"deepseek-chat\""));
    assert_eq!(plan.headers.len(), 2);
}

#[test]
fn test_reconcile_prefers_returned_text() {
    assert_eq!(reconcile_final_text("final".to_string(), "buffer".to_string()), "final");
    assert_eq!(reconcile_final_text(String::new(), "buffer".to_string()), "buffer");
}

#[test]
fn test_provider_error_describe() {
    let e = ChatError::Provider { status: 429, body: "rate limited".to_string() };
    assert_eq!(e.describe(), "Provider error 429: rate limited");
}
