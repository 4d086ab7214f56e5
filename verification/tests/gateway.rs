use spark_cli::adapter::AdapterKind;
use spark_cli::errors::ChatError;
use spark_cli::gateway::{
    build_generate_messages, build_review_messages, build_optimize_messages, plan_call,
    resolve_adapter, resolve_credential, resolve_prompt,
};
use spark_cli::providers::Provider;
use spark_cli::secrets::normalize_api_key;

#[test]
fn test_empty_prompt_is_rejected() {
    assert!(matches!(resolve_prompt(None, Some("   \t\n")), Err(ChatError::EmptyPrompt)));
    assert!(matches!(resolve_prompt(None, None), Err(ChatError::EmptyPrompt)));
    assert!(matches!(resolve_prompt(Some("  \n "), None), Err(ChatError::EmptyPrompt)));
}

#[test]
fn test_prompt_file_wins_and_is_trimmed() {
    let p = resolve_prompt(Some("  from file \n"), Some("argument")).unwrap();
    assert_eq!(p, "from file");
    let q = resolve_prompt(None, Some(" padded argument ")).unwrap();
    assert_eq!(q, " padded argument ");
}

#[test]
fn test_credential_precedence_and_normalization() {
    assert_eq!(resolve_credential(Some("\"sk-cfg\""), Some("sk-env")).unwrap(), "sk-cfg");
    assert_eq!(resolve_credential(None, Some("  sk-env  ")).unwrap(), "sk-env");
    assert!(matches!(resolve_credential(None, None), Err(ChatError::MissingCredential)));
    assert!(matches!(resolve_credential(Some("   "), None), Err(ChatError::MissingCredential)));
}

#[test]
fn test_normalize_api_key_strips_quotes_and_whitespace() {
    assert_eq!(normalize_api_key("  \"sk-123\"  "), "sk-123");
    assert_eq!(normalize_api_key("'sk-x'"), "sk-x");
    assert_eq!(normalize_api_key("\u{201c}sk-y\u{201d}"), "sk-y");
    assert_eq!(normalize_api_key("\u{2018}'\"sk-z\"'\u{2019}"), "sk-z");
    assert_eq!(normalize_api_key("\" inner \""), "inner");
    assert_eq!(normalize_api_key("plain"), "plain");
    // A lone quote survives: stripping stops at one remaining character.
    assert_eq!(normalize_api_key("\"\""), "\"");
}

#[test]
fn test_resolve_adapter_names() {
    assert_eq!(resolve_adapter("openrouter"), (AdapterKind::OpenRouter, false));
    assert_eq!(resolve_adapter("OpenRouter"), (AdapterKind::OpenRouter, false));
    assert_eq!(resolve_adapter(""), (AdapterKind::OpenRouter, false));
    assert_eq!(resolve_adapter("DeepSeek"), (AdapterKind::OpenAiCompatible, false));
    assert_eq!(resolve_adapter("qwen"), (AdapterKind::OpenAiCompatible, false));
    assert_eq!(resolve_adapter("openai"), (AdapterKind::OpenAiCompatible, false));
    assert_eq!(resolve_adapter("openai-compatible"), (AdapterKind::OpenAiCompatible, false));
    assert_eq!(resolve_adapter("anthropic"), (AdapterKind::OpenRouter, true));
}

#[test]
fn test_provider_from_str() {
    assert_eq!(Provider::from_str("OpenAI"), Provider::OpenAI);
    assert_eq!(Provider::from_str("anthropic"), Provider::Anthropic);
    assert_eq!(Provider::from_str("GOOGLE"), Provider::Google);
    assert_eq!(Provider::from_str("ollama"), Provider::Ollama);
    assert_eq!(Provider::from_str("openrouter"), Provider::OpenRouter);
    assert_eq!(Provider::from_str("something-else"), Provider::OpenRouter);
}

#[test]
fn test_code_command_messages() {
    let gen = build_generate_messages("rust", "web server");
    assert_eq!(gen.len(), 2);
    assert_eq!(gen[0].role, "system");
    assert!(gen[0].content.contains("runnable example in rust for a web server"));
    assert_eq!(gen[1].role, "user");

    let rev = build_review_messages("lib.rs", "fn a() {}");
    assert_eq!(rev[1].content, "Please critique the following file lib.rs:\n\n```\nfn a() {}\n```");

    let opt = build_optimize_messages("lib.rs", "fn a() {}");
    assert_eq!(
        opt[1].content,
        "Please optimize the following code lib.rs:\n\n```\nfn a() {}\n```",
    );
}

#[test]
fn test_plan_call_composition() {
    let msgs = vec![spark_cli::models::ChatMessage::user("q")];
    // Unrecognized provider: fallback to OpenRouter, flagged for a warning.
    let (plan, fallback) =
        plan_call("mystery", Some("\"sk\""), None, None, None, Some("m1"), &msgs, false).unwrap();
    assert!(fallback);
    assert_eq!(plan.url, "https://openrouter.ai/api/v1/chat/completions");
    assert_eq!(plan.headers[0].1, "Bearer sk");
    assert!(plan.body.contains("\"model\":\"m1\""));
    // No credential from either source.
    let r = plan_call("openrouter", None, None, None, None, None, &msgs, false);
    assert!(matches!(r, Err(ChatError::MissingCredential)));
    // The override wins over the configured model.
    let (plan2, _) = plan_call(
        "deepseek",
        None,
        Some("sk-env"),
        Some("https://d.example/"),
        Some("override"),
        Some("configured"),
        &msgs,
        true,
    )
    .unwrap();
    assert_eq!(plan2.url, "https://d.example/chat/completions");
    assert!(plan2.body.contains("\"model\":\"override\""));
    assert!(plan2.body.contains("\"stream\":true"));
}
