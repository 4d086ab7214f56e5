//! The completion gateway's decisions: which adapter serves a call, what
//! the prompt is, and which credential reaches the transport.

use vstd::prelude::*;
use vstd::string::StrSliceExecFns;
use crate::adapter::{
    AdapterKind, RequestPlan, view_opt_str, spec_effective_model, spec_openrouter_url,
    plan_request,
};
use crate::wire::{spec_request_body, spec_endpoint, spec_base_headers, spec_openrouter_headers};
use crate::errors::ChatError;
use crate::models::ChatMessage;
use crate::wire::push_str_chars;
use crate::secrets::{spec_normalize_key, normalize_api_key};
use crate::text::{
    spec_lower, spec_trim, lower_chars, trim_chars, str_to_chars, chars_eq_str, chars_to_string,
};

verus! {

/// The lower-cased names served by the OpenAI-compatible adapter.
pub open spec fn spec_is_openai_compat_name(l: Seq<char>) -> bool {
    l == "deepseek"@ || l == "qwen"@ || l == "openai"@ || l == "openai-compatible"@
}

/// Which adapter a provider name selects, and whether that choice is the
/// fallback for an unrecognized name (shown to the user as a warning, never
/// an error). The match is ASCII-case-insensitive; an empty name selects
/// the default provider silently.
pub open spec fn spec_resolve_adapter(name: Seq<char>) -> (AdapterKind, bool) {
    let l = spec_lower(name);
    if l == "openrouter"@ || name.len() == 0 {
        (AdapterKind::OpenRouter, false)
    } else if spec_is_openai_compat_name(l) {
        (AdapterKind::OpenAiCompatible, false)
    } else {
        (AdapterKind::OpenRouter, true)
    }
}

/// Resolves a provider name to an adapter, with the fallback flag.
pub fn resolve_adapter(name: &str) -> (r: (AdapterKind, bool))
    ensures
        r == spec_resolve_adapter(name@),
{
    let chars = str_to_chars(name);
    let l = lower_chars(&chars);
    if chars_eq_str(&l, "openrouter") || chars.len() == 0 {
        (AdapterKind::OpenRouter, false)
    } else if chars_eq_str(&l, "deepseek") || chars_eq_str(&l, "qwen") || chars_eq_str(&l, "openai")
        || chars_eq_str(&l, "openai-compatible") {
        (AdapterKind::OpenAiCompatible, false)
    } else {
        (AdapterKind::OpenRouter, true)
    }
}

/// Resolves the prompt: a supplied input file's trimmed contents win over
/// the literal argument, and a call without non-whitespace content from
/// either source fails with the empty-prompt error.
pub fn resolve_prompt(file_contents: Option<&str>, arg: Option<&str>) -> (r: Result<
    String,
    ChatError,
>)
    ensures
        file_contents matches Some(f) ==> (if spec_trim(f@).len() > 0 {
            r matches Ok(p) && p@ == spec_trim(f@)
        } else {
            r matches Err(e) && e is EmptyPrompt
        }),
        file_contents is None ==> (match arg {
            Some(a) => if spec_trim(a@).len() > 0 {
                r matches Ok(p) && p@ == a@
            } else {
                r matches Err(e) && e is EmptyPrompt
            },
            None => r matches Err(e) && e is EmptyPrompt,
        }),
{
    match file_contents {
        Some(f) => {
            let chars = str_to_chars(f);
            let t = trim_chars(&chars);
            if t.len() > 0 {
                Ok(chars_to_string(&t))
            } else {
                Err(ChatError::EmptyPrompt)
            }
        },
        None => match arg {
            Some(a) => {
                let chars = str_to_chars(a);
                let t = trim_chars(&chars);
                if t.len() > 0 {
                    Ok(a.to_owned())
                } else {
                    Err(ChatError::EmptyPrompt)
                }
            },
            None => Err(ChatError::EmptyPrompt),
        },
    }
}

/// Which raw credential a call uses: the configured key wins over the
/// environment's.
pub open spec fn spec_chosen_key(config: Option<Seq<char>>, env: Option<Seq<char>>) -> Option<
    Seq<char>,
> {
    match config {
        Some(k) => Some(k),
        None => env,
    }
}

/// Resolves the credential: configuration first, then the environment
/// fallback, normalized before use. A call with no source, or whose
/// normalized key is empty, fails before any network I/O.
pub fn resolve_credential(config_key: Option<&str>, env_key: Option<&str>) -> (r: Result<
    String,
    ChatError,
>)
    ensures
        match spec_chosen_key(view_opt_str(config_key), view_opt_str(env_key)) {
            Some(k) => if spec_normalize_key(k).len() > 0 {
                r matches Ok(s) && s@ == spec_normalize_key(k)
            } else {
                r matches Err(e) && e is MissingCredential
            },
            None => r matches Err(e) && e is MissingCredential,
        },
{
    let raw = match config_key {
        Some(k) => k,
        None => match env_key {
            Some(k) => k,
            None => {
                return Err(ChatError::MissingCredential);
            },
        },
    };
    let key = normalize_api_key(raw);
    if key.as_str().unicode_len() > 0 {
        Ok(key)
    } else {
        Err(ChatError::MissingCredential)
    }
}

/// The model a call asks for before the adapter's default applies: the
/// runtime override wins over the configured model.
pub open spec fn spec_model_choice(over: Option<Seq<char>>, configured: Option<Seq<char>>) -> Option<Seq<char>> {
    match over {
        Some(m) => Some(m),
        None => configured,
    }
}

/// Everything the gateway decides before the network for one call: the
/// credential (configuration over environment, normalized, non-empty), the
/// adapter for the provider name (with the fallback flag the caller shows
/// as a warning), the effective model, and the full request plan.
pub fn plan_call(
    provider_name: &str,
    config_key: Option<&str>,
    env_key: Option<&str>,
    base_url: Option<&str>,
    model_override: Option<&str>,
    configured_model: Option<&str>,
    messages: &Vec<crate::models::ChatMessage>,
    stream: bool,
) -> (r: Result<(RequestPlan, bool), ChatError>)
    ensures
        ({
            let ck = spec_chosen_key(view_opt_str(config_key), view_opt_str(env_key));
            let ad = spec_resolve_adapter(provider_name@);
            let model = spec_effective_model(
                ad.0,
                spec_model_choice(view_opt_str(model_override), view_opt_str(configured_model)),
            );
            let body = spec_request_body(
                model,
                messages@.map_values(|m: crate::models::ChatMessage| m@),
                if stream {
                    Some(true)
                } else {
                    None
                },
            );
            match ck {
                None => r matches Err(e) && e is MissingCredential,
                Some(kraw) => {
                    let k = spec_normalize_key(kraw);
                    if k.len() == 0 {
                        r matches Err(e) && e is MissingCredential
                    } else if ad.0 is OpenRouter {
                        r matches Ok(p) && p.1 == ad.1 && p.0@.url == spec_openrouter_url()
                            && p.0@.headers == spec_openrouter_headers(k) && p.0@.body == body
                    } else {
                        match base_url {
                            None => r matches Err(e) && e is Config,
                            Some(b) => r matches Ok(p) && p.1 == ad.1 && p.0@.url
                                == spec_endpoint(b@) && p.0@.headers == spec_base_headers(k)
                                && p.0@.body == body,
                        }
                    }
                },
            }
        }),
{
    let api_key = match resolve_credential(config_key, env_key) {
        Ok(k) => k,
        Err(e) => {
            return Err(e);
        },
    };
    let (adapter, fallback) = resolve_adapter(provider_name);
    let model = match model_override {
        Some(m) => Some(m),
        None => configured_model,
    };
    let plan = match plan_request(adapter, base_url, api_key.as_str(), model, messages, stream) {
        Ok(p) => p,
        Err(e) => {
            return Err(e);
        },
    };
    Ok((plan, fallback))
}

// ---------------------------------------------------------------------------
// Canned conversations for the code commands
// ---------------------------------------------------------------------------

/// The two messages a code-generation call sends: a system brief naming the
/// language and the kind of program, and a fixed user request.
pub fn build_generate_messages(lang: &str, kind: &str) -> (r: Vec<ChatMessage>)
    ensures
        r@.len() == 2,
        r@[0]@.role == "system"@,
        r@[0]@.content == "You are a senior software engineer. Create a minimal, runnable example in "@
            + lang@ + " for a "@ + kind@
            + ". Include clear comments and dependency instructions. If multiple files are required, consolidate into a single-file presentation."@,
        r@[1]@.role == "user"@,
        r@[1]@.content == "Provide the implementation and a brief usage guide."@,
{
    let mut sys: Vec<char> = Vec::new();
    push_str_chars(
        &mut sys,
        "You are a senior software engineer. Create a minimal, runnable example in ",
    );
    push_str_chars(&mut sys, lang);
    push_str_chars(&mut sys, " for a ");
    push_str_chars(&mut sys, kind);
    push_str_chars(
        &mut sys,
        ". Include clear comments and dependency instructions. If multiple files are required, consolidate into a single-file presentation.",
    );
    let system = ChatMessage::new("system", crate::text::chars_to_string(&sys).as_str());
    let user = ChatMessage::new("user", "Provide the implementation and a brief usage guide.");
    let mut r: Vec<ChatMessage> = Vec::new();
    r.push(system);
    r.push(user);
    r
}

/// The two messages a code-critique call sends: a fixed critic brief, and
/// the file named and quoted in a fence.
pub fn build_review_messages(file: &str, code: &str) -> (r: Vec<ChatMessage>)
    ensures
        r@.len() == 2,
        r@[0]@.role == "system"@,
        r@[0]@.content == "You are a rigorous and friendly code critic. Identify issues, risks, and improvements, and provide refactoring examples when necessary."@,
        r@[1]@.role == "user"@,
        r@[1]@.content == "Please critique the following file "@ + file@ + ":\n\n```\n"@ + code@
            + "\n```"@,
{
    let system = ChatMessage::new(
        "system",
        "You are a rigorous and friendly code critic. Identify issues, risks, and improvements, and provide refactoring examples when necessary.",
    );
    let mut u: Vec<char> = Vec::new();
    push_str_chars(&mut u, "Please critique the following file ");
    push_str_chars(&mut u, file);
    push_str_chars(&mut u, ":\n\n```\n");
    push_str_chars(&mut u, code);
    push_str_chars(&mut u, "\n```");
    let user = ChatMessage::new("user", crate::text::chars_to_string(&u).as_str());
    let mut r: Vec<ChatMessage> = Vec::new();
    r.push(system);
    r.push(user);
    r
}

/// The two messages a code-optimization call sends: a fixed performance
/// brief, and the file named and quoted in a fence.
pub fn build_optimize_messages(file: &str, code: &str) -> (r: Vec<ChatMessage>)
    ensures
        r@.len() == 2,
        r@[0]@.role == "system"@,
        r@[0]@.content == "You are a senior performance engineer. Optimize performance, readability, and error handling without changing semantics. Provide step-by-step suggestions and a final refactored version."@,
        r@[1]@.role == "user"@,
        r@[1]@.content == "Please optimize the following code "@ + file@ + ":\n\n```\n"@ + code@
            + "\n```"@,
{
    let system = ChatMessage::new(
        "system",
        "You are a senior performance engineer. Optimize performance, readability, and error handling without changing semantics. Provide step-by-step suggestions and a final refactored version.",
    );
    let mut u: Vec<char> = Vec::new();
    push_str_chars(&mut u, "Please optimize the following code ");
    push_str_chars(&mut u, file);
    push_str_chars(&mut u, ":\n\n```\n");
    push_str_chars(&mut u, code);
    push_str_chars(&mut u, "\n```");
    let user = ChatMessage::new("user", crate::text::chars_to_string(&u).as_str());
    let mut r: Vec<ChatMessage> = Vec::new();
    r.push(system);
    r.push(user);
    r
}

} // verus!
