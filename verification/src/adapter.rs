//! Provider adapters: building the wire request for one call and
//! interpreting what comes back.
//!
//! The network send itself is the caller's (an HTTP transport performs the
//! plan); everything decided here — endpoint, headers, body, how a status
//! and body become a result — is verified.

use vstd::prelude::*;
use vstd::string::StrSliceExecFns;
use crate::errors::ChatError;
use crate::extract::{message_content_of, lossy_text_of, extract_message_content, bytes_to_text};
use crate::models::ChatMessage;
use crate::wire::{
    spec_request_body, spec_endpoint, spec_base_headers, spec_openrouter_headers,
    build_request_body, build_endpoint, build_base_headers, build_openrouter_headers,
};

verus! {

/// The two adapter families: OpenRouter's fixed endpoint, or any
/// OpenAI-compatible backend reached through a configured base URL.
#[derive(Debug, Clone, Copy, PartialEq, Eq, Structural)]
pub enum AdapterKind {
    OpenRouter,
    OpenAiCompatible,
}

/// The model sent when the caller supplies none.
pub open spec fn spec_default_model(kind: AdapterKind) -> Seq<char> {
    match kind {
        AdapterKind::OpenRouter => "openrouter/auto"@,
        AdapterKind::OpenAiCompatible => ""@,
    }
}

/// The model a call effectively uses.
pub open spec fn spec_effective_model(kind: AdapterKind, m: Option<Seq<char>>) -> Seq<char> {
    match m {
        Some(s) => s,
        None => spec_default_model(kind),
    }
}

/// The view of an optional string argument.
pub open spec fn view_opt_str(m: Option<&str>) -> Option<Seq<char>> {
    match m {
        Some(s) => Some(s@),
        None => None,
    }
}

/// OpenRouter's fixed completions endpoint.
pub open spec fn spec_openrouter_url() -> Seq<char> {
    "https://openrouter.ai/api/v1/chat/completions"@
}

/// Mathematical model of one planned request.
pub ghost struct RequestPlanView {
    pub url: Seq<char>,
    pub headers: Seq<(Seq<char>, Seq<char>)>,
    pub body: Seq<char>,
}

/// Everything the transport needs to perform one call: the URL, the headers
/// as plain name/value pairs, and the JSON body.
#[derive(Debug)]
pub struct RequestPlan {
    pub url: String,
    pub headers: Vec<(String, String)>,
    pub body: String,
}

impl View for RequestPlan {
    type V = RequestPlanView;

    open spec fn view(&self) -> RequestPlanView {
        RequestPlanView {
            url: self.url@,
            headers: self.headers@.map_values(|h: (String, String)| (h.0@, h.1@)),
            body: self.body@,
        }
    }
}

/// Builds the request one adapter sends: endpoint, required headers, and
/// the JSON body with the effective model and, when streaming, the stream
/// flag. An OpenAI-compatible call without a configured base URL fails
/// before any network I/O.
pub fn plan_request(
    kind: AdapterKind,
    base_url: Option<&str>,
    api_key: &str,
    model: Option<&str>,
    messages: &Vec<ChatMessage>,
    stream: bool,
) -> (r: Result<RequestPlan, ChatError>)
    ensures
        kind is OpenAiCompatible ==> (match base_url {
            None => r matches Err(e) && e is Config,
            Some(b) => r matches Ok(p) && p@.url == spec_endpoint(b@) && p@.headers
                == spec_base_headers(api_key@) && p@.body == spec_request_body(
                spec_effective_model(kind, view_opt_str(model)),
                messages@.map_values(|m: ChatMessage| m@),
                if stream {
                    Some(true)
                } else {
                    None
                },
            ),
        }),
        kind is OpenRouter ==> (r matches Ok(p) && p@.url == spec_openrouter_url() && p@.headers
            == spec_openrouter_headers(api_key@) && p@.body == spec_request_body(
            spec_effective_model(kind, view_opt_str(model)),
            messages@.map_values(|m: ChatMessage| m@),
            if stream {
                Some(true)
            } else {
                None
            },
        )),
{
    let stream_flag: Option<bool> = if stream {
        Some(true)
    } else {
        None
    };
    match kind {
        AdapterKind::OpenRouter => {
            let body = match model {
                Some(m) => build_request_body(m, messages, stream_flag),
                None => build_request_body("openrouter/auto", messages, stream_flag),
            };
            let headers = build_openrouter_headers(api_key);
            let url = "https://openrouter.ai/api/v1/chat/completions".to_owned();
            Ok(RequestPlan { url, headers, body })
        },
        AdapterKind::OpenAiCompatible => {
            match base_url {
                None => Err(
                    ChatError::Config {
                        detail:
                            "Missing base_url in config for OpenAI-compatible provider".to_owned(),
                    },
                ),
                Some(b) => {
                    let body = match model {
                        Some(m) => build_request_body(m, messages, stream_flag),
                        None => build_request_body("", messages, stream_flag),
                    };
                    let headers = build_base_headers(api_key);
                    let url = build_endpoint(b);
                    Ok(RequestPlan { url, headers, body })
                },
            }
        },
    }
}

/// Turns an HTTP status and body into the blocking call's result: a non-2xx
/// status is a provider error carrying the status and the body text; a 2xx
/// body must hold `choices[0].message.content`, which becomes the answer,
/// and anything else is a malformed response.
pub fn interpret_response(status: u16, body: &[u8]) -> (r: Result<String, ChatError>)
    ensures
        200 <= status < 300 ==> match message_content_of(body@) {
            Some(t) => r matches Ok(s) && s@ == t,
            None => r matches Err(e) && e is MalformedResponse,
        },
        !(200 <= status < 300) ==> (r matches Err(e) && e matches ChatError::Provider {
            status: st,
            body: b,
        } && st == status && b@ == lossy_text_of(body@)),
{
    if 200 <= status && status < 300 {
        match extract_message_content(body) {
            Some(s) => Ok(s),
            None => Err(ChatError::MalformedResponse),
        }
    } else {
        Err(ChatError::Provider { status, body: bytes_to_text(body) })
    }
}

/// What a streaming call finally returns: the adapter's own final text when
/// it sent one, otherwise the locally accumulated fragment buffer.
pub open spec fn spec_reconcile(content: Seq<char>, buffer: Seq<char>) -> Seq<char> {
    if content.len() == 0 {
        buffer
    } else {
        content
    }
}

/// Reconciles the adapter's returned text with the accumulated buffer.
pub fn reconcile_final_text(content: String, buffer: String) -> (r: String)
    ensures
        r@ == spec_reconcile(content@, buffer@),
{
    if content.as_str().unicode_len() == 0 {
        buffer
    } else {
        content
    }
}

} // verus!
