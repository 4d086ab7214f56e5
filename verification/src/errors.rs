//! The library's error taxonomy.

use vstd::prelude::*;
use vstd::string::StringExecFns;

verus! {

/// Everything that can go wrong while resolving, sending or recording a chat
/// completion.
#[derive(Debug, Clone)]
pub enum ChatError {
    /// Transport-level failure before any response was received; carries a
    /// description of the underlying cause.
    Network { detail: String },
    /// The provider answered with a non-2xx HTTP status; carries the numeric
    /// status and the raw response body text (empty when unreadable).
    Provider { status: u16, body: String },
    /// A 2xx response whose JSON shape lacks the expected content fields.
    MalformedResponse,
    /// Neither the configuration nor the environment yielded a usable API key.
    MissingCredential,
    /// Neither an input file nor the prompt argument yielded non-whitespace
    /// content.
    EmptyPrompt,
    /// A session-log operation failed; carries a description.
    SessionIo { detail: String },
    /// The persisted settings are unusable for the requested call; carries a
    /// description.
    Config { detail: String },
}

impl ChatError {
    /// A single descriptive line for the error channel.
    pub fn describe(&self) -> String {
        match self {
            ChatError::Network { detail } => {
                let mut s = String::new();
                s.append("Network error: ");
                s.append(detail.as_str());
                s
            },
            ChatError::Provider { status, body } => {
                let mut s = String::new();
                s.append("Provider error ");
                let code = crate::text::i64_to_string(*status as i64);
                s.append(code.as_str());
                s.append(": ");
                s.append(body.as_str());
                s
            },
            ChatError::MalformedResponse => {
                let mut s = String::new();
                s.append("Response has no content");
                s
            },
            ChatError::MissingCredential => {
                let mut s = String::new();
                s.append(
                    "API key is not set. Use `config set api-key ...` or set env OPENROUTER_API_KEY",
                );
                s
            },
            ChatError::EmptyPrompt => {
                let mut s = String::new();
                s.append("Prompt is empty. Provide text or use interactive/chat mode.");
                s
            },
            ChatError::SessionIo { detail } => {
                let mut s = String::new();
                s.append("Session error: ");
                s.append(detail.as_str());
                s
            },
            ChatError::Config { detail } => {
                let mut s = String::new();
                s.append(detail.as_str());
                s
            },
        }
    }
}

} // verus!
