//! Known provider identifiers.

use vstd::prelude::*;
use crate::text::{spec_lower, lower_chars, str_to_chars, chars_eq_str};

verus! {

/// The providers this client knows by name.
#[derive(Debug, Clone, PartialEq, Eq, Structural)]
pub enum Provider {
    OpenAI,
    Anthropic,
    Google,
    Ollama,
    OpenRouter,
}

/// The provider a name resolves to: an ASCII-case-insensitive match, with
/// OpenRouter as the fallback for anything unrecognized.
pub open spec fn spec_provider_from(v: Seq<char>) -> Provider {
    let l = spec_lower(v);
    if l == "openai"@ {
        Provider::OpenAI
    } else if l == "anthropic"@ {
        Provider::Anthropic
    } else if l == "google"@ {
        Provider::Google
    } else if l == "ollama"@ {
        Provider::Ollama
    } else {
        Provider::OpenRouter
    }
}

impl Provider {
    /// Case-insensitive provider lookup; unrecognized names fall back to
    /// OpenRouter.
    pub fn from_str(value: &str) -> (r: Provider)
        ensures
            r == spec_provider_from(value@),
    {
        let chars = str_to_chars(value);
        let l = lower_chars(&chars);
        if chars_eq_str(&l, "openai") {
            Provider::OpenAI
        } else if chars_eq_str(&l, "anthropic") {
            Provider::Anthropic
        } else if chars_eq_str(&l, "google") {
            Provider::Google
        } else if chars_eq_str(&l, "ollama") {
            Provider::Ollama
        } else {
            Provider::OpenRouter
        }
    }
}

} // verus!
