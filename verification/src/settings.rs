//! The persisted settings the gateway reads, and the keys a user can set.

use vstd::prelude::*;
use crate::text::{str_to_chars, chars_eq_str};

verus! {

/// Resolved settings: the configured provider, credential, model, base URL
/// for OpenAI-compatible providers, and output preferences.
#[derive(Debug, Clone)]
pub struct Settings {
    pub provider: String,
    pub api_key: Option<String>,
    /// Preferred model for the active provider.
    pub model: Option<String>,
    /// Base URL for OpenAI-compatible providers.
    pub base_url: Option<String>,
    /// Automatically extract and write code blocks from responses.
    pub auto_code_write: bool,
    /// Default directory for auto-written code.
    pub output_dir: Option<String>,
}

impl Default for Settings {
    /// The out-of-the-box settings: OpenRouter with its automatic model
    /// selection, no credential, and code auto-writing into `generated`.
    fn default() -> (r: Settings)
        ensures
            r.provider@ == "openrouter"@,
            r.api_key is None,
            r.model matches Some(m) && m@ == "openrouter/auto"@,
            r.base_url is None,
            r.auto_code_write == true,
            r.output_dir matches Some(d) && d@ == "generated"@,
    {
        Settings {
            provider: "openrouter".to_owned(),
            api_key: None,
            model: Some("openrouter/auto".to_owned()),
            base_url: None,
            auto_code_write: true,
            output_dir: Some("generated".to_owned()),
        }
    }
}

impl Settings {
    /// Applies one `config set` assignment: `api-key` (or `api_key`) and
    /// `provider` are the settable keys; anything else changes nothing and
    /// reports an unknown key.
    pub fn apply_setting(&mut self, key: &str, value: &str) -> (known: bool)
        ensures
            (key@ == "api-key"@ || key@ == "api_key"@) ==> (final(self).api_key matches Some(k)
                && k@ == value@ && known && final(self).provider == old(self).provider),
            key@ == "provider"@ ==> known && final(self).provider@ == value@
                && final(self).api_key == old(self).api_key,
            !(key@ == "api-key"@ || key@ == "api_key"@ || key@ == "provider"@) ==> !known
                && *final(self) == *old(self),
            final(self).model == old(self).model,
            final(self).base_url == old(self).base_url,
            final(self).auto_code_write == old(self).auto_code_write,
            final(self).output_dir == old(self).output_dir,
    {
        proof {
            reveal_strlit("api-key");
            reveal_strlit("api_key");
            reveal_strlit("provider");
        }
        let kc = str_to_chars(key);
        if chars_eq_str(&kc, "api-key") || chars_eq_str(&kc, "api_key") {
            proof {
                assert(kc@ == key@);
                assert("api-key"@.len() == 7 && "api_key"@.len() == 7);
                assert("provider"@.len() == 8);
                assert(key@ != "provider"@);
            }
            self.api_key = Some(value.to_owned());
            true
        } else if chars_eq_str(&kc, "provider") {
            self.provider = value.to_owned();
            true
        } else {
            false
        }
    }
}

} // verus!
