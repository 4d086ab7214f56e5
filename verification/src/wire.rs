//! Provider wire format: the JSON request body each adapter sends, the
//! effective endpoint, and the required headers, all framed by the library
//! itself so that every byte of the request is pinned by a contract.

use vstd::prelude::*;
use vstd::string::StringExecFns;
use crate::models::{ChatMessage, ChatMessageView};
use crate::text::{chars_to_string, str_to_chars, spec_drop_while_end};

verus! {

// ---------------------------------------------------------------------------
// JSON string escaping
// ---------------------------------------------------------------------------

/// One lowercase hex digit.
pub open spec fn spec_hex_digit(d: int) -> char
    recommends
        0 <= d < 16,
{
    if d < 10 {
        ((0x30 + d) as u8) as char
    } else {
        ((0x61 + (d - 10)) as u8) as char
    }
}

/// How one character appears inside a JSON string literal: quote and
/// backslash are escaped, the five short control escapes are used where they
/// exist, any other control character becomes a `\u00XX` escape, and
/// everything else stands for itself.
pub open spec fn spec_escape_char(c: char) -> Seq<char> {
    if c == '"' {
        seq!['\\', '"']
    } else if c == '\\' {
        seq!['\\', '\\']
    } else if c == '\u{8}' {
        seq!['\\', 'b']
    } else if c == '\u{c}' {
        seq!['\\', 'f']
    } else if c == '\n' {
        seq!['\\', 'n']
    } else if c == '\r' {
        seq!['\\', 'r']
    } else if c == '\t' {
        seq!['\\', 't']
    } else if (c as u32) < 0x20 {
        seq![
            '\\',
            'u',
            '0',
            '0',
            spec_hex_digit(((c as u32) / 16) as int),
            spec_hex_digit(((c as u32) % 16) as int),
        ]
    } else {
        seq![c]
    }
}

/// The JSON escaping of a whole character sequence.
pub open spec fn spec_escape(s: Seq<char>) -> Seq<char>
    decreases s.len(),
{
    if s.len() == 0 {
        Seq::empty()
    } else {
        spec_escape_char(s[0]) + spec_escape(s.drop_first())
    }
}

/// Escaping distributes over concatenation.
pub proof fn lemma_escape_concat(a: Seq<char>, b: Seq<char>)
    ensures
        spec_escape(a + b) == spec_escape(a) + spec_escape(b),
    decreases a.len(),
{
    if a.len() == 0 {
        assert(a + b =~= b);
        assert(spec_escape(a) =~= Seq::<char>::empty());
        assert(spec_escape(a) + spec_escape(b) =~= spec_escape(b));
    } else {
        assert((a + b).drop_first() =~= a.drop_first() + b);
        assert((a + b)[0] == a[0]);
        lemma_escape_concat(a.drop_first(), b);
        assert(spec_escape_char(a[0]) + (spec_escape(a.drop_first()) + spec_escape(b))
            =~= (spec_escape_char(a[0]) + spec_escape(a.drop_first())) + spec_escape(b));
    }
}

/// The escaping of a single character sequence.
pub proof fn lemma_escape_singleton(c: char)
    ensures
        spec_escape(seq![c]) == spec_escape_char(c),
{
    assert(seq![c].len() == 1);
    assert(seq![c][0] == c);
    assert(seq![c].drop_first() =~= Seq::<char>::empty());
    assert(spec_escape(Seq::<char>::empty()) == Seq::<char>::empty());
    assert(spec_escape_char(c) + Seq::<char>::empty() =~= spec_escape_char(c));
}

/// Appends the escaped form of one character.
fn push_escaped_char(out: &mut Vec<char>, c: char)
    ensures
        final(out)@ == old(out)@ + spec_escape_char(c),
{
    if c == '"' {
        out.push('\\');
        out.push('"');
        proof {
            assert(out@ =~= old(out)@ + spec_escape_char(c));
        }
    } else if c == '\\' {
        out.push('\\');
        out.push('\\');
        proof {
            assert(out@ =~= old(out)@ + spec_escape_char(c));
        }
    } else if c == '\u{8}' {
        out.push('\\');
        out.push('b');
        proof {
            assert(out@ =~= old(out)@ + spec_escape_char(c));
        }
    } else if c == '\u{c}' {
        out.push('\\');
        out.push('f');
        proof {
            assert(out@ =~= old(out)@ + spec_escape_char(c));
        }
    } else if c == '\n' {
        out.push('\\');
        out.push('n');
        proof {
            assert(out@ =~= old(out)@ + spec_escape_char(c));
        }
    } else if c == '\r' {
        out.push('\\');
        out.push('r');
        proof {
            assert(out@ =~= old(out)@ + spec_escape_char(c));
        }
    } else if c == '\t' {
        out.push('\\');
        out.push('t');
        proof {
            assert(out@ =~= old(out)@ + spec_escape_char(c));
        }
    } else if (c as u32) < 0x20 {
        let code = c as u32;
        let hi = (code / 16) as u8;
        let lo = (code % 16) as u8;
        let hi_c = if hi < 10 {
            (0x30u8 + hi) as char
        } else {
            (0x61u8 + (hi - 10)) as char
        };
        let lo_c = if lo < 10 {
            (0x30u8 + lo) as char
        } else {
            (0x61u8 + (lo - 10)) as char
        };
        out.push('\\');
        out.push('u');
        out.push('0');
        out.push('0');
        out.push(hi_c);
        out.push(lo_c);
        proof {
            assert(hi_c == spec_hex_digit(((c as u32) / 16) as int));
            assert(lo_c == spec_hex_digit(((c as u32) % 16) as int));
            assert(out@ =~= old(out)@ + spec_escape_char(c));
        }
    } else {
        out.push(c);
        proof {
            assert(out@ =~= old(out)@ + spec_escape_char(c));
        }
    }
}

/// Appends the escaped form of a whole string.
fn push_escaped(out: &mut Vec<char>, s: &Vec<char>)
    ensures
        final(out)@ == old(out)@ + spec_escape(s@),
{
    let mut i: usize = 0;
    while i < s.len()
        invariant
            0 <= i <= s@.len(),
            out@ == old(out)@ + spec_escape(s@.take(i as int)),
        decreases s@.len() - i,
    {
        push_escaped_char(out, s[i]);
        proof {
            assert(s@.take(i + 1) =~= s@.take(i as int) + seq![s@[i as int]]);
            lemma_escape_concat(s@.take(i as int), seq![s@[i as int]]);
            lemma_escape_singleton(s@[i as int]);
        }
        i = i + 1;
    }
    proof {
        assert(s@.take(s@.len() as int) =~= s@);
    }
}

/// A JSON string literal: the escaped text between double quotes.
pub open spec fn spec_json_string(s: Seq<char>) -> Seq<char> {
    seq!['"'] + spec_escape(s) + seq!['"']
}

/// Appends a JSON string literal.
pub(crate) fn push_json_string(out: &mut Vec<char>, s: &Vec<char>)
    ensures
        final(out)@ == old(out)@ + spec_json_string(s@),
{
    out.push('"');
    push_escaped(out, s);
    out.push('"');
    proof {
        assert(out@ =~= old(out)@ + spec_json_string(s@));
    }
}

/// Appends the characters of a string slice.
pub(crate) fn push_str_chars(out: &mut Vec<char>, s: &str)
    ensures
        final(out)@ == old(out)@ + s@,
{
    let v = str_to_chars(s);
    let mut i: usize = 0;
    while i < v.len()
        invariant
            0 <= i <= v@.len(),
            v@ == s@,
            out@ == old(out)@ + s@.take(i as int),
        decreases v@.len() - i,
    {
        out.push(v[i]);
        proof {
            assert(old(out)@ + s@.take(i + 1) =~= (old(out)@ + s@.take(i as int)).push(
                s@[i as int],
            ));
        }
        i = i + 1;
    }
    proof {
        assert(s@.take(s@.len() as int) =~= s@);
    }
}

// ---------------------------------------------------------------------------
// The request body
// ---------------------------------------------------------------------------

/// One message object on the wire.
pub open spec fn spec_message_json(m: ChatMessageView) -> Seq<char> {
    "{\"role\":"@ + spec_json_string(m.role) + ",\"content\":"@ + spec_json_string(m.content)
        + "}"@
}

/// The message array's contents: the messages in conversation order,
/// separated by commas.
pub open spec fn spec_messages_json(ms: Seq<ChatMessageView>) -> Seq<char>
    decreases ms.len(),
{
    if ms.len() == 0 {
        Seq::empty()
    } else if ms.len() == 1 {
        spec_message_json(ms[0])
    } else {
        spec_messages_json(ms.drop_last()) + ","@ + spec_message_json(ms.last())
    }
}

/// The whole request body: model, messages, and the stream flag when set.
pub open spec fn spec_request_body(
    model: Seq<char>,
    ms: Seq<ChatMessageView>,
    stream: Option<bool>,
) -> Seq<char> {
    "{\"model\":"@ + spec_json_string(model) + ",\"messages\":["@ + spec_messages_json(ms) + "]"@
        + (match stream {
        None => ""@,
        Some(true) => ",\"stream\":true"@,
        Some(false) => ",\"stream\":false"@,
    }) + "}"@
}

/// Appends one message object.
fn push_message_json(out: &mut Vec<char>, m: &ChatMessage)
    ensures
        final(out)@ == old(out)@ + spec_message_json(m@),
{
    push_str_chars(out, "{\"role\":");
    let role_chars = str_to_chars(m.role.as_str());
    push_json_string(out, &role_chars);
    push_str_chars(out, ",\"content\":");
    let content_chars = str_to_chars(m.content.as_str());
    push_json_string(out, &content_chars);
    push_str_chars(out, "}");
    proof {
        assert(out@ =~= old(out)@ + spec_message_json(m@));
    }
}

/// Builds the JSON request body for one call.
pub fn build_request_body(model: &str, messages: &Vec<ChatMessage>, stream: Option<bool>) -> (r:
    String)
    ensures
        r@ == spec_request_body(model@, messages@.map_values(|m: ChatMessage| m@), stream),
{
    let ghost ms = messages@.map_values(|m: ChatMessage| m@);
    let mut out: Vec<char> = Vec::new();
    push_str_chars(&mut out, "{\"model\":");
    let model_chars = str_to_chars(model);
    push_json_string(&mut out, &model_chars);
    push_str_chars(&mut out, ",\"messages\":[");
    let ghost head = out@;
    let mut i: usize = 0;
    while i < messages.len()
        invariant
            0 <= i <= messages@.len(),
            ms == messages@.map_values(|m: ChatMessage| m@),
            ms.len() == messages@.len(),
            out@ == head + spec_messages_json(ms.take(i as int)),
        decreases messages@.len() - i,
    {
        if i > 0 {
            push_str_chars(&mut out, ",");
        }
        push_message_json(&mut out, &messages[i]);
        proof {
            assert(ms[i as int] == messages@[i as int]@);
            assert(ms.take(i + 1).drop_last() =~= ms.take(i as int));
            assert(ms.take(i + 1).last() == ms[i as int]);
            if i == 0 {
                assert(out@ =~= head + spec_messages_json(ms.take(1)));
            } else {
                assert(out@ =~= head + spec_messages_json(ms.take(i + 1)));
            }
        }
        i = i + 1;
    }
    proof {
        assert(ms.take(ms.len() as int) =~= ms);
    }
    push_str_chars(&mut out, "]");
    match stream {
        None => {},
        Some(true) => {
            push_str_chars(&mut out, ",\"stream\":true");
        },
        Some(false) => {
            push_str_chars(&mut out, ",\"stream\":false");
        },
    }
    push_str_chars(&mut out, "}");
    proof {
        reveal_strlit("");
        assert(out@ =~= spec_request_body(model@, ms, stream));
    }
    chars_to_string(&out)
}

// ---------------------------------------------------------------------------
// Endpoints
// ---------------------------------------------------------------------------

/// The slash predicate, as a value.
pub open spec fn slash_pred() -> spec_fn(char) -> bool {
    |c: char| c == '/'
}

/// The fixed path every OpenAI-compatible provider serves completions on.
pub open spec fn spec_chat_path() -> Seq<char> {
    "/chat/completions"@
}

/// The effective endpoint: the base URL with all trailing slashes removed,
/// then the fixed completions path.
pub open spec fn spec_endpoint(base: Seq<char>) -> Seq<char> {
    spec_drop_while_end(base, slash_pred()) + spec_chat_path()
}

/// Builds the effective endpoint for an OpenAI-compatible provider.
pub fn build_endpoint(base_url: &str) -> (r: String)
    ensures
        r@ == spec_endpoint(base_url@),
{
    let v = str_to_chars(base_url);
    let ghost p = slash_pred();
    let mut end: usize = v.len();
    while end > 0 && v[end - 1] == '/'
        invariant
            0 <= end <= v@.len(),
            forall|j: int| end <= j < v@.len() ==> #[trigger] v@[j] == '/',
        decreases end,
    {
        end = end - 1;
    }
    proof {
        assert(forall|j: int| end <= j < v@.len() ==> p(#[trigger] v@[j]));
        assert(end > 0 ==> !p(v@[end - 1]));
        crate::text::lemma_drop_while_end_take(v@, p, end as int);
    }
    let mut out: Vec<char> = Vec::new();
    let mut i: usize = 0;
    while i < end
        invariant
            0 <= i <= end <= v@.len(),
            out@ == v@.subrange(0, i as int),
        decreases end - i,
    {
        out.push(v[i]);
        proof {
            assert(v@.subrange(0, i + 1) =~= v@.subrange(0, i as int).push(v@[i as int]));
        }
        i = i + 1;
    }
    proof {
        assert(v@.take(end as int) =~= v@.subrange(0, end as int));
    }
    push_str_chars(&mut out, "/chat/completions");
    chars_to_string(&out)
}

// ---------------------------------------------------------------------------
// Headers
// ---------------------------------------------------------------------------

/// The bearer authorization value for a key.
pub open spec fn spec_bearer(key: Seq<char>) -> Seq<char> {
    "Bearer "@ + key
}

/// The headers every adapter sends.
pub open spec fn spec_base_headers(key: Seq<char>) -> Seq<(Seq<char>, Seq<char>)> {
    seq![("Authorization"@, spec_bearer(key)), ("Content-Type"@, "application/json"@)]
}

/// The two descriptive identification headers OpenRouter additionally asks
/// for.
pub open spec fn spec_openrouter_headers(key: Seq<char>) -> Seq<(Seq<char>, Seq<char>)> {
    spec_base_headers(key) + seq![
        ("HTTP-Referer"@, "https://github.com/your-org/spark_cli"@),
        ("X-Title"@, "spark_cli"@),
    ]
}

/// Builds one header pair.
fn make_header(name: &str, value: String) -> (r: (String, String))
    ensures
        r.0@ == name@,
        r.1@ == value@,
{
    (name.to_owned(), value)
}

/// Builds the headers for an OpenAI-compatible call.
pub fn build_base_headers(api_key: &str) -> (r: Vec<(String, String)>)
    ensures
        r@.map_values(|h: (String, String)| (h.0@, h.1@)) == spec_base_headers(api_key@),
{
    let mut bearer = String::new();
    bearer.append("Bearer ");
    bearer.append(api_key);
    let mut r: Vec<(String, String)> = Vec::new();
    r.push(make_header("Authorization", bearer));
    let mut ct = String::new();
    ct.append("application/json");
    r.push(make_header("Content-Type", ct));
    proof {
        assert(r@.map_values(|h: (String, String)| (h.0@, h.1@)) =~= spec_base_headers(api_key@));
    }
    r
}

/// Builds the headers for an OpenRouter call.
pub fn build_openrouter_headers(api_key: &str) -> (r: Vec<(String, String)>)
    ensures
        r@.map_values(|h: (String, String)| (h.0@, h.1@)) == spec_openrouter_headers(api_key@),
{
    let mut r = build_base_headers(api_key);
    let mut referer = String::new();
    referer.append("https://github.com/your-org/spark_cli");
    r.push(make_header("HTTP-Referer", referer));
    let mut title = String::new();
    title.append("spark_cli");
    r.push(make_header("X-Title", title));
    proof {
        assert(r@.map_values(|h: (String, String)| (h.0@, h.1@)) =~= spec_openrouter_headers(
            api_key@,
        ));
    }
    r
}

} // verus!
