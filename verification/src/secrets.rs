//! Credential normalization: user-supplied API keys arrive with stray
//! whitespace and quoting, which must be stripped before the key reaches the
//! transport layer.

use vstd::prelude::*;
use crate::text::{
    spec_trim, spec_is_ws_char, trim_chars, str_to_chars, chars_to_string, char_ws_pred,
};

verus! {

/// ASCII quotes and the four curly Unicode quote characters.
pub open spec fn spec_is_quote_char(c: char) -> bool {
    c == '"' || c == '\'' || c == '\u{201c}' || c == '\u{201d}' || c == '\u{2018}' || c
        == '\u{2019}'
}

pub fn is_quote_char(c: char) -> (r: bool)
    ensures
        r == spec_is_quote_char(c),
{
    c == '"' || c == '\'' || c == '\u{201c}' || c == '\u{201d}' || c == '\u{2018}' || c
        == '\u{2019}'
}

/// Strips leading quote characters while more than one character remains.
pub open spec fn spec_strip_quotes_front(s: Seq<char>) -> Seq<char>
    decreases s.len(),
{
    if s.len() > 1 && spec_is_quote_char(s[0]) {
        spec_strip_quotes_front(s.drop_first())
    } else {
        s
    }
}

/// Strips trailing quote characters while more than one character remains.
pub open spec fn spec_strip_quotes_back(s: Seq<char>) -> Seq<char>
    decreases s.len(),
{
    if s.len() > 1 && spec_is_quote_char(s.last()) {
        spec_strip_quotes_back(s.drop_last())
    } else {
        s
    }
}

/// What key normalization yields: trim, strip surrounding quotes (front,
/// then back, each while more than one character remains), trim again.
pub open spec fn spec_normalize_key(raw: Seq<char>) -> Seq<char> {
    spec_trim(spec_strip_quotes_back(spec_strip_quotes_front(spec_trim(raw))))
}

proof fn lemma_strip_front_is_skip(s: Seq<char>, i: int)
    requires
        0 <= i <= s.len(),
        i > 0 ==> i < s.len(),
        forall|j: int| 0 <= j < i ==> spec_is_quote_char(#[trigger] s[j]),
        s.len() - i > 1 ==> !spec_is_quote_char(s[i]),
    ensures
        spec_strip_quotes_front(s) == s.skip(i),
    decreases i,
{
    if i > 0 {
        assert(spec_is_quote_char(s[0]));
        assert(s.len() > 1);
        assert(s.drop_first() =~= s.skip(1));
        assert(s.skip(1).skip(i - 1) =~= s.skip(i));
        assert forall|j: int| 0 <= j < i - 1 implies spec_is_quote_char(
            #[trigger] s.skip(1)[j],
        ) by {
            assert(s.skip(1)[j] == s[j + 1]);
        }
        assert(i - 1 < s.skip(1).len() ==> s.skip(1)[i - 1] == s.index(i));
        lemma_strip_front_is_skip(s.skip(1), i - 1);
    } else {
        assert(s.skip(0) =~= s);
    }
}

proof fn lemma_strip_back_is_take(s: Seq<char>, e: int)
    requires
        0 <= e <= s.len(),
        e == 0 ==> s.len() == 0,
        forall|j: int| e <= j < s.len() ==> spec_is_quote_char(#[trigger] s[j]),
        e > 1 ==> !spec_is_quote_char(s[e - 1]),
    ensures
        spec_strip_quotes_back(s) == s.take(e),
    decreases s.len(),
{
    if s.len() > e {
        assert(spec_is_quote_char(s.last()));
        assert(s.len() > 1);
        assert(s.drop_last() =~= s.take(s.len() - 1));
        let t = s.take(s.len() - 1);
        assert(forall|j: int| e <= j < t.len() ==> spec_is_quote_char(#[trigger] t[j]));
        lemma_strip_back_is_take(t, e);
        assert(t.take(e) =~= s.take(e));
    } else {
        if s.len() > 1 {
            assert(!spec_is_quote_char(s[e - 1]));
        }
        assert(s.take(e) =~= s);
    }
}

/// Normalizes an API key passed by a user: trims whitespace, strips
/// surrounding ASCII or curly Unicode quotes, and trims again.
pub fn normalize_api_key(raw: &str) -> (r: String)
    ensures
        r@ == spec_normalize_key(raw@),
{
    let chars = str_to_chars(raw);
    let t = trim_chars(&chars);
    let n = t.len();
    let mut start: usize = 0;
    while n - start > 1 && is_quote_char(t[start])
        invariant
            0 <= start <= n,
            n == t@.len(),
            start > 0 ==> start < n,
            forall|j: int| 0 <= j < start ==> spec_is_quote_char(#[trigger] t@[j]),
        decreases n - start,
    {
        start = start + 1;
    }
    proof {
        lemma_strip_front_is_skip(t@, start as int);
    }
    let ghost stripped_front = t@.skip(start as int);
    let mut end: usize = n;
    while end - start > 1 && is_quote_char(t[end - 1])
        invariant
            start <= end <= n,
            n == t@.len(),
            end == n || end - start >= 1,
            forall|j: int| end <= j < n ==> spec_is_quote_char(#[trigger] t@[j]),
        decreases end,
    {
        end = end - 1;
    }
    proof {
        assert(forall|j: int| #![auto]
            0 <= j < stripped_front.len() ==> stripped_front[j] == t@[j + start]);
        assert(forall|j: int|
            end - start <= j < stripped_front.len() ==> spec_is_quote_char(
                #[trigger] stripped_front[j],
            ));
        assert(end - start > 1 ==> !spec_is_quote_char(stripped_front[end - start - 1]));
        lemma_strip_back_is_take(stripped_front, end - start);
    }
    let mut inner: Vec<char> = Vec::new();
    let mut i: usize = start;
    while i < end
        invariant
            start <= i <= end <= t@.len(),
            inner@ == t@.subrange(start as int, i as int),
        decreases end - i,
    {
        inner.push(t[i]);
        proof {
            assert(t@.subrange(start as int, i + 1) =~= t@.subrange(start as int, i as int).push(
                t@[i as int],
            ));
        }
        i = i + 1;
    }
    proof {
        assert(stripped_front.take(end - start) =~= t@.subrange(start as int, end as int));
    }
    let trimmed = trim_chars(&inner);
    chars_to_string(&trimmed)
}

/// A credential wrapped in any run of whitespace, then any run of quote
/// characters (in that nesting), around a trimmed core that neither starts
/// nor ends with a quote, normalizes to exactly that core: no quote
/// characters remain at either edge.
pub proof fn lemma_normalize_strips_wrapping(
    ws1: Seq<char>,
    qs1: Seq<char>,
    inner: Seq<char>,
    qs2: Seq<char>,
    ws2: Seq<char>,
)
    requires
        forall|j: int| 0 <= j < ws1.len() ==> spec_is_ws_char(#[trigger] ws1[j]),
        forall|j: int| 0 <= j < ws2.len() ==> spec_is_ws_char(#[trigger] ws2[j]),
        forall|j: int| 0 <= j < qs1.len() ==> spec_is_quote_char(#[trigger] qs1[j]),
        forall|j: int| 0 <= j < qs2.len() ==> spec_is_quote_char(#[trigger] qs2[j]),
        inner.len() > 0,
        !spec_is_ws_char(inner[0]),
        !spec_is_ws_char(inner.last()),
        !spec_is_quote_char(inner[0]),
        !spec_is_quote_char(inner.last()),
    ensures
        spec_normalize_key(ws1 + qs1 + inner + qs2 + ws2) == inner,
{
    let whole = ws1 + qs1 + inner + qs2 + ws2;
    let core = qs1 + inner + qs2;
    let a = ws1.len() as int;
    let b = whole.len() - ws2.len();
    // Where each wrapped part sits inside the whole.
    assert(forall|j: int| #![auto] 0 <= j < ws1.len() ==> whole[j] == ws1[j]);
    assert(forall|j: int| #![auto] 0 <= j < core.len() ==> whole[a + j] == core[j]);
    assert(forall|j: int| #![auto] b <= j < whole.len() ==> whole[j] == ws2[j - b]);
    assert(forall|j: int| #![auto] 0 <= j < qs1.len() ==> core[j] == qs1[j]);
    assert(forall|j: int| #![auto] 0 <= j < inner.len() ==> core[qs1.len() + j] == inner[j]);
    assert(forall|j: int| #![auto] 0 <= j < qs2.len() ==> core[qs1.len() + inner.len() + j]
        == qs2[j]);
    // First trim removes exactly ws1 and ws2: the core's edge characters are
    // quotes or the inner's edges, none of which is whitespace.
    assert(b - a == core.len());
    assert(whole[a] == core[0]);
    assert(core[0] == (if qs1.len() > 0 {
        qs1[0]
    } else {
        inner[0]
    }));
    assert(whole[b - 1] == core[core.len() - 1]);
    assert(core[core.len() - 1] == (if qs2.len() > 0 {
        qs2[qs2.len() - 1]
    } else {
        inner.last()
    }));
    crate::text::lemma_trim_parts(whole, a, b);
    assert(whole.subrange(a, b) =~= core);
    // Quote stripping removes exactly qs1 from the front.
    assert(forall|j: int| 0 <= j < qs1.len() ==> spec_is_quote_char(#[trigger] core[j]));
    assert(core[qs1.len() as int] == inner[0]);
    lemma_strip_front_is_skip(core, qs1.len() as int);
    let mid = core.skip(qs1.len() as int);
    assert(mid =~= inner + qs2);
    // ... and exactly qs2 from the back.
    assert(forall|j: int| #![auto] 0 <= j < mid.len() ==> mid[j] == (inner + qs2)[j]);
    assert(forall|j: int| inner.len() <= j < mid.len() ==> spec_is_quote_char(#[trigger] mid[j]));
    assert(mid[inner.len() - 1] == inner.last());
    lemma_strip_back_is_take(mid, inner.len() as int);
    assert(mid.take(inner.len() as int) =~= inner);
    // The final trim is the identity on the whitespace-free-edged core.
    crate::text::lemma_trim_parts(inner, 0, inner.len() as int);
    assert(inner.subrange(0, inner.len() as int) =~= inner);
}

} // verus!
