//! Fenced code blocks: extracting triple-backtick blocks from a response,
//! choosing the best block for a preferred language, and planning where
//! generated code is written.

use vstd::prelude::*;
use crate::text::{
    spec_trim, spec_lower, spec_dec_nat, trim_chars, lower_chars, str_to_chars, chars_to_string,
    chars_eq, chars_eq_str, usize_to_dec_chars,
};

verus! {

/// Mathematical model of one fenced block.
pub ghost struct CodeBlockView {
    pub language: Option<Seq<char>>,
    pub filename: Option<Seq<char>>,
    pub content: Seq<char>,
}

/// One fenced code block: an info string read as a language or a file
/// name, and the body between the fences.
#[derive(Debug, Clone)]
pub struct CodeBlock {
    pub language: Option<String>,
    pub filename: Option<String>,
    pub content: String,
}

impl View for CodeBlock {
    type V = CodeBlockView;

    open spec fn view(&self) -> CodeBlockView {
        CodeBlockView {
            language: match self.language {
                Some(ref l) => Some(l@),
                None => None,
            },
            filename: match self.filename {
                Some(ref f) => Some(f@),
                None => None,
            },
            content: self.content@,
        }
    }
}

// ---------------------------------------------------------------------------
// Finding fences
// ---------------------------------------------------------------------------

/// Index of the first triple-backtick fence, if any.
pub open spec fn spec_find_fence(s: Seq<char>) -> Option<int>
    decreases s.len(),
{
    if s.len() < 3 {
        None
    } else if s[0] == '`' && s[1] == '`' && s[2] == '`' {
        Some(0)
    } else {
        match spec_find_fence(s.drop_first()) {
            Some(i) => Some(i + 1),
            None => None,
        }
    }
}

/// What the first fence index satisfies.
pub proof fn lemma_find_fence_props(s: Seq<char>)
    ensures
        match spec_find_fence(s) {
            Some(i) => 0 <= i <= s.len() - 3 && s[i] == '`' && s[i + 1] == '`' && s[i + 2] == '`',
            None => true,
        },
    decreases s.len(),
{
    if s.len() < 3 {
    } else if s[0] == '`' && s[1] == '`' && s[2] == '`' {
    } else {
        lemma_find_fence_props(s.drop_first());
        assert(forall|j: int| #![auto] 0 <= j < s.len() - 1 ==> s.drop_first()[j] == s[j + 1]);
    }
}

/// The first fence index is determined by what lies before it.
pub proof fn lemma_find_fence_at(s: Seq<char>, i: int)
    requires
        0 <= i <= s.len(),
        forall|j: int|
            0 <= j < i && j + 3 <= s.len() ==> !(#[trigger] s[j] == '`' && s[j + 1] == '`' && s[j
                + 2] == '`'),
        i + 3 <= s.len() ==> s[i] == '`' && s[i + 1] == '`' && s[i + 2] == '`',
    ensures
        i + 3 <= s.len() ==> spec_find_fence(s) == Some(i),
        i + 3 > s.len() ==> spec_find_fence(s) is None,
    decreases i,
{
    if s.len() < 3 {
    } else if i == 0 {
    } else {
        assert(!(s[0] == '`' && s[1] == '`' && s[2] == '`'));
        assert(forall|j: int| #![auto] 0 <= j < s.len() - 1 ==> s.drop_first()[j] == s[j + 1]);
        lemma_find_fence_at(s.drop_first(), i - 1);
    }
}

/// Index of the first line feed, if any.
pub open spec fn spec_find_newline(s: Seq<char>) -> Option<int>
    decreases s.len(),
{
    if s.len() == 0 {
        None
    } else if s[0] == '\n' {
        Some(0)
    } else {
        match spec_find_newline(s.drop_first()) {
            Some(i) => Some(i + 1),
            None => None,
        }
    }
}

pub proof fn lemma_find_newline_props(s: Seq<char>)
    ensures
        match spec_find_newline(s) {
            Some(i) => 0 <= i < s.len() && s[i] == '\n',
            None => true,
        },
    decreases s.len(),
{
    if s.len() == 0 {
    } else if s[0] == '\n' {
    } else {
        lemma_find_newline_props(s.drop_first());
    }
}

pub proof fn lemma_find_newline_at(s: Seq<char>, i: int)
    requires
        0 <= i <= s.len(),
        forall|j: int| 0 <= j < i ==> s[j] != '\n',
        i < s.len() ==> s[i] == '\n',
    ensures
        i < s.len() ==> spec_find_newline(s) == Some(i),
        i == s.len() ==> spec_find_newline(s) is None,
    decreases i,
{
    if i == 0 {
    } else {
        assert(s[0] != '\n');
        assert(forall|j: int| #![auto] 0 <= j < s.len() - 1 ==> s.drop_first()[j] == s[j + 1]);
        lemma_find_newline_at(s.drop_first(), i - 1);
    }
}

// ---------------------------------------------------------------------------
// Extraction
// ---------------------------------------------------------------------------

/// How a trimmed info string is read: a dotted, space-free string is a
/// file name; an empty one is nothing; anything else is a language.
pub open spec fn spec_classify_info(info: Seq<char>) -> (Option<Seq<char>>, Option<Seq<char>>) {
    let t = spec_trim(info);
    if t.contains('.') && !t.contains(' ') {
        (None, Some(t))
    } else if t.len() == 0 {
        (None, None)
    } else {
        (Some(t), None)
    }
}

/// The fenced blocks of a text, in order: each block opens with a fence,
/// an info segment free of backticks up to the end of its line, and runs to
/// the next fence. An opening fence whose info segment holds a backtick or
/// never ends its line opens no block, and a block left unclosed is
/// dropped.
pub open spec fn spec_extract_blocks(s: Seq<char>) -> Seq<CodeBlockView>
    decreases s.len(),
    via spec_extract_blocks_decreases
{
    match spec_find_fence(s) {
        None => Seq::empty(),
        Some(f) => {
            let after = s.skip(f + 3);
            match spec_find_newline(after) {
                None => Seq::empty(),
                Some(nl) => {
                    let info = after.take(nl);
                    if info.contains('`') {
                        spec_extract_blocks(after)
                    } else {
                        let rest = after.skip(nl + 1);
                        match spec_find_fence(rest) {
                            None => Seq::empty(),
                            Some(e) => {
                                let cls = spec_classify_info(info);
                                seq![
                                    CodeBlockView {
                                        language: cls.0,
                                        filename: cls.1,
                                        content: rest.take(e),
                                    },
                                ] + spec_extract_blocks(rest.skip(e + 3))
                            },
                        }
                    }
                },
            }
        },
    }
}

#[via_fn]
proof fn spec_extract_blocks_decreases(s: Seq<char>) {
    lemma_find_fence_props(s);
    match spec_find_fence(s) {
        Some(f) => {
            let after = s.skip(f + 3);
            lemma_find_newline_props(after);
            match spec_find_newline(after) {
                Some(nl) => {
                    let rest = after.skip(nl + 1);
                    lemma_find_fence_props(rest);
                },
                None => {},
            }
        },
        None => {},
    }
}

/// Finds the first fence at or after `pos`.
fn find_fence_from(v: &Vec<char>, pos: usize) -> (r: Option<usize>)
    requires
        pos <= v@.len(),
    ensures
        match r {
            Some(i) => pos <= i && i + 3 <= v@.len() && spec_find_fence(v@.skip(pos as int))
                == Some(i - pos),
            None => spec_find_fence(v@.skip(pos as int)) is None,
        },
{
    let n = v.len();
    let ghost s = v@.skip(pos as int);
    proof {
        assert(forall|j: int| #![auto] 0 <= j < s.len() ==> s[j] == v@[j + pos]);
    }
    if n < 3 || pos > n - 3 {
        proof {
            assert(s.len() < 3);
        }
        return None;
    }
    let mut i: usize = pos;
    while i <= n - 3 && !(v[i] == '`' && v[i + 1] == '`' && v[i + 2] == '`')
        invariant
            pos <= i <= n,
            n >= 3,
            n == v@.len(),
            forall|j: int|
                pos <= j < i && j + 3 <= n ==> !(#[trigger] v@[j] == '`' && v@[j + 1] == '`'
                    && v@[j + 2] == '`'),
        decreases n - i,
    {
        i = i + 1;
    }
    proof {
        assert(forall|j: int| #![auto] 0 <= j < s.len() ==> s[j] == v@[j + pos]);
        assert(forall|j: int|
            0 <= j < i - pos && j + 3 <= s.len() ==> !(#[trigger] s[j] == '`' && s[j + 1] == '`'
                && s[j + 2] == '`'));
        lemma_find_fence_at(s, i - pos);
    }
    if i <= n - 3 {
        Some(i)
    } else {
        None
    }
}

/// Finds the first line feed at or after `pos`.
fn find_newline_from(v: &Vec<char>, pos: usize) -> (r: Option<usize>)
    requires
        pos <= v@.len(),
    ensures
        match r {
            Some(i) => pos <= i && i < v@.len() && spec_find_newline(v@.skip(pos as int)) == Some(
                i - pos,
            ),
            None => spec_find_newline(v@.skip(pos as int)) is None,
        },
{
    let n = v.len();
    let ghost s = v@.skip(pos as int);
    proof {
        assert(forall|j: int| #![auto] 0 <= j < s.len() ==> s[j] == v@[j + pos]);
    }
    let mut i: usize = pos;
    while i < n && v[i] != '\n'
        invariant
            pos <= i <= n,
            n == v@.len(),
            forall|j: int| pos <= j < i ==> v@[j] != '\n',
        decreases n - i,
    {
        i = i + 1;
    }
    proof {
        assert(forall|j: int| 0 <= j < i - pos ==> #[trigger] s[j] != '\n');
        lemma_find_newline_at(s, i - pos);
    }
    if i < n {
        Some(i)
    } else {
        None
    }
}

/// Whether any of `v[from..to]` is the character `c`.
fn range_contains(v: &Vec<char>, from: usize, to: usize, c: char) -> (r: bool)
    requires
        from <= to <= v@.len(),
    ensures
        r == v@.subrange(from as int, to as int).contains(c),
{
    let ghost s = v@.subrange(from as int, to as int);
    let mut i: usize = from;
    while i < to
        invariant
            from <= i <= to <= v@.len(),
            s == v@.subrange(from as int, to as int),
            forall|j: int| from <= j < i ==> v@[j] != c,
        decreases to - i,
    {
        if v[i] == c {
            proof {
                assert(s[i - from] == c);
            }
            return true;
        }
        i = i + 1;
    }
    proof {
        assert(forall|j: int| #![auto] 0 <= j < s.len() ==> s[j] == v@[j + from]);
        assert(forall|j: int| 0 <= j < s.len() ==> #[trigger] s[j] != c);
    }
    false
}

/// Copies `v[from..to]` into a fresh vector.
fn copy_range(v: &Vec<char>, from: usize, to: usize) -> (r: Vec<char>)
    requires
        from <= to <= v@.len(),
    ensures
        r@ == v@.subrange(from as int, to as int),
{
    let mut r: Vec<char> = Vec::new();
    let mut i: usize = from;
    while i < to
        invariant
            from <= i <= to <= v@.len(),
            r@ == v@.subrange(from as int, i as int),
        decreases to - i,
    {
        r.push(v[i]);
        proof {
            assert(v@.subrange(from as int, i + 1) =~= v@.subrange(from as int, i as int).push(
                v@[i as int],
            ));
        }
        i = i + 1;
    }
    r
}

/// Extracts the triple-backtick fenced blocks of a text, in order.
pub fn extract_code_blocks(text: &str) -> (r: Vec<CodeBlock>)
    ensures
        r@.map_values(|b: CodeBlock| b@) == spec_extract_blocks(text@),
{
    let v = str_to_chars(text);
    let n = v.len();
    let mut out: Vec<CodeBlock> = Vec::new();
    let mut pos: usize = 0;
    proof {
        assert(v@.skip(0) =~= v@);
        assert(out@.map_values(|b: CodeBlock| b@) =~= Seq::<CodeBlockView>::empty());
        assert(Seq::<CodeBlockView>::empty() + spec_extract_blocks(text@) =~= spec_extract_blocks(
            text@,
        ));
    }
    loop
        invariant_except_break
            pos <= n,
            n == v@.len(),
            v@ == text@,
            spec_extract_blocks(text@) == out@.map_values(|b: CodeBlock| b@)
                + spec_extract_blocks(v@.skip(pos as int)),
        ensures
            out@.map_values(|b: CodeBlock| b@) == spec_extract_blocks(text@),
        decreases n - pos,
    {
        let ghost suffix = v@.skip(pos as int);
        let f = match find_fence_from(&v, pos) {
            Some(f) => f,
            None => {
                proof {
                    assert(spec_extract_blocks(suffix) =~= Seq::<CodeBlockView>::empty());
                    assert(out@.map_values(|b: CodeBlock| b@) + spec_extract_blocks(suffix)
                        =~= out@.map_values(|b: CodeBlock| b@));
                }
                break ;
            },
        };
        let ghost after = suffix.skip(f - pos + 3);
        proof {
            assert(after =~= v@.skip(f + 3));
        }
        let nl = match find_newline_from(&v, f + 3) {
            Some(nl) => nl,
            None => {
                proof {
                    assert(spec_find_newline(after) is None);
                    assert(spec_extract_blocks(suffix) =~= Seq::<CodeBlockView>::empty());
                    assert(out@.map_values(|b: CodeBlock| b@) + spec_extract_blocks(suffix)
                        =~= out@.map_values(|b: CodeBlock| b@));
                }
                break ;
            },
        };
        proof {
            assert(spec_find_newline(after) == Some(nl - (f + 3)));
            assert(after.take(nl - (f + 3)) =~= v@.subrange(f + 3, nl as int));
        }
        let ghost info = after.take(nl - (f + 3));
        if range_contains(&v, f + 3, nl, '`') {
            proof {
                assert(info.contains('`'));
                assert(spec_extract_blocks(suffix) == spec_extract_blocks(after));
                assert(v@.skip(f + 3) == after);
            }
            pos = f + 3;
            continue ;
        }
        proof {
            assert(!info.contains('`'));
        }
        let ghost rest = after.skip(nl - (f + 3) + 1);
        proof {
            assert(rest =~= v@.skip(nl + 1));
        }
        let e = match find_fence_from(&v, nl + 1) {
            Some(e) => e,
            None => {
                proof {
                    assert(spec_find_fence(rest) is None);
                    assert(spec_extract_blocks(suffix) =~= Seq::<CodeBlockView>::empty());
                    assert(out@.map_values(|b: CodeBlock| b@) + spec_extract_blocks(suffix)
                        =~= out@.map_values(|b: CodeBlock| b@));
                }
                break ;
            },
        };
        proof {
            assert(spec_find_fence(rest) == Some(e - (nl + 1)));
            assert(rest.take(e - (nl + 1)) =~= v@.subrange(nl + 1, e as int));
        }
        // Build the block.
        let info_chars = copy_range(&v, f + 3, nl);
        let t = trim_chars(&info_chars);
        let content_chars = copy_range(&v, nl + 1, e);
        let has_dot = range_contains_vec(&t, '.');
        let has_space = range_contains_vec(&t, ' ');
        let language: Option<String>;
        let filename: Option<String>;
        if has_dot && !has_space {
            language = None;
            filename = Some(chars_to_string(&t));
        } else if t.len() == 0 {
            language = None;
            filename = None;
        } else {
            language = Some(chars_to_string(&t));
            filename = None;
        }
        let block = CodeBlock { language, filename, content: chars_to_string(&content_chars) };
        let ghost prev = out@;
        out.push(block);
        proof {
            let cls = spec_classify_info(info);
            let bv = CodeBlockView { language: cls.0, filename: cls.1, content: rest.take(
                e - (nl + 1),
            ) };
            assert(out@.last()@ == bv);
            assert(out@.map_values(|b: CodeBlock| b@) =~= prev.map_values(|b: CodeBlock| b@).push(
                bv,
            ));
            assert(spec_extract_blocks(suffix) == seq![bv] + spec_extract_blocks(rest.skip(
                e - (nl + 1) + 3,
            )));
            assert(rest.skip(e - (nl + 1) + 3) =~= v@.skip(e + 3));
            assert(prev.map_values(|b: CodeBlock| b@) + spec_extract_blocks(suffix) =~= out@
                .map_values(|b: CodeBlock| b@) + spec_extract_blocks(v@.skip(e + 3)));
        }
        pos = e + 3;
    }
    out
}

/// Whether the vector holds the character.
fn range_contains_vec(v: &Vec<char>, c: char) -> (r: bool)
    ensures
        r == v@.contains(c),
{
    let n = v.len();
    let r = range_contains(v, 0, n, c);
    proof {
        assert(v@.subrange(0, n as int) =~= v@);
    }
    r
}

// ---------------------------------------------------------------------------
// Choosing a block
// ---------------------------------------------------------------------------

/// The extension used for a known language name, ASCII-case-insensitively;
/// anything unknown writes as plain text.
pub open spec fn spec_ext_for(lang: Seq<char>) -> Seq<char> {
    let l = spec_lower(lang);
    if l == "cpp"@ || l == "c++"@ {
        "cpp"@
    } else if l == "c"@ {
        "c"@
    } else if l == "rust"@ || l == "rs"@ {
        "rs"@
    } else if l == "python"@ || l == "py"@ {
        "py"@
    } else if l == "typescript"@ || l == "ts"@ {
        "ts"@
    } else if l == "javascript"@ || l == "js"@ {
        "js"@
    } else if l == "go"@ {
        "go"@
    } else if l == "java"@ {
        "java"@
    } else {
        "txt"@
    }
}

/// Guesses the file extension for a language name.
pub fn guess_ext_from_lang(lang: &str) -> (r: &str)
    ensures
        r@ == spec_ext_for(lang@),
{
    let chars = str_to_chars(lang);
    let l = lower_chars(&chars);
    if chars_eq_str(&l, "cpp") || chars_eq_str(&l, "c++") {
        "cpp"
    } else if chars_eq_str(&l, "c") {
        "c"
    } else if chars_eq_str(&l, "rust") || chars_eq_str(&l, "rs") {
        "rs"
    } else if chars_eq_str(&l, "python") || chars_eq_str(&l, "py") {
        "py"
    } else if chars_eq_str(&l, "typescript") || chars_eq_str(&l, "ts") {
        "ts"
    } else if chars_eq_str(&l, "javascript") || chars_eq_str(&l, "js") {
        "js"
    } else if chars_eq_str(&l, "go") {
        "go"
    } else if chars_eq_str(&l, "java") {
        "java"
    } else {
        "txt"
    }
}

/// A block matches a preferred language when its info language equals it,
/// ASCII-case-insensitively.
pub open spec fn spec_lang_match(b: CodeBlockView, lang: Seq<char>) -> bool {
    match b.language {
        Some(l) => spec_lower(l) == spec_lower(lang),
        None => false,
    }
}

/// A sequence ends with a suffix.
pub open spec fn spec_ends_with(f: Seq<char>, suffix: Seq<char>) -> bool {
    f.len() >= suffix.len() && f.skip(f.len() - suffix.len()) == suffix
}

/// A block matches a preferred language by file name when its file name
/// ends with a dot and that language's extension.
pub open spec fn spec_file_match(b: CodeBlockView, lang: Seq<char>) -> bool {
    match b.filename {
        Some(f) => spec_ends_with(f, seq!['.'] + spec_ext_for(lang)),
        None => false,
    }
}

/// First block matching the language, if any.
pub open spec fn spec_find_lang_idx(bs: Seq<CodeBlockView>, lang: Seq<char>) -> Option<int>
    decreases bs.len(),
{
    if bs.len() == 0 {
        None
    } else if spec_lang_match(bs[0], lang) {
        Some(0)
    } else {
        match spec_find_lang_idx(bs.drop_first(), lang) {
            Some(i) => Some(i + 1),
            None => None,
        }
    }
}

/// First block matching the language by file name, if any.
pub open spec fn spec_find_file_idx(bs: Seq<CodeBlockView>, lang: Seq<char>) -> Option<int>
    decreases bs.len(),
{
    if bs.len() == 0 {
        None
    } else if spec_file_match(bs[0], lang) {
        Some(0)
    } else {
        match spec_find_file_idx(bs.drop_first(), lang) {
            Some(i) => Some(i + 1),
            None => None,
        }
    }
}

/// First language-matched block over the preferred languages, in
/// preference order.
pub open spec fn spec_first_lang_idx(bs: Seq<CodeBlockView>, langs: Seq<Seq<char>>) -> Option<
    int,
>
    decreases langs.len(),
{
    if langs.len() == 0 {
        None
    } else {
        match spec_find_lang_idx(bs, langs[0]) {
            Some(i) => Some(i),
            None => spec_first_lang_idx(bs, langs.drop_first()),
        }
    }
}

/// First file-matched block over the preferred languages, in preference
/// order.
pub open spec fn spec_first_file_idx(bs: Seq<CodeBlockView>, langs: Seq<Seq<char>>) -> Option<
    int,
>
    decreases langs.len(),
{
    if langs.len() == 0 {
        None
    } else {
        match spec_find_file_idx(bs, langs[0]) {
            Some(i) => Some(i),
            None => spec_first_file_idx(bs, langs.drop_first()),
        }
    }
}

/// The chosen block: an exact language match first, then a file-extension
/// match, then the first block; nothing only when there are no blocks.
pub open spec fn spec_choose_best(bs: Seq<CodeBlockView>, langs: Seq<Seq<char>>) -> Option<int> {
    if bs.len() == 0 {
        None
    } else {
        match spec_first_lang_idx(bs, langs) {
            Some(i) => Some(i),
            None => match spec_first_file_idx(bs, langs) {
                Some(i) => Some(i),
                None => Some(0),
            },
        }
    }
}

proof fn lemma_find_lang_at(bs: Seq<CodeBlockView>, lang: Seq<char>, i: int)
    requires
        0 <= i <= bs.len(),
        forall|j: int| 0 <= j < i ==> !spec_lang_match(#[trigger] bs[j], lang),
        i < bs.len() ==> spec_lang_match(bs[i], lang),
    ensures
        i < bs.len() ==> spec_find_lang_idx(bs, lang) == Some(i),
        i == bs.len() ==> spec_find_lang_idx(bs, lang) is None,
    decreases i,
{
    if i == 0 {
    } else {
        assert(!spec_lang_match(bs[0], lang));
        assert(forall|j: int| #![auto] 0 <= j < bs.len() - 1 ==> bs.drop_first()[j] == bs[j + 1]);
        lemma_find_lang_at(bs.drop_first(), lang, i - 1);
    }
}

proof fn lemma_find_file_at(bs: Seq<CodeBlockView>, lang: Seq<char>, i: int)
    requires
        0 <= i <= bs.len(),
        forall|j: int| 0 <= j < i ==> !spec_file_match(#[trigger] bs[j], lang),
        i < bs.len() ==> spec_file_match(bs[i], lang),
    ensures
        i < bs.len() ==> spec_find_file_idx(bs, lang) == Some(i),
        i == bs.len() ==> spec_find_file_idx(bs, lang) is None,
    decreases i,
{
    if i == 0 {
    } else {
        assert(!spec_file_match(bs[0], lang));
        assert(forall|j: int| #![auto] 0 <= j < bs.len() - 1 ==> bs.drop_first()[j] == bs[j + 1]);
        lemma_find_file_at(bs.drop_first(), lang, i - 1);
    }
}

proof fn lemma_first_lang_skip(bs: Seq<CodeBlockView>, langs: Seq<Seq<char>>, li: int)
    requires
        0 <= li <= langs.len(),
        forall|j: int| 0 <= j < li ==> spec_find_lang_idx(bs, #[trigger] langs[j]) is None,
    ensures
        spec_first_lang_idx(bs, langs) == spec_first_lang_idx(bs, langs.skip(li)),
    decreases li,
{
    if li > 0 {
        assert(spec_find_lang_idx(bs, langs[0]) is None);
        assert(langs.drop_first() =~= langs.skip(1));
        assert(langs.skip(1).skip(li - 1) =~= langs.skip(li));
        assert(forall|j: int| #![auto] 0 <= j < langs.len() - 1 ==> langs.skip(1)[j] == langs[j
            + 1]);
        lemma_first_lang_skip(bs, langs.skip(1), li - 1);
    } else {
        assert(langs.skip(0) =~= langs);
    }
}

proof fn lemma_first_file_skip(bs: Seq<CodeBlockView>, langs: Seq<Seq<char>>, li: int)
    requires
        0 <= li <= langs.len(),
        forall|j: int| 0 <= j < li ==> spec_find_file_idx(bs, #[trigger] langs[j]) is None,
    ensures
        spec_first_file_idx(bs, langs) == spec_first_file_idx(bs, langs.skip(li)),
    decreases li,
{
    if li > 0 {
        assert(spec_find_file_idx(bs, langs[0]) is None);
        assert(langs.drop_first() =~= langs.skip(1));
        assert(langs.skip(1).skip(li - 1) =~= langs.skip(li));
        assert(forall|j: int| #![auto] 0 <= j < langs.len() - 1 ==> langs.skip(1)[j] == langs[j
            + 1]);
        lemma_first_file_skip(bs, langs.skip(1), li - 1);
    } else {
        assert(langs.skip(0) =~= langs);
    }
}

/// True exactly when two strings are ASCII-case-insensitively equal.
fn str_eq_ignore_case(a: &str, b: &str) -> (r: bool)
    ensures
        r == (spec_lower(a@) == spec_lower(b@)),
{
    let ac = str_to_chars(a);
    let bc = str_to_chars(b);
    let al = lower_chars(&ac);
    let bl = lower_chars(&bc);
    chars_eq(&al, &bl)
}

/// True exactly when `f` ends with `suf`.
fn str_ends_with_chars(f: &str, suf: &Vec<char>) -> (r: bool)
    ensures
        r == spec_ends_with(f@, suf@),
{
    let fc = str_to_chars(f);
    let n = fc.len();
    let m = suf.len();
    if m > n {
        return false;
    }
    let mut i: usize = 0;
    while i < m
        invariant
            0 <= i <= m,
            m <= n,
            n == fc@.len(),
            fc@ == f@,
            m == suf@.len(),
            forall|j: int| 0 <= j < i ==> fc@[n - m + j] == suf@[j],
        decreases m - i,
    {
        if fc[n - m + i] != suf[i] {
            proof {
                assert(f@.skip(n - m)[i as int] == fc@[n - m + i]);
            }
            return false;
        }
        i = i + 1;
    }
    proof {
        assert(f@.skip(n - m) =~= suf@);
    }
    true
}

/// The chosen index among the blocks for the preferred languages: an exact
/// language match in preference order first, then a file-extension match,
/// then the first block.
fn choose_best_index(blocks: &[CodeBlock], preferred_langs: &[&str]) -> (r: Option<usize>)
    ensures
        ({
            let bs = blocks@.map_values(|b: CodeBlock| b@);
            let langs = preferred_langs@.map_values(|s: &str| s@);
            match r {
                Some(i) => 0 <= i < bs.len() && spec_choose_best(bs, langs) == Some(i as int),
                None => spec_choose_best(bs, langs) is None,
            }
        }),
{
    let ghost bs = blocks@.map_values(|b: CodeBlock| b@);
    let ghost langs = preferred_langs@.map_values(|s: &str| s@);
    if blocks.len() == 0 {
        return None;
    }
    // Exact language match first.
    let mut li: usize = 0;
    while li < preferred_langs.len()
        invariant
            0 <= li <= preferred_langs@.len(),
            bs == blocks@.map_values(|b: CodeBlock| b@),
            langs == preferred_langs@.map_values(|s: &str| s@),
            bs.len() == blocks@.len(),
            langs.len() == preferred_langs@.len(),
            forall|j: int| 0 <= j < li ==> spec_find_lang_idx(bs, #[trigger] langs[j]) is None,
        decreases preferred_langs@.len() - li,
    {
        let lang = preferred_langs[li];
        let mut bi: usize = 0;
        while bi < blocks.len()
            invariant
                0 <= bi <= blocks@.len(),
                bs == blocks@.map_values(|b: CodeBlock| b@),
                langs == preferred_langs@.map_values(|s: &str| s@),
                bs.len() == blocks@.len(),
                0 <= li < preferred_langs@.len(),
                lang@ == langs[li as int],
                forall|j: int| 0 <= j < li ==> spec_find_lang_idx(bs, #[trigger] langs[j]) is None,
                forall|j: int| 0 <= j < bi ==> !spec_lang_match(#[trigger] bs[j], lang@),
            decreases blocks@.len() - bi,
        {
            let matched = match &blocks[bi].language {
                Some(l) => str_eq_ignore_case(l.as_str(), lang),
                None => false,
            };
            if matched {
                proof {
                    assert(spec_lang_match(bs[bi as int], lang@));
                    lemma_find_lang_at(bs, lang@, bi as int);
                    lemma_first_lang_skip(bs, langs, li as int);
                    assert(langs.skip(li as int)[0] == langs[li as int]);
                    assert(spec_first_lang_idx(bs, langs) == Some(bi as int));
                }
                return Some(bi);
            }
            proof {
                assert(bs[bi as int] == blocks@[bi as int]@);
            }
            bi = bi + 1;
        }
        proof {
            lemma_find_lang_at(bs, lang@, bs.len() as int);
        }
        li = li + 1;
    }
    proof {
        lemma_first_lang_skip(bs, langs, langs.len() as int);
        assert(langs.skip(langs.len() as int) =~= Seq::<Seq<char>>::empty());
        assert(spec_first_lang_idx(bs, langs) is None);
    }
    // File-extension match second.
    let mut li2: usize = 0;
    while li2 < preferred_langs.len()
        invariant
            0 <= li2 <= preferred_langs@.len(),
            bs == blocks@.map_values(|b: CodeBlock| b@),
            langs == preferred_langs@.map_values(|s: &str| s@),
            bs.len() == blocks@.len(),
            bs.len() > 0,
            langs.len() == preferred_langs@.len(),
            spec_first_lang_idx(bs, langs) is None,
            forall|j: int| 0 <= j < li2 ==> spec_find_file_idx(bs, #[trigger] langs[j]) is None,
        decreases preferred_langs@.len() - li2,
    {
        let lang = preferred_langs[li2];
        let ext = guess_ext_from_lang(lang);
        let mut suf: Vec<char> = Vec::new();
        suf.push('.');
        let ext_chars = str_to_chars(ext);
        let mut k: usize = 0;
        while k < ext_chars.len()
            invariant
                0 <= k <= ext_chars@.len(),
                ext_chars@ == spec_ext_for(lang@),
                suf@ == seq!['.'] + ext_chars@.take(k as int),
            decreases ext_chars@.len() - k,
        {
            suf.push(ext_chars[k]);
            proof {
                assert(seq!['.'] + ext_chars@.take(k + 1) =~= (seq!['.'] + ext_chars@.take(
                    k as int,
                )).push(ext_chars@[k as int]));
            }
            k = k + 1;
        }
        proof {
            assert(ext_chars@.take(ext_chars@.len() as int) =~= ext_chars@);
            assert(suf@ == seq!['.'] + spec_ext_for(lang@));
        }
        let mut bi: usize = 0;
        while bi < blocks.len()
            invariant
                0 <= bi <= blocks@.len(),
                bs == blocks@.map_values(|b: CodeBlock| b@),
                langs == preferred_langs@.map_values(|s: &str| s@),
                bs.len() == blocks@.len(),
                0 <= li2 < preferred_langs@.len(),
                lang@ == langs[li2 as int],
                suf@ == seq!['.'] + spec_ext_for(lang@),
                spec_first_lang_idx(bs, langs) is None,
                forall|j: int| 0 <= j < li2 ==> spec_find_file_idx(bs, #[trigger] langs[j]) is None,
                forall|j: int| 0 <= j < bi ==> !spec_file_match(#[trigger] bs[j], lang@),
            decreases blocks@.len() - bi,
        {
            let matched = match &blocks[bi].filename {
                Some(f) => str_ends_with_chars(f.as_str(), &suf),
                None => false,
            };
            if matched {
                proof {
                    assert(spec_file_match(bs[bi as int], lang@));
                    lemma_find_file_at(bs, lang@, bi as int);
                    lemma_first_file_skip(bs, langs, li2 as int);
                    assert(langs.skip(li2 as int)[0] == langs[li2 as int]);
                    assert(spec_first_file_idx(bs, langs) == Some(bi as int));
                }
                return Some(bi);
            }
            proof {
                assert(bs[bi as int] == blocks@[bi as int]@);
            }
            bi = bi + 1;
        }
        proof {
            lemma_find_file_at(bs, lang@, bs.len() as int);
        }
        li2 = li2 + 1;
    }
    proof {
        lemma_first_file_skip(bs, langs, langs.len() as int);
        assert(langs.skip(langs.len() as int) =~= Seq::<Seq<char>>::empty());
        assert(spec_first_file_idx(bs, langs) is None);
    }
    Some(0)
}

/// Chooses the best block for the preferred languages: an exact language
/// match in preference order, then a file-extension match, then the first
/// block; nothing only when there are no blocks.
pub fn choose_best_block<'a>(blocks: &'a [CodeBlock], preferred_langs: &[&str]) -> (r: Option<
    &'a CodeBlock,
>)
    ensures
        ({
            let bs = blocks@.map_values(|b: CodeBlock| b@);
            let langs = preferred_langs@.map_values(|s: &str| s@);
            match spec_choose_best(bs, langs) {
                Some(i) => r matches Some(b) && 0 <= i < bs.len() && b@ == bs[i],
                None => r is None,
            }
        }),
{
    match choose_best_index(blocks, preferred_langs) {
        Some(i) => Some(&blocks[i]),
        None => None,
    }
}

// ---------------------------------------------------------------------------
// Planning writes
// ---------------------------------------------------------------------------

/// The extension for a block: from its language, else from the hint, else
/// plain text.
pub open spec fn spec_ext_choice(language: Option<Seq<char>>, hint: Option<Seq<char>>) -> Seq<
    char,
> {
    match language {
        Some(l) => spec_ext_for(l),
        None => match hint {
            Some(h) => spec_ext_for(h),
            None => "txt"@,
        },
    }
}

/// The file a lone (or chosen) block writes to: its own file name, or a
/// generated snippet name.
pub open spec fn spec_single_name(b: CodeBlockView, hint: Option<Seq<char>>) -> Seq<char> {
    match b.filename {
        Some(f) => f,
        None => "snippet."@ + spec_ext_choice(b.language, hint),
    }
}

/// The file the block at `idx` writes to when every block is written.
pub open spec fn spec_indexed_name(b: CodeBlockView, idx: int) -> Seq<char> {
    match b.filename {
        Some(f) => f,
        None => "snippet_"@ + spec_dec_nat((idx + 1) as nat) + "."@ + spec_ext_choice(
            b.language,
            None,
        ),
    }
}

/// The write plan for extracted blocks: one file for a lone block; with a
/// language hint, one file for the best-matching block; otherwise one
/// numbered file per block.
pub open spec fn spec_plan_writes(bs: Seq<CodeBlockView>, hint: Option<Seq<char>>) -> Seq<
    (Seq<char>, Seq<char>),
> {
    if bs.len() == 0 {
        Seq::empty()
    } else if bs.len() == 1 {
        seq![(spec_single_name(bs[0], hint), bs[0].content)]
    } else {
        match hint {
            Some(h) => match spec_choose_best(bs, seq![h]) {
                Some(i) => seq![(spec_single_name(bs[i], hint), bs[i].content)],
                None => Seq::empty(),
            },
            None => Seq::new(bs.len(), |i: int| (spec_indexed_name(bs[i], i), bs[i].content)),
        }
    }
}

/// Builds the generated file name for one block.
fn single_name(b: &CodeBlock, hint: Option<&str>) -> (r: String)
    ensures
        r@ == spec_single_name(b@, crate::adapter::view_opt_str(hint)),
{
    match &b.filename {
        Some(f) => f.clone(),
        None => {
            let mut out: Vec<char> = Vec::new();
            crate::wire::push_str_chars(&mut out, "snippet.");
            let ext = match &b.language {
                Some(l) => guess_ext_from_lang(l.as_str()),
                None => match hint {
                    Some(h) => guess_ext_from_lang(h),
                    None => "txt",
                },
            };
            crate::wire::push_str_chars(&mut out, ext);
            chars_to_string(&out)
        },
    }
}

/// Builds the numbered file name for one block.
fn indexed_name(b: &CodeBlock, idx: usize) -> (r: String)
    requires
        idx < usize::MAX,
    ensures
        r@ == spec_indexed_name(b@, idx as int),
{
    match &b.filename {
        Some(f) => f.clone(),
        None => {
            let mut out: Vec<char> = Vec::new();
            crate::wire::push_str_chars(&mut out, "snippet_");
            let digits = usize_to_dec_chars(idx + 1);
            let mut k: usize = 0;
            while k < digits.len()
                invariant
                    0 <= k <= digits@.len(),
                    digits@ == spec_dec_nat((idx + 1) as nat),
                    out@ == "snippet_"@ + digits@.take(k as int),
                decreases digits@.len() - k,
            {
                out.push(digits[k]);
                proof {
                    assert("snippet_"@ + digits@.take(k + 1) =~= ("snippet_"@ + digits@.take(
                        k as int,
                    )).push(digits@[k as int]));
                }
                k = k + 1;
            }
            proof {
                assert(digits@.take(digits@.len() as int) =~= digits@);
            }
            crate::wire::push_str_chars(&mut out, ".");
            let ext = match &b.language {
                Some(l) => guess_ext_from_lang(l.as_str()),
                None => "txt",
            };
            crate::wire::push_str_chars(&mut out, ext);
            proof {
                assert(out@ =~= spec_indexed_name(b@, idx as int));
            }
            chars_to_string(&out)
        },
    }
}

/// Plans which files the extracted blocks are written to: the pairs of
/// file name and contents, in order.
pub fn plan_code_writes(blocks: &Vec<CodeBlock>, lang_hint: Option<&str>) -> (r: Vec<
    (String, String),
>)
    ensures
        r@.map_values(|p: (String, String)| (p.0@, p.1@)) == spec_plan_writes(
            blocks@.map_values(|b: CodeBlock| b@),
            crate::adapter::view_opt_str(lang_hint),
        ),
{
    let ghost bs = blocks@.map_values(|b: CodeBlock| b@);
    let ghost hv = crate::adapter::view_opt_str(lang_hint);
    let mut r: Vec<(String, String)> = Vec::new();
    if blocks.len() == 0 {
        proof {
            assert(r@.map_values(|p: (String, String)| (p.0@, p.1@)) =~= spec_plan_writes(
                bs,
                hv,
            ));
        }
        return r;
    }
    if blocks.len() == 1 {
        let name = single_name(&blocks[0], lang_hint);
        r.push((name, blocks[0].content.clone()));
        proof {
            assert(bs[0] == blocks@[0]@);
            assert(r@.map_values(|p: (String, String)| (p.0@, p.1@)) =~= spec_plan_writes(
                bs,
                hv,
            ));
        }
        return r;
    }
    match lang_hint {
        Some(h) => {
            let mut langs: Vec<&str> = Vec::new();
            langs.push(h);
            let idx = match choose_best_index(blocks.as_slice(), langs.as_slice()) {
                Some(i) => i,
                None => {
                    // Unreachable: on a non-empty block list the chooser
                    // always returns an index.
                    proof {
                        assert(langs@.map_values(|s: &str| s@) =~= seq![h@]);
                        assert(bs.len() > 0);
                        assert(false);
                    }
                    0
                },
            };
            proof {
                assert(langs@.map_values(|s: &str| s@) =~= seq![h@]);
            }
            let name = single_name(&blocks[idx], lang_hint);
            r.push((name, blocks[idx].content.clone()));
            proof {
                assert(bs[idx as int] == blocks@[idx as int]@);
                assert(r@.map_values(|p: (String, String)| (p.0@, p.1@)) =~= spec_plan_writes(
                    bs,
                    hv,
                ));
            }
            r
        },
        None => {
            let mut i: usize = 0;
            while i < blocks.len()
                invariant
                    0 <= i <= blocks@.len(),
                    bs == blocks@.map_values(|b: CodeBlock| b@),
                    bs.len() == blocks@.len(),
                    r@.map_values(|p: (String, String)| (p.0@, p.1@)) =~= Seq::new(
                        i as nat,
                        |k: int| (spec_indexed_name(bs[k], k), bs[k].content),
                    ),
                decreases blocks@.len() - i,
            {
                let name = indexed_name(&blocks[i], i);
                let ghost prev = r@;
                r.push((name, blocks[i].content.clone()));
                proof {
                    assert(bs[i as int] == blocks@[i as int]@);
                    assert(r@.map_values(|p: (String, String)| (p.0@, p.1@)) =~= prev.map_values(
                        |p: (String, String)| (p.0@, p.1@),
                    ).push((r@.last().0@, r@.last().1@)));
                    assert(r@.last().0@ == spec_indexed_name(bs[i as int], i as int));
                    assert(r@.last().1@ == bs[i as int].content);
                    assert(r@.map_values(|p: (String, String)| (p.0@, p.1@)) =~= Seq::new(
                        (i + 1) as nat,
                        |k: int| (spec_indexed_name(bs[k], k), bs[k].content),
                    ));
                }
                i = i + 1;
            }
            proof {
                assert(r@.map_values(|p: (String, String)| (p.0@, p.1@)) =~= spec_plan_writes(
                    bs,
                    hv,
                ));
            }
            r
        },
    }
}

} // verus!
