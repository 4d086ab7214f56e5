//! Plain-text helpers shared by the whole library: ASCII case folding,
//! whitespace trimming over characters and bytes, decimal rendering of
//! integers, and conversions between `String` and `Vec<char>`.

use vstd::prelude::*;
use vstd::string::StrSliceExecFns;

verus! {

// ---------------------------------------------------------------------------
// ASCII case folding
// ---------------------------------------------------------------------------

/// ASCII lower-casing of one character; other characters are unchanged.
pub open spec fn spec_lower_char(c: char) -> char {
    if 'A' <= c && c <= 'Z' {
        (((c as u8) + 32) as char)
    } else {
        c
    }
}

/// ASCII lower-casing of a character sequence.
pub open spec fn spec_lower(s: Seq<char>) -> Seq<char> {
    s.map_values(|c: char| spec_lower_char(c))
}

pub fn lower_char(c: char) -> (r: char)
    ensures
        r == spec_lower_char(c),
{
    if 'A' <= c && c <= 'Z' {
        ((c as u8) + 32) as char
    } else {
        c
    }
}

pub fn lower_chars(v: &Vec<char>) -> (r: Vec<char>)
    ensures
        r@ == spec_lower(v@),
{
    let mut r: Vec<char> = Vec::new();
    let mut i: usize = 0;
    while i < v.len()
        invariant
            0 <= i <= v@.len(),
            r@ == spec_lower(v@.take(i as int)),
        decreases v@.len() - i,
    {
        r.push(lower_char(v[i]));
        proof {
            assert(v@.take(i + 1).map_values(|c: char| spec_lower_char(c)) =~= v@.take(
                i as int,
            ).map_values(|c: char| spec_lower_char(c)).push(spec_lower_char(v@[i as int])));
        }
        i = i + 1;
    }
    proof {
        assert(v@.take(v@.len() as int) =~= v@);
    }
    r
}

// ---------------------------------------------------------------------------
// Whitespace and trimming
// ---------------------------------------------------------------------------

/// ASCII whitespace characters: space, tab, line feed, vertical tab, form
/// feed, carriage return.
pub open spec fn spec_is_ws_char(c: char) -> bool {
    c == ' ' || c == '\t' || c == '\n' || c == '\u{b}' || c == '\u{c}' || c == '\r'
}

/// ASCII whitespace bytes, mirroring `spec_is_ws_char`.
pub open spec fn spec_is_ws_byte(b: u8) -> bool {
    b == 0x20 || b == 0x09 || b == 0x0a || b == 0x0b || b == 0x0c || b == 0x0d
}

pub fn is_ws_char(c: char) -> (r: bool)
    ensures
        r == spec_is_ws_char(c),
{
    c == ' ' || c == '\t' || c == '\n' || c == '\u{b}' || c == '\u{c}' || c == '\r'
}

pub fn is_ws_byte(b: u8) -> (r: bool)
    ensures
        r == spec_is_ws_byte(b),
{
    b == 0x20 || b == 0x09 || b == 0x0a || b == 0x0b || b == 0x0c || b == 0x0d
}

/// Drops the longest prefix of elements satisfying `p`.
pub open spec fn spec_drop_while<T>(s: Seq<T>, p: spec_fn(T) -> bool) -> Seq<T>
    decreases s.len(),
{
    if s.len() > 0 && p(s[0]) {
        spec_drop_while(s.drop_first(), p)
    } else {
        s
    }
}

/// Drops the longest suffix of elements satisfying `p`.
pub open spec fn spec_drop_while_end<T>(s: Seq<T>, p: spec_fn(T) -> bool) -> Seq<T>
    decreases s.len(),
{
    if s.len() > 0 && p(s.last()) {
        spec_drop_while_end(s.drop_last(), p)
    } else {
        s
    }
}

/// Both-sided trim by a predicate.
pub open spec fn spec_trim_by<T>(s: Seq<T>, p: spec_fn(T) -> bool) -> Seq<T> {
    spec_drop_while_end(spec_drop_while(s, p), p)
}

/// The whitespace predicate on characters, as a value.
pub open spec fn char_ws_pred() -> spec_fn(char) -> bool {
    |c: char| spec_is_ws_char(c)
}

/// The whitespace predicate on bytes, as a value.
pub open spec fn byte_ws_pred() -> spec_fn(u8) -> bool {
    |b: u8| spec_is_ws_byte(b)
}

/// Whitespace trim of a character sequence.
pub open spec fn spec_trim(s: Seq<char>) -> Seq<char> {
    spec_trim_by(s, char_ws_pred())
}

/// Whitespace trim of a byte sequence.
pub open spec fn spec_trim_bytes(s: Seq<u8>) -> Seq<u8> {
    spec_trim_by(s, byte_ws_pred())
}

pub proof fn lemma_drop_while_skip<T>(s: Seq<T>, p: spec_fn(T) -> bool, i: int)
    requires
        0 <= i <= s.len(),
        forall|j: int| 0 <= j < i ==> p(s[j]),
    ensures
        spec_drop_while(s, p) == spec_drop_while(s.skip(i), p),
    decreases i,
{
    if i > 0 {
        assert(p(s[0]));
        assert(spec_drop_while(s, p) == spec_drop_while(s.drop_first(), p));
        assert(s.drop_first() =~= s.skip(1));
        assert(s.skip(1).skip(i - 1) =~= s.skip(i));
        lemma_drop_while_skip(s.skip(1), p, i - 1);
    } else {
        assert(s.skip(0) =~= s);
    }
}

pub proof fn lemma_drop_while_stops<T>(s: Seq<T>, p: spec_fn(T) -> bool)
    requires
        s.len() == 0 || !p(s[0]),
    ensures
        spec_drop_while(s, p) == s,
{
}

/// When the first `i` elements satisfy `p` and element `i` (if any) does not,
/// dropping-while is exactly `skip(i)`.
pub proof fn lemma_drop_while_is_skip<T>(s: Seq<T>, p: spec_fn(T) -> bool, i: int)
    requires
        0 <= i <= s.len(),
        forall|j: int| 0 <= j < i ==> p(s[j]),
        i < s.len() ==> !p(s[i]),
    ensures
        spec_drop_while(s, p) == s.skip(i),
{
    lemma_drop_while_skip(s, p, i);
    if i < s.len() {
        assert(s.skip(i)[0] == s[i]);
    }
    lemma_drop_while_stops(s.skip(i), p);
}

pub proof fn lemma_drop_while_end_take<T>(s: Seq<T>, p: spec_fn(T) -> bool, e: int)
    requires
        0 <= e <= s.len(),
        forall|j: int| e <= j < s.len() ==> p(s[j]),
        e > 0 ==> !p(s[e - 1]),
    ensures
        spec_drop_while_end(s, p) == s.take(e),
    decreases s.len(),
{
    if s.len() > e {
        assert(p(s.last()));
        assert(s.drop_last() =~= s.take(s.len() - 1));
        assert(forall|j: int| e <= j < s.len() - 1 ==> p(#[trigger] s.take(s.len() - 1)[j]));
        lemma_drop_while_end_take(s.take(s.len() - 1), p, e);
        assert(s.take(s.len() - 1).take(e) =~= s.take(e));
    } else {
        if s.len() > 0 {
            assert(!p(s.last()));
        }
        assert(s.take(e) =~= s);
    }
}

/// When everything before `a` and everything from `b` on is whitespace, and
/// positions `a` and `b - 1` (when the range is non-empty) are not, trimming
/// yields exactly the middle part.
pub proof fn lemma_trim_parts(s: Seq<char>, a: int, b: int)
    requires
        0 <= a <= b <= s.len(),
        forall|j: int| 0 <= j < a ==> spec_is_ws_char(#[trigger] s[j]),
        forall|j: int| b <= j < s.len() ==> spec_is_ws_char(#[trigger] s[j]),
        a < b ==> !spec_is_ws_char(s[a]) && !spec_is_ws_char(s[b - 1]),
    ensures
        spec_trim(s) == s.subrange(a, b),
{
    let p = char_ws_pred();
    if a < b {
        assert(forall|j: int| 0 <= j < a ==> p(#[trigger] s[j]));
        lemma_drop_while_is_skip(s, p, a);
        let m = s.skip(a);
        assert(forall|j: int| #![auto] 0 <= j < m.len() ==> m[j] == s[j + a]);
        assert(forall|j: int| b - a <= j < m.len() ==> p(#[trigger] m[j]));
        assert(!p(m[b - a - 1]));
        lemma_drop_while_end_take(m, p, b - a);
        assert(m.take(b - a) =~= s.subrange(a, b));
    } else {
        assert(forall|j: int| 0 <= j < s.len() ==> p(#[trigger] s[j]));
        lemma_drop_while_is_skip(s, p, s.len() as int);
        assert(s.skip(s.len() as int) =~= Seq::<char>::empty());
        assert(spec_drop_while_end(Seq::<char>::empty(), p) =~= Seq::<char>::empty());
        assert(s.subrange(a, b) =~= Seq::<char>::empty());
    }
}

/// Trims leading and trailing ASCII whitespace from a character vector.
pub fn trim_chars(v: &Vec<char>) -> (r: Vec<char>)
    ensures
        r@ == spec_trim(v@),
{
    let ghost p = char_ws_pred();
    let mut start: usize = 0;
    while start < v.len() && is_ws_char(v[start])
        invariant
            0 <= start <= v@.len(),
            forall|j: int| 0 <= j < start ==> spec_is_ws_char(#[trigger] v@[j]),
        decreases v@.len() - start,
    {
        start = start + 1;
    }
    proof {
        assert(forall|j: int| 0 <= j < start ==> p(#[trigger] v@[j]));
        assert(start < v@.len() ==> !p(v@[start as int]));
        lemma_drop_while_is_skip(v@, p, start as int);
    }
    let ghost mid = v@.skip(start as int);
    let mut end: usize = v.len();
    while end > start && is_ws_char(v[end - 1])
        invariant
            start <= end <= v@.len(),
            forall|j: int| end <= j < v@.len() ==> spec_is_ws_char(#[trigger] v@[j]),
        decreases end,
    {
        end = end - 1;
    }
    proof {
        assert(forall|j: int| #![auto] end - start <= j < mid.len() ==> mid[j] == v@[j + start]);
        assert(forall|j: int| end - start <= j < mid.len() ==> p(#[trigger] mid[j]));
        assert(end > start ==> mid[end - start - 1] == v@[end - 1]);
        assert(end > start ==> !p(mid[end - start - 1]));
        lemma_drop_while_end_take(mid, p, end - start);
    }
    let mut r: Vec<char> = Vec::new();
    let mut i: usize = start;
    while i < end
        invariant
            start <= i <= end <= v@.len(),
            r@ == v@.subrange(start as int, i as int),
        decreases end - i,
    {
        r.push(v[i]);
        proof {
            assert(v@.subrange(start as int, i + 1) =~= v@.subrange(start as int, i as int).push(
                v@[i as int],
            ));
        }
        i = i + 1;
    }
    proof {
        assert(mid.take(end - start) =~= v@.subrange(start as int, end as int));
    }
    r
}

/// Trims leading and trailing ASCII whitespace from a byte sequence.
pub fn trim_bytes(v: &Vec<u8>) -> (r: Vec<u8>)
    ensures
        r@ == spec_trim_bytes(v@),
{
    let ghost p = byte_ws_pred();
    let mut start: usize = 0;
    while start < v.len() && is_ws_byte(v[start])
        invariant
            0 <= start <= v@.len(),
            forall|j: int| 0 <= j < start ==> spec_is_ws_byte(#[trigger] v@[j]),
        decreases v@.len() - start,
    {
        start = start + 1;
    }
    proof {
        assert(forall|j: int| 0 <= j < start ==> p(#[trigger] v@[j]));
        assert(start < v@.len() ==> !p(v@[start as int]));
        lemma_drop_while_is_skip(v@, p, start as int);
    }
    let ghost mid = v@.skip(start as int);
    let mut end: usize = v.len();
    while end > start && is_ws_byte(v[end - 1])
        invariant
            start <= end <= v@.len(),
            forall|j: int| end <= j < v@.len() ==> spec_is_ws_byte(#[trigger] v@[j]),
        decreases end,
    {
        end = end - 1;
    }
    proof {
        assert(forall|j: int| #![auto] end - start <= j < mid.len() ==> mid[j] == v@[j + start]);
        assert(forall|j: int| end - start <= j < mid.len() ==> p(#[trigger] mid[j]));
        assert(end > start ==> mid[end - start - 1] == v@[end - 1]);
        assert(end > start ==> !p(mid[end - start - 1]));
        lemma_drop_while_end_take(mid, p, end - start);
    }
    let mut r: Vec<u8> = Vec::new();
    let mut i: usize = start;
    while i < end
        invariant
            start <= i <= end <= v@.len(),
            r@ == v@.subrange(start as int, i as int),
        decreases end - i,
    {
        r.push(v[i]);
        proof {
            assert(v@.subrange(start as int, i + 1) =~= v@.subrange(start as int, i as int).push(
                v@[i as int],
            ));
        }
        i = i + 1;
    }
    proof {
        assert(mid.take(end - start) =~= v@.subrange(start as int, end as int));
    }
    r
}

// ---------------------------------------------------------------------------
// String and Vec<char> conversions
// ---------------------------------------------------------------------------

/// Reads the characters of a string slice into a vector.
pub fn str_to_chars(s: &str) -> (r: Vec<char>)
    ensures
        r@ == s@,
{
    let n = s.unicode_len();
    let mut r: Vec<char> = Vec::new();
    let mut i: usize = 0;
    while i < n
        invariant
            n == s@.len(),
            0 <= i <= n,
            r@ == s@.take(i as int),
        decreases n - i,
    {
        r.push(s.get_char(i));
        proof {
            assert(s@.take(i + 1) =~= s@.take(i as int).push(s@[i as int]));
        }
        i = i + 1;
    }
    proof {
        assert(s@.take(n as int) =~= s@);
    }
    r
}

/// Relies on `String`'s `FromIterator` over `char`: collecting characters
/// yields a string whose characters are exactly those collected.
#[verifier::external_body]
pub fn chars_to_string(v: &Vec<char>) -> (r: String)
    ensures
        r@ == v@,
{
    v.iter().collect()
}

/// True exactly when the characters of `v` equal those of `s`.
pub fn chars_eq_str(v: &Vec<char>, s: &str) -> (r: bool)
    ensures
        r == (v@ == s@),
{
    let n = s.unicode_len();
    if v.len() != n {
        return false;
    }
    let mut i: usize = 0;
    while i < n
        invariant
            n == s@.len() == v@.len(),
            0 <= i <= n,
            forall|j: int| 0 <= j < i ==> v@[j] == s@[j],
        decreases n - i,
    {
        if v[i] != s.get_char(i) {
            return false;
        }
        i = i + 1;
    }
    proof {
        assert(v@ =~= s@);
    }
    true
}

/// True exactly when `v` matches the characters of `pat` starting at `i`.
pub fn chars_match_at(v: &Vec<char>, i: usize, pat: &str) -> (r: bool)
    ensures
        r == (i + pat@.len() <= v@.len() && v@.subrange(i as int, i + pat@.len()) == pat@),
{
    let m = pat.unicode_len();
    let n = v.len();
    if m > n || i > n - m {
        return false;
    }
    let mut j: usize = 0;
    while j < m
        invariant
            m == pat@.len(),
            n == v@.len(),
            i + m <= n,
            0 <= j <= m,
            forall|k: int| 0 <= k < j ==> v@[i + k] == pat@[k],
        decreases m - j,
    {
        if v[i + j] != pat.get_char(j) {
            proof {
                assert(v@.subrange(i as int, i + pat@.len())[j as int] == v@[i + j]);
            }
            return false;
        }
        j = j + 1;
    }
    proof {
        assert(v@.subrange(i as int, i + pat@.len()) =~= pat@);
    }
    true
}

// ---------------------------------------------------------------------------
// Decimal rendering of integers
// ---------------------------------------------------------------------------

/// The character for one decimal digit.
pub open spec fn spec_digit(d: int) -> char
    recommends
        0 <= d < 10,
{
    ((0x30 + d) as u8) as char
}

/// Decimal rendering of a natural number, most significant digit first.
pub open spec fn spec_dec_nat(n: nat) -> Seq<char>
    decreases n,
{
    if n < 10 {
        seq![spec_digit(n as int)]
    } else {
        spec_dec_nat(n / 10) + seq![spec_digit((n % 10) as int)]
    }
}

/// Decimal rendering of a signed value: a minus sign before the magnitude.
pub open spec fn spec_dec_int(t: int) -> Seq<char> {
    if t >= 0 {
        spec_dec_nat(t as nat)
    } else {
        seq!['-'] + spec_dec_nat((-t) as nat)
    }
}

pub fn dec_u64_chars(n: u64) -> (r: Vec<char>)
    ensures
        r@ == spec_dec_nat(n as nat),
    decreases n,
{
    if n < 10 {
        let mut r: Vec<char> = Vec::new();
        r.push((0x30u8 + (n as u8)) as char);
        proof {
            assert(r@ =~= seq![spec_digit(n as int)]);
        }
        r
    } else {
        let mut r = dec_u64_chars(n / 10);
        r.push((0x30u8 + ((n % 10) as u8)) as char);
        proof {
            assert(r@ =~= spec_dec_nat((n / 10) as nat) + seq![spec_digit((n % 10) as int)]);
        }
        r
    }
}

pub fn dec_i64_chars(t: i64) -> (r: Vec<char>)
    ensures
        r@ == spec_dec_int(t as int),
{
    if t >= 0 {
        dec_u64_chars(t as u64)
    } else {
        let mag: u64 = if t == i64::MIN {
            9223372036854775808u64
        } else {
            (-t) as u64
        };
        assert(mag == -(t as int));
        let mut r: Vec<char> = Vec::new();
        r.push('-');
        let digits = dec_u64_chars(mag);
        let mut i: usize = 0;
        while i < digits.len()
            invariant
                0 <= i <= digits@.len(),
                r@ == seq!['-'] + digits@.take(i as int),
            decreases digits@.len() - i,
        {
            r.push(digits[i]);
            proof {
                assert(seq!['-'] + digits@.take(i + 1) =~= (seq!['-'] + digits@.take(
                    i as int,
                )).push(digits@[i as int]));
            }
            i = i + 1;
        }
        proof {
            assert(digits@.take(digits@.len() as int) =~= digits@);
        }
        r
    }
}

/// Renders a signed value in decimal.
pub fn i64_to_string(t: i64) -> (r: String)
    ensures
        r@ == spec_dec_int(t as int),
{
    let v = dec_i64_chars(t);
    chars_to_string(&v)
}

/// The numeric value of a sequence of decimal digit characters.
pub open spec fn spec_digits_val(s: Seq<char>) -> int
    decreases s.len(),
{
    if s.len() == 0 {
        0
    } else {
        spec_digits_val(s.drop_last()) * 10 + (s.last() as int - 0x30)
    }
}

/// All characters are decimal digits.
pub open spec fn spec_all_digits(s: Seq<char>) -> bool {
    forall|j: int| 0 <= j < s.len() ==> '0' <= #[trigger] s[j] && s[j] <= '9'
}

/// The value and bounds of one digit character.
pub proof fn lemma_digit_char(d: int)
    requires
        0 <= d < 10,
    ensures
        spec_digit(d) as int == 0x30 + d,
        '0' <= spec_digit(d) && spec_digit(d) <= '9',
{
    assert((0x30 + d) as u8 == 0x30 + d);
    assert((((0x30 + d) as u8) as char) as int == 0x30 + d);
}

/// Reading back the decimal rendering of `n` yields `n`, its digits are all
/// decimal, and it never starts with a redundant zero.
pub proof fn lemma_dec_nat_val(n: nat)
    ensures
        spec_digits_val(spec_dec_nat(n)) == n,
        spec_all_digits(spec_dec_nat(n)),
        spec_dec_nat(n).len() >= 1,
        n >= 10 ==> spec_dec_nat(n)[0] != '0',
        n < 10 ==> spec_dec_nat(n).len() == 1,
    decreases n,
{
    if n < 10 {
        lemma_digit_char(n as int);
        let s = spec_dec_nat(n);
        assert(s == seq![spec_digit(n as int)]);
        assert(s.drop_last() =~= Seq::<char>::empty());
        assert(s.last() == spec_digit(n as int));
        assert(spec_digits_val(s) == spec_digits_val(s.drop_last()) * 10 + (s.last() as int
            - 0x30));
        assert(spec_digits_val(s.drop_last()) == 0);
        assert(forall|j: int| 0 <= j < s.len() ==> '0' <= #[trigger] s[j] && s[j] <= '9');
    } else {
        lemma_dec_nat_val(n / 10);
        lemma_digit_char((n % 10) as int);
        let prefix = spec_dec_nat(n / 10);
        let whole = spec_dec_nat(n);
        assert(whole == prefix + seq![spec_digit((n % 10) as int)]);
        assert(whole.drop_last() =~= prefix);
        assert(whole.last() == spec_digit((n % 10) as int));
        assert(spec_digits_val(whole) == (n / 10) * 10 + (n % 10));
        assert((n / 10) * 10 + (n % 10) == n) by (nonlinear_arith);
        assert(whole[0] == prefix[0]);
        assert(prefix[0] != '0') by {
            if n / 10 < 10 {
                assert(prefix == seq![spec_digit((n / 10) as int)]);
                assert(n / 10 >= 1);
                lemma_digit_char((n / 10) as int);
                assert('0' as int == 0x30);
            }
        }
        assert(forall|j: int| 0 <= j < whole.len() - 1 ==> whole[j] == prefix[j]);
        assert(forall|j: int| 0 <= j < whole.len() ==> '0' <= #[trigger] whole[j] && whole[j]
            <= '9');
    }
}

/// True exactly when two character vectors hold the same characters.
pub fn chars_eq(a: &Vec<char>, b: &Vec<char>) -> (r: bool)
    ensures
        r == (a@ == b@),
{
    if a.len() != b.len() {
        return false;
    }
    let mut i: usize = 0;
    while i < a.len()
        invariant
            a@.len() == b@.len(),
            0 <= i <= a@.len(),
            forall|j: int| 0 <= j < i ==> a@[j] == b@[j],
        decreases a@.len() - i,
    {
        if a[i] != b[i] {
            return false;
        }
        i = i + 1;
    }
    proof {
        assert(a@ =~= b@);
    }
    true
}

/// Decimal rendering of an index, for generated file names.
pub fn usize_to_dec_chars(n: usize) -> (r: Vec<char>)
    ensures
        r@ == spec_dec_nat(n as nat),
{
    dec_u64_chars(n as u64)
}

} // verus!
