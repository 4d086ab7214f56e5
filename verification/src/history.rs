//! Message records and their newline-delimited JSON persistence: each turn
//! is one JSON object per line, written by this module and read back by it,
//! with a proved round trip.

use vstd::prelude::*;
use crate::text::{
    spec_dec_int, spec_dec_nat, spec_digits_val, spec_all_digits, lemma_dec_nat_val,
    dec_i64_chars, chars_to_string, str_to_chars, chars_match_at,
};
use crate::wire::{
    spec_json_string, spec_escape, spec_escape_char, spec_hex_digit, push_json_string,
    push_str_chars,
};

verus! {

// ---------------------------------------------------------------------------
// The record
// ---------------------------------------------------------------------------

/// Mathematical model of one persisted message record.
pub ghost struct MessageRecordView {
    pub role: Seq<char>,
    pub content: Seq<char>,
    pub timestamp_ms: int,
}

/// One persisted turn: a role, its text, and when it happened.
#[derive(Debug, Clone)]
pub struct MessageRecord {
    pub role: String,
    pub content: String,
    pub timestamp_ms: i64,
}

impl View for MessageRecord {
    type V = MessageRecordView;

    open spec fn view(&self) -> MessageRecordView {
        MessageRecordView {
            role: self.role@,
            content: self.content@,
            timestamp_ms: self.timestamp_ms as int,
        }
    }
}

// ---------------------------------------------------------------------------
// Writing one record as a JSON line
// ---------------------------------------------------------------------------

/// The JSON object one record is persisted as (without the terminating
/// newline).
pub open spec fn spec_record_json(v: MessageRecordView) -> Seq<char> {
    "{\"role\":"@ + spec_json_string(v.role) + ",\"content\":"@ + spec_json_string(v.content)
        + ",\"timestamp_ms\":"@ + spec_dec_int(v.timestamp_ms) + "}"@
}

/// Appends the characters of a vector.
fn push_chars(out: &mut Vec<char>, s: &Vec<char>)
    ensures
        final(out)@ == old(out)@ + s@,
{
    let mut i: usize = 0;
    while i < s.len()
        invariant
            0 <= i <= s@.len(),
            out@ == old(out)@ + s@.take(i as int),
        decreases s@.len() - i,
    {
        out.push(s[i]);
        proof {
            assert(old(out)@ + s@.take(i + 1) =~= (old(out)@ + s@.take(i as int)).push(
                s@[i as int],
            ));
        }
        i = i + 1;
    }
    proof {
        assert(s@.take(s@.len() as int) =~= s@);
    }
}

/// Serializes one record to its JSON line.
pub fn record_to_json_line(r: &MessageRecord) -> (s: String)
    ensures
        s@ == spec_record_json(r@),
{
    let mut out: Vec<char> = Vec::new();
    push_str_chars(&mut out, "{\"role\":");
    let role = str_to_chars(r.role.as_str());
    push_json_string(&mut out, &role);
    push_str_chars(&mut out, ",\"content\":");
    let content = str_to_chars(r.content.as_str());
    push_json_string(&mut out, &content);
    push_str_chars(&mut out, ",\"timestamp_ms\":");
    let ts = dec_i64_chars(r.timestamp_ms);
    push_chars(&mut out, &ts);
    push_str_chars(&mut out, "}");
    proof {
        assert(out@ =~= spec_record_json(r@));
    }
    chars_to_string(&out)
}

// ---------------------------------------------------------------------------
// Reading one JSON line back
// ---------------------------------------------------------------------------

/// The character a short escape stands for, if it is one.
pub open spec fn spec_shorthand_unescape(e: char) -> Option<char> {
    if e == '"' {
        Some('"')
    } else if e == '\\' {
        Some('\\')
    } else if e == 'b' {
        Some('\u{8}')
    } else if e == 'f' {
        Some('\u{c}')
    } else if e == 'n' {
        Some('\n')
    } else if e == 'r' {
        Some('\r')
    } else if e == 't' {
        Some('\t')
    } else {
        None
    }
}

/// The value of one lowercase hex digit, if it is one.
pub open spec fn spec_hex_val(c: char) -> Option<int> {
    if '0' <= c && c <= '9' {
        Some(c as int - 0x30)
    } else if 'a' <= c && c <= 'f' {
        Some(c as int - 0x61 + 10)
    } else {
        None
    }
}

/// Scans a JSON string body from the character after the opening quote to
/// its closing quote: the decoded content and what follows the closing
/// quote. Unterminated strings, unknown escapes and raw control characters
/// scan to nothing.
pub open spec fn spec_scan_jstring(s: Seq<char>) -> Option<(Seq<char>, Seq<char>)>
    decreases s.len(),
{
    if s.len() == 0 {
        None
    } else if s[0] == '"' {
        Some((Seq::empty(), s.drop_first()))
    } else if s[0] == '\\' {
        if s.len() < 2 {
            None
        } else if s[1] == 'u' {
            if s.len() < 6 {
                None
            } else if s[2] == '0' && s[3] == '0' {
                match spec_hex_val(s[4]) {
                    Some(h) => match spec_hex_val(s[5]) {
                        Some(l) => match spec_scan_jstring(s.skip(6)) {
                            Some(p) => Some(
                                (seq![(((h * 16 + l) as u8) as char)] + p.0, p.1),
                            ),
                            None => None,
                        },
                        None => None,
                    },
                    None => None,
                }
            } else {
                None
            }
        } else {
            match spec_shorthand_unescape(s[1]) {
                Some(c) => match spec_scan_jstring(s.skip(2)) {
                    Some(p) => Some((seq![c] + p.0, p.1)),
                    None => None,
                },
                None => None,
            }
        }
    } else if (s[0] as u32) < 0x20 {
        None
    } else {
        match spec_scan_jstring(s.drop_first()) {
            Some(p) => Some((seq![s[0]] + p.0, p.1)),
            None => None,
        }
    }
}

/// How many decimal digits open the sequence.
pub open spec fn spec_digit_run(s: Seq<char>) -> int
    decreases s.len(),
{
    if s.len() > 0 && '0' <= s[0] && s[0] <= '9' {
        1 + spec_digit_run(s.drop_first())
    } else {
        0
    }
}

/// Scans a decimal integer, optionally signed, whose value fits an `i64`:
/// the value and what follows the digits.
pub open spec fn spec_scan_int(s: Seq<char>) -> Option<(int, Seq<char>)> {
    if s.len() > 0 && s[0] == '-' {
        let k = spec_digit_run(s.skip(1));
        if k == 0 {
            None
        } else {
            let m = spec_digits_val(s.skip(1).take(k));
            if m <= 0x8000000000000000 {
                Some((-m, s.skip(1 + k)))
            } else {
                None
            }
        }
    } else {
        let k = spec_digit_run(s);
        if k == 0 {
            None
        } else {
            let m = spec_digits_val(s.take(k));
            if m <= 0x7fffffffffffffff {
                Some((m, s.skip(k)))
            } else {
                None
            }
        }
    }
}

/// What a persisted history line denotes, when it is exactly one record in
/// the canonical shape this module writes.
pub open spec fn spec_parse_record(s: Seq<char>) -> Option<MessageRecordView> {
    if s.len() >= 9 && s.take(9) == "{\"role\":\""@ {
        match spec_scan_jstring(s.skip(9)) {
            Some(p1) => {
                let role = p1.0;
                let r1 = p1.1;
                if r1.len() >= 12 && r1.take(12) == ",\"content\":\""@ {
                    match spec_scan_jstring(r1.skip(12)) {
                        Some(p2) => {
                            let content = p2.0;
                            let r2 = p2.1;
                            if r2.len() >= 16 && r2.take(16) == ",\"timestamp_ms\":"@ {
                                match spec_scan_int(r2.skip(16)) {
                                    Some(p3) => if p3.1 == "}"@ {
                                        Some(
                                            MessageRecordView {
                                                role: role,
                                                content: content,
                                                timestamp_ms: p3.0,
                                            },
                                        )
                                    } else {
                                        None
                                    },
                                    None => None,
                                }
                            } else {
                                None
                            }
                        },
                        None => None,
                    }
                } else {
                    None
                }
            },
            None => None,
        }
    } else {
        None
    }
}

// ---------------------------------------------------------------------------
// Exec scanners
// ---------------------------------------------------------------------------

fn hex_val(c: char) -> (r: Option<u8>)
    ensures
        match r {
            Some(h) => spec_hex_val(c) == Some(h as int) && h < 16,
            None => spec_hex_val(c) is None,
        },
{
    if '0' <= c && c <= '9' {
        Some((c as u8) - 0x30)
    } else if 'a' <= c && c <= 'f' {
        Some((c as u8) - 0x61 + 10)
    } else {
        None
    }
}

fn scan_jstring(v: &Vec<char>, start: usize) -> (r: Option<(Vec<char>, usize)>)
    requires
        start <= v@.len(),
    ensures
        match r {
            Some(p) => start <= p.1 <= v@.len() && spec_scan_jstring(v@.skip(start as int))
                == Some((p.0@, v@.skip(p.1 as int))),
            None => spec_scan_jstring(v@.skip(start as int)) is None,
        },
{
    let n = v.len();
    let mut content: Vec<char> = Vec::new();
    let mut j: usize = start;
    loop
        invariant
            start <= j <= n,
            n == v@.len(),
            match spec_scan_jstring(v@.skip(j as int)) {
                Some(p) => spec_scan_jstring(v@.skip(start as int)) == Some(
                    (content@ + p.0, p.1),
                ),
                None => spec_scan_jstring(v@.skip(start as int)) is None,
            },
        decreases n - j,
    {
        let ghost sj = v@.skip(j as int);
        if j >= n {
            proof {
                assert(sj.len() == 0);
            }
            return None;
        }
        proof {
            assert(sj[0] == v@[j as int]);
        }
        let c = v[j];
        if c == '"' {
            proof {
                assert(sj.drop_first() =~= v@.skip(j + 1));
                assert(spec_scan_jstring(sj) == Some((Seq::<char>::empty(), v@.skip(j + 1))));
                assert(content@ + Seq::<char>::empty() =~= content@);
            }
            return Some((content, j + 1));
        }
        if c == '\\' {
            if j + 1 >= n {
                proof {
                    assert(sj.len() < 2);
                }
                return None;
            }
            proof {
                assert(sj[1] == v@[j + 1]);
            }
            let e = v[j + 1];
            if e == 'u' {
                if n - j < 6 {
                    proof {
                        assert(sj.len() < 6);
                    }
                    return None;
                }
                proof {
                    assert(sj[2] == v@[j + 2] && sj[3] == v@[j + 3] && sj[4] == v@[j + 4] && sj[5]
                        == v@[j + 5]);
                }
                if !(v[j + 2] == '0' && v[j + 3] == '0') {
                    return None;
                }
                let h = match hex_val(v[j + 4]) {
                    Some(h) => h,
                    None => {
                        return None;
                    },
                };
                let l = match hex_val(v[j + 5]) {
                    Some(l) => l,
                    None => {
                        return None;
                    },
                };
                let ghost content_before = content@;
                content.push(((h * 16 + l) as u8) as char);
                proof {
                    assert(sj.skip(6) =~= v@.skip(j + 6));
                    let dc = (((h * 16 + l) as u8) as char);
                    assert(spec_scan_jstring(sj) == (match spec_scan_jstring(v@.skip(j + 6)) {
                        Some(p) => Some((seq![dc] + p.0, p.1)),
                        None => None::<(Seq<char>, Seq<char>)>,
                    }));
                    assert(content@ =~= content_before.push(dc));
                    assert forall|p0: Seq<char>| true implies content_before + (seq![dc] + p0)
                        =~= content@ + p0 by {}
                }
                j = j + 6;
            } else {
                let ghost content_before = content@;
                let dc: char;
                if e == '"' {
                    dc = '"';
                } else if e == '\\' {
                    dc = '\\';
                } else if e == 'b' {
                    dc = '\u{8}';
                } else if e == 'f' {
                    dc = '\u{c}';
                } else if e == 'n' {
                    dc = '\n';
                } else if e == 'r' {
                    dc = '\r';
                } else if e == 't' {
                    dc = '\t';
                } else {
                    proof {
                        assert(spec_shorthand_unescape(sj[1]) is None);
                    }
                    return None;
                }
                content.push(dc);
                proof {
                    assert(sj.skip(2) =~= v@.skip(j + 2));
                    assert(spec_shorthand_unescape(sj[1]) == Some(dc));
                    assert(spec_scan_jstring(sj) == (match spec_scan_jstring(v@.skip(j + 2)) {
                        Some(p) => Some((seq![dc] + p.0, p.1)),
                        None => None::<(Seq<char>, Seq<char>)>,
                    }));
                    assert(content@ =~= content_before.push(dc));
                    assert forall|p0: Seq<char>| true implies content_before + (seq![dc] + p0)
                        =~= content@ + p0 by {}
                }
                j = j + 2;
            }
        } else if (c as u32) < 0x20 {
            return None;
        } else {
            let ghost content_before = content@;
            content.push(c);
            proof {
                assert(sj.drop_first() =~= v@.skip(j + 1));
                assert(spec_scan_jstring(sj) == (match spec_scan_jstring(v@.skip(j + 1)) {
                    Some(p) => Some((seq![c] + p.0, p.1)),
                    None => None::<(Seq<char>, Seq<char>)>,
                }));
                assert(content@ =~= content_before.push(c));
                assert forall|p0: Seq<char>| true implies content_before + (seq![c] + p0)
                    =~= content@ + p0 by {}
            }
            j = j + 1;
        }
    }
}

/// The opening digit run is determined by what lies before its end.
proof fn lemma_digit_run_at(s: Seq<char>, k: int)
    requires
        0 <= k <= s.len(),
        forall|i: int| 0 <= i < k ==> '0' <= #[trigger] s[i] && s[i] <= '9',
        k < s.len() ==> !('0' <= s[k] && s[k] <= '9'),
    ensures
        spec_digit_run(s) == k,
    decreases k,
{
    if k == 0 {
    } else {
        assert('0' <= s[0] && s[0] <= '9');
        assert(forall|i: int| #![auto] 0 <= i < s.len() - 1 ==> s.drop_first()[i] == s[i + 1]);
        lemma_digit_run_at(s.drop_first(), k - 1);
    }
}

/// The value of an all-digit sequence is non-negative.
proof fn lemma_digits_val_nonneg(u: Seq<char>)
    requires
        spec_all_digits(u),
    ensures
        spec_digits_val(u) >= 0,
    decreases u.len(),
{
    if u.len() > 0 {
        assert(spec_all_digits(u.drop_last())) by {
            assert(forall|i: int| #![auto] 0 <= i < u.len() - 1 ==> u.drop_last()[i] == u[i]);
        }
        lemma_digits_val_nonneg(u.drop_last());
        assert(u.last() as int - 0x30 >= 0);
        assert(spec_digits_val(u.drop_last()) * 10 >= 0) by (nonlinear_arith)
            requires
                spec_digits_val(u.drop_last()) >= 0,
        ;
    }
}

/// Digit values are non-negative and grow with the run.
proof fn lemma_digits_val_grows(u: Seq<char>, i: int)
    requires
        spec_all_digits(u),
        0 <= i <= u.len(),
    ensures
        spec_digits_val(u.take(i)) >= 0,
        spec_digits_val(u) >= spec_digits_val(u.take(i)),
    decreases u.len() - i,
{
    assert(spec_all_digits(u.take(i))) by {
        assert(forall|j: int| #![auto] 0 <= j < i ==> u.take(i)[j] == u[j]);
    }
    lemma_digits_val_nonneg(u.take(i));
    if i == u.len() {
        assert(u.take(i) =~= u);
    } else {
        lemma_digits_val_grows(u, i + 1);
        assert(u.take(i + 1).drop_last() =~= u.take(i));
        assert(u.take(i + 1).last() == u[i]);
        assert(spec_digits_val(u.take(i + 1)) == spec_digits_val(u.take(i)) * 10 + (u[i] as int
            - 0x30));
        assert(spec_digits_val(u.take(i)) * 10 + (u[i] as int - 0x30) >= spec_digits_val(
            u.take(i),
        )) by (nonlinear_arith)
            requires
                spec_digits_val(u.take(i)) >= 0,
                0 <= u[i] as int - 0x30,
        ;
    }
}

fn scan_digits(v: &Vec<char>, start: usize, bound: u64) -> (r: Option<(u64, usize)>)
    requires
        start <= v@.len(),
        bound >= 9,
    ensures
        ({
            let k = spec_digit_run(v@.skip(start as int));
            let m = spec_digits_val(v@.skip(start as int).take(k));
            match r {
                Some(p) => k > 0 && m <= bound && p.0 == m && p.1 == start + k && start <= p.1
                    <= v@.len(),
                None => k == 0 || m > bound,
            }
        }),
{
    let n = v.len();
    // Find the end of the digit run.
    let mut e: usize = start;
    while e < n && '0' <= v[e] && v[e] <= '9'
        invariant
            start <= e <= n,
            n == v@.len(),
            forall|i: int| start <= i < e ==> '0' <= #[trigger] v@[i] && v@[i] <= '9',
        decreases n - e,
    {
        e = e + 1;
    }
    let ghost s = v@.skip(start as int);
    proof {
        assert(forall|i: int| #![auto] 0 <= i < s.len() ==> s[i] == v@[i + start]);
        lemma_digit_run_at(s, e - start);
    }
    let ghost k = e - start;
    let ghost run = s.take(e - start);
    proof {
        assert(spec_all_digits(run)) by {
            assert(forall|i: int| #![auto] 0 <= i < run.len() ==> run[i] == v@[i + start]);
        }
    }
    if e == start {
        return None;
    }
    // Accumulate, watching the bound.
    let mut acc: u64 = 0;
    let mut j: usize = start;
    while j < e
        invariant
            start <= j <= e <= n,
            n == v@.len(),
            bound >= 9,
            s == v@.skip(start as int),
            run == s.take(e - start),
            e - start == spec_digit_run(s),
            spec_all_digits(run),
            forall|i: int| start <= i < e ==> '0' <= #[trigger] v@[i] && v@[i] <= '9',
            acc == spec_digits_val(run.take(j - start)),
            acc <= bound,
        decreases e - j,
    {
        proof {
            assert(v@[j as int] as int >= 0x30 && v@[j as int] as int <= 0x39);
        }
        let d = (v[j] as u8) - 0x30;
        proof {
            assert(d as int == v@[j as int] as int - 0x30);
            assert(d <= 9);
            assert(run[j - start] == v@[j as int]);
            assert(run.take(j - start + 1).drop_last() =~= run.take(j - start));
            assert(run.take(j - start + 1).last() == run[j - start]);
            assert(spec_digits_val(run.take(j - start + 1)) == acc * 10 + (d as int));
        }
        let limit = (bound - (d as u64)) / 10;
        proof {
            vstd::arithmetic::div_mod::lemma_fundamental_div_mod((bound - d) as int, 10);
            assert((bound - d) as int == 10 * (((bound - d) as int) / 10) + ((bound - d) as int)
                % 10);
            vstd::arithmetic::div_mod::lemma_mod_division_less_than_divisor(
                (bound - d) as int,
                10,
            );
            assert(limit as int == ((bound - d) as int) / 10);
        }
        if acc > limit {
            proof {
                assert(acc as int >= limit as int + 1);
                assert(acc as int * 10 >= (limit as int + 1) * 10) by (nonlinear_arith)
                    requires
                        acc as int >= limit as int + 1,
                ;
                assert((limit as int + 1) * 10 == 10 * (limit as int) + 10);
                assert(acc as int * 10 + d as int > bound as int);
                lemma_digits_val_grows(run, j - start + 1);
                assert(spec_digits_val(run) >= spec_digits_val(run.take(j - start + 1)));
            }
            return None;
        }
        proof {
            assert(acc as int <= limit as int);
            assert(acc as int * 10 <= limit as int * 10) by (nonlinear_arith)
                requires
                    acc as int <= limit as int,
            ;
            assert(acc as int * 10 + d as int <= bound as int);
        }
        acc = acc * 10 + (d as u64);
        j = j + 1;
    }
    proof {
        assert(run.take(e - start) =~= run);
    }
    Some((acc, e))
}

fn scan_int(v: &Vec<char>, start: usize) -> (r: Option<(i64, usize)>)
    requires
        start <= v@.len(),
    ensures
        match r {
            Some(p) => start <= p.1 <= v@.len() && spec_scan_int(v@.skip(start as int)) == Some(
                (p.0 as int, v@.skip(p.1 as int)),
            ),
            None => spec_scan_int(v@.skip(start as int)) is None,
        },
{
    let n = v.len();
    let ghost s = v@.skip(start as int);
    if start < n && v[start] == '-' {
        proof {
            assert(s[0] == v@[start as int]);
            assert(s.skip(1) =~= v@.skip(start + 1));
        }
        match scan_digits(v, start + 1, 0x8000000000000000u64) {
            Some(p) => {
                let (m, e) = p;
                let val: i64 = if m == 0x8000000000000000u64 {
                    i64::MIN
                } else {
                    -(m as i64)
                };
                proof {
                    let k = spec_digit_run(v@.skip(start + 1));
                    assert(spec_digit_run(s.skip(1)) == k);
                    assert(e == start + 1 + k);
                    assert(s.skip(1 + k) =~= v@.skip(e as int));
                }
                Some((val, e))
            },
            None => {
                proof {
                    assert(spec_scan_int(s) is None);
                }
                None
            },
        }
    } else {
        proof {
            if s.len() > 0 {
                assert(s[0] == v@[start as int]);
            }
        }
        match scan_digits(v, start, 0x7fffffffffffffffu64) {
            Some(p) => {
                let (m, e) = p;
                proof {
                    let k = spec_digit_run(s);
                    assert(e == start + k);
                    assert(s.skip(k) =~= v@.skip(e as int));
                }
                Some((m as i64, e))
            },
            None => None,
        }
    }
}

/// Reads one history line back into a record; a line not in the canonical
/// written shape reads as nothing.
pub fn parse_record_line(s: &str) -> (r: Option<MessageRecord>)
    ensures
        match r {
            Some(rec) => spec_parse_record(s@) == Some(rec@),
            None => spec_parse_record(s@) is None,
        },
{
    let v = str_to_chars(s);
    let n = v.len();
    proof {
        assert(n == v@.len());
        reveal_strlit("{\"role\":\"");
        reveal_strlit(",\"content\":\"");
        reveal_strlit(",\"timestamp_ms\":");
        reveal_strlit("}");
    }
    if !chars_match_at(&v, 0, "{\"role\":\"") {
        proof {
            assert(s@.len() >= 9 ==> s@.take(9) =~= s@.subrange(0, 9));
        }
        return None;
    }
    proof {
        assert(s@.take(9) =~= s@.subrange(0, 9));
        assert(v@.skip(9) == s@.skip(9));
    }
    let role_scan = scan_jstring(&v, 9);
    let (role_chars, r1) = match role_scan {
        Some(p) => p,
        None => {
            return None;
        },
    };
    if !chars_match_at(&v, r1, ",\"content\":\"") {
        proof {
            reveal_strlit(",\"content\":\"");
            let rest1 = v@.skip(r1 as int);
            assert(rest1.len() >= 12 ==> rest1.take(12) =~= v@.subrange(r1 as int, r1 + 12));
        }
        return None;
    }
    proof {
        reveal_strlit(",\"content\":\"");
        let rest1 = v@.skip(r1 as int);
        assert(rest1.take(12) =~= v@.subrange(r1 as int, r1 + 12));
        assert(rest1.skip(12) =~= v@.skip(r1 + 12));
    }
    let content_scan = scan_jstring(&v, r1 + 12);
    let (content_chars, r2) = match content_scan {
        Some(p) => p,
        None => {
            return None;
        },
    };
    if !chars_match_at(&v, r2, ",\"timestamp_ms\":") {
        proof {
            reveal_strlit(",\"timestamp_ms\":");
            let rest2 = v@.skip(r2 as int);
            assert(rest2.len() >= 16 ==> rest2.take(16) =~= v@.subrange(r2 as int, r2 + 16));
        }
        return None;
    }
    proof {
        reveal_strlit(",\"timestamp_ms\":");
        let rest2 = v@.skip(r2 as int);
        assert(rest2.take(16) =~= v@.subrange(r2 as int, r2 + 16));
        assert(rest2.skip(16) =~= v@.skip(r2 + 16));
    }
    let int_scan = scan_int(&v, r2 + 16);
    let (ts, r3) = match int_scan {
        Some(p) => p,
        None => {
            return None;
        },
    };
    let tail_ok = chars_match_at(&v, r3, "}") && r3 + 1 == v.len();
    if !tail_ok {
        proof {
            let rest3 = v@.skip(r3 as int);
            reveal_strlit("}");
            assert(rest3 == "}"@ ==> rest3.len() == 1 && rest3[0] == '}');
            assert(rest3 == "}"@ ==> v@.subrange(r3 as int, r3 + 1) =~= "}"@ && r3 + 1
                == v@.len());
        }
        return None;
    }
    proof {
        let rest3 = v@.skip(r3 as int);
        reveal_strlit("}");
        assert(v@.subrange(r3 as int, r3 + 1) =~= "}"@);
        assert(rest3 =~= "}"@);
    }
    Some(
        MessageRecord {
            role: chars_to_string(&role_chars),
            content: chars_to_string(&content_chars),
            timestamp_ms: ts,
        },
    )
}

// ---------------------------------------------------------------------------
// The round trip
// ---------------------------------------------------------------------------

/// Reading a hex digit back yields its value.
proof fn lemma_hex_digit_val(d: int)
    requires
        0 <= d < 16,
    ensures
        spec_hex_val(spec_hex_digit(d)) == Some(d),
{
    if d < 10 {
        assert((((0x30 + d) as u8) as char) as int == 0x30 + d);
    } else {
        assert((((0x61 + (d - 10)) as u8) as char) as int == 0x61 + (d - 10));
    }
}

/// Scanning the escaped form of a text, followed by the closing quote and
/// anything after, yields exactly that text and that remainder.
pub proof fn lemma_unescape_escape(x: Seq<char>, rest: Seq<char>)
    ensures
        spec_scan_jstring(spec_escape(x) + seq!['"'] + rest) == Some((x, rest)),
    decreases x.len(),
{
    let s = spec_escape(x) + seq!['"'] + rest;
    if x.len() == 0 {
        assert(spec_escape(x) == Seq::<char>::empty());
        assert(s =~= seq!['"'] + rest);
        assert(s[0] == '"');
        assert(s.drop_first() =~= rest);
        assert(x =~= Seq::<char>::empty());
    } else {
        let c = x[0];
        let x2 = x.drop_first();
        assert(spec_escape(x) == spec_escape_char(c) + spec_escape(x2));
        let tail = spec_escape(x2) + seq!['"'] + rest;
        assert(s =~= spec_escape_char(c) + tail);
        lemma_unescape_escape(x2, rest);
        let ec = spec_escape_char(c);
        assert(seq![c] + x2 =~= x);
        if c == '"' || c == '\\' || c == '\u{8}' || c == '\u{c}' || c == '\n' || c == '\r' || c
            == '\t' {
            assert(ec.len() == 2 && ec[0] == '\\');
            assert(s.len() >= 2);
            assert(s[0] == ec[0] && s[1] == ec[1]);
            assert(ec[1] != 'u');
            assert(spec_shorthand_unescape(s[1]) == Some(c));
            assert(s.skip(2) =~= tail);
        } else if (c as u32) < 0x20 {
            let u = c as u32;
            vstd::utf8::char_is_scalar(c);
            vstd::utf8::char_u32_cast(c, u);
            let h = ((u / 16) as int);
            let l = ((u % 16) as int);
            assert(0 <= l < 16);
            assert(0 <= h < 2);
            lemma_hex_digit_val(h);
            lemma_hex_digit_val(l);
            assert(ec.len() == 6);
            assert(s.len() >= 6);
            assert(s[0] == ec[0] && s[1] == ec[1] && s[2] == ec[2] && s[3] == ec[3] && s[4]
                == ec[4] && s[5] == ec[5]);
            assert(s[0] == '\\' && s[1] == 'u' && s[2] == '0' && s[3] == '0');
            assert(s[4] == spec_hex_digit(h) && s[5] == spec_hex_digit(l));
            assert(h * 16 + l == u as int);
            assert((h * 16 + l) as u8 == u as int);
            assert((((h * 16 + l) as u8) as char) == (u as char));
            assert(u as char == c);
            assert(s.skip(6) =~= tail);
        } else {
            assert(ec =~= seq![c]);
            assert(s[0] == c);
            assert(s[0] != '"' && s[0] != '\\');
            assert(!((s[0] as u32) < 0x20));
            assert(s.drop_first() =~= tail);
        }
    }
}

/// Scanning the decimal rendering of a value, followed by anything that is
/// neither a digit nor a minus sign, yields exactly that value and that
/// remainder.
pub proof fn lemma_scan_int_dec(t: int, rest: Seq<char>)
    requires
        -0x8000000000000000 <= t <= 0x7fffffffffffffff,
        rest.len() > 0,
        !('0' <= rest[0] && rest[0] <= '9'),
        rest[0] != '-',
    ensures
        spec_scan_int(spec_dec_int(t) + rest) == Some((t, rest)),
{
    let s = spec_dec_int(t) + rest;
    if t >= 0 {
        let m = t as nat;
        lemma_dec_nat_val(m);
        let d = spec_dec_nat(m);
        assert(s =~= d + rest);
        assert(s[0] == d[0]);
        assert('0' <= d[0] && d[0] <= '9');
        assert('-' as int == 0x2d && '0' as int == 0x30);
        assert(s[0] != '-');
        assert(forall|i: int| 0 <= i < d.len() ==> #[trigger] s[i] == d[i]);
        assert(s[d.len() as int] == rest[0]);
        lemma_digit_run_at(s, d.len() as int);
        assert(s.take(d.len() as int) =~= d);
        assert(s.skip(d.len() as int) =~= rest);
    } else {
        let m = (-t) as nat;
        lemma_dec_nat_val(m);
        let d = spec_dec_nat(m);
        assert(spec_dec_int(t) == seq!['-'] + d);
        assert(s =~= seq!['-'] + (d + rest));
        assert(s[0] == '-');
        let s1 = s.skip(1);
        assert(s1 =~= d + rest);
        assert(forall|i: int| 0 <= i < d.len() ==> #[trigger] s1[i] == d[i]);
        assert(s1[d.len() as int] == rest[0]);
        lemma_digit_run_at(s1, d.len() as int);
        assert(s1.take(d.len() as int) =~= d);
        assert(s.skip(1 + d.len() as int) =~= rest);
    }
}

/// A record serialized to its JSON line reads back as exactly the same
/// record: the persistence round trip is the identity.
pub proof fn lemma_record_round_trip(v: MessageRecordView)
    requires
        -0x8000000000000000 <= v.timestamp_ms <= 0x7fffffffffffffff,
    ensures
        spec_parse_record(spec_record_json(v)) == Some(v),
{
    reveal_strlit("{\"role\":");
    reveal_strlit("{\"role\":\"");
    reveal_strlit(",\"content\":");
    reveal_strlit(",\"content\":\"");
    reveal_strlit(",\"timestamp_ms\":");
    reveal_strlit("}");
    let s = spec_record_json(v);
    let rest2 = ",\"timestamp_ms\":"@ + spec_dec_int(v.timestamp_ms) + "}"@;
    let rest1 = ",\"content\":"@ + spec_json_string(v.content) + rest2;
    assert(s =~= "{\"role\":"@ + spec_json_string(v.role) + rest1);
    // The opening literal and the role string.
    assert(s.len() >= 9);
    assert(s.take(9) =~= "{\"role\":\""@);
    let role_rest = spec_escape(v.role) + seq!['"'] + (",\"content\":"@ + spec_json_string(
        v.content,
    ) + rest2);
    assert(s.skip(9) =~= role_rest);
    lemma_unescape_escape(v.role, ",\"content\":"@ + spec_json_string(v.content) + rest2);
    let r1 = ",\"content\":"@ + spec_json_string(v.content) + rest2;
    assert(spec_scan_jstring(s.skip(9)) == Some((v.role, r1)));
    // The content literal and the content string.
    assert(r1.len() >= 12);
    assert(r1.take(12) =~= ",\"content\":\""@);
    assert(r1.skip(12) =~= spec_escape(v.content) + seq!['"'] + rest2);
    lemma_unescape_escape(v.content, rest2);
    assert(spec_scan_jstring(r1.skip(12)) == Some((v.content, rest2)));
    // The timestamp literal and the decimal value.
    assert(rest2.len() >= 16);
    assert(rest2.take(16) =~= ",\"timestamp_ms\":"@);
    assert(rest2.skip(16) =~= spec_dec_int(v.timestamp_ms) + "}"@);
    assert("}"@.len() == 1 && "}"@[0] == '}');
    assert('}' as int == 0x7d);
    lemma_scan_int_dec(v.timestamp_ms, "}"@);
    assert(spec_scan_int(rest2.skip(16)) == Some((v.timestamp_ms, "}"@)));
    // Assemble.
    assert(spec_parse_record(s) == Some(
        MessageRecordView {
            role: v.role,
            content: v.content,
            timestamp_ms: v.timestamp_ms,
        },
    ));
    assert(MessageRecordView { role: v.role, content: v.content, timestamp_ms: v.timestamp_ms }
        == v);
}

} // verus!
