//! Streaming decoder: a stateful, single-pass parser turning an arbitrary
//! byte stream into discrete text fragments.
//!
//! The stream is a sequence of newline-terminated lines. A line is ignored
//! when, after trimming, it is empty or does not begin with `data:` (with or
//! without one following space). The payload `[DONE]` stops processing of the
//! lines buffered so far — later bytes re-enter the loop, preserving the
//! original reader's behavior. Any other payload is handed to the JSON
//! extraction, which tries the delta shape first, then the whole-message
//! shape; a non-empty extracted string becomes one fragment. Malformed JSON
//! is silently skipped.

use vstd::prelude::*;
use vstd::string::StrSliceExecFns;
use crate::extract::{
    delta_content_of, message_content_of, extract_delta_content, extract_message_content,
};
use crate::text::{spec_trim_bytes, trim_bytes};

verus! {

// ---------------------------------------------------------------------------
// Line shape
// ---------------------------------------------------------------------------

/// The bytes of `data:`.
pub open spec fn spec_data_prefix() -> Seq<u8> {
    seq![0x64u8, 0x61u8, 0x74u8, 0x61u8, 0x3au8]
}

/// The bytes of `data: `.
pub open spec fn spec_data_prefix_sp() -> Seq<u8> {
    spec_data_prefix().push(0x20u8)
}

/// The bytes of the `[DONE]` sentinel.
pub open spec fn spec_done_payload() -> Seq<u8> {
    seq![0x5bu8, 0x44u8, 0x4fu8, 0x4eu8, 0x45u8, 0x5du8]
}

/// The event payload of one line: the trimmed line with its `data: ` or
/// `data:` prefix removed, or nothing for any other line.
pub open spec fn spec_line_payload(line: Seq<u8>) -> Option<Seq<u8>> {
    let t = spec_trim_bytes(line);
    if t.len() >= 6 && t.take(6) == spec_data_prefix_sp() {
        Some(t.skip(6))
    } else if t.len() >= 5 && t.take(5) == spec_data_prefix() {
        Some(t.skip(5))
    } else {
        None
    }
}

/// Whether this line carries the `[DONE]` sentinel.
pub open spec fn spec_line_is_done(line: Seq<u8>) -> bool {
    spec_line_payload(line) == Some(spec_done_payload())
}

/// The fragment a non-sentinel payload yields: the delta content when the
/// delta shape holds, otherwise the whole-message content; empty strings
/// yield nothing.
pub open spec fn spec_payload_fragment(p: Seq<u8>) -> Option<Seq<char>> {
    match delta_content_of(p) {
        Some(s) => if s.len() > 0 {
            Some(s)
        } else {
            None
        },
        None => match message_content_of(p) {
            Some(s) => if s.len() > 0 {
                Some(s)
            } else {
                None
            },
            None => None,
        },
    }
}

/// The fragment one whole line yields, if any.
pub open spec fn spec_line_fragment(line: Seq<u8>) -> Option<Seq<char>> {
    match spec_line_payload(line) {
        Some(p) => if p == spec_done_payload() {
            None
        } else {
            spec_payload_fragment(p)
        },
        None => None,
    }
}

// ---------------------------------------------------------------------------
// Newline search
// ---------------------------------------------------------------------------

/// Index of the first line feed, if any.
pub open spec fn spec_find_nl(b: Seq<u8>) -> Option<int>
    decreases b.len(),
{
    if b.len() == 0 {
        None
    } else if b[0] == 0x0au8 {
        Some(0)
    } else {
        match spec_find_nl(b.drop_first()) {
            Some(i) => Some(i + 1),
            None => None,
        }
    }
}

/// What the first line feed's index satisfies.
pub proof fn lemma_find_nl_props(b: Seq<u8>)
    ensures
        match spec_find_nl(b) {
            Some(i) => 0 <= i < b.len() && b[i] == 0x0au8 && forall|j: int|
                0 <= j < i ==> b[j] != 0x0au8,
            None => forall|j: int| 0 <= j < b.len() ==> b[j] != 0x0au8,
        },
    decreases b.len(),
{
    if b.len() == 0 {
    } else if b[0] == 0x0au8 {
    } else {
        lemma_find_nl_props(b.drop_first());
        match spec_find_nl(b.drop_first()) {
            Some(i2) => {
                assert(spec_find_nl(b) == Some(i2 + 1));
                assert(b[i2 + 1] == b.drop_first()[i2]);
                assert forall|j: int| 0 <= j < i2 + 1 implies b[j] != 0x0au8 by {
                    if j > 0 {
                        assert(b.drop_first()[j - 1] == b[j]);
                    }
                }
            },
            None => {
                assert forall|j: int| 0 <= j < b.len() implies b[j] != 0x0au8 by {
                    if j > 0 {
                        assert(b.drop_first()[j - 1] == b[j]);
                    }
                }
            },
        }
    }
}

/// The first line feed's index is determined by what lies before it.
pub proof fn lemma_find_nl_at(b: Seq<u8>, i: int)
    requires
        0 <= i <= b.len(),
        forall|j: int| 0 <= j < i ==> b[j] != 0x0au8,
        i < b.len() ==> b[i] == 0x0au8,
    ensures
        i < b.len() ==> spec_find_nl(b) == Some(i),
        i == b.len() ==> spec_find_nl(b) is None,
    decreases i,
{
    if i == 0 {
        if b.len() > 0 {
        } else {
        }
    } else {
        assert(b[0] != 0x0au8);
        assert(forall|j: int| #![auto] 0 <= j < b.len() - 1 ==> b.drop_first()[j] == b[j + 1]);
        lemma_find_nl_at(b.drop_first(), i - 1);
    }
}

// ---------------------------------------------------------------------------
// The decode function
// ---------------------------------------------------------------------------

/// One pass over the buffered bytes: the fragments emitted and the bytes
/// left unconsumed. Processing stops at a line without a terminator, or
/// right after a `[DONE]` line: the bytes after the sentinel stay buffered
/// and are only looked at when more bytes arrive.
pub open spec fn spec_decode(b: Seq<u8>) -> (Seq<Seq<char>>, Seq<u8>)
    decreases b.len(),
    via spec_decode_decreases
{
    match spec_find_nl(b) {
        None => (Seq::empty(), b),
        Some(i) => {
            let line = b.take(i + 1);
            let rest = b.skip(i + 1);
            if spec_line_is_done(line) {
                (Seq::empty(), rest)
            } else {
                let (tail_emits, tail_rest) = spec_decode(rest);
                match spec_line_fragment(line) {
                    Some(t) => (seq![t] + tail_emits, tail_rest),
                    None => (tail_emits, tail_rest),
                }
            }
        },
    }
}

#[via_fn]
proof fn spec_decode_decreases(b: Seq<u8>) {
    lemma_find_nl_props(b);
}

/// The fragments one pass emits.
pub open spec fn spec_decode_emits(b: Seq<u8>) -> Seq<Seq<char>> {
    spec_decode(b).0
}

/// The bytes one pass leaves buffered.
pub open spec fn spec_decode_rest(b: Seq<u8>) -> Seq<u8> {
    spec_decode(b).1
}

// ---------------------------------------------------------------------------
// Exec helpers
// ---------------------------------------------------------------------------

/// Copies `v[from..to]` out of a byte vector.
fn bytes_subrange(v: &Vec<u8>, from: usize, to: usize) -> (r: Vec<u8>)
    requires
        from <= to <= v@.len(),
    ensures
        r@ == v@.subrange(from as int, to as int),
{
    let mut r: Vec<u8> = Vec::new();
    let mut i: usize = from;
    while i < to
        invariant
            from <= i <= to <= v@.len(),
            r@ == v@.subrange(from as int, i as int),
        decreases to - i,
    {
        r.push(v[i]);
        proof {
            assert(v@.subrange(from as int, i + 1) =~= v@.subrange(from as int, i as int).push(
                v@[i as int],
            ));
        }
        i = i + 1;
    }
    r
}

/// What one line does to the stream.
enum LineOutcome {
    /// Nothing to emit.
    Ignored,
    /// One decoded fragment.
    Fragment(String),
    /// The `[DONE]` sentinel.
    Done,
}

fn process_line(line: &Vec<u8>) -> (r: LineOutcome)
    ensures
        (r is Done) == spec_line_is_done(line@),
        !spec_line_is_done(line@) ==> match r {
            LineOutcome::Fragment(s) => spec_line_fragment(line@) == Some(s@),
            LineOutcome::Ignored => spec_line_fragment(line@) is None,
            LineOutcome::Done => false,
        },
{
    let t = trim_bytes(line);
    let payload: Vec<u8>;
    if t.len() >= 6 && t[0] == 0x64u8 && t[1] == 0x61u8 && t[2] == 0x74u8 && t[3] == 0x61u8 && t[4]
        == 0x3au8 && t[5] == 0x20u8 {
        proof {
            assert(t@.take(6) =~= spec_data_prefix_sp());
        }
        payload = bytes_subrange(&t, 6, t.len());
        proof {
            assert(t@.subrange(6, t@.len() as int) =~= t@.skip(6));
        }
    } else if t.len() >= 5 && t[0] == 0x64u8 && t[1] == 0x61u8 && t[2] == 0x74u8 && t[3] == 0x61u8
        && t[4] == 0x3au8 {
        proof {
            assert(t@.take(5) =~= spec_data_prefix());
            assert(t@.len() >= 6 ==> t@.take(6) != spec_data_prefix_sp()) by {
                if t@.len() >= 6 && t@.take(6) == spec_data_prefix_sp() {
                    assert(t@.take(6)[5] == 0x20u8);
                }
            }
        }
        payload = bytes_subrange(&t, 5, t.len());
        proof {
            assert(t@.subrange(5, t@.len() as int) =~= t@.skip(5));
        }
    } else {
        proof {
            assert(t@.len() >= 6 ==> t@.take(6) != spec_data_prefix_sp()) by {
                if t@.len() >= 6 && t@.take(6) == spec_data_prefix_sp() {
                    assert(t@.take(6)[0] == 0x64u8 && t@.take(6)[1] == 0x61u8 && t@.take(6)[2]
                        == 0x74u8 && t@.take(6)[3] == 0x61u8 && t@.take(6)[4] == 0x3au8
                        && t@.take(6)[5] == 0x20u8);
                }
            }
            assert(t@.len() >= 5 ==> t@.take(5) != spec_data_prefix()) by {
                if t@.len() >= 5 && t@.take(5) == spec_data_prefix() {
                    assert(t@.take(5)[0] == 0x64u8 && t@.take(5)[1] == 0x61u8 && t@.take(5)[2]
                        == 0x74u8 && t@.take(5)[3] == 0x61u8 && t@.take(5)[4] == 0x3au8);
                }
            }
        }
        return LineOutcome::Ignored;
    }
    // The sentinel check.
    if payload.len() == 6 && payload[0] == 0x5bu8 && payload[1] == 0x44u8 && payload[2] == 0x4fu8
        && payload[3] == 0x4eu8 && payload[4] == 0x45u8 && payload[5] == 0x5du8 {
        proof {
            assert(payload@ =~= spec_done_payload());
        }
        return LineOutcome::Done;
    }
    proof {
        assert(payload@ != spec_done_payload()) by {
            if payload@ == spec_done_payload() {
                assert(payload@.len() == 6 && payload@[0] == 0x5bu8 && payload@[1] == 0x44u8
                    && payload@[2] == 0x4fu8 && payload@[3] == 0x4eu8 && payload@[4] == 0x45u8
                    && payload@[5] == 0x5du8);
            }
        }
    }
    // Delta shape first, whole-message shape second; empty strings are not
    // fragments.
    match extract_delta_content(payload.as_slice()) {
        Some(s) => {
            if s.as_str().unicode_len() > 0 {
                LineOutcome::Fragment(s)
            } else {
                LineOutcome::Ignored
            }
        },
        None => {
            match extract_message_content(payload.as_slice()) {
                Some(s) => {
                    if s.as_str().unicode_len() > 0 {
                        LineOutcome::Fragment(s)
                    } else {
                        LineOutcome::Ignored
                    }
                },
                None => LineOutcome::Ignored,
            }
        },
    }
}

// ---------------------------------------------------------------------------
// The decoder
// ---------------------------------------------------------------------------

/// Incremental decoder over a byte stream. Feed it each chunk as it
/// arrives; it buffers partial lines across chunk boundaries and returns the
/// fragments each feeding decodes.
pub struct StreamDecoder {
    buf: Vec<u8>,
}

impl StreamDecoder {
    /// The bytes received but not yet consumed by a processed line.
    pub closed spec fn buffered(&self) -> Seq<u8> {
        self.buf@
    }

    /// A fresh decoder with an empty buffer.
    pub fn new() -> (r: StreamDecoder)
        ensures
            r.buffered() == Seq::<u8>::empty(),
    {
        let r = StreamDecoder { buf: Vec::new() };
        proof {
            assert(r.buffered() =~= Seq::<u8>::empty());
        }
        r
    }

    /// Appends one arriving chunk and processes every complete line now
    /// buffered, returning the decoded fragments in order. Stops early right
    /// after a `[DONE]` line, leaving the bytes behind it buffered.
    pub fn feed(&mut self, chunk: &[u8]) -> (out: Vec<String>)
        ensures
            out@.map_values(|s: String| s@) == spec_decode_emits(old(self).buffered() + chunk@),
            final(self).buffered() == spec_decode_rest(old(self).buffered() + chunk@),
    {
        let mut i: usize = 0;
        while i < chunk.len()
            invariant
                0 <= i <= chunk@.len(),
                self.buf@ == old(self).buf@ + chunk@.take(i as int),
            decreases chunk@.len() - i,
        {
            self.buf.push(chunk[i]);
            proof {
                assert(old(self).buf@ + chunk@.take(i + 1) =~= (old(self).buf@ + chunk@.take(
                    i as int,
                )).push(chunk@[i as int]));
            }
            i = i + 1;
        }
        proof {
            assert(old(self).buf@ + chunk@.take(chunk@.len() as int) =~= old(self).buf@ + chunk@);
        }
        let ghost b0 = old(self).buf@ + chunk@;
        let mut out: Vec<String> = Vec::new();
        loop
            invariant_except_break
                spec_decode(b0).0 == out@.map_values(|s: String| s@) + spec_decode(self.buf@).0,
                spec_decode(b0).1 == spec_decode(self.buf@).1,
            ensures
                out@.map_values(|s: String| s@) == spec_decode(b0).0,
                self.buf@ == spec_decode(b0).1,
            decreases self.buf@.len(),
        {
            // Find the next line terminator.
            let n = self.buf.len();
            let mut j: usize = 0;
            while j < n && self.buf[j] != 0x0au8
                invariant
                    0 <= j <= n,
                    n == self.buf@.len(),
                    forall|k: int| 0 <= k < j ==> self.buf@[k] != 0x0au8,
                decreases n - j,
            {
                j = j + 1;
            }
            proof {
                lemma_find_nl_at(self.buf@, j as int);
            }
            if j == n {
                // No complete line: wait for more bytes.
                proof {
                    assert(spec_decode(self.buf@).0 =~= Seq::<Seq<char>>::empty());
                    assert(out@.map_values(|s: String| s@) + spec_decode(self.buf@).0 =~= out@
                        .map_values(|s: String| s@));
                }
                break ;
            }
            let line = bytes_subrange(&self.buf, 0, j + 1);
            let rest = bytes_subrange(&self.buf, j + 1, n);
            proof {
                assert(line@ =~= self.buf@.take(j + 1));
                assert(rest@ =~= self.buf@.skip(j + 1));
            }
            let ghost pre = self.buf@;
            let outcome = process_line(&line);
            self.buf = rest;
            match outcome {
                LineOutcome::Done => {
                    proof {
                        assert(spec_decode(pre).0 =~= Seq::<Seq<char>>::empty());
                        assert(out@.map_values(|s: String| s@) + spec_decode(pre).0 =~= out@
                            .map_values(|s: String| s@));
                    }
                    break ;
                },
                LineOutcome::Fragment(s) => {
                    let ghost prev = out@;
                    out.push(s);
                    proof {
                        assert(out@.map_values(|os: String| os@) =~= prev.map_values(
                            |os: String| os@,
                        ).push(out@.last()@));
                        assert(spec_decode(pre).0 =~= seq![out@.last()@] + spec_decode(
                            self.buf@,
                        ).0);
                        assert(prev.map_values(|os: String| os@) + spec_decode(pre).0 =~= out@
                            .map_values(|os: String| os@) + spec_decode(self.buf@).0);
                    }
                },
                LineOutcome::Ignored => {
                    proof {
                        assert(spec_decode(pre).0 =~= spec_decode(self.buf@).0);
                    }
                },
            }
        }
        out
    }
}

// ---------------------------------------------------------------------------
// Laws
// ---------------------------------------------------------------------------

/// A single complete `data:` line whose payload yields a fragment decodes to
/// exactly that fragment, and consumes the whole line.
pub proof fn lemma_decoder_extracts_fragment(line: Seq<u8>, t: Seq<char>)
    requires
        line.len() > 0,
        line.last() == 0x0au8,
        forall|j: int| 0 <= j < line.len() - 1 ==> line[j] != 0x0au8,
        !spec_line_is_done(line),
        spec_line_fragment(line) == Some(t),
    ensures
        spec_decode_emits(line) == seq![t],
        spec_decode_rest(line) == Seq::<u8>::empty(),
{
    lemma_find_nl_at(line, line.len() - 1);
    assert(line.take(line.len() as int) =~= line);
    assert(line.skip(line.len() as int) =~= Seq::<u8>::empty());
    assert(spec_find_nl(Seq::<u8>::empty()) is None);
    assert(spec_decode(Seq::<u8>::empty()).0 =~= Seq::<Seq<char>>::empty());
    assert(spec_decode(Seq::<u8>::empty()).1 =~= Seq::<u8>::empty());
    assert(spec_decode_emits(line) =~= seq![t]);
}

/// A single complete line that yields no fragment — it is not an event
/// line, its payload is structurally invalid JSON, or the extracted string
/// is empty — decodes to nothing, without failing, and is consumed.
pub proof fn lemma_decoder_ignores_invalid(line: Seq<u8>)
    requires
        line.len() > 0,
        line.last() == 0x0au8,
        forall|j: int| 0 <= j < line.len() - 1 ==> line[j] != 0x0au8,
        !spec_line_is_done(line),
        spec_line_fragment(line) is None,
    ensures
        spec_decode_emits(line) == Seq::<Seq<char>>::empty(),
        spec_decode_rest(line) == Seq::<u8>::empty(),
{
    lemma_find_nl_at(line, line.len() - 1);
    assert(line.take(line.len() as int) =~= line);
    assert(line.skip(line.len() as int) =~= Seq::<u8>::empty());
    assert(spec_find_nl(Seq::<u8>::empty()) is None);
    assert(spec_decode(Seq::<u8>::empty()).0 =~= Seq::<Seq<char>>::empty());
    assert(spec_decode(Seq::<u8>::empty()).1 =~= Seq::<u8>::empty());
    assert(spec_decode_emits(line) =~= Seq::<Seq<char>>::empty());
}

} // verus!
