//! Session recorder: an append-only log of user/assistant turns, grouped
//! into sessions, with a single "current session" pointer.
//!
//! The recorder itself is a plain in-memory structure with exact contracts;
//! persisting it (a directory per session, a history line per record, a
//! one-line current marker) is the caller's, which loads and stores this
//! state around each operation.

use vstd::prelude::*;
use vstd::multiset::Multiset;
use vstd::pervasive::VecAdditionalExecFns;
use crate::errors::ChatError;
use crate::history::{MessageRecord, MessageRecordView};
use crate::text::{
    spec_dec_int, spec_trim, dec_i64_chars, chars_to_string, str_to_chars, trim_chars,
    chars_eq_str,
};

verus! {

broadcast use vstd::seq_lib::group_to_multiset_ensures, vstd::seq_lib::to_multiset_insert;

// ---------------------------------------------------------------------------
// Records and metadata
// ---------------------------------------------------------------------------

/// Mathematical model of one session's metadata.
pub ghost struct SessionMetaView {
    pub id: Seq<char>,
    pub name: Seq<char>,
    pub created_ms: int,
}

/// One session's metadata: its id (a millisecond timestamp rendered in
/// decimal), its name, and its creation time.
#[derive(Debug, Clone)]
pub struct SessionMeta {
    pub id: String,
    pub name: String,
    pub created_ms: i64,
}

impl View for SessionMeta {
    type V = SessionMetaView;

    open spec fn view(&self) -> SessionMetaView {
        SessionMetaView { id: self.id@, name: self.name@, created_ms: self.created_ms as int }
    }
}

/// Mathematical model of one whole session.
pub ghost struct SessionView {
    pub meta: SessionMetaView,
    pub history: Seq<MessageRecordView>,
}

/// One session: its metadata and its append-only history.
#[derive(Debug, Clone)]
pub struct Session {
    pub meta: SessionMeta,
    pub history: Vec<MessageRecord>,
}

impl View for Session {
    type V = SessionView;

    open spec fn view(&self) -> SessionView {
        SessionView {
            meta: self.meta@,
            history: self.history@.map_values(|r: MessageRecord| r@),
        }
    }
}

// ---------------------------------------------------------------------------
// The manager's model
// ---------------------------------------------------------------------------

/// First session with the given id, if any.
pub open spec fn spec_find_session(ss: Seq<SessionView>, id: Seq<char>) -> Option<int>
    decreases ss.len(),
{
    if ss.len() == 0 {
        None
    } else if ss[0].meta.id == id {
        Some(0)
    } else {
        match spec_find_session(ss.drop_first(), id) {
            Some(i) => Some(i + 1),
            None => None,
        }
    }
}

/// What the first matching index satisfies.
pub proof fn lemma_find_session_props(ss: Seq<SessionView>, id: Seq<char>)
    ensures
        match spec_find_session(ss, id) {
            Some(i) => 0 <= i < ss.len() && ss[i].meta.id == id && forall|j: int|
                0 <= j < i ==> ss[j].meta.id != id,
            None => forall|j: int| 0 <= j < ss.len() ==> ss[j].meta.id != id,
        },
    decreases ss.len(),
{
    if ss.len() == 0 {
    } else if ss[0].meta.id == id {
    } else {
        lemma_find_session_props(ss.drop_first(), id);
        assert(forall|j: int| #![auto] 0 <= j < ss.len() - 1 ==> ss.drop_first()[j] == ss[j + 1]);
        match spec_find_session(ss.drop_first(), id) {
            Some(i2) => {
                assert forall|j: int| 0 <= j < i2 + 1 implies ss[j].meta.id != id by {
                    if j > 0 {
                        assert(ss.drop_first()[j - 1] == ss[j]);
                    }
                }
            },
            None => {
                assert forall|j: int| 0 <= j < ss.len() implies ss[j].meta.id != id by {
                    if j > 0 {
                        assert(ss.drop_first()[j - 1] == ss[j]);
                    }
                }
            },
        }
    }
}

/// The first matching index is determined by what lies before it.
pub proof fn lemma_find_session_at(ss: Seq<SessionView>, id: Seq<char>, i: int)
    requires
        0 <= i <= ss.len(),
        forall|j: int| 0 <= j < i ==> ss[j].meta.id != id,
        i < ss.len() ==> ss[i].meta.id == id,
    ensures
        i < ss.len() ==> spec_find_session(ss, id) == Some(i),
        i == ss.len() ==> spec_find_session(ss, id) is None,
    decreases i,
{
    if i == 0 {
    } else {
        assert(ss[0].meta.id != id);
        assert(forall|j: int| #![auto] 0 <= j < ss.len() - 1 ==> ss.drop_first()[j] == ss[j + 1]);
        lemma_find_session_at(ss.drop_first(), id, i - 1);
    }
}

/// The session a creation call makes.
pub open spec fn spec_fresh_session(name: Seq<char>, now: int) -> SessionView {
    SessionView {
        meta: SessionMetaView { id: spec_dec_int(now), name: name, created_ms: now },
        history: Seq::empty(),
    }
}

/// What storing a whole session does: it replaces the stored session with
/// the same id, or comes last.
pub open spec fn spec_insert_session(ss: Seq<SessionView>, s: SessionView) -> Seq<SessionView> {
    match spec_find_session(ss, s.meta.id) {
        Some(i) => ss.update(i, s),
        None => ss.push(s),
    }
}

/// What creation does to the stored sessions: a fresh, empty session under
/// the id derived from the clock; a session already holding that id is
/// replaced.
pub open spec fn spec_create_sessions(ss: Seq<SessionView>, name: Seq<char>, now: int) -> Seq<
    SessionView,
> {
    spec_insert_session(ss, spec_fresh_session(name, now))
}

/// Sessions metadata in descending creation order.
pub open spec fn spec_sorted_desc(ms: Seq<SessionMetaView>) -> bool {
    forall|i: int, j: int| 0 <= i <= j < ms.len() ==> ms[i].created_ms >= ms[j].created_ms
}

// ---------------------------------------------------------------------------
// The manager
// ---------------------------------------------------------------------------

/// The session recorder: all stored sessions and the current-session
/// pointer.
pub struct SessionManager {
    sessions: Vec<Session>,
    current: Option<String>,
}

impl SessionManager {
    /// The stored sessions.
    pub closed spec fn sessions_view(&self) -> Seq<SessionView> {
        self.sessions@.map_values(|s: Session| s@)
    }

    /// The current-session pointer.
    pub closed spec fn current_view(&self) -> Option<Seq<char>> {
        match self.current {
            Some(ref s) => Some(s@),
            None => None,
        }
    }

    /// A recorder with no sessions and no current pointer.
    pub fn new() -> (r: SessionManager)
        ensures
            r.sessions_view() == Seq::<SessionView>::empty(),
            r.current_view() is None,
    {
        let r = SessionManager { sessions: Vec::new(), current: None };
        proof {
            assert(r.sessions_view() =~= Seq::<SessionView>::empty());
        }
        r
    }

    /// First stored index holding this id.
    fn find_index(&self, id: &Vec<char>) -> (r: Option<usize>)
        ensures
            match r {
                Some(i) => spec_find_session(self.sessions_view(), id@) == Some(i as int),
                None => spec_find_session(self.sessions_view(), id@) is None,
            },
    {
        let mut i: usize = 0;
        while i < self.sessions.len()
            invariant
                0 <= i <= self.sessions@.len(),
                forall|j: int|
                    0 <= j < i ==> #[trigger] self.sessions_view()[j].meta.id != id@,
            decreases self.sessions@.len() - i,
        {
            if chars_eq_str(id, self.sessions[i].meta.id.as_str()) {
                proof {
                    assert(self.sessions_view()[i as int].meta.id == id@);
                    lemma_find_session_at(self.sessions_view(), id@, i as int);
                }
                return Some(i);
            }
            proof {
                assert(self.sessions_view()[i as int].meta.id == self.sessions@[i as int].meta.id@);
            }
            i = i + 1;
        }
        proof {
            lemma_find_session_at(self.sessions_view(), id@, i as int);
        }
        None
    }

    /// Stores a whole session, as when reloading persisted sessions: a
    /// stored session with the same id is replaced.
    pub fn insert_session(&mut self, meta: SessionMeta, history: Vec<MessageRecord>)
        ensures
            final(self).sessions_view() == spec_insert_session(
                old(self).sessions_view(),
                SessionView {
                    meta: meta@,
                    history: history@.map_values(|r: MessageRecord| r@),
                },
            ),
            final(self).current_view() == old(self).current_view(),
    {
        let id_chars = str_to_chars(meta.id.as_str());
        let fresh = Session { meta, history };
        let ghost fv = fresh@;
        let slot = self.find_index(&id_chars);
        match slot {
            Some(i) => {
                proof {
                    lemma_find_session_props(self.sessions_view(), id_chars@);
                }
                self.sessions.set(i, fresh);
                proof {
                    assert(self.sessions_view() =~= old(self).sessions_view().update(i as int, fv));
                }
            },
            None => {
                self.sessions.push(fresh);
                proof {
                    assert(self.sessions_view() =~= old(self).sessions_view().push(fv));
                }
            },
        }
    }

    /// Creates a session named `name` under an id derived from the supplied
    /// millisecond clock reading, with an empty history, and returns the id.
    /// Creation does not move the current pointer. Two creations within the
    /// same clock tick collide: the later replaces the earlier.
    pub fn create_session(&mut self, name: &str, now_ms: i64) -> (id: String)
        ensures
            id@ == spec_dec_int(now_ms as int),
            final(self).sessions_view() == spec_create_sessions(
                old(self).sessions_view(),
                name@,
                now_ms as int,
            ),
            final(self).current_view() == old(self).current_view(),
    {
        let id_chars = dec_i64_chars(now_ms);
        let id = chars_to_string(&id_chars);
        let meta = SessionMeta { id: id.clone(), name: name.to_owned(), created_ms: now_ms };
        let empty_history: Vec<MessageRecord> = Vec::new();
        self.insert_session(meta, empty_history);
        proof {
            assert(Seq::<MessageRecord>::empty().map_values(|r: MessageRecord| r@)
                =~= Seq::<MessageRecordView>::empty());
            assert(self.sessions_view() == spec_create_sessions(
                old(self).sessions_view(),
                name@,
                now_ms as int,
            ));
        }
        id
    }

    /// The stored history of the session holding `id`, if stored.
    pub fn session_history(&self, id: &str) -> (r: Option<Vec<MessageRecord>>)
        ensures
            match spec_find_session(self.sessions_view(), id@) {
                Some(i) => r matches Some(h) && h@.map_values(|rr: MessageRecord| rr@)
                    == self.sessions_view()[i].history,
                None => r is None,
            },
    {
        let id_chars = str_to_chars(id);
        match self.find_index(&id_chars) {
            Some(i) => {
                proof {
                    lemma_find_session_props(self.sessions_view(), id_chars@);
                }
                let mut out: Vec<MessageRecord> = Vec::new();
                let mut k: usize = 0;
                while k < self.sessions[i].history.len()
                    invariant
                        0 <= i < self.sessions@.len(),
                        0 <= k <= self.sessions@[i as int].history@.len(),
                        out@.map_values(|rr: MessageRecord| rr@) == self.sessions@[
                            i as int
                        ].history@.map_values(|rr: MessageRecord| rr@).take(k as int),
                    decreases self.sessions@[i as int].history@.len() - k,
                {
                    let src = &self.sessions[i].history[k];
                    let copied = MessageRecord {
                        role: src.role.clone(),
                        content: src.content.clone(),
                        timestamp_ms: src.timestamp_ms,
                    };
                    let ghost prev = out@;
                    out.push(copied);
                    proof {
                        let hv = self.sessions@[i as int].history@.map_values(
                            |rr: MessageRecord| rr@,
                        );
                        assert(out@.map_values(|rr: MessageRecord| rr@) =~= prev.map_values(
                            |rr: MessageRecord| rr@,
                        ).push(out@.last()@));
                        assert(out@.last()@ == hv[k as int]);
                        assert(hv.take(k + 1) =~= hv.take(k as int).push(hv[k as int]));
                    }
                    k = k + 1;
                }
                proof {
                    let hv = self.sessions@[i as int].history@.map_values(
                        |rr: MessageRecord| rr@,
                    );
                    assert(hv.take(hv.len() as int) =~= hv);
                    assert(self.sessions_view()[i as int].history == hv);
                }
                Some(out)
            },
            None => None,
        }
    }

    /// All sessions' metadata, in descending creation order: exactly the
    /// stored metadata, sorted newest first.
    pub fn list_sessions(&self) -> (r: Vec<SessionMeta>)
        ensures
            r@.map_values(|m: SessionMeta| m@).to_multiset() == self.sessions_view().map_values(
                |s: SessionView| s.meta,
            ).to_multiset(),
            spec_sorted_desc(r@.map_values(|m: SessionMeta| m@)),
    {
        let ghost metas = self.sessions_view().map_values(|s: SessionView| s.meta);
        let mut r: Vec<SessionMeta> = Vec::new();
        let mut i: usize = 0;
        while i < self.sessions.len()
            invariant
                0 <= i <= self.sessions@.len(),
                metas == self.sessions_view().map_values(|s: SessionView| s.meta),
                metas.len() == self.sessions@.len(),
                r@.map_values(|m: SessionMeta| m@).to_multiset() == metas.take(
                    i as int,
                ).to_multiset(),
                spec_sorted_desc(r@.map_values(|m: SessionMeta| m@)),
            decreases self.sessions@.len() - i,
        {
            let m = SessionMeta {
                id: self.sessions[i].meta.id.clone(),
                name: self.sessions[i].meta.name.clone(),
                created_ms: self.sessions[i].meta.created_ms,
            };
            proof {
                assert(m@ == metas[i as int]);
            }
            let ghost rv_before = r@.map_values(|mm: SessionMeta| mm@);
            // Find the insertion point: past every entry at least as new.
            let mut p: usize = 0;
            while p < r.len() && r[p].created_ms >= m.created_ms
                invariant
                    0 <= p <= r@.len(),
                    forall|k: int| 0 <= k < p ==> (#[trigger] r@[k]).created_ms >= m.created_ms,
                decreases r@.len() - p,
            {
                p = p + 1;
            }
            proof {
                assert(forall|k: int|
                    0 <= k < rv_before.len() ==> #[trigger] rv_before[k].created_ms == r@[
                        k
                    ].created_ms as int);
                assert(forall|k: int|
                    0 <= k < p ==> #[trigger] rv_before[k].created_ms >= m@.created_ms);
                assert(p < r@.len() ==> rv_before[p as int].created_ms < m@.created_ms);
            }
            r.insert(p, m);
            proof {
                let rv_after = r@.map_values(|mm: SessionMeta| mm@);
                assert(rv_after =~= rv_before.insert(p as int, m@));
                assert(rv_after.to_multiset() == rv_before.to_multiset().insert(m@));
                assert(metas.take(i + 1) =~= metas.take(i as int).push(metas[i as int]));
                assert(metas.take(i + 1).to_multiset() == metas.take(
                    i as int,
                ).to_multiset().insert(metas[i as int]));
                assert forall|a: int, b: int| 0 <= a <= b < rv_after.len() implies rv_after[
                    a
                ].created_ms >= rv_after[b].created_ms by {
                    if a < p && b < p {
                        assert(rv_after[a] == rv_before[a] && rv_after[b] == rv_before[b]);
                    } else if a < p && b == p {
                        assert(rv_after[a] == rv_before[a]);
                    } else if a < p && b > p {
                        assert(rv_after[a] == rv_before[a] && rv_after[b] == rv_before[b - 1]);
                    } else if a == p && b > p {
                        assert(rv_after[b] == rv_before[b - 1]);
                        assert(rv_before[b - 1].created_ms <= rv_before[p as int].created_ms);
                    } else if a > p && b > p {
                        assert(rv_after[a] == rv_before[a - 1] && rv_after[b] == rv_before[b - 1]);
                    } else {
                        assert(a == p && b == p);
                    }
                }
            }
            i = i + 1;
        }
        proof {
            assert(metas.take(metas.len() as int) =~= metas);
        }
        r
    }

    /// Appends one record to the session holding `id`; a missing session is
    /// a session-I/O error, and nothing changes.
    pub fn append_message(&mut self, id: &str, record: &MessageRecord) -> (r: Result<
        (),
        ChatError,
    >)
        ensures
            match spec_find_session(old(self).sessions_view(), id@) {
                Some(i) => r is Ok && final(self).sessions_view() == old(
                    self,
                ).sessions_view().update(
                    i,
                    SessionView {
                        meta: old(self).sessions_view()[i].meta,
                        history: old(self).sessions_view()[i].history.push(record@),
                    },
                ),
                None => r matches Err(e) && e is SessionIo,
            },
            final(self).current_view() == old(self).current_view(),
            spec_find_session(old(self).sessions_view(), id@) is None ==> final(self)
                .sessions_view() == old(self).sessions_view(),
    {
        let id_chars = str_to_chars(id);
        let slot = self.find_index(&id_chars);
        match slot {
            Some(i) => {
                proof {
                    lemma_find_session_props(old(self).sessions_view(), id@);
                }
                let mut s = self.sessions.remove(i);
                let copied = MessageRecord {
                    role: record.role.clone(),
                    content: record.content.clone(),
                    timestamp_ms: record.timestamp_ms,
                };
                s.history.push(copied);
                self.sessions.insert(i, s);
                proof {
                    let ghost target = old(self).sessions@[i as int];
                    assert(self.sessions@ =~= old(self).sessions@.update(
                        i as int,
                        self.sessions@[i as int],
                    ));
                    assert(self.sessions@[i as int].history@.map_values(|rr: MessageRecord| rr@)
                        =~= target.history@.map_values(|rr: MessageRecord| rr@).push(record@));
                    assert(self.sessions_view() =~= old(self).sessions_view().update(
                        i as int,
                        SessionView {
                            meta: old(self).sessions_view()[i as int].meta,
                            history: old(self).sessions_view()[i as int].history.push(record@),
                        },
                    ));
                }
                Ok(())
            },
            None => {
                Err(
                    ChatError::SessionIo {
                        detail: "session does not exist; cannot append history".to_owned(),
                    },
                )
            },
        }
    }

    /// Removes the session holding `id`, if stored; a deletion of the
    /// current session also clears the current pointer.
    pub fn delete_session(&mut self, id: &str)
        ensures
            match spec_find_session(old(self).sessions_view(), id@) {
                Some(i) => final(self).sessions_view() == old(self).sessions_view().remove(i),
                None => final(self).sessions_view() == old(self).sessions_view(),
            },
            final(self).current_view() == (if old(self).current_view() == Some(id@) {
                None::<Seq<char>>
            } else {
                old(self).current_view()
            }),
    {
        let id_chars = str_to_chars(id);
        let slot = self.find_index(&id_chars);
        match slot {
            Some(i) => {
                proof {
                    lemma_find_session_props(self.sessions_view(), id_chars@);
                }
                self.sessions.remove(i);
                proof {
                    assert(self.sessions_view() =~= old(self).sessions_view().remove(i as int));
                }
            },
            None => {},
        }
        let clear = match &self.current {
            Some(c) => chars_eq_str(&id_chars, c.as_str()),
            None => false,
        };
        if clear {
            self.current = None;
        }
    }

    /// Points the current-session marker at `id`. The session need not
    /// exist; the pointer is an independent marker.
    pub fn set_current_session_id(&mut self, id: &str)
        ensures
            final(self).current_view() == Some(id@),
            final(self).sessions_view() == old(self).sessions_view(),
    {
        self.current = Some(id.to_owned());
    }

    /// The current session's id, if one is set.
    pub fn current_session_id(&self) -> (r: Option<String>)
        ensures
            match r {
                Some(s) => self.current_view() == Some(s@),
                None => self.current_view() is None,
            },
    {
        match &self.current {
            Some(c) => Some(c.clone()),
            None => None,
        }
    }
}

// ---------------------------------------------------------------------------
// The current-session marker file's contents
// ---------------------------------------------------------------------------

/// What a marker file's contents denote: the trimmed id, or no current
/// session when nothing but whitespace remains.
pub open spec fn spec_parse_marker(s: Seq<char>) -> Option<Seq<char>> {
    if spec_trim(s).len() == 0 {
        None
    } else {
        Some(spec_trim(s))
    }
}

/// Reads a current-session marker: the trimmed contents, or none when
/// empty.
pub fn parse_current_marker(contents: &str) -> (r: Option<String>)
    ensures
        match r {
            Some(s) => spec_parse_marker(contents@) == Some(s@),
            None => spec_parse_marker(contents@) is None,
        },
{
    let chars = str_to_chars(contents);
    let t = trim_chars(&chars);
    if t.len() == 0 {
        None
    } else {
        Some(chars_to_string(&t))
    }
}

// ---------------------------------------------------------------------------
// Laws
// ---------------------------------------------------------------------------

/// Creating one session in a fresh recorder and mutating nothing further,
/// then listing, yields exactly one entry, whose name is the one given.
pub proof fn lemma_create_then_list(l: Seq<SessionMetaView>, name: Seq<char>, now: int)
    requires
        l.to_multiset() == spec_create_sessions(Seq::empty(), name, now).map_values(
            |s: SessionView| s.meta,
        ).to_multiset(),
    ensures
        l == seq![SessionMetaView { id: spec_dec_int(now), name: name, created_ms: now }],
{
    let fresh = spec_fresh_session(name, now);
    let created = spec_create_sessions(Seq::empty(), name, now);
    assert(spec_find_session(Seq::empty(), spec_dec_int(now)) is None);
    assert(created =~= seq![fresh]);
    let metas = created.map_values(|s: SessionView| s.meta);
    assert(metas =~= seq![fresh.meta]);
    assert(metas =~= Seq::empty().push(fresh.meta));
    assert(Seq::<SessionMetaView>::empty().to_multiset() == Multiset::<SessionMetaView>::empty());
    assert(metas.to_multiset() =~= Multiset::<SessionMetaView>::empty().insert(fresh.meta));
    assert(l.to_multiset().len() == 1);
    assert(l.len() == 1);
    assert(l.contains(l[0]));
    assert(l.to_multiset().count(l[0]) > 0);
    assert(l[0] == fresh.meta);
    assert(l =~= seq![fresh.meta]);
}

} // verus!
