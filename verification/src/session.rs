//! The Session Table: per-session seed, counters and liveness.
//!
//! A session is created lazily on the first scatter call for its id,
//! personalized with a random 32-byte seed, and replaced with a fresh one
//! when it outlives `max_session_age`.  The packet counter provides the
//! sequence id of every scattered packet; touching one session never alters
//! another.

use vstd::prelude::*;

verus! {

/// Per-session scattering state.  Times are in unix milliseconds.
#[derive(Debug, Clone, Copy)]
pub struct ScatteringSession {
    /// Caller-supplied 32-byte identifier.
    pub session_id: [u8; 32],
    /// Random seed personalizing coordinate derivation.
    pub seed: [u8; 32],
    /// When the session was created, in unix milliseconds.
    pub created_at: u64,
    /// When the session last scattered a packet, in unix milliseconds.
    pub last_activity: u64,
    /// Packets scattered so far; the next packet's sequence id.
    pub packet_count: u64,
    /// Fragments emitted so far.
    pub fragment_count: u64,
}

/// Whether a session is still young enough to use at `now_ms`.
pub open spec fn session_live(s: ScatteringSession, now_ms: u64, max_age_ms: u64) -> bool {
    s.created_at <= now_ms && now_ms - s.created_at < max_age_ms
}

/// The first index in `sessions` at or after `from` holding `id`, or the
/// length when none does.
pub open spec fn find_session(
    sessions: Seq<ScatteringSession>,
    id: Seq<u8>,
    from: int,
) -> int
    decreases sessions.len() - from,
{
    if from < 0 || from >= sessions.len() {
        sessions.len() as int
    } else if sessions[from].session_id@ == id {
        from
    } else {
        find_session(sessions, id, from + 1)
    }
}

/// `find_session` lands on the id it looks for, and nothing before it holds
/// that id.
pub proof fn lemma_find_session(sessions: Seq<ScatteringSession>, id: Seq<u8>, from: int)
    requires
        0 <= from <= sessions.len(),
    ensures
        from <= find_session(sessions, id, from) <= sessions.len(),
        find_session(sessions, id, from) < sessions.len() ==> sessions[find_session(
            sessions,
            id,
            from,
        )].session_id@ == id,
        forall|j: int|
            from <= j < find_session(sessions, id, from) ==> (#[trigger] sessions[j]).session_id@
                != id,
    decreases sessions.len() - from,
{
    if from < sessions.len() && sessions[from].session_id@ != id {
        lemma_find_session(sessions, id, from + 1);
    }
}

/// No two sessions in `s` share an id.
pub open spec fn unique_ids(s: Seq<ScatteringSession>) -> bool {
    forall|a: int, b: int|
        0 <= a < b < s.len() ==> (#[trigger] s[a]).session_id@ != (#[trigger] s[b]).session_id@
}

/// Every element of a filtered sequence comes from the sequence itself.
proof fn lemma_filter_is_subset(
    s: Seq<ScatteringSession>,
    pred: spec_fn(ScatteringSession) -> bool,
    i: int,
)
    requires
        0 <= i < s.filter(pred).len(),
    ensures
        s.contains(s.filter(pred)[i]),
    decreases s.len(),
{
    reveal(Seq::filter);
    if s.len() > 0 {
        let d = s.drop_last();
        if pred(s.last()) && i == s.filter(pred).len() - 1 {
            assert(s[s.len() - 1] == s.filter(pred)[i]);
        } else {
            lemma_filter_is_subset(d, pred, i);
            let j = choose|j: int| 0 <= j < d.len() && d[j] == d.filter(pred)[i];
            assert(s[j] == s.filter(pred)[i]);
        }
    }
}

/// Filtering keeps session ids pairwise distinct.
proof fn lemma_filter_unique_ids(
    s: Seq<ScatteringSession>,
    pred: spec_fn(ScatteringSession) -> bool,
)
    requires
        unique_ids(s),
    ensures
        unique_ids(s.filter(pred)),
    decreases s.len(),
{
    reveal(Seq::filter);
    if s.len() > 0 {
        let d = s.drop_last();
        assert(unique_ids(d)) by {
            assert(forall|j: int| 0 <= j < d.len() ==> #[trigger] d[j] == s[j]);
        }
        lemma_filter_unique_ids(d, pred);
        if pred(s.last()) {
            let f = s.filter(pred);
            assert(f == d.filter(pred).push(s.last()));
            assert forall|a: int, b: int|
                0 <= a < b < f.len() implies (#[trigger] f[a]).session_id@ != (
            #[trigger] f[b]).session_id@ by {
                if b == f.len() - 1 {
                    lemma_filter_is_subset(d, pred, a);
                    let j = choose|j: int| 0 <= j < d.len() && d[j] == d.filter(pred)[a];
                    assert(s[j] == f[a]);
                    assert(s[j].session_id@ != s[s.len() - 1].session_id@);
                }
            }
        }
    }
}

/// The table of live sessions.
pub struct SessionTable {
    sessions: Vec<ScatteringSession>,
    max_session_age_ms: u64,
}

impl SessionTable {
    /// The sessions, in creation order.
    pub closed spec fn sessions(self) -> Seq<ScatteringSession> {
        self.sessions@
    }

    pub closed spec fn spec_max_age_ms(self) -> u64 {
        self.max_session_age_ms
    }

    /// No two sessions share an id.
    pub open spec fn wf(self) -> bool {
        forall|i: int, j: int|
            0 <= i < j < self.sessions().len() ==> (#[trigger] self.sessions()[i]).session_id@
                != (#[trigger] self.sessions()[j]).session_id@
    }

    pub fn new(max_session_age_ms: u64) -> (r: Self)
        ensures
            r.sessions() =~= Seq::<ScatteringSession>::empty(),
            r.spec_max_age_ms() == max_session_age_ms,
            r.wf(),
    {
        SessionTable { sessions: Vec::new(), max_session_age_ms }
    }

    pub fn len(&self) -> (r: usize)
        ensures
            r == self.sessions().len(),
    {
        self.sessions.len()
    }

    /// A copy of the sessions, for statistics.
    pub fn snapshot(&self) -> (r: Vec<ScatteringSession>)
        ensures
            r@ == self.sessions(),
    {
        let mut out: Vec<ScatteringSession> = Vec::new();
        let mut i: usize = 0;
        while i < self.sessions.len()
            invariant
                i <= self.sessions@.len(),
                out@ =~= self.sessions@.subrange(0, i as int),
            decreases self.sessions@.len() - i,
        {
            out.push(self.sessions[i]);
            i = i + 1;
            proof {
                assert(out@ =~= self.sessions@.subrange(0, i as int));
            }
        }
        proof {
            assert(out@ =~= self.sessions@);
        }
        out
    }

    /// Returns the live session for `session_id`, or installs a fresh one
    /// seeded with `fresh_seed` — also when an expired session with that id
    /// is found, which is then replaced.  No other session is touched.
    pub fn get_or_create(
        &mut self,
        session_id: &[u8; 32],
        fresh_seed: [u8; 32],
        now_ms: u64,
    ) -> (r: ScatteringSession)
        requires
            old(self).wf(),
        ensures
            final(self).wf(),
            final(self).spec_max_age_ms() == old(self).spec_max_age_ms(),
            r.session_id@ == session_id@,
            ({
                let i = find_session(old(self).sessions(), session_id@, 0);
                if i < old(self).sessions().len() && session_live(
                    old(self).sessions()[i],
                    now_ms,
                    old(self).spec_max_age_ms(),
                ) {
                    r == old(self).sessions()[i] && final(self).sessions() == old(self).sessions()
                } else {
                    r.session_id == *session_id && r.seed == fresh_seed && r.created_at == now_ms
                        && r.last_activity == now_ms && r.packet_count == 0
                        && r.fragment_count == 0 && final(self).sessions()
                        == (if i < old(self).sessions().len() {
                        old(self).sessions().remove(i)
                    } else {
                        old(self).sessions()
                    }).push(r)
                }
            }),
    {
        proof {
            lemma_find_session(self.sessions@, session_id@, 0);
        }
        let mut i: usize = 0;
        while i < self.sessions.len() && !crate::wire::bytes32_eq(
            &self.sessions[i].session_id,
            session_id,
        )
            invariant
                i <= self.sessions@.len(),
                forall|j: int| 0 <= j < i ==> (#[trigger] self.sessions@[j]).session_id@
                    != session_id@,
                find_session(self.sessions@, session_id@, 0) == find_session(
                    self.sessions@,
                    session_id@,
                    i as int,
                ),
                self == old(self),
            decreases self.sessions@.len() - i,
        {
            i = i + 1;
        }
        proof {
            assert(i as int == find_session(old(self).sessions(), session_id@, 0));
        }

        if i < self.sessions.len() {
            let found = self.sessions[i];
            if found.created_at <= now_ms && now_ms - found.created_at
                < self.max_session_age_ms {
                return found;
            }
            // The session outlived its age: replace it with a fresh one.
            self.sessions.remove(i);
        }
        let fresh = ScatteringSession {
            session_id: *session_id,
            seed: fresh_seed,
            created_at: now_ms,
            last_activity: now_ms,
            packet_count: 0,
            fragment_count: 0,
        };
        self.sessions.push(fresh);
        proof {
            assert forall|a: int, b: int|
                0 <= a < b < self.sessions().len() implies (#[trigger] self.sessions()[
                a]).session_id@ != (#[trigger] self.sessions()[b]).session_id@ by {
                lemma_find_session(old(self).sessions(), session_id@, 0);
            }
        }
        fresh
    }

    /// Credits one scattered packet and its fragments to the session, and
    /// touches its activity time.  Every other session is left untouched;
    /// counters saturate rather than wrap.
    pub fn record_scatter(&mut self, session_id: &[u8; 32], fragments: u64, now_ms: u64) -> (r:
        bool)
        requires
            old(self).wf(),
        ensures
            final(self).wf(),
            final(self).spec_max_age_ms() == old(self).spec_max_age_ms(),
            ({
                let i = find_session(old(self).sessions(), session_id@, 0);
                if i < old(self).sessions().len() {
                    let s = old(self).sessions()[i];
                    r && final(self).sessions() == old(self).sessions().update(
                        i,
                        ScatteringSession {
                            last_activity: now_ms,
                            packet_count: if s.packet_count < u64::MAX {
                                (s.packet_count + 1) as u64
                            } else {
                                u64::MAX
                            },
                            fragment_count: if s.fragment_count + fragments <= u64::MAX {
                                (s.fragment_count + fragments) as u64
                            } else {
                                u64::MAX
                            },
                            ..s
                        },
                    )
                } else {
                    !r && final(self).sessions() == old(self).sessions()
                }
            }),
    {
        proof {
            lemma_find_session(self.sessions@, session_id@, 0);
        }
        let mut i: usize = 0;
        while i < self.sessions.len() && !crate::wire::bytes32_eq(
            &self.sessions[i].session_id,
            session_id,
        )
            invariant
                i <= self.sessions@.len(),
                find_session(self.sessions@, session_id@, 0) == find_session(
                    self.sessions@,
                    session_id@,
                    i as int,
                ),
                self == old(self),
            decreases self.sessions@.len() - i,
        {
            i = i + 1;
        }
        proof {
            assert(i as int == find_session(old(self).sessions(), session_id@, 0));
        }
        if i >= self.sessions.len() {
            return false;
        }
        let s = self.sessions[i];
        let packet_count: u64 = if s.packet_count < u64::MAX {
            s.packet_count + 1
        } else {
            u64::MAX
        };
        let fragment_count: u64 = if s.fragment_count <= u64::MAX - fragments {
            s.fragment_count + fragments
        } else {
            u64::MAX
        };
        let updated = ScatteringSession {
            session_id: s.session_id,
            seed: s.seed,
            created_at: s.created_at,
            last_activity: now_ms,
            packet_count,
            fragment_count,
        };
        self.sessions.set(i, updated);
        proof {
            assert(self.sessions()[i as int].session_id@ == old(self).sessions()[
            i as int].session_id@);
        }
        true
    }

    /// Evicts every session that has outlived `max_session_age`.  The
    /// survivors keep their order and their state.
    pub fn cleanup(&mut self, now_ms: u64)
        requires
            old(self).wf(),
        ensures
            final(self).wf(),
            final(self).spec_max_age_ms() == old(self).spec_max_age_ms(),
            final(self).sessions() == old(self).sessions().filter(
                |s: ScatteringSession| session_live(s, now_ms, old(self).spec_max_age_ms()),
            ),
    {
        let ghost pred = |s: ScatteringSession|
            session_live(s, now_ms, old(self).spec_max_age_ms());
        let mut kept: Vec<ScatteringSession> = Vec::new();
        proof {
            reveal(Seq::filter);
            assert(kept@ == self.sessions@.subrange(0, 0).filter(pred));
        }
        let mut i: usize = 0;
        while i < self.sessions.len()
            invariant
                i <= self.sessions@.len(),
                self == old(self),
                pred == (|s: ScatteringSession|
                    session_live(s, now_ms, old(self).spec_max_age_ms())),
                kept@ == self.sessions@.subrange(0, i as int).filter(pred),
            decreases self.sessions@.len() - i,
        {
            let s = self.sessions[i];
            let ghost prefix = self.sessions@.subrange(0, i as int);
            if s.created_at <= now_ms && now_ms - s.created_at < self.max_session_age_ms {
                kept.push(s);
            }
            i = i + 1;
            proof {
                reveal(Seq::filter);
                let longer = self.sessions@.subrange(0, i as int);
                assert(longer.drop_last() =~= prefix);
                assert(longer.last() == s);
                assert(kept@ == longer.filter(pred));
            }
        }
        proof {
            assert(self.sessions@.subrange(0, self.sessions@.len() as int) =~= self.sessions@);
            assert forall|a: int, b: int|
                0 <= a < b < self.sessions@.len() implies (#[trigger] self.sessions@[
            a]).session_id@ != (#[trigger] self.sessions@[b]).session_id@ by {
                assert(self.sessions()[a] == self.sessions@[a]);
                assert(self.sessions()[b] == self.sessions@[b]);
            }
            lemma_filter_unique_ids(self.sessions@, pred);
        }
        self.sessions = kept;
    }
}

} // verus!
