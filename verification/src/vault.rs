//! The scattering vault: the pipeline tying every stage together.
//!
//! Scatter: packet → digest → coordinate → slices → AEAD seal → metadata
//! skin → delay queue.  Gather: skinned fragment → strip skin → AEAD open →
//! reassembly bin → complete packet.  Sessions personalize coordinate
//! derivation; a background sweep evicts stale sessions and bins and
//! rotates the AEAD key.
//!
//! The vault keeps no clock of its own: every entry point takes the current
//! time in unix milliseconds, so the embedder's scheduler — thread, task or
//! test — decides when time advances.

use vstd::prelude::*;
use crate::coordinate::{DimensionalCoordinate, spec_coordinate, blake3_of, packet_digest};
use crate::crypto::{
    CryptoDimensionHandler, aead_sealed, spec_nonce, spec_opens, spec_opened,
};
use crate::errors::VaultError;
use crate::fragment::{DimensionalFragment, FragmentView};
use crate::fragmenting::{FragmentationEngine, spec_fragment_count, spec_fragments};
use crate::protocol::ProtocolMultiplexer;
use crate::queue::{TemporalQueue, spec_delay_ms, first_late};
use crate::reassembly::{
    ReassemblyBuffers, ReassemblyBin, BinView, bin_complete, bin_fresh, bin_wf,
    spec_file_fragment,
};
use crate::session::{SessionTable, ScatteringSession, find_session, lemma_find_session, session_live};
use crate::skin::{MetadataManipulator, spec_skin, spec_strip};

verus! {

/// Relies on `rand::rng` and `rand::Rng::fill_bytes`: 32 freshly drawn
/// random bytes.  Nothing is promised of their value.
#[verifier::external_body]
fn random_seed() -> (r: [u8; 32]) {
    let mut seed = [0u8; 32];
    rand::Rng::fill_bytes(&mut rand::rng(), &mut seed);
    seed
}

/// One wire fragment of a scattered packet, as a pure function of the
/// packet bytes, the session seed, the AEAD key and the sequence number.
pub open spec fn spec_wire_fragment(
    packet: Seq<u8>,
    seed: Seq<u8>,
    key: Seq<u8>,
    seq_id: u64,
    i: int,
    now_s: u64,
    ttl_secs: u64,
    overlap: int,
) -> FragmentView {
    let c = spec_coordinate(blake3_of(packet), seed);
    let k = spec_fragment_count(c) as int;
    let slice = spec_fragments(packet, k, overlap)[i];
    let sealed = aead_sealed(key, spec_nonce(seq_id, i as u32, c.cryptographic), slice);
    FragmentView {
        coordinate: c,
        data: spec_skin(sealed, c),
        sequence_id: seq_id,
        fragment_id: i as u32,
        total_fragments: spec_fragment_count(c),
        timestamp: now_s,
        ttl_secs,
    }
}

/// The delay queue after the first `upto` wire fragments of a packet have
/// been scheduled, each at its sorted position.
pub open spec fn spec_scattered_queue(
    entries: Seq<(u64, FragmentView)>,
    packet: Seq<u8>,
    seed: Seq<u8>,
    key: Seq<u8>,
    seq_id: u64,
    now_ms: u64,
    now_s: u64,
    ttl_secs: u64,
    overlap: int,
    max_delay_ms: u64,
    upto: int,
) -> Seq<(u64, FragmentView)>
    decreases upto,
{
    if upto <= 0 {
        entries
    } else {
        let prev = spec_scattered_queue(
            entries,
            packet,
            seed,
            key,
            seq_id,
            now_ms,
            now_s,
            ttl_secs,
            overlap,
            max_delay_ms,
            upto - 1,
        );
        let c = spec_coordinate(blake3_of(packet), seed);
        let fv = spec_wire_fragment(packet, seed, key, seq_id, upto - 1, now_s, ttl_secs, overlap);
        let deadline = (now_ms + spec_delay_ms(c, max_delay_ms)) as u64;
        prev.insert(first_late(prev, deadline, 0), (deadline, fv))
    }
}

/// The index of the session that a scatter call at `now_ms` will use, or -1
/// when a fresh session will be installed.
pub open spec fn spec_live_index(
    tbl: Seq<ScatteringSession>,
    id: Seq<u8>,
    now_ms: u64,
    max_age_ms: u64,
) -> int {
    let i = find_session(tbl, id, 0);
    if i < tbl.len() && session_live(tbl[i], now_ms, max_age_ms) {
        i
    } else {
        -1
    }
}

/// The seed the scatter call will derive coordinates with: the live
/// session's, or the fresh one about to be installed.
pub open spec fn spec_used_seed(
    tbl: Seq<ScatteringSession>,
    id: Seq<u8>,
    fresh_seed: Seq<u8>,
    now_ms: u64,
    max_age_ms: u64,
) -> Seq<u8> {
    if spec_live_index(tbl, id, now_ms, max_age_ms) >= 0 {
        tbl[spec_live_index(tbl, id, now_ms, max_age_ms)].seed@
    } else {
        fresh_seed
    }
}

/// The sequence id the scatter call will stamp on its fragments.
pub open spec fn spec_used_seq_id(
    tbl: Seq<ScatteringSession>,
    id: Seq<u8>,
    now_ms: u64,
    max_age_ms: u64,
) -> u64 {
    if spec_live_index(tbl, id, now_ms, max_age_ms) >= 0 {
        tbl[spec_live_index(tbl, id, now_ms, max_age_ms)].packet_count
    } else {
        0
    }
}

/// A session with one more packet and `frags` more fragments on its
/// counters, touched at `now_ms`.
pub open spec fn spec_bumped(s: ScatteringSession, frags: u64, now_ms: u64) -> ScatteringSession {
    ScatteringSession {
        last_activity: now_ms,
        packet_count: if s.packet_count < u64::MAX {
            (s.packet_count + 1) as u64
        } else {
            u64::MAX
        },
        fragment_count: if s.fragment_count + frags <= u64::MAX {
            (s.fragment_count + frags) as u64
        } else {
            u64::MAX
        },
        ..s
    }
}

/// The session table after a scatter call: the live session is used in
/// place, an expired one is replaced, an unknown id gets a fresh entry; the
/// used session's counters are bumped when the call succeeded.
pub open spec fn spec_sessions_after(
    tbl: Seq<ScatteringSession>,
    id: Seq<u8>,
    fresh: ScatteringSession,
    now_ms: u64,
    max_age_ms: u64,
    frags: u64,
    ok: bool,
) -> Seq<ScatteringSession> {
    let li = spec_live_index(tbl, id, now_ms, max_age_ms);
    let fi = find_session(tbl, id, 0);
    let after_get = if li >= 0 {
        tbl
    } else if fi < tbl.len() {
        tbl.remove(fi).push(fresh)
    } else {
        tbl.push(fresh)
    };
    let used = if li >= 0 {
        li
    } else {
        after_get.len() - 1
    };
    if ok {
        after_get.update(used, spec_bumped(after_get[used], frags, now_ms))
    } else {
        after_get
    }
}

/// Totals over all sessions, as unbounded integers.
pub open spec fn spec_total_packets(tbl: Seq<ScatteringSession>) -> int
    decreases tbl.len(),
{
    if tbl.len() == 0 {
        0
    } else {
        spec_total_packets(tbl.drop_last()) + tbl.last().packet_count
    }
}

pub open spec fn spec_total_fragments(tbl: Seq<ScatteringSession>) -> int
    decreases tbl.len(),
{
    if tbl.len() == 0 {
        0
    } else {
        spec_total_fragments(tbl.drop_last()) + tbl.last().fragment_count
    }
}

/// A snapshot of the vault's size and drop counters.
#[derive(Clone, Copy, Debug, PartialEq, Eq, Structural)]
pub struct SigmaVaultStats {
    pub active_sessions: usize,
    pub total_packets_scattered: u64,
    pub total_fragments_scattered: u64,
    pub temporal_queue_length: usize,
    pub reassembly_buffers_count: usize,
    pub dropped_aead_failures: u64,
    pub dropped_trailer_missing: u64,
    pub dropped_expired: u64,
    pub dropped_mismatch: u64,
    pub dropped_duplicates: u64,
    pub dropped_queue_overflow: u64,
}

/// The dimensional scattering vault.
pub struct SigmaVault {
    sessions: SessionTable,
    temporal_queue: TemporalQueue,
    protocol_multiplexer: ProtocolMultiplexer,
    fragmentation_engine: FragmentationEngine,
    crypto_handler: CryptoDimensionHandler,
    metadata_manipulator: MetadataManipulator,
    reassembly_buffers: ReassemblyBuffers,
    max_fragment_age_secs: u64,
    dropped_aead_failures: u64,
    dropped_trailer_missing: u64,
    dropped_expired: u64,
    dropped_mismatch: u64,
    dropped_duplicates: u64,
    dropped_queue_overflow: u64,
}

impl SigmaVault {
    pub closed spec fn sessions_view(self) -> Seq<ScatteringSession> {
        self.sessions.sessions()
    }

    pub closed spec fn queue_entries(self) -> Seq<(u64, FragmentView)> {
        self.temporal_queue.entries()
    }

    pub closed spec fn bins_view(self) -> Seq<BinView> {
        self.reassembly_buffers.bins()
    }

    pub closed spec fn spec_key(self) -> Seq<u8> {
        self.crypto_handler.spec_key()
    }

    pub closed spec fn spec_prior_key(self) -> Option<Seq<u8>> {
        self.crypto_handler.spec_prior_key()
    }

    pub closed spec fn spec_last_rotation_ms(self) -> u64 {
        self.crypto_handler.spec_last_rotation_ms()
    }

    pub closed spec fn spec_rotation_interval_ms(self) -> u64 {
        self.crypto_handler.spec_rotation_interval_ms()
    }

    pub closed spec fn spec_overlap(self) -> int {
        self.fragmentation_engine.spec_overlap() as int
    }

    pub closed spec fn spec_max_delay_ms(self) -> u64 {
        self.temporal_queue.spec_max_delay_ms()
    }

    pub closed spec fn spec_max_session_age_ms(self) -> u64 {
        self.sessions.spec_max_age_ms()
    }

    pub closed spec fn spec_max_fragment_age_secs(self) -> u64 {
        self.max_fragment_age_secs
    }

    pub closed spec fn spec_queue_capacity(self) -> usize {
        self.temporal_queue.spec_capacity()
    }

    pub closed spec fn spec_queue_dropped(self) -> u64 {
        self.temporal_queue.spec_dropped()
    }

    pub closed spec fn counters(self) -> (u64, u64, u64, u64, u64, u64) {
        (
            self.dropped_aead_failures,
            self.dropped_trailer_missing,
            self.dropped_expired,
            self.dropped_mismatch,
            self.dropped_duplicates,
            self.dropped_queue_overflow,
        )
    }

    /// The structural invariant every method preserves.
    pub closed spec fn wf(self) -> bool {
        &&& self.sessions.wf()
        &&& self.temporal_queue.wf()
        &&& self.reassembly_buffers.wf()
        &&& self.metadata_manipulator.wf()
        &&& self.fragmentation_engine.spec_overlap() == 50
        &&& self.max_fragment_age_secs >= 1
    }

    /// A vault with the default configuration: one-hour sessions,
    /// thirty-second fragment life, five-second delay clamp, five-minute key
    /// rotation, fifty bytes of slice overlap.
    pub fn new(master_key: [u8; 32]) -> (r: Self)
        ensures
            r.wf(),
            r.sessions_view() == Seq::<ScatteringSession>::empty(),
            r.queue_entries() == Seq::<(u64, FragmentView)>::empty(),
            r.bins_view() == Seq::<BinView>::empty(),
            r.spec_key() == master_key@,
            r.spec_prior_key() is None,
            r.spec_last_rotation_ms() == 0,
            r.spec_rotation_interval_ms() == 300_000,
            r.spec_overlap() == 50,
            r.spec_max_delay_ms() == 5_000,
            r.spec_max_session_age_ms() == 3_600_000,
            r.spec_max_fragment_age_secs() == 30,
            r.spec_queue_capacity() == usize::MAX,
            r.counters() == (0u64, 0u64, 0u64, 0u64, 0u64, 0u64),
    {
        let r = SigmaVault {
            sessions: SessionTable::new(3_600_000),
            temporal_queue: TemporalQueue::new(5_000),
            protocol_multiplexer: ProtocolMultiplexer::new(),
            fragmentation_engine: FragmentationEngine::new(1400, 50),
            crypto_handler: CryptoDimensionHandler::new(&master_key, 0),
            metadata_manipulator: MetadataManipulator::new(),
            reassembly_buffers: ReassemblyBuffers::new(30),
            max_fragment_age_secs: 30,
            dropped_aead_failures: 0,
            dropped_trailer_missing: 0,
            dropped_expired: 0,
            dropped_mismatch: 0,
            dropped_duplicates: 0,
            dropped_queue_overflow: 0,
        };
        proof {
            assert(r.sessions_view() =~= Seq::<ScatteringSession>::empty());
            assert(r.queue_entries() =~= Seq::<(u64, FragmentView)>::empty());
            assert(r.bins_view() =~= Seq::<BinView>::empty());
        }
        r
    }

    /// Bounds the delay queue; beyond the bound whole packets are refused
    /// with `QueueOverflow`.
    pub fn set_queue_capacity(&mut self, capacity: usize)
        requires
            old(self).wf(),
        ensures
            final(self).wf(),
            final(self).spec_queue_capacity() == capacity,
            final(self).queue_entries() == old(self).queue_entries(),
            final(self).sessions_view() == old(self).sessions_view(),
            final(self).bins_view() == old(self).bins_view(),
    {
        self.temporal_queue.set_capacity(capacity);
    }

    /// Returns every fragment whose release instant has passed, in
    /// non-decreasing instant order; none leaves before its instant.
    pub fn drain_ready(&mut self, now_ms: u64) -> (r: Vec<DimensionalFragment>)
        requires
            old(self).wf(),
        ensures
            final(self).wf(),
            final(self).sessions_view() == old(self).sessions_view(),
            final(self).bins_view() == old(self).bins_view(),
            final(self).spec_key() == old(self).spec_key(),
            final(self).spec_prior_key() == old(self).spec_prior_key(),
            final(self).spec_last_rotation_ms() == old(self).spec_last_rotation_ms(),
            final(self).spec_rotation_interval_ms() == old(self).spec_rotation_interval_ms(),
            final(self).spec_queue_capacity() == old(self).spec_queue_capacity(),
            final(self).spec_queue_dropped() == old(self).spec_queue_dropped(),
            final(self).counters() == old(self).counters(),
            ({
                let pre = old(self).queue_entries();
                let n = first_late(pre, now_ms, 0);
                &&& r@.map_values(|f: DimensionalFragment| f@) == pre.subrange(0, n).map_values(
                    |e: (u64, FragmentView)| e.1,
                )
                &&& final(self).queue_entries() == pre.subrange(n, pre.len() as int)
                &&& forall|j: int| 0 <= j < n ==> (#[trigger] pre[j]).0 <= now_ms
                &&& forall|j: int| n <= j < pre.len() ==> (#[trigger] pre[j]).0 > now_ms
            }),
    {
        self.temporal_queue.dequeue_ready(now_ms)
    }

    /// A snapshot of sizes and drop counters; totals saturate.
    pub fn get_statistics(&self) -> (r: SigmaVaultStats)
        ensures
            r.active_sessions == self.sessions_view().len(),
            r.temporal_queue_length == self.queue_entries().len(),
            r.reassembly_buffers_count == self.bins_view().len(),
            r.total_packets_scattered == (if spec_total_packets(self.sessions_view()) <= u64::MAX {
                spec_total_packets(self.sessions_view())
            } else {
                u64::MAX as int
            }),
            r.total_fragments_scattered == (if spec_total_fragments(self.sessions_view())
                <= u64::MAX {
                spec_total_fragments(self.sessions_view())
            } else {
                u64::MAX as int
            }),
            (
                r.dropped_aead_failures,
                r.dropped_trailer_missing,
                r.dropped_expired,
                r.dropped_mismatch,
                r.dropped_duplicates,
                r.dropped_queue_overflow,
            ) == self.counters(),
    {
        let snapshot = self.sessions.snapshot();
        let mut total_packets: u64 = 0;
        let mut total_fragments: u64 = 0;
        let mut i: usize = 0;
        while i < snapshot.len()
            invariant
                i <= snapshot@.len(),
                snapshot@ == self.sessions_view(),
                total_packets == (if spec_total_packets(snapshot@.subrange(0, i as int))
                    <= u64::MAX {
                    spec_total_packets(snapshot@.subrange(0, i as int))
                } else {
                    u64::MAX as int
                }),
                total_fragments == (if spec_total_fragments(snapshot@.subrange(0, i as int))
                    <= u64::MAX {
                    spec_total_fragments(snapshot@.subrange(0, i as int))
                } else {
                    u64::MAX as int
                }),
            decreases snapshot@.len() - i,
        {
            let ghost prefix = snapshot@.subrange(0, i as int);
            let s = &snapshot[i];
            total_packets = if total_packets <= u64::MAX - s.packet_count {
                total_packets + s.packet_count
            } else {
                u64::MAX
            };
            total_fragments = if total_fragments <= u64::MAX - s.fragment_count {
                total_fragments + s.fragment_count
            } else {
                u64::MAX
            };
            i = i + 1;
            proof {
                let longer = snapshot@.subrange(0, i as int);
                assert(longer.drop_last() =~= prefix);
                assert(longer.last() == snapshot@[i as int - 1]);
                lemma_total_packets_nonneg(prefix);
                lemma_total_fragments_nonneg(prefix);
            }
        }
        proof {
            assert(snapshot@.subrange(0, snapshot@.len() as int) =~= snapshot@);
        }
        SigmaVaultStats {
            active_sessions: self.sessions.len(),
            total_packets_scattered: total_packets,
            total_fragments_scattered: total_fragments,
            temporal_queue_length: self.temporal_queue.len(),
            reassembly_buffers_count: self.reassembly_buffers.len(),
            dropped_aead_failures: self.dropped_aead_failures,
            dropped_trailer_missing: self.dropped_trailer_missing,
            dropped_expired: self.dropped_expired,
            dropped_mismatch: self.dropped_mismatch,
            dropped_duplicates: self.dropped_duplicates,
            dropped_queue_overflow: self.dropped_queue_overflow,
        }
    }

    /// The maintenance pass: evicts expired sessions, drops stale bins, and
    /// rotates the AEAD key when the rotation interval has elapsed.  The
    /// first pass anchors the rotation clock instead of rotating.
    pub fn cleanup(&mut self, now_ms: u64)
        requires
            old(self).wf(),
        ensures
            final(self).wf(),
            final(self).queue_entries() == old(self).queue_entries(),
            final(self).spec_queue_capacity() == old(self).spec_queue_capacity(),
            final(self).spec_queue_dropped() == old(self).spec_queue_dropped(),
            final(self).counters() == old(self).counters(),
            final(self).sessions_view() == old(self).sessions_view().filter(
                |s: ScatteringSession| session_live(s, now_ms, old(self).spec_max_session_age_ms()),
            ),
            final(self).bins_view() == old(self).bins_view().filter(
                |b: BinView| bin_fresh(b, now_ms / 1000),
            ),
            forall|i: int|
                0 <= i < final(self).bins_view().len() ==> bin_fresh(
                    #[trigger] final(self).bins_view()[i],
                    now_ms / 1000,
                ),
            old(self).spec_last_rotation_ms() == 0 ==> final(self).spec_key() == old(self).spec_key()
                && final(self).spec_prior_key() == old(self).spec_prior_key()
                && final(self).spec_last_rotation_ms() == now_ms,
            (old(self).spec_last_rotation_ms() != 0 && old(self).spec_last_rotation_ms() <= now_ms
                && now_ms - old(self).spec_last_rotation_ms()
                >= old(self).spec_rotation_interval_ms()) ==> final(self).spec_prior_key()
                == Some(old(self).spec_key()) && final(self).spec_last_rotation_ms() == now_ms,
            (old(self).spec_last_rotation_ms() != 0 && !(old(self).spec_last_rotation_ms()
                <= now_ms && now_ms - old(self).spec_last_rotation_ms()
                >= old(self).spec_rotation_interval_ms())) ==> final(self).spec_key()
                == old(self).spec_key() && final(self).spec_prior_key()
                == old(self).spec_prior_key() && final(self).spec_last_rotation_ms()
                == old(self).spec_last_rotation_ms(),
    {
        self.sessions.cleanup(now_ms);
        self.reassembly_buffers.cleanup(now_ms / 1000);
        if self.crypto_handler.last_rotation_unset() {
            self.crypto_handler.anchor(now_ms);
        } else if self.crypto_handler.needs_rotation(now_ms) {
            let fresh_key = random_seed();
            self.crypto_handler.rotate(&fresh_key, now_ms);
        }
    }
}

/// Scheduling a packet's fragments grows the queue by exactly the fragment
/// count.
pub proof fn lemma_scattered_queue_len(
    entries: Seq<(u64, FragmentView)>,
    packet: Seq<u8>,
    seed: Seq<u8>,
    key: Seq<u8>,
    seq_id: u64,
    now_ms: u64,
    now_s: u64,
    ttl_secs: u64,
    overlap: int,
    max_delay_ms: u64,
    upto: int,
)
    requires
        upto >= 0,
    ensures
        spec_scattered_queue(
            entries,
            packet,
            seed,
            key,
            seq_id,
            now_ms,
            now_s,
            ttl_secs,
            overlap,
            max_delay_ms,
            upto,
        ).len() == entries.len() + upto,
    decreases upto,
{
    if upto > 0 {
        lemma_scattered_queue_len(
            entries,
            packet,
            seed,
            key,
            seq_id,
            now_ms,
            now_s,
            ttl_secs,
            overlap,
            max_delay_ms,
            upto - 1,
        );
        let prev = spec_scattered_queue(
            entries,
            packet,
            seed,
            key,
            seq_id,
            now_ms,
            now_s,
            ttl_secs,
            overlap,
            max_delay_ms,
            upto - 1,
        );
        let c = spec_coordinate(blake3_of(packet), seed);
        let deadline = (now_ms + spec_delay_ms(c, max_delay_ms)) as u64;
        crate::queue::lemma_first_late_splits(prev, deadline, 0);
    }
}

/// One scheduling step extends the scattered queue by one wire fragment.
proof fn lemma_scatter_step(
    pre_q: Seq<(u64, FragmentView)>,
    post: Seq<(u64, FragmentView)>,
    packet: Seq<u8>,
    seed: Seq<u8>,
    key: Seq<u8>,
    seq_id: u64,
    now_ms: u64,
    now_s: u64,
    ttl_secs: u64,
    overlap: int,
    max_delay_ms: u64,
    i: int,
)
    requires
        i >= 0,
        ({
            let prev = spec_scattered_queue(
                pre_q,
                packet,
                seed,
                key,
                seq_id,
                now_ms,
                now_s,
                ttl_secs,
                overlap,
                max_delay_ms,
                i,
            );
            let c = spec_coordinate(blake3_of(packet), seed);
            let deadline = (now_ms + spec_delay_ms(c, max_delay_ms)) as u64;
            post == prev.insert(
                first_late(prev, deadline, 0),
                (
                    deadline,
                    spec_wire_fragment(packet, seed, key, seq_id, i, now_s, ttl_secs, overlap),
                ),
            )
        }),
    ensures
        post == spec_scattered_queue(
            pre_q,
            packet,
            seed,
            key,
            seq_id,
            now_ms,
            now_s,
            ttl_secs,
            overlap,
            max_delay_ms,
            i + 1,
        ),
{
}

/// After `get_or_create` and `record_scatter`, the session table is exactly
/// what `spec_sessions_after` says for a successful call.
proof fn lemma_sessions_after_scatter(
    pre: Seq<ScatteringSession>,
    mid: Seq<ScatteringSession>,
    post: Seq<ScatteringSession>,
    id: Seq<u8>,
    fresh: ScatteringSession,
    now_ms: u64,
    max_age_ms: u64,
    frags: u64,
)
    requires
        crate::session::unique_ids(pre),
        fresh.session_id@ == id,
        ({
            let li = spec_live_index(pre, id, now_ms, max_age_ms);
            let fi = find_session(pre, id, 0);
            mid == (if li >= 0 {
                pre
            } else if fi < pre.len() {
                pre.remove(fi).push(fresh)
            } else {
                pre.push(fresh)
            })
        }),
        ({
            let f2 = find_session(mid, id, 0);
            f2 < mid.len() && post == mid.update(f2, spec_bumped(mid[f2], frags, now_ms))
        }) || ({
            let f2 = find_session(mid, id, 0);
            f2 >= mid.len() && post == mid
        }),
    ensures
        find_session(mid, id, 0) < mid.len(),
        post == spec_sessions_after(pre, id, fresh, now_ms, max_age_ms, frags, true),
{
    let li = spec_live_index(pre, id, now_ms, max_age_ms);
    let fi = find_session(pre, id, 0);
    lemma_find_session(pre, id, 0);
    lemma_find_session(mid, id, 0);
    let f2 = find_session(mid, id, 0);
    if li >= 0 {
        assert(f2 == fi);
    } else {
        // The freshly pushed session is the only one carrying the id, at
        // the end of the table.
        assert(mid[mid.len() - 1] == fresh);
        if fi < pre.len() {
            pre.remove(fi).push(fresh);
            pre.remove_ensures(fi);
            assert forall|j: int| 0 <= j < mid.len() - 1 implies (#[trigger] mid[j]).session_id@
                != id by {
                assert(mid[j] == pre.remove(fi)[j]);
                if j < fi {
                    assert(pre.remove(fi)[j] == pre[j]);
                } else {
                    assert(pre.remove(fi)[j] == pre[j + 1]);
                }
            }
        } else {
            assert forall|j: int| 0 <= j < mid.len() - 1 implies (#[trigger] mid[j]).session_id@
                != id by {
                assert(mid[j] == pre[j]);
            }
        }
        assert(f2 == mid.len() - 1);
    }
}

impl SigmaVault {
    /// Scatters one packet under the given session, deriving coordinates
    /// from the session's seed — or from `fresh_seed` when a new session has
    /// to be installed for the id.  On success the packet's fragments stand
    /// in the delay queue, sealed, skinned and scheduled; a queue that
    /// cannot take all of them refuses the whole packet.
    #[verifier::rlimit(100)]
    pub fn scatter_packet_with_seed(
        &mut self,
        packet: &[u8],
        session_id: &[u8; 32],
        fresh_seed: [u8; 32],
        now_ms: u64,
    ) -> (r: Result<(), VaultError>)
        requires
            old(self).wf(),
            packet@.len() >= 1,
            packet@.len() < 0xFFFF_0000,
            packet@.len() + 10_301 <= usize::MAX,
            now_ms + 1369 <= u64::MAX,
        ensures
            final(self).wf(),
            final(self).bins_view() == old(self).bins_view(),
            final(self).spec_key() == old(self).spec_key(),
            final(self).spec_prior_key() == old(self).spec_prior_key(),
            final(self).spec_last_rotation_ms() == old(self).spec_last_rotation_ms(),
            final(self).spec_rotation_interval_ms() == old(self).spec_rotation_interval_ms(),
            final(self).spec_queue_capacity() == old(self).spec_queue_capacity(),
            final(self).spec_queue_dropped() == old(self).spec_queue_dropped(),
            final(self).spec_max_delay_ms() == old(self).spec_max_delay_ms(),
            final(self).spec_overlap() == old(self).spec_overlap(),
            final(self).spec_max_session_age_ms() == old(self).spec_max_session_age_ms(),
            final(self).spec_max_fragment_age_secs() == old(self).spec_max_fragment_age_secs(),
            r matches Err(e) ==> e == VaultError::QueueOverflow,
            r is Ok ==> final(self).counters() == old(self).counters(),
            ({
                let tbl = old(self).sessions_view();
                let max_age = old(self).spec_max_session_age_ms();
                let seed = spec_used_seed(tbl, session_id@, fresh_seed@, now_ms, max_age);
                let seq_id = spec_used_seq_id(tbl, session_id@, now_ms, max_age);
                let c = spec_coordinate(blake3_of(packet@), seed);
                let k = spec_fragment_count(c) as int;
                let fresh = (ScatteringSession {
                    session_id: *session_id,
                    seed: fresh_seed,
                    created_at: now_ms,
                    last_activity: now_ms,
                    packet_count: 0,
                    fragment_count: 0,
                });
                &&& (r is Ok <==> old(self).queue_entries().len() + k <= old(
                    self,
                ).spec_queue_capacity())
                &&& (r is Err ==> ({
                    let cs = old(self).counters();
                    final(self).counters() == (
                        cs.0,
                        cs.1,
                        cs.2,
                        cs.3,
                        cs.4,
                        (if cs.5 + k <= u64::MAX {
                            (cs.5 + k) as u64
                        } else {
                            u64::MAX
                        }),
                    )
                }))
                &&& (r is Ok ==> final(self).queue_entries() == spec_scattered_queue(
                    old(self).queue_entries(),
                    packet@,
                    seed,
                    old(self).spec_key(),
                    seq_id,
                    now_ms,
                    now_ms / 1000,
                    old(self).spec_max_fragment_age_secs(),
                    old(self).spec_overlap(),
                    old(self).spec_max_delay_ms(),
                    k,
                ))
                &&& (r is Err ==> final(self).queue_entries() == old(self).queue_entries())
                &&& final(self).sessions_view() == spec_sessions_after(
                    tbl,
                    session_id@,
                    fresh,
                    now_ms,
                    max_age,
                    k as u64,
                    r is Ok,
                )
            }),
    {
        let ghost pre = *old(self);
        let now_s: u64 = now_ms / 1000;
        let ttl: u64 = self.max_fragment_age_secs;
        let session = self.sessions.get_or_create(session_id, fresh_seed, now_ms);
        let ghost mid_sessions = self.sessions;
        let digest = packet_digest(packet);
        let coordinate = DimensionalCoordinate::from_packet_hash(&digest, &session.seed);
        let ghost gseed = spec_used_seed(
            pre.sessions_view(),
            session_id@,
            fresh_seed@,
            now_ms,
            pre.spec_max_session_age_ms(),
        );
        let ghost gc = spec_coordinate(blake3_of(packet@), gseed);
        proof {
            let tbl = pre.sessions_view();
            let max_age = pre.spec_max_session_age_ms();
            lemma_find_session(tbl, session_id@, 0);
            let fi = find_session(tbl, session_id@, 0);
            if fi < tbl.len() && session_live(tbl[fi], now_ms, max_age) {
                assert(spec_live_index(tbl, session_id@, now_ms, max_age) == fi);
                assert(session == tbl[fi]);
            } else {
                assert(spec_live_index(tbl, session_id@, now_ms, max_age) == -1);
                assert(session.seed == fresh_seed);
                assert(session.packet_count == 0);
            }
            assert(session.seed@ == gseed);
            assert(coordinate == gc);
            assert(coordinate.wf());
            assert(session.packet_count == spec_used_seq_id(
                pre.sessions_view(),
                session_id@,
                now_ms,
                pre.spec_max_session_age_ms(),
            ));
        }
        let fragments = self.fragmentation_engine.fragment_packet(packet, &coordinate);
        let sequence_id: u64 = session.packet_count;
        let k: usize = fragments.len();
        let total: u32 = k as u32;
        proof {
            assert(k == spec_fragment_count(gc));
            assert(1 <= k <= 8);
        }

        // Refuse the whole packet if the queue cannot take every fragment.
        let qlen = self.temporal_queue.len();
        let cap = self.temporal_queue.capacity();
        if k > cap || qlen > cap - k {
            self.dropped_queue_overflow = if self.dropped_queue_overflow <= u64::MAX - (k as u64) {
                self.dropped_queue_overflow + (k as u64)
            } else {
                u64::MAX
            };
            return Err(VaultError::QueueOverflow);
        }

        let ghost pre_q = self.temporal_queue.entries();
        let ghost gkey = self.crypto_handler.spec_key();
        let mut i: usize = 0;
        while i < k
            invariant
                i <= k,
                k == fragments@.len(),
                1 <= k <= 8,
                k == spec_fragment_count(gc) as int,
                gc == spec_coordinate(blake3_of(packet@), gseed),
                gc.wf(),
                coordinate == gc,
                sequence_id == session.packet_count,
                total == k as u32,
                now_s == now_ms / 1000,
                now_ms + 1369 <= u64::MAX,
                packet@.len() + 10_301 <= usize::MAX,
                packet@.len() < 0xFFFF_0000,
                ttl == pre.spec_max_fragment_age_secs(),
                fragments@.map_values(|v: Vec<u8>| v@) == spec_fragments(
                    packet@,
                    k as int,
                    pre.spec_overlap(),
                ),
                self.sessions == mid_sessions,
                self.crypto_handler == pre.crypto_handler,
                self.metadata_manipulator == pre.metadata_manipulator,
                self.fragmentation_engine == pre.fragmentation_engine,
                self.reassembly_buffers == pre.reassembly_buffers,
                self.max_fragment_age_secs == pre.max_fragment_age_secs,
                self.dropped_aead_failures == pre.dropped_aead_failures,
                self.dropped_trailer_missing == pre.dropped_trailer_missing,
                self.dropped_expired == pre.dropped_expired,
                self.dropped_mismatch == pre.dropped_mismatch,
                self.dropped_duplicates == pre.dropped_duplicates,
                self.dropped_queue_overflow == pre.dropped_queue_overflow,
                gkey == pre.spec_key(),
                pre.wf(),
                pre.metadata_manipulator.wf(),
                pre.fragmentation_engine.spec_overlap() == 50,
                self.temporal_queue.wf(),
                self.temporal_queue.spec_max_delay_ms() == pre.spec_max_delay_ms(),
                self.temporal_queue.spec_capacity() == cap,
                self.temporal_queue.spec_dropped() == pre.spec_queue_dropped(),
                pre_q == pre.queue_entries(),
                pre_q.len() + k <= cap,
                self.temporal_queue.entries() == spec_scattered_queue(
                    pre_q,
                    packet@,
                    gseed,
                    gkey,
                    sequence_id,
                    now_ms,
                    now_s,
                    ttl,
                    pre.spec_overlap(),
                    pre.spec_max_delay_ms(),
                    i as int,
                ),
                self.temporal_queue.entries().len() == pre_q.len() + i,
            decreases k - i,
        {
            proof {
                assert(fragments@.map_values(|v: Vec<u8>| v@)[i as int] == spec_fragments(
                    packet@,
                    k as int,
                    pre.spec_overlap(),
                )[i as int]);
                crate::fragmenting::lemma_slice_start_le_len(
                    packet@.len() as int,
                    k as int,
                    i as int,
                );
                assert(fragments@[i as int]@.len() <= packet@.len());
            }
            let piece: &Vec<u8> = &fragments[i];
            let encrypted = match self.crypto_handler.encrypt_fragment(
                piece.as_slice(),
                &coordinate,
                sequence_id,
                i as u32,
            ) {
                Ok(ct) => ct,
                Err(_) => {
                    proof {
                        assert(false);
                    }
                    return Err(VaultError::QueueOverflow);
                },
            };
            let skinned = self.metadata_manipulator.manipulate_metadata(
                encrypted.as_slice(),
                &coordinate,
            );
            let wire = DimensionalFragment {
                coordinate: coordinate,
                data: skinned,
                sequence_id,
                fragment_id: i as u32,
                total_fragments: total,
                timestamp: now_s,
                ttl_secs: ttl,
            };
            proof {
                assert(wire@ =~= spec_wire_fragment(
                    packet@,
                    gseed,
                    gkey,
                    sequence_id,
                    i as int,
                    now_s,
                    ttl,
                    pre.spec_overlap(),
                ));
            }
            let enq = self.temporal_queue.enqueue(wire, now_ms);
            proof {
                if enq is Err {
                    assert(false);
                }
                lemma_scatter_step(
                    pre_q,
                    self.temporal_queue.entries(),
                    packet@,
                    gseed,
                    gkey,
                    sequence_id,
                    now_ms,
                    now_s,
                    ttl,
                    pre.spec_overlap(),
                    pre.spec_max_delay_ms(),
                    i as int,
                );
                let prev = spec_scattered_queue(
                    pre_q,
                    packet@,
                    gseed,
                    gkey,
                    sequence_id,
                    now_ms,
                    now_s,
                    ttl,
                    pre.spec_overlap(),
                    pre.spec_max_delay_ms(),
                    i as int,
                );
                let deadline = (now_ms + spec_delay_ms(gc, pre.spec_max_delay_ms())) as u64;
                crate::queue::lemma_first_late_splits(prev, deadline, 0);
                prev.insert_ensures(first_late(prev, deadline, 0), (deadline, wire@));
            }
            i = i + 1;
        }

        // Credit the packet and its fragments to the session.
        let recorded = self.sessions.record_scatter(session_id, total as u64, now_ms);
        proof {
            let fresh = ScatteringSession {
                session_id: *session_id,
                seed: fresh_seed,
                created_at: now_ms,
                last_activity: now_ms,
                packet_count: 0,
                fragment_count: 0,
            };
            lemma_sessions_after_scatter(
                pre.sessions_view(),
                mid_sessions.sessions(),
                self.sessions.sessions(),
                session_id@,
                fresh,
                now_ms,
                pre.spec_max_session_age_ms(),
                k as u64,
            );
            assert(recorded);
        }
        Ok(())
    }
}

/// After a scatter call the table always holds a session for the id.
proof fn lemma_sessions_after_has_id(
    tbl: Seq<ScatteringSession>,
    id: Seq<u8>,
    fresh: ScatteringSession,
    now_ms: u64,
    max_age_ms: u64,
    frags: u64,
    ok: bool,
)
    requires
        fresh.session_id@ == id,
    ensures
        ({
            let post = spec_sessions_after(tbl, id, fresh, now_ms, max_age_ms, frags, ok);
            find_session(post, id, 0) < post.len()
        }),
{
    let post = spec_sessions_after(tbl, id, fresh, now_ms, max_age_ms, frags, ok);
    let li = spec_live_index(tbl, id, now_ms, max_age_ms);
    lemma_find_session(tbl, id, 0);
    lemma_find_session(post, id, 0);
    if li >= 0 {
        assert(post[li].session_id@ == id);
    } else {
        assert(post[post.len() - 1].session_id@ == id);
    }
}

impl SigmaVault {
    /// Scatters one packet under the given session id, drawing a random
    /// seed in case a fresh session has to be installed.  With a live
    /// session the whole outcome is determined by the vault's state; a
    /// fresh session's seed is random, so then only the shape of the
    /// outcome is known.
    pub fn scatter_packet(&mut self, packet: &[u8], session_id: &[u8; 32], now_ms: u64) -> (r:
        Result<(), VaultError>)
        requires
            old(self).wf(),
            packet@.len() >= 1,
            packet@.len() < 0xFFFF_0000,
            packet@.len() + 10_301 <= usize::MAX,
            now_ms + 1369 <= u64::MAX,
        ensures
            final(self).wf(),
            final(self).bins_view() == old(self).bins_view(),
            final(self).spec_key() == old(self).spec_key(),
            final(self).spec_prior_key() == old(self).spec_prior_key(),
            final(self).spec_last_rotation_ms() == old(self).spec_last_rotation_ms(),
            final(self).spec_rotation_interval_ms() == old(self).spec_rotation_interval_ms(),
            final(self).spec_queue_capacity() == old(self).spec_queue_capacity(),
            final(self).spec_queue_dropped() == old(self).spec_queue_dropped(),
            final(self).spec_max_delay_ms() == old(self).spec_max_delay_ms(),
            final(self).spec_overlap() == old(self).spec_overlap(),
            final(self).spec_max_session_age_ms() == old(self).spec_max_session_age_ms(),
            final(self).spec_max_fragment_age_secs() == old(self).spec_max_fragment_age_secs(),
            r matches Err(e) ==> e == VaultError::QueueOverflow,
            r is Err ==> final(self).queue_entries() == old(self).queue_entries(),
            r is Ok ==> old(self).queue_entries().len() + 1 <= final(self).queue_entries().len()
                <= old(self).queue_entries().len() + 8,
            r is Ok ==> final(self).counters() == old(self).counters(),
            ({
                let cs = old(self).counters();
                let fs = final(self).counters();
                fs.0 == cs.0 && fs.1 == cs.1 && fs.2 == cs.2 && fs.3 == cs.3 && fs.4 == cs.4
                    && cs.5 <= fs.5
            }),
            ({
                let t = final(self).sessions_view();
                find_session(t, session_id@, 0) < t.len()
            }),
            spec_live_index(
                old(self).sessions_view(),
                session_id@,
                now_ms,
                old(self).spec_max_session_age_ms(),
            ) >= 0 ==> ({
                let tbl = old(self).sessions_view();
                let max_age = old(self).spec_max_session_age_ms();
                let li = spec_live_index(tbl, session_id@, now_ms, max_age);
                let seed = tbl[li].seed@;
                let seq_id = tbl[li].packet_count;
                let c = spec_coordinate(blake3_of(packet@), seed);
                let k = spec_fragment_count(c) as int;
                &&& (r is Ok <==> old(self).queue_entries().len() + k <= old(
                    self,
                ).spec_queue_capacity())
                &&& (r is Ok ==> final(self).queue_entries() == spec_scattered_queue(
                    old(self).queue_entries(),
                    packet@,
                    seed,
                    old(self).spec_key(),
                    seq_id,
                    now_ms,
                    now_ms / 1000,
                    old(self).spec_max_fragment_age_secs(),
                    old(self).spec_overlap(),
                    old(self).spec_max_delay_ms(),
                    k,
                ))
                &&& (r is Ok ==> final(self).sessions_view() == tbl.update(
                    li,
                    spec_bumped(tbl[li], k as u64, now_ms),
                ))
                &&& (r is Err ==> final(self).sessions_view() == tbl)
                &&& (r is Err ==> ({
                    let cs = old(self).counters();
                    final(self).counters() == (
                        cs.0,
                        cs.1,
                        cs.2,
                        cs.3,
                        cs.4,
                        (if cs.5 + k <= u64::MAX {
                            (cs.5 + k) as u64
                        } else {
                            u64::MAX
                        }),
                    )
                }))
            }),
    {
        let fresh_seed = random_seed();
        let r = self.scatter_packet_with_seed(packet, session_id, fresh_seed, now_ms);
        proof {
            let tbl = old(self).sessions_view();
            let max_age = old(self).spec_max_session_age_ms();
            let fresh = ScatteringSession {
                session_id: *session_id,
                seed: fresh_seed,
                created_at: now_ms,
                last_activity: now_ms,
                packet_count: 0,
                fragment_count: 0,
            };
            lemma_sessions_after_has_id(
                tbl,
                session_id@,
                fresh,
                now_ms,
                max_age,
                spec_fragment_count(
                    spec_coordinate(
                        blake3_of(packet@),
                        spec_used_seed(tbl, session_id@, fresh_seed@, now_ms, max_age),
                    ),
                ) as u64,
                r is Ok,
            );
            if r is Ok {
                lemma_scattered_queue_len(
                    old(self).queue_entries(),
                    packet@,
                    spec_used_seed(tbl, session_id@, fresh_seed@, now_ms, max_age),
                    old(self).spec_key(),
                    spec_used_seq_id(tbl, session_id@, now_ms, max_age),
                    now_ms,
                    now_ms / 1000,
                    old(self).spec_max_fragment_age_secs(),
                    old(self).spec_overlap(),
                    old(self).spec_max_delay_ms(),
                    spec_fragment_count(
                        spec_coordinate(
                            blake3_of(packet@),
                            spec_used_seed(tbl, session_id@, fresh_seed@, now_ms, max_age),
                        ),
                    ) as int,
                );
            }
        }
        r
    }
}

/// A saturating counter increment.
pub open spec fn spec_bump(x: u64) -> u64 {
    if x < u64::MAX {
        (x + 1) as u64
    } else {
        u64::MAX
    }
}

/// The fragment as it goes into its bin: the recovered coordinate and the
/// decrypted payload, everything else as received.
pub open spec fn spec_inner_fragment(
    f: FragmentView,
    c: DimensionalCoordinate,
    plain: Seq<u8>,
) -> FragmentView {
    FragmentView {
        coordinate: c,
        data: plain,
        sequence_id: f.sequence_id,
        fragment_id: f.fragment_id,
        total_fragments: f.total_fragments,
        timestamp: f.timestamp,
        ttl_secs: f.ttl_secs,
    }
}

/// Bins and counters after filing a decrypted fragment: filed when fresh
/// and new, else counted under the kind that rejected it.
pub open spec fn spec_filed(
    bins: Seq<BinView>,
    counters: (u64, u64, u64, u64, u64, u64),
    f: FragmentView,
    c: DimensionalCoordinate,
    plain: Seq<u8>,
    now_s: u64,
) -> (Seq<BinView>, (u64, u64, u64, u64, u64, u64)) {
    let filed = spec_file_fragment(bins, spec_inner_fragment(f, c, plain), now_s);
    (
        filed.0,
        match filed.1 {
            Ok(added) => if added {
                counters
            } else {
                (
                    counters.0,
                    counters.1,
                    counters.2,
                    counters.3,
                    spec_bump(counters.4),
                    counters.5,
                )
            },
            Err(e) => if e is FragmentExpired {
                (
                    counters.0,
                    counters.1,
                    spec_bump(counters.2),
                    counters.3,
                    counters.4,
                    counters.5,
                )
            } else {
                (
                    counters.0,
                    counters.1,
                    counters.2,
                    spec_bump(counters.3),
                    counters.4,
                    counters.5,
                )
            },
        },
    )
}

/// The transition one received wire fragment makes on the bins and the drop
/// counters: dropped and counted when the trailer is unreadable, the shape
/// is out of range, or no live key opens it; otherwise its decrypted
/// payload is filed, with expired, mismatched and duplicate fragments
/// counted by the filing verdict.
pub open spec fn spec_accept_step(
    bins: Seq<BinView>,
    counters: (u64, u64, u64, u64, u64, u64),
    key: Seq<u8>,
    prior: Option<Seq<u8>>,
    f: FragmentView,
    now_s: u64,
) -> (Seq<BinView>, (u64, u64, u64, u64, u64, u64)) {
    match spec_strip(f.data) {
        Option::None => (
            bins,
            (counters.0, spec_bump(counters.1), counters.2, counters.3, counters.4, counters.5),
        ),
        Option::Some(p) => {
            let sealed = p.0;
            let c = p.1;
            if !(1 <= f.total_fragments <= 8 && f.fragment_id < f.total_fragments) {
                (
                    bins,
                    (
                        counters.0,
                        counters.1,
                        counters.2,
                        spec_bump(counters.3),
                        counters.4,
                        counters.5,
                    ),
                )
            } else {
                let nonce = spec_nonce(f.sequence_id, f.fragment_id, c.cryptographic);
                if spec_opens(key, nonce, sealed) {
                    spec_filed(bins, counters, f, c, spec_opened(key, nonce, sealed), now_s)
                } else if prior matches Some(pk) && spec_opens(pk, nonce, sealed) {
                    spec_filed(
                        bins,
                        counters,
                        f,
                        c,
                        spec_opened(prior.unwrap(), nonce, sealed),
                        now_s,
                    )
                } else {
                    (
                        bins,
                        (
                            spec_bump(counters.0),
                            counters.1,
                            counters.2,
                            counters.3,
                            counters.4,
                            counters.5,
                        ),
                    )
                }
            }
        },
    }
}

/// Bins and counters after feeding a run of wire fragments into
/// reassembly, one `spec_accept_step` at a time, in order.
pub open spec fn spec_gathered(
    bins: Seq<BinView>,
    counters: (u64, u64, u64, u64, u64, u64),
    key: Seq<u8>,
    prior: Option<Seq<u8>>,
    fragments: Seq<FragmentView>,
    now_s: u64,
) -> (Seq<BinView>, (u64, u64, u64, u64, u64, u64))
    decreases fragments.len(),
{
    if fragments.len() == 0 {
        (bins, counters)
    } else {
        let prev = spec_gathered(bins, counters, key, prior, fragments.drop_last(), now_s);
        spec_accept_step(prev.0, prev.1, key, prior, fragments.last(), now_s)
    }
}

impl SigmaVault {
    /// Feeds one received wire fragment into reassembly.  Nothing is
    /// surfaced: a fragment without a readable coordinate trailer, with an
    /// index out of shape, that no live key opens, that has expired, that
    /// disagrees on the fragment count, or that repeats an index is dropped
    /// and counted under its kind; everything else lands in its sequence's
    /// bin.
    pub fn accept(&mut self, fragment: DimensionalFragment, now_ms: u64)
        requires
            old(self).wf(),
        ensures
            final(self).wf(),
            final(self).sessions_view() == old(self).sessions_view(),
            final(self).queue_entries() == old(self).queue_entries(),
            final(self).spec_queue_capacity() == old(self).spec_queue_capacity(),
            final(self).spec_queue_dropped() == old(self).spec_queue_dropped(),
            final(self).spec_key() == old(self).spec_key(),
            final(self).spec_prior_key() == old(self).spec_prior_key(),
            final(self).spec_last_rotation_ms() == old(self).spec_last_rotation_ms(),
            final(self).spec_rotation_interval_ms() == old(self).spec_rotation_interval_ms(),
            ({
                let st = spec_accept_step(
                    old(self).bins_view(),
                    old(self).counters(),
                    old(self).spec_key(),
                    old(self).spec_prior_key(),
                    fragment@,
                    now_ms / 1000,
                );
                final(self).bins_view() == st.0 && final(self).counters() == st.1
            }),
    {
        let now_s: u64 = now_ms / 1000;
        let stripped = match self.metadata_manipulator.strip_skin(fragment.data.as_slice()) {
            Ok(x) => x,
            Err(_) => {
                self.dropped_trailer_missing = bump_counter(self.dropped_trailer_missing);
                return ;
            },
        };
        let sealed = stripped.0;
        let c = stripped.1;
        if !(fragment.total_fragments >= 1 && fragment.total_fragments <= 8
            && fragment.fragment_id < fragment.total_fragments) {
            self.dropped_mismatch = bump_counter(self.dropped_mismatch);
            return ;
        }
        let plain = match self.crypto_handler.decrypt_fragment(
            sealed.as_slice(),
            &c,
            fragment.sequence_id,
            fragment.fragment_id,
        ) {
            Ok(p) => p,
            Err(_) => {
                self.dropped_aead_failures = bump_counter(self.dropped_aead_failures);
                return ;
            },
        };
        let inner = DimensionalFragment {
            coordinate: c,
            data: plain,
            sequence_id: fragment.sequence_id,
            fragment_id: fragment.fragment_id,
            total_fragments: fragment.total_fragments,
            timestamp: fragment.timestamp,
            ttl_secs: fragment.ttl_secs,
        };
        match self.reassembly_buffers.add_fragment(inner, now_s) {
            Ok(true) => {},
            Ok(false) => {
                self.dropped_duplicates = bump_counter(self.dropped_duplicates);
            },
            Err(VaultError::FragmentExpired) => {
                self.dropped_expired = bump_counter(self.dropped_expired);
            },
            Err(_) => {
                self.dropped_mismatch = bump_counter(self.dropped_mismatch);
            },
        }
    }
}

impl SigmaVault {
    /// Removes every complete bin and returns its reassembled packet, in
    /// bin order.  Partial bins stay and wait for their missing fragments.
    pub fn collect_completed(&mut self) -> (r: Vec<Vec<u8>>)
        requires
            old(self).wf(),
        ensures
            final(self).wf(),
            final(self).sessions_view() == old(self).sessions_view(),
            final(self).queue_entries() == old(self).queue_entries(),
            final(self).spec_queue_capacity() == old(self).spec_queue_capacity(),
            final(self).spec_queue_dropped() == old(self).spec_queue_dropped(),
            final(self).spec_key() == old(self).spec_key(),
            final(self).spec_prior_key() == old(self).spec_prior_key(),
            final(self).spec_last_rotation_ms() == old(self).spec_last_rotation_ms(),
            final(self).spec_rotation_interval_ms() == old(self).spec_rotation_interval_ms(),
            final(self).counters() == old(self).counters(),
            final(self).bins_view() == old(self).bins_view().filter(
                |b: BinView| !bin_complete(b),
            ),
            r@.map_values(|v: Vec<u8>| v@) == old(self).bins_view().filter(
                |b: BinView| bin_complete(b),
            ).map_values(
                |b: BinView|
                    crate::fragmenting::spec_reassemble(
                        b.fragments.map_values(|f: FragmentView| f.data),
                        old(self).spec_overlap(),
                    ),
            ),
    {
        let ghost pre = *old(self);
        let done = self.reassembly_buffers.take_complete();
        let ghost taken = pre.bins_view().filter(|b: BinView| bin_complete(b));
        let mut out: Vec<Vec<u8>> = Vec::new();
        let mut i: usize = 0;
        while i < done.len()
            invariant
                i <= done@.len(),
                done@.map_values(|b: ReassemblyBin| b@) == taken,
                forall|t: int|
                    0 <= t < done@.len() ==> bin_wf((#[trigger] done@[t])@) && bin_complete(
                        done@[t]@,
                    ),
                self.fragmentation_engine == pre.fragmentation_engine,
                pre.fragmentation_engine.spec_overlap() == 50,
                out@.len() == i,
                forall|t: int|
                    0 <= t < i ==> (#[trigger] out@[t])@ == crate::fragmenting::spec_reassemble(
                        taken[t].fragments.map_values(|f: FragmentView| f.data),
                        pre.spec_overlap(),
                    ),
            decreases done@.len() - i,
        {
            let bin: &ReassemblyBin = &done[i];
            proof {
                assert(bin@ == taken[i as int]);
            }
            let mut datas: Vec<Vec<u8>> = Vec::new();
            let mut j: usize = 0;
            while j < bin.fragments.len()
                invariant
                    j <= bin.fragments@.len(),
                    datas@.len() == j,
                    forall|t: int|
                        0 <= t < j ==> (#[trigger] datas@[t])@ == bin.fragments@[t]@.data,
                decreases bin.fragments@.len() - j,
            {
                let f: &DimensionalFragment = &bin.fragments[j];
                datas.push(crate::fragmenting::copy_range(f.data.as_slice(), 0, f.data.len()));
                j = j + 1;
                proof {
                    assert(bin.fragments@[j as int - 1]@.data =~= f.data@.subrange(
                        0,
                        f.data@.len() as int,
                    ));
                }
            }
            proof {
                assert(datas@.map_values(|v: Vec<u8>| v@) =~= bin@.fragments.map_values(
                    |f: FragmentView| f.data,
                ));
                assert(datas@.len() >= 1);
            }
            let packet = match self.fragmentation_engine.reassemble_fragments(datas.as_slice()) {
                Ok(p) => p,
                Err(_) => {
                    proof {
                        assert(false);
                    }
                    return out;
                },
            };
            out.push(packet);
            i = i + 1;
        }
        proof {
            assert(out@.map_values(|v: Vec<u8>| v@) =~= taken.map_values(
                |b: BinView|
                    crate::fragmenting::spec_reassemble(
                        b.fragments.map_values(|f: FragmentView| f.data),
                        pre.spec_overlap(),
                    ),
            ));
        }
        out
    }

    /// The full receive turn: release due fragments, feed every one of
    /// them back into reassembly — a fragment that fails a check is dropped
    /// and counted, never aborting the rest — and hand out the packets that
    /// completed.  The result and the final state are exactly the fold of
    /// one `spec_accept_step` per drained fragment, with the completed bins
    /// reassembled and removed; after the call no complete bin is left
    /// waiting.
    pub fn gather_packets(&mut self, now_ms: u64) -> (r: Vec<Vec<u8>>)
        requires
            old(self).wf(),
        ensures
            final(self).wf(),
            final(self).sessions_view() == old(self).sessions_view(),
            final(self).spec_key() == old(self).spec_key(),
            final(self).spec_prior_key() == old(self).spec_prior_key(),
            final(self).spec_last_rotation_ms() == old(self).spec_last_rotation_ms(),
            final(self).spec_rotation_interval_ms() == old(self).spec_rotation_interval_ms(),
            final(self).spec_queue_capacity() == old(self).spec_queue_capacity(),
            final(self).spec_queue_dropped() == old(self).spec_queue_dropped(),
            ({
                let pre_q = old(self).queue_entries();
                let n = first_late(pre_q, now_ms, 0);
                let drained = pre_q.subrange(0, n).map_values(|e: (u64, FragmentView)| e.1);
                let after = spec_gathered(
                    old(self).bins_view(),
                    old(self).counters(),
                    old(self).spec_key(),
                    old(self).spec_prior_key(),
                    drained,
                    now_ms / 1000,
                );
                &&& final(self).queue_entries() == pre_q.subrange(n, pre_q.len() as int)
                &&& final(self).bins_view() == after.0.filter(|b: BinView| !bin_complete(b))
                &&& final(self).counters() == after.1
                &&& r@.map_values(|v: Vec<u8>| v@) == after.0.filter(
                    |b: BinView| bin_complete(b),
                ).map_values(
                    |b: BinView|
                        crate::fragmenting::spec_reassemble(
                            b.fragments.map_values(|f: FragmentView| f.data),
                            old(self).spec_overlap(),
                        ),
                )
            }),
            forall|i: int|
                0 <= i < final(self).bins_view().len() ==> !bin_complete(
                    #[trigger] final(self).bins_view()[i],
                ),
    {
        let ghost pre = *old(self);
        let ghost key = pre.spec_key();
        let ghost prior = pre.spec_prior_key();
        let ghost now_s = now_ms / 1000;
        let mut ready = self.drain_ready(now_ms);
        let ghost drained = ready@.map_values(|f: DimensionalFragment| f@);
        let ghost q_after = self.temporal_queue.entries();
        let total: usize = ready.len();
        proof {
            assert(drained.subrange(0, 0) =~= Seq::<FragmentView>::empty());
        }
        while ready.len() > 0
            invariant
                ready@.len() <= total,
                total == drained.len(),
                self.wf(),
                self.sessions_view() == pre.sessions_view(),
                self.temporal_queue.entries() == q_after,
                self.spec_queue_capacity() == pre.spec_queue_capacity(),
                self.spec_queue_dropped() == pre.spec_queue_dropped(),
                self.spec_key() == key,
                self.spec_prior_key() == prior,
                self.spec_last_rotation_ms() == pre.spec_last_rotation_ms(),
                self.spec_rotation_interval_ms() == pre.spec_rotation_interval_ms(),
                now_s == now_ms / 1000,
                forall|j: int|
                    0 <= j < ready@.len() ==> (#[trigger] ready@[j])@ == drained[total
                        - ready@.len() + j],
                (self.bins_view(), self.counters()) == spec_gathered(
                    pre.bins_view(),
                    pre.counters(),
                    key,
                    prior,
                    drained.subrange(0, total - ready@.len()),
                    now_s,
                ),
            decreases ready@.len(),
        {
            let ghost idx = total - ready@.len();
            let ghost ready_pre = ready@;
            let f = ready.remove(0);
            proof {
                assert(f == ready_pre[0]);
                assert(f@ == drained[idx]);
                assert(forall|j: int|
                    0 <= j < ready@.len() ==> #[trigger] ready@[j] == ready_pre[j + 1]);
            }
            self.accept(f, now_ms);
            proof {
                let longer = drained.subrange(0, idx + 1);
                assert(longer.drop_last() =~= drained.subrange(0, idx));
                assert(longer.last() == drained[idx]);
                assert((self.bins_view(), self.counters()) == spec_gathered(
                    pre.bins_view(),
                    pre.counters(),
                    key,
                    prior,
                    longer,
                    now_s,
                ));
            }
        }
        proof {
            assert(drained.subrange(0, total as int) =~= drained);
        }
        let ghost mid_bins = self.bins_view();
        let out = self.collect_completed();
        proof {
            assert forall|i: int| 0 <= i < self.bins_view().len() implies !bin_complete(
                #[trigger] self.bins_view()[i],
            ) by {
                Seq::lemma_filter_pred(mid_bins, |b: BinView| !bin_complete(b), i);
            }
        }
        out
    }
}

/// Saturating counter increment.
fn bump_counter(x: u64) -> (r: u64)
    ensures
        r == spec_bump(x),
{
    if x < u64::MAX {
        x + 1
    } else {
        u64::MAX
    }
}

/// End-to-end round trip of the scatter pipeline, over one packet: every
/// wire fragment strips back to its sealed slice and the coordinate it was
/// scattered with; every sealed slice opens under the key it was sealed
/// with; no two fragments share a nonce; and reassembling the slices in
/// index order yields the packet.  The receive path's contracts (`accept`,
/// `collect_completed`) then carry exactly these values through the bins.
///
/// The guarantee needs the slice shape to keep the overlap aligned: one or
/// two slices, a packet no longer than the overlap, or slices at least as
/// long as the overlap.
pub proof fn lemma_scatter_gather_round_trip(
    packet: Seq<u8>,
    seed: Seq<u8>,
    key: Seq<u8>,
    seq_id: u64,
    now_s: u64,
    ttl_secs: u64,
    overlap: int,
)
    requires
        packet.len() >= 1,
        overlap >= 0,
        ({
            let c = spec_coordinate(blake3_of(packet), seed);
            let k = spec_fragment_count(c) as int;
            k <= 2 || packet.len() <= overlap || crate::fragmenting::slice_size(
                packet.len() as int,
                k,
                0,
            ) >= overlap
        }),
    ensures
        ({
            let c = spec_coordinate(blake3_of(packet), seed);
            let k = spec_fragment_count(c) as int;
            let slices = spec_fragments(packet, k, overlap);
            &&& forall|i: int|
                0 <= i < k ==> #[trigger] spec_strip(
                    spec_wire_fragment(packet, seed, key, seq_id, i, now_s, ttl_secs, overlap).data,
                ) == Some(
                    (
                        aead_sealed(key, spec_nonce(seq_id, i as u32, c.cryptographic), slices[i]),
                        c,
                    ),
                )
            &&& forall|i: int|
                0 <= i < k ==> spec_opens(
                    key,
                    spec_nonce(seq_id, i as u32, c.cryptographic),
                    #[trigger] aead_sealed(
                        key,
                        spec_nonce(seq_id, i as u32, c.cryptographic),
                        slices[i],
                    ),
                )
            &&& forall|i: int, j: int|
                0 <= i < k && 0 <= j < k && i != j ==> #[trigger] spec_nonce(
                    seq_id,
                    i as u32,
                    c.cryptographic,
                ) != #[trigger] spec_nonce(seq_id, j as u32, c.cryptographic)
            &&& crate::fragmenting::spec_reassemble(slices, overlap) == packet
        }),
{
    let c = spec_coordinate(blake3_of(packet), seed);
    let k = spec_fragment_count(c) as int;
    let slices = spec_fragments(packet, k, overlap);
    assert(c.wf());
    assert forall|i: int| 0 <= i < k implies #[trigger] spec_strip(
        spec_wire_fragment(packet, seed, key, seq_id, i, now_s, ttl_secs, overlap).data,
    ) == Some(
        (aead_sealed(key, spec_nonce(seq_id, i as u32, c.cryptographic), slices[i]), c),
    ) by {
        crate::skin::lemma_skin_round_trip(
            aead_sealed(key, spec_nonce(seq_id, i as u32, c.cryptographic), slices[i]),
            c,
        );
    }
    assert forall|i: int| 0 <= i < k implies spec_opens(
        key,
        spec_nonce(seq_id, i as u32, c.cryptographic),
        #[trigger] aead_sealed(key, spec_nonce(seq_id, i as u32, c.cryptographic), slices[i]),
    ) by {
        assert(aead_sealed(key, spec_nonce(seq_id, i as u32, c.cryptographic), slices[i])
            == aead_sealed(key, spec_nonce(seq_id, i as u32, c.cryptographic), slices[i]));
    }
    assert forall|i: int, j: int|
        0 <= i < k && 0 <= j < k && i != j implies #[trigger] spec_nonce(
        seq_id,
        i as u32,
        c.cryptographic,
    ) != #[trigger] spec_nonce(seq_id, j as u32, c.cryptographic) by {
        if spec_nonce(seq_id, i as u32, c.cryptographic) == spec_nonce(
            seq_id,
            j as u32,
            c.cryptographic,
        ) {
            crate::crypto::lemma_nonce_unique(
                seq_id,
                i as u32,
                c.cryptographic,
                seq_id,
                j as u32,
                c.cryptographic,
            );
        }
    }
    crate::fragmenting::lemma_fragment_reassemble_round_trip(packet, k, overlap);
}

/// The whole transform round trip, as a machine-checked statement over
/// every packet, seed, key and sequence number: slicing, sealing and
/// skinning each fragment, then stripping, opening and reassembling them in
/// index order always yields the packet back.  `None` is returned only for
/// slice shapes that misalign the overlap (three or more slices each
/// shorter than the overlap on a packet longer than it), where the
/// reassembly heuristic genuinely cannot distinguish overlap from payload.
#[verifier::rlimit(100)]
pub fn check_scatter_gather_round_trip(
    packet: &[u8],
    seed: &[u8; 32],
    master_key: &[u8; 32],
    sequence_id: u64,
) -> (r: Option<bool>)
    requires
        packet@.len() >= 1,
        packet@.len() < 0xFFFF_0000,
        packet@.len() + 10_301 <= usize::MAX,
    ensures
        r matches Some(b) ==> b,
        ({
            let c = spec_coordinate(blake3_of(packet@), seed@);
            let k = spec_fragment_count(c) as int;
            (k <= 2 || packet@.len() <= 50 || packet@.len() as int / k >= 50) ==> r is Some
        }),
{
    let digest = packet_digest(packet);
    let c = DimensionalCoordinate::from_packet_hash(&digest, seed);
    let ghost gc = spec_coordinate(blake3_of(packet@), seed@);
    let engine = FragmentationEngine::new(1400, 50);
    let crypto = CryptoDimensionHandler::new(master_key, 0);
    let skin = MetadataManipulator::new();
    let len: usize = packet.len();
    let k: usize = ((c.fragmentation % 8) + 1) as usize;
    if !(k <= 2 || len <= 50 || len / k >= 50) {
        return None;
    }
    proof {
        assert(crate::fragmenting::slice_size(len as int, k as int, 0) >= len as int / k as int);
    }

    let fragments = engine.fragment_packet(packet, &c);
    let ghost gkey = master_key@;
    let mut recovered: Vec<Vec<u8>> = Vec::new();
    let mut i: usize = 0;
    while i < k
        invariant
            i <= k,
            k == fragments@.len(),
            1 <= k <= 8,
            k == spec_fragment_count(gc) as int,
            c == gc,
            gc == spec_coordinate(blake3_of(packet@), seed@),
            gc.wf(),
            len == packet@.len(),
            len >= 1,
            len < 0xFFFF_0000,
            len + 10_301 <= usize::MAX,
            engine.spec_overlap() == 50,
            skin.wf(),
            crypto.spec_key() == gkey,
            fragments@.map_values(|v: Vec<u8>| v@) == spec_fragments(packet@, k as int, 50),
            recovered@.len() == i,
            forall|t: int|
                0 <= t < i ==> (#[trigger] recovered@[t])@ == spec_fragments(
                    packet@,
                    k as int,
                    50,
                )[t],
        decreases k - i,
    {
        proof {
            assert(fragments@.map_values(|v: Vec<u8>| v@)[i as int] == spec_fragments(
                packet@,
                k as int,
                50,
            )[i as int]);
            crate::fragmenting::lemma_slice_start_le_len(len as int, k as int, i as int);
            assert(fragments@[i as int]@.len() <= packet@.len());
        }
        let piece: &Vec<u8> = &fragments[i];
        let sealed = match crypto.encrypt_fragment(piece.as_slice(), &c, sequence_id, i as u32) {
            Ok(ct) => ct,
            Err(_) => {
                proof {
                    assert(false);
                }
                return Some(false);
            },
        };
        let wire = skin.manipulate_metadata(sealed.as_slice(), &c);
        proof {
            crate::skin::lemma_skin_round_trip(sealed@, gc);
        }
        let stripped = match skin.strip_skin(wire.as_slice()) {
            Ok(x) => x,
            Err(_) => {
                proof {
                    assert(false);
                }
                return Some(false);
            },
        };
        proof {
            assert(stripped.0@ == sealed@);
            assert(stripped.1 == gc);
        }
        let opened = match crypto.decrypt_fragment(
            stripped.0.as_slice(),
            &stripped.1,
            sequence_id,
            i as u32,
        ) {
            Ok(p) => p,
            Err(_) => {
                proof {
                    assert(false);
                }
                return Some(false);
            },
        };
        proof {
            assert(opened@ == spec_fragments(packet@, k as int, 50)[i as int]);
        }
        recovered.push(opened);
        i = i + 1;
    }

    let rebuilt = match engine.reassemble_fragments(recovered.as_slice()) {
        Ok(p) => p,
        Err(_) => {
            proof {
                assert(false);
            }
            return Some(false);
        },
    };
    proof {
        assert(recovered@.map_values(|v: Vec<u8>| v@) =~= spec_fragments(packet@, k as int, 50));
        crate::fragmenting::lemma_fragment_reassemble_round_trip(packet@, k as int, 50);
        assert(rebuilt@ == packet@);
    }
    Some(crate::wire::bytes_eq(rebuilt.as_slice(), packet))
}

proof fn lemma_total_packets_nonneg(tbl: Seq<ScatteringSession>)
    ensures
        spec_total_packets(tbl) >= 0,
    decreases tbl.len(),
{
    if tbl.len() > 0 {
        lemma_total_packets_nonneg(tbl.drop_last());
    }
}

proof fn lemma_total_fragments_nonneg(tbl: Seq<ScatteringSession>)
    ensures
        spec_total_fragments(tbl) >= 0,
    decreases tbl.len(),
{
    if tbl.len() > 0 {
        lemma_total_fragments_nonneg(tbl.drop_last());
    }
}

} // verus!
