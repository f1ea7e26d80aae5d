//! Reassembly Buffers: per-sequence bins that tolerate loss, reordering and
//! replay.
//!
//! Arriving fragments are filed into the bin of their sequence id, kept
//! sorted by fragment index with duplicates discarded.  A bin whose fragment
//! count reaches `total_fragments` holds exactly the indices `0..total-1`
//! and can be handed to the fragmenter for reassembly.  Bins whose fragments
//! outlive their time-to-live are dropped whole; a lost fragment therefore
//! costs the whole packet, never a corrupted one.

use vstd::prelude::*;
use crate::errors::VaultError;
use crate::fragment::{DimensionalFragment, FragmentView};

verus! {

/// All fragments received so far for one sequence id.
#[derive(Debug)]
pub struct ReassemblyBin {
    pub sequence_id: u64,
    pub fragments: Vec<DimensionalFragment>,
    /// When the first fragment of this bin arrived, in unix seconds.
    pub first_seen: u64,
}

/// The mathematical image of a bin.
#[verifier::ext_equal]
pub struct BinView {
    pub sequence_id: u64,
    pub fragments: Seq<FragmentView>,
    pub first_seen: u64,
}

impl View for ReassemblyBin {
    type V = BinView;

    open spec fn view(&self) -> BinView {
        BinView {
            sequence_id: self.sequence_id,
            fragments: self.fragments@.map_values(|f: DimensionalFragment| f@),
            first_seen: self.first_seen,
        }
    }
}

/// Whether a fragment is still within its time-to-live at `now_s`.
pub open spec fn fragment_fresh(f: FragmentView, now_s: u64) -> bool {
    (if now_s >= f.timestamp {
        now_s - f.timestamp
    } else {
        0int
    }) < f.ttl_secs
}

/// Whether every fragment of the bin is still fresh.
pub open spec fn bin_fresh(b: BinView, now_s: u64) -> bool {
    forall|i: int| 0 <= i < b.fragments.len() ==> fragment_fresh(#[trigger] b.fragments[i], now_s)
}

/// A healthy bin: non-empty, all fragments of this sequence, sorted by
/// strictly increasing index, and agreeing on the fragment count.
pub open spec fn bin_wf(b: BinView) -> bool {
    &&& b.fragments.len() >= 1
    &&& forall|i: int|
        0 <= i < b.fragments.len() ==> (#[trigger] b.fragments[i]).sequence_id == b.sequence_id
    &&& forall|i: int, j: int|
        0 <= i < j < b.fragments.len() ==> (#[trigger] b.fragments[i]).fragment_id < (
        #[trigger] b.fragments[j]).fragment_id
    &&& forall|i: int|
        0 <= i < b.fragments.len() ==> (#[trigger] b.fragments[i]).total_fragments
            == b.fragments[0].total_fragments
    &&& forall|i: int|
        0 <= i < b.fragments.len() ==> ((#[trigger] b.fragments[i]).fragment_id
            < b.fragments[i].total_fragments && 1 <= b.fragments[i].total_fragments <= 8)
}

/// Whether the bin holds every fragment of its packet.
pub open spec fn bin_complete(b: BinView) -> bool {
    b.fragments.len() == b.fragments[0].total_fragments
}

/// Whether the bin already holds fragment index `id`.
pub open spec fn bin_has_index(b: BinView, id: u32) -> bool {
    exists|i: int| 0 <= i < b.fragments.len() && (#[trigger] b.fragments[i]).fragment_id == id
}

/// The first bin index at or after `from` holding `sequence_id`, or the
/// length when none does.
pub open spec fn find_bin(bins: Seq<BinView>, sequence_id: u64, from: int) -> int
    decreases bins.len() - from,
{
    if from < 0 || from >= bins.len() {
        bins.len() as int
    } else if bins[from].sequence_id == sequence_id {
        from
    } else {
        find_bin(bins, sequence_id, from + 1)
    }
}

pub proof fn lemma_find_bin(bins: Seq<BinView>, sequence_id: u64, from: int)
    requires
        0 <= from <= bins.len(),
    ensures
        from <= find_bin(bins, sequence_id, from) <= bins.len(),
        find_bin(bins, sequence_id, from) < bins.len() ==> bins[find_bin(
            bins,
            sequence_id,
            from,
        )].sequence_id == sequence_id,
        forall|j: int|
            from <= j < find_bin(bins, sequence_id, from) ==> (#[trigger] bins[j]).sequence_id
                != sequence_id,
    decreases bins.len() - from,
{
    if from < bins.len() && bins[from].sequence_id != sequence_id {
        lemma_find_bin(bins, sequence_id, from + 1);
    }
}

/// The first position at or after `from` whose fragment index exceeds `id`.
pub open spec fn first_higher(frags: Seq<FragmentView>, id: u32, from: int) -> int
    decreases frags.len() - from,
{
    if from < 0 || from >= frags.len() {
        frags.len() as int
    } else if frags[from].fragment_id > id {
        from
    } else {
        first_higher(frags, id, from + 1)
    }
}

pub proof fn lemma_first_higher(frags: Seq<FragmentView>, id: u32, from: int)
    requires
        0 <= from <= frags.len(),
    ensures
        from <= first_higher(frags, id, from) <= frags.len(),
        forall|j: int|
            from <= j < first_higher(frags, id, from) ==> (#[trigger] frags[j]).fragment_id <= id,
        first_higher(frags, id, from) < frags.len() ==> frags[first_higher(
            frags,
            id,
            from,
        )].fragment_id > id,
    decreases frags.len() - from,
{
    if from < frags.len() && frags[from].fragment_id <= id {
        lemma_first_higher(frags, id, from + 1);
    }
}

/// What filing one fresh fragment does to the bins: a new bin for an unknown
/// sequence; discarded on a fragment-count mismatch or a duplicate index;
/// otherwise inserted in index order.
pub open spec fn spec_file_fragment(bins: Seq<BinView>, f: FragmentView, now_s: u64) -> (
    Seq<BinView>,
    Result<bool, VaultError>,
) {
    let bi = find_bin(bins, f.sequence_id, 0);
    if !fragment_fresh(f, now_s) {
        (bins, Err(VaultError::FragmentExpired))
    } else if bi >= bins.len() {
        (
            bins.push(
                BinView { sequence_id: f.sequence_id, fragments: seq![f], first_seen: now_s },
            ),
            Ok(true),
        )
    } else if f.total_fragments != bins[bi].fragments[0].total_fragments {
        (bins, Err(VaultError::FragmentationMismatch))
    } else if bin_has_index(bins[bi], f.fragment_id) {
        (bins, Ok(false))
    } else {
        (
            bins.update(
                bi,
                BinView {
                    sequence_id: bins[bi].sequence_id,
                    fragments: bins[bi].fragments.insert(
                        first_higher(bins[bi].fragments, f.fragment_id, 0),
                        f,
                    ),
                    first_seen: bins[bi].first_seen,
                },
            ),
            Ok(true),
        )
    }
}

/// The per-sequence bins.
pub struct ReassemblyBuffers {
    bins: Vec<ReassemblyBin>,
    max_fragment_age_secs: u64,
}

impl ReassemblyBuffers {
    pub closed spec fn bins(self) -> Seq<BinView> {
        self.bins@.map_values(|b: ReassemblyBin| b@)
    }

    pub closed spec fn spec_max_age_secs(self) -> u64 {
        self.max_fragment_age_secs
    }

    /// Bins are healthy and no two share a sequence id.
    pub open spec fn wf(self) -> bool {
        &&& forall|i: int| 0 <= i < self.bins().len() ==> bin_wf(#[trigger] self.bins()[i])
        &&& forall|i: int, j: int|
            0 <= i < j < self.bins().len() ==> (#[trigger] self.bins()[i]).sequence_id != (
            #[trigger] self.bins()[j]).sequence_id
    }

    pub fn new(max_fragment_age_secs: u64) -> (r: Self)
        ensures
            r.bins() =~= Seq::<BinView>::empty(),
            r.spec_max_age_secs() == max_fragment_age_secs,
            r.wf(),
    {
        ReassemblyBuffers { bins: Vec::new(), max_fragment_age_secs }
    }

    pub fn len(&self) -> (r: usize)
        ensures
            r == self.bins().len(),
    {
        self.bins.len()
    }

    /// Files one decrypted fragment.  Expired fragments, fragment-count
    /// mismatches and duplicate indices leave the bins unchanged; everything
    /// else lands in its sequence's bin in index order.
    pub fn add_fragment(&mut self, fragment: DimensionalFragment, now_s: u64) -> (r: Result<
        bool,
        VaultError,
    >)
        requires
            old(self).wf(),
            fragment@.wf(),
        ensures
            final(self).wf(),
            final(self).spec_max_age_secs() == old(self).spec_max_age_secs(),
            final(self).bins() == spec_file_fragment(old(self).bins(), fragment@, now_s).0,
            r == spec_file_fragment(old(self).bins(), fragment@, now_s).1,
    {
        let fresh: bool = (if now_s >= fragment.timestamp {
            now_s - fragment.timestamp
        } else {
            0
        }) < fragment.ttl_secs;
        if !fresh {
            return Err(VaultError::FragmentExpired);
        }
        proof {
            lemma_find_bin(self.bins(), fragment.sequence_id, 0);
        }
        let mut bi: usize = 0;
        while bi < self.bins.len() && self.bins[bi].sequence_id != fragment.sequence_id
            invariant
                bi <= self.bins@.len(),
                find_bin(self.bins(), fragment@.sequence_id, 0) == find_bin(
                    self.bins(),
                    fragment@.sequence_id,
                    bi as int,
                ),
                self == old(self),
            decreases self.bins@.len() - bi,
        {
            bi = bi + 1;
        }
        proof {
            assert(bi as int == find_bin(old(self).bins(), fragment@.sequence_id, 0));
        }

        if bi >= self.bins.len() {
            // First fragment of a new sequence.
            let mut frags: Vec<DimensionalFragment> = Vec::new();
            let seq_id = fragment.sequence_id;
            frags.push(fragment);
            let bin = ReassemblyBin { sequence_id: seq_id, fragments: frags, first_seen: now_s };
            proof {
                assert(bin@.fragments =~= seq![fragment@]);
            }
            self.bins.push(bin);
            proof {
                assert(self.bins() =~= old(self).bins().push(bin@));
                assert(bin@ =~= (BinView {
                    sequence_id: fragment@.sequence_id,
                    fragments: seq![fragment@],
                    first_seen: now_s,
                }));
            }
            return Ok(true);
        }

        let total: u32 = self.bins[bi].fragments[0].total_fragments;
        if fragment.total_fragments != total {
            return Err(VaultError::FragmentationMismatch);
        }

        // Find the insertion point; an equal index already present means a
        // duplicate, which is discarded.
        proof {
            lemma_first_higher(self.bins()[bi as int].fragments, fragment@.fragment_id, 0);
        }
        let bin_len: usize = self.bins[bi].fragments.len();
        let mut p: usize = 0;
        while p < bin_len && self.bins[bi].fragments[p].fragment_id <= fragment.fragment_id
            invariant
                p <= bin_len,
                bi < self.bins@.len(),
                bin_len == self.bins@[bi as int].fragments@.len(),
                bi as int == find_bin(old(self).bins(), fragment@.sequence_id, 0),
                fragment_fresh(fragment@, now_s),
                fragment@.total_fragments == old(self).bins()[bi as int].fragments[
                    0].total_fragments,
                old(self).wf(),
                forall|j: int|
                    0 <= j < p ==> (#[trigger] self.bins@[bi as int].fragments@[j]).fragment_id
                        < fragment@.fragment_id,
                first_higher(self.bins()[bi as int].fragments, fragment@.fragment_id, 0)
                    == first_higher(
                    self.bins()[bi as int].fragments,
                    fragment@.fragment_id,
                    p as int,
                ),
                self == old(self),
            decreases bin_len - p,
        {
            if self.bins[bi].fragments[p].fragment_id == fragment.fragment_id {
                proof {
                    assert(old(self).bins()[bi as int].fragments[p as int].fragment_id
                        == fragment@.fragment_id);
                    assert(bin_has_index(old(self).bins()[bi as int], fragment@.fragment_id));
                }
                return Ok(false);
            }
            p = p + 1;
        }
        proof {
            assert(p as int == first_higher(
                old(self).bins()[bi as int].fragments,
                fragment@.fragment_id,
                0,
            ));
            assert(!bin_has_index(old(self).bins()[bi as int], fragment@.fragment_id)) by {
                lemma_first_higher(
                    old(self).bins()[bi as int].fragments,
                    fragment@.fragment_id,
                    0,
                );
                assert(forall|j: int|
                    0 <= j < p ==> (#[trigger] old(self).bins()[bi as int].fragments[
                    j]).fragment_id < fragment@.fragment_id);
            }
        }

        let ghost pre_bin = self.bins()[bi as int];
        let ghost nf = pre_bin.fragments.insert(p as int, fragment@);
        let bin_ref: &mut ReassemblyBin = &mut self.bins[bi];
        bin_ref.fragments.insert(p, fragment);
        proof {
            pre_bin.fragments.insert_ensures(p as int, fragment@);
            assert(self.bins@[bi as int].fragments@ =~= old(self).bins@[
            bi as int].fragments@.insert(p as int, fragment));
            assert(self.bins()[bi as int].fragments =~= nf);
            assert(self.bins()[bi as int] =~= (BinView {
                sequence_id: pre_bin.sequence_id,
                fragments: nf,
                first_seen: pre_bin.first_seen,
            }));
            assert(self.bins() =~= old(self).bins().update(
                bi as int,
                (BinView {
                    sequence_id: pre_bin.sequence_id,
                    fragments: nf,
                    first_seen: pre_bin.first_seen,
                }),
            ));
            // The touched bin stays healthy: everything before the insertion
            // point carries a smaller index, everything after a larger one.
            assert(bins_wf_pointwise(self.bins())) by {
                assert forall|i: int| 0 <= i < self.bins().len() implies bin_wf(
                    #[trigger] self.bins()[i],
                ) by {
                    if i == bi as int {
                        assert(forall|j: int|
                            0 <= j < p ==> (#[trigger] pre_bin.fragments[j]).fragment_id
                                < fragment@.fragment_id);
                        assert forall|a: int, b: int|
                            0 <= a < b < nf.len() implies (#[trigger] nf[a]).fragment_id < (
                        #[trigger] nf[b]).fragment_id by {
                            lemma_first_higher(pre_bin.fragments, fragment@.fragment_id, 0);
                        }
                        assert(nf[0].total_fragments == pre_bin.fragments[0].total_fragments);
                    } else {
                        assert(self.bins()[i] == old(self).bins()[i]);
                    }
                }
            }
            assert forall|i: int, j: int|
                0 <= i < j < self.bins().len() implies (#[trigger] self.bins()[i]).sequence_id
                    != (#[trigger] self.bins()[j]).sequence_id by {
                assert((#[trigger] old(self).bins()[i]).sequence_id != (#[trigger] old(
                    self,
                ).bins()[j]).sequence_id);
            }
        }
        Ok(true)
    }
}

/// Every bin is healthy.
pub open spec fn bins_wf_pointwise(bins: Seq<BinView>) -> bool {
    forall|i: int| 0 <= i < bins.len() ==> bin_wf(#[trigger] bins[i])
}

/// Every element of a filtered bin sequence comes from the sequence itself.
proof fn lemma_bin_filter_is_subset(bins: Seq<BinView>, pred: spec_fn(BinView) -> bool, i: int)
    requires
        0 <= i < bins.filter(pred).len(),
    ensures
        bins.contains(bins.filter(pred)[i]),
    decreases bins.len(),
{
    reveal(Seq::filter);
    if bins.len() > 0 {
        let d = bins.drop_last();
        if pred(bins.last()) && i == bins.filter(pred).len() - 1 {
            assert(bins[bins.len() - 1] == bins.filter(pred)[i]);
        } else {
            lemma_bin_filter_is_subset(d, pred, i);
            let j = choose|j: int| 0 <= j < d.len() && d[j] == d.filter(pred)[i];
            assert(bins[j] == bins.filter(pred)[i]);
        }
    }
}

/// Filtering keeps bins healthy and their sequence ids pairwise distinct.
proof fn lemma_bin_filter_wf(bins: Seq<BinView>, pred: spec_fn(BinView) -> bool)
    requires
        bins_wf_pointwise(bins),
        forall|i: int, j: int|
            0 <= i < j < bins.len() ==> (#[trigger] bins[i]).sequence_id != (
            #[trigger] bins[j]).sequence_id,
    ensures
        bins_wf_pointwise(bins.filter(pred)),
        forall|i: int, j: int|
            0 <= i < j < bins.filter(pred).len() ==> (#[trigger] bins.filter(pred)[
            i]).sequence_id != (#[trigger] bins.filter(pred)[j]).sequence_id,
    decreases bins.len(),
{
    reveal(Seq::filter);
    if bins.len() > 0 {
        let d = bins.drop_last();
        assert(forall|j: int| 0 <= j < d.len() ==> #[trigger] d[j] == bins[j]);
        lemma_bin_filter_wf(d, pred);
        if pred(bins.last()) {
            let f = bins.filter(pred);
            assert(f == d.filter(pred).push(bins.last()));
            assert forall|i: int| 0 <= i < f.len() implies bin_wf(#[trigger] f[i]) by {
                if i < f.len() - 1 {
                    assert(f[i] == d.filter(pred)[i]);
                }
            }
            assert forall|a: int, b: int|
                0 <= a < b < f.len() implies (#[trigger] f[a]).sequence_id != (
            #[trigger] f[b]).sequence_id by {
                if b == f.len() - 1 {
                    lemma_bin_filter_is_subset(d, pred, a);
                    let j = choose|j: int| 0 <= j < d.len() && d[j] == d.filter(pred)[a];
                    assert(bins[j] == f[a]);
                    assert(bins[j].sequence_id != bins[bins.len() - 1].sequence_id);
                }
            }
        }
    }
}

/// A fragment's index is at least its position in a sorted bin.
proof fn lemma_id_at_least_position(frags: Seq<FragmentView>, i: int)
    requires
        forall|a: int, b: int|
            0 <= a < b < frags.len() ==> (#[trigger] frags[a]).fragment_id < (
            #[trigger] frags[b]).fragment_id,
        0 <= i < frags.len(),
    ensures
        frags[i].fragment_id >= i,
    decreases i,
{
    if i > 0 {
        lemma_id_at_least_position(frags, i - 1);
    }
}

/// A complete bin holds exactly the indices `0 .. total`, in order.
pub proof fn lemma_complete_bin_indices(b: BinView)
    requires
        bin_wf(b),
        bin_complete(b),
    ensures
        forall|i: int| 0 <= i < b.fragments.len() ==> (#[trigger] b.fragments[i]).fragment_id == i,
{
    assert forall|i: int| 0 <= i < b.fragments.len() implies (#[trigger] b.fragments[
    i]).fragment_id == i by {
        lemma_id_at_least_position(b.fragments, i);
        if i < b.fragments.len() - 1 {
            // Squeezed from above: an index below its position somewhere
            // later would break either sortedness or the total bound.
            lemma_id_at_least_position(b.fragments, b.fragments.len() - 1);
            assert(b.fragments[b.fragments.len() - 1].fragment_id < b.fragments.len());
            lemma_gap_free(b.fragments, i);
        } else {
            assert(b.fragments[i].fragment_id < b.fragments.len());
        }
    }
}

/// In a sorted fragment run whose last index is below the length, every
/// position holds exactly its own index.
proof fn lemma_gap_free(frags: Seq<FragmentView>, i: int)
    requires
        forall|a: int, b: int|
            0 <= a < b < frags.len() ==> (#[trigger] frags[a]).fragment_id < (
            #[trigger] frags[b]).fragment_id,
        0 <= i < frags.len(),
        frags[frags.len() - 1].fragment_id < frags.len(),
    ensures
        frags[i].fragment_id <= i,
    decreases frags.len() - i,
{
    if i < frags.len() - 1 {
        lemma_gap_free(frags, i + 1);
        assert(frags[i].fragment_id < frags[i + 1].fragment_id);
    }
}

impl ReassemblyBuffers {
    /// Removes and returns every complete bin; partial bins stay, in order.
    pub fn take_complete(&mut self) -> (r: Vec<ReassemblyBin>)
        requires
            old(self).wf(),
        ensures
            final(self).wf(),
            final(self).spec_max_age_secs() == old(self).spec_max_age_secs(),
            r@.map_values(|b: ReassemblyBin| b@) == old(self).bins().filter(
                |b: BinView| bin_complete(b),
            ),
            final(self).bins() == old(self).bins().filter(|b: BinView| !bin_complete(b)),
            forall|i: int|
                0 <= i < r@.len() ==> bin_wf((#[trigger] r@[i])@) && bin_complete(r@[i]@),
    {
        let ghost take = |b: BinView| bin_complete(b);
        let ghost keep = |b: BinView| !bin_complete(b);
        let mut all: Vec<ReassemblyBin> = Vec::new();
        core::mem::swap(&mut all, &mut self.bins);
        let ghost pre = all@.map_values(|b: ReassemblyBin| b@);
        proof {
            assert(pre == old(self).bins());
            reveal(Seq::filter);
        }
        let mut done: Vec<ReassemblyBin> = Vec::new();
        let mut kept: Vec<ReassemblyBin> = Vec::new();
        let total: usize = all.len();
        let mut i: usize = 0;
        proof {
            assert(pre.subrange(0, 0).filter(take) =~= Seq::<BinView>::empty());
            assert(pre.subrange(0, 0).filter(keep) =~= Seq::<BinView>::empty());
        }
        while all.len() > 0
            invariant
                i == total - all@.len(),
                0 <= i <= total,
                total == pre.len(),
                pre == old(self).bins(),
                all@.map_values(|b: ReassemblyBin| b@) =~= pre.subrange(i as int, total as int),
                done@.map_values(|b: ReassemblyBin| b@) == pre.subrange(0, i as int).filter(take),
                kept@.map_values(|b: ReassemblyBin| b@) == pre.subrange(0, i as int).filter(keep),
                take == (|b: BinView| bin_complete(b)),
                keep == (|b: BinView| !bin_complete(b)),
                bins_wf_pointwise(pre),
            decreases all@.len(),
        {
            let ghost prefix = pre.subrange(0, i as int);
            let ghost all_pre = all@;
            let b = all.remove(0);
            proof {
                assert(b == all_pre[0]);
                assert(b@ == all_pre.map_values(|x: ReassemblyBin| x@)[0]);
                assert(b@ == pre[i as int]);
                assert(bin_wf(b@));
            }
            let is_complete: bool = b.fragments.len() == (b.fragments[0].total_fragments as usize);
            if is_complete {
                done.push(b);
            } else {
                kept.push(b);
            }
            i = i + 1;
            proof {
                reveal(Seq::filter);
                let longer = pre.subrange(0, i as int);
                assert(longer.drop_last() =~= prefix);
                assert(longer.last() == pre[i as int - 1]);
                assert forall|j: int| 0 <= j < all@.len() implies #[trigger] (all@[j])@
                    == pre.subrange(i as int, total as int)[j] by {
                    assert(all@[j] == all_pre[j + 1]);
                    assert(all_pre.map_values(|x: ReassemblyBin| x@)[j + 1] == pre.subrange(
                        i as int - 1,
                        total as int,
                    )[j + 1]);
                }
                assert(all@.map_values(|x: ReassemblyBin| x@) =~= pre.subrange(
                    i as int,
                    total as int,
                ));
                assert(done@.map_values(|x: ReassemblyBin| x@) == longer.filter(take));
                assert(kept@.map_values(|x: ReassemblyBin| x@) == longer.filter(keep));
            }
        }
        proof {
            assert(pre.subrange(0, total as int) =~= pre);
        }
        self.bins = kept;
        proof {
            assert forall|a: int, b: int|
                0 <= a < b < old(self).bins().len() implies (#[trigger] old(self).bins()[
            a]).sequence_id != (#[trigger] old(self).bins()[b]).sequence_id by {}
            lemma_bin_filter_wf(old(self).bins(), keep);
            lemma_bin_filter_wf(old(self).bins(), take);
            assert forall|t: int| 0 <= t < done@.len() implies bin_wf((#[trigger] done@[t])@)
                && bin_complete(done@[t]@) by {
                assert(done@.map_values(|b: ReassemblyBin| b@)[t] == done@[t]@);
                Seq::lemma_filter_pred(old(self).bins(), take, t);
            }
        }
        done
    }

    /// Drops every bin holding a fragment that has outlived its
    /// time-to-live.  After cleanup no bin holds a stale fragment.
    pub fn cleanup(&mut self, now_s: u64)
        requires
            old(self).wf(),
        ensures
            final(self).wf(),
            final(self).spec_max_age_secs() == old(self).spec_max_age_secs(),
            final(self).bins() == old(self).bins().filter(|b: BinView| bin_fresh(b, now_s)),
            forall|i: int|
                0 <= i < final(self).bins().len() ==> bin_fresh(
                    #[trigger] final(self).bins()[i],
                    now_s,
                ),
    {
        let ghost pred = |b: BinView| bin_fresh(b, now_s);
        let mut kept: Vec<ReassemblyBin> = Vec::new();
        proof {
            reveal(Seq::filter);
            assert(kept@.map_values(|b: ReassemblyBin| b@) == self.bins().subrange(0, 0).filter(
                pred,
            ));
        }
        let mut i: usize = 0;
        while i < self.bins.len()
            invariant
                i <= self.bins@.len(),
                self == old(self),
                pred == (|b: BinView| bin_fresh(b, now_s)),
                kept@.map_values(|b: ReassemblyBin| b@) == self.bins().subrange(
                    0,
                    i as int,
                ).filter(pred),
            decreases self.bins@.len() - i,
        {
            let ghost prefix = self.bins().subrange(0, i as int);
            let bin_len: usize = self.bins[i].fragments.len();
            let mut all_fresh: bool = true;
            let mut j: usize = 0;
            while j < bin_len
                invariant
                    j <= bin_len,
                    i < self.bins@.len(),
                    bin_len == self.bins@[i as int].fragments@.len(),
                    self == old(self),
                    all_fresh <==> (forall|t: int|
                        0 <= t < j ==> fragment_fresh(
                            #[trigger] self.bins()[i as int].fragments[t],
                            now_s,
                        )),
                decreases bin_len - j,
            {
                let f = &self.bins[i].fragments[j];
                let age: u64 = if now_s >= f.timestamp {
                    now_s - f.timestamp
                } else {
                    0
                };
                if !(age < f.ttl_secs) {
                    proof {
                        assert(!fragment_fresh(self.bins()[i as int].fragments[j as int], now_s));
                    }
                    all_fresh = false;
                }
                j = j + 1;
            }
            proof {
                assert(all_fresh <==> bin_fresh(self.bins()[i as int], now_s));
            }
            if all_fresh {
                let b = duplicate_bin(&self.bins[i]);
                kept.push(b);
            }
            i = i + 1;
            proof {
                reveal(Seq::filter);
                let longer = self.bins().subrange(0, i as int);
                assert(longer.drop_last() =~= prefix);
                assert(longer.last() == self.bins()[i as int - 1]);
                assert(kept@.map_values(|b: ReassemblyBin| b@) == longer.filter(pred));
            }
        }
        proof {
            assert(self.bins().subrange(0, self.bins().len() as int) =~= self.bins());
        }
        self.bins = kept;
        proof {
            lemma_bin_filter_wf(old(self).bins(), pred);
            assert forall|i2: int|
                0 <= i2 < self.bins().len() implies bin_fresh(
                #[trigger] self.bins()[i2],
                now_s,
            ) by {
                Seq::lemma_filter_pred(old(self).bins(), pred, i2);
            }
        }
    }
}

/// A deep copy of a bin with the same field values.
fn duplicate_bin(b: &ReassemblyBin) -> (r: ReassemblyBin)
    ensures
        r@ == b@,
{
    let mut frags: Vec<DimensionalFragment> = Vec::new();
    let mut i: usize = 0;
    while i < b.fragments.len()
        invariant
            i <= b.fragments@.len(),
            frags@.len() == i,
            forall|j: int| 0 <= j < i ==> (#[trigger] frags@[j])@ == b.fragments@[j]@,
        decreases b.fragments@.len() - i,
    {
        frags.push(b.fragments[i].duplicate());
        i = i + 1;
    }
    let r = ReassemblyBin { sequence_id: b.sequence_id, fragments: frags, first_seen: b.first_seen };
    proof {
        assert(r@.fragments =~= b@.fragments);
        assert(r@ =~= b@);
    }
    r
}

} // verus!
