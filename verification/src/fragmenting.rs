//! Packet fragmentation and reassembly.
//!
//! A packet of length `L` is cut into `k` slices, `k` driven by the
//! fragmentation dimension of the coordinate: base slice length `L / k`,
//! with the first `L % k` slices one byte longer.  From the second slice on,
//! an overlap prefix of up to `overlap_size` bytes taken from the preceding
//! bytes of the packet is prepended, so that reassembly can recognize and
//! skip the duplicated region.
//!
//! Reassembly walks the slices in index order: when a slice begins with the
//! current tail of the running reassembly, the duplicated prefix is skipped,
//! otherwise the slice is appended verbatim.

use vstd::prelude::*;
use crate::coordinate::DimensionalCoordinate;
use crate::errors::VaultError;

verus! {

/// How many fragments the coordinate asks for: `(fragmentation mod 8) + 1`,
/// always in `[1, 8]`.
pub open spec fn spec_fragment_count(c: DimensionalCoordinate) -> u32 {
    ((c.fragmentation % 8) + 1) as u32
}

/// Length of slice `i` of a packet of length `len` cut into `k` slices.
pub open spec fn slice_size(len: int, k: int, i: int) -> int {
    len / k + if i < len % k {
        1int
    } else {
        0int
    }
}

/// Offset at which slice `i` begins (before the overlap prefix is applied).
pub open spec fn slice_start(len: int, k: int, i: int) -> int
    decreases i,
{
    if i <= 0 {
        0
    } else {
        slice_start(len, k, i - 1) + slice_size(len, k, i - 1)
    }
}

/// Slice `i` as emitted on the wire: the base slice plus the overlap prefix,
/// clipped to the packet bounds.
pub open spec fn spec_slice(p: Seq<u8>, k: int, o: int, i: int) -> Seq<u8> {
    let st = slice_start(p.len() as int, k, i);
    let ov = if i > 0 {
        o
    } else {
        0int
    };
    let a = if st >= ov {
        st - ov
    } else {
        0int
    };
    let sz = slice_size(p.len() as int, k, i);
    let s = if sz + ov <= p.len() - a {
        sz + ov
    } else {
        p.len() - a
    };
    p.subrange(a, a + s)
}

/// All `k` wire slices of a packet.
pub open spec fn spec_fragments(p: Seq<u8>, k: int, o: int) -> Seq<Seq<u8>> {
    Seq::new(k as nat, |i: int| spec_slice(p, k, o, i))
}

/// One reassembly step: append `f` to `acc`, skipping `f`'s prefix when it
/// repeats the current tail of `acc`.
pub open spec fn reassemble_step(acc: Seq<u8>, f: Seq<u8>, o: int) -> Seq<u8> {
    let ovl = if acc.len() >= o {
        o
    } else {
        acc.len() as int
    };
    if f.len() >= ovl && f.subrange(0, ovl) == acc.subrange(acc.len() - ovl, acc.len() as int) {
        acc + f.subrange(ovl, f.len() as int)
    } else {
        acc + f
    }
}

/// The reassembly of a non-empty slice sequence, folding `reassemble_step`
/// over the slices in index order.
pub open spec fn spec_reassemble(frags: Seq<Seq<u8>>, o: int) -> Seq<u8>
    decreases frags.len(),
{
    if frags.len() <= 1 {
        frags[0]
    } else {
        reassemble_step(spec_reassemble(frags.drop_last(), o), frags.last(), o)
    }
}

/// Splits packets into overlapping slices and puts them back together.
pub struct FragmentationEngine {
    max_fragment_size: usize,
    overlap_size: usize,
}

impl FragmentationEngine {
    /// Upper bound on a fragment payload; advisory, the slice shape is fully
    /// determined by the coordinate.
    pub closed spec fn spec_max_fragment_size(self) -> usize {
        self.max_fragment_size
    }

    /// Bytes of overlap prepended to every slice after the first.
    pub closed spec fn spec_overlap(self) -> usize {
        self.overlap_size
    }

    pub fn new(max_fragment_size: usize, overlap_size: usize) -> (r: Self)
        ensures
            r.spec_max_fragment_size() == max_fragment_size,
            r.spec_overlap() == overlap_size,
    {
        FragmentationEngine { max_fragment_size, overlap_size }
    }

    /// Cuts `packet` into the slice sequence dictated by `coordinate`.
    pub fn fragment_packet(&self, packet: &[u8], coordinate: &DimensionalCoordinate) -> (r: Vec<
        Vec<u8>,
    >)
        requires
            packet@.len() + self.spec_overlap() + 1 <= usize::MAX,
        ensures
            r@.map_values(|v: Vec<u8>| v@) == spec_fragments(
                packet@,
                spec_fragment_count(*coordinate) as int,
                self.spec_overlap() as int,
            ),
            r@.len() == spec_fragment_count(*coordinate),
    {
        let len: usize = packet.len();
        let k: usize = ((coordinate.fragmentation % 8) + 1) as usize;
        let o: usize = self.overlap_size;
        let base: usize = len / k;
        let rem: usize = len % k;
        proof {
            assert(len / k <= len) by (nonlinear_arith)
                requires
                    k >= 1,
                    len >= 0,
            ;
        }

        let ghost gk = k as int;
        let ghost go = o as int;
        let mut fragments: Vec<Vec<u8>> = Vec::new();
        let mut start: usize = 0;
        let mut i: usize = 0;
        while i < k
            invariant
                1 <= k <= 8,
                gk == k as int,
                go == o as int,
                base == (len as int) / gk,
                rem == (len as int) % gk,
                o == self.spec_overlap(),
                len == packet@.len(),
                len + o + 1 <= usize::MAX,
                base <= len,
                i <= k,
                start == slice_start(len as int, gk, i as int),
                0 <= start <= len,
                fragments@.len() == i,
                forall|j: int|
                    0 <= j < i ==> #[trigger] fragments@[j]@ == spec_slice(packet@, gk, go, j),
            decreases k - i,
        {
            let mut size: usize = base;
            if i < rem {
                size = size + 1;
            }
            proof {
                assert(size == slice_size(len as int, gk, i as int));
                lemma_slice_start_step(len as int, gk, i as int);
                lemma_slice_start_le_len(len as int, gk, i as int + 1);
            }
            let ov: usize = if i > 0 {
                o
            } else {
                0
            };
            let actual_start: usize = if start >= ov {
                start - ov
            } else {
                0
            };
            let actual_size: usize = if size + ov <= len - actual_start {
                size + ov
            } else {
                len - actual_start
            };
            proof {
                let st = slice_start(len as int, gk, i as int);
                let ovs = if i as int > 0 {
                    go
                } else {
                    0int
                };
                let a = if st >= ovs {
                    st - ovs
                } else {
                    0int
                };
                let sz = slice_size(len as int, gk, i as int);
                let s = if sz + ovs <= len - a {
                    sz + ovs
                } else {
                    len - a
                };
                assert(a == actual_start as int);
                assert(s == actual_size as int);
            }
            let piece = copy_range(packet, actual_start, actual_start + actual_size);
            proof {
                assert(piece@ == spec_slice(packet@, gk, go, i as int));
            }
            fragments.push(piece);
            start = start + size;
            i = i + 1;
        }
        proof {
            assert(fragments@.map_values(|v: Vec<u8>| v@) =~= spec_fragments(
                packet@,
                gk,
                go,
            ));
        }
        fragments
    }

    /// Rebuilds a packet from its slices, in index order.  Fails only on an
    /// empty slice list.
    pub fn reassemble_fragments(&self, fragments: &[Vec<u8>]) -> (r: Result<Vec<u8>, VaultError>)
        ensures
            r is Ok <==> fragments@.len() > 0,
            r matches Ok(v) ==> v@ == spec_reassemble(
                fragments@.map_values(|f: Vec<u8>| f@),
                self.spec_overlap() as int,
            ),
            r matches Err(e) ==> e == VaultError::FragmentationEmpty,
    {
        if fragments.len() == 0 {
            return Err(VaultError::FragmentationEmpty);
        }
        let ghost go = self.spec_overlap() as int;
        let ghost views = fragments@.map_values(|f: Vec<u8>| f@);

        let mut acc: Vec<u8> = fragments[0].clone();
        proof {
            assert(acc@ == views[0]);
            assert(views.subrange(0, 1) =~= views.subrange(0, 1));
            assert(spec_reassemble(views.subrange(0, 1), go) == views[0]);
        }
        let mut i: usize = 1;
        while i < fragments.len()
            invariant
                1 <= i <= fragments@.len(),
                views == fragments@.map_values(|f: Vec<u8>| f@),
                go == self.spec_overlap() as int,
                acc@ == spec_reassemble(views.subrange(0, i as int), go),
            decreases fragments@.len() - i,
        {
            let f: &Vec<u8> = &fragments[i];
            let ovl: usize = if acc.len() >= self.overlap_size {
                self.overlap_size
            } else {
                acc.len()
            };
            let ghost prev = acc@;
            if tail_matches_prefix(&acc, f, ovl) {
                let skipped = copy_range(f.as_slice(), ovl, f.len());
                extend_vec(&mut acc, &skipped);
                proof {
                    assert(acc@ == reassemble_step(prev, f@, go));
                }
            } else {
                let whole = copy_range(f.as_slice(), 0, f.len());
                extend_vec(&mut acc, &whole);
                proof {
                    assert(f@.subrange(0, f@.len() as int) =~= f@);
                    assert(acc@ == reassemble_step(prev, f@, go));
                }
            }
            i = i + 1;
            proof {
                assert(views.subrange(0, i as int).drop_last() =~= views.subrange(0, i as int - 1));
                assert(views.subrange(0, i as int).last() == views[i as int - 1]);
                assert(f@ == views[i as int - 1]);
            }
        }
        proof {
            assert(views.subrange(0, views.len() as int) =~= views);
        }
        Ok(acc)
    }
}

/// Whether the last `ovl` bytes of `acc` equal the first `ovl` bytes of `f`.
fn tail_matches_prefix(acc: &Vec<u8>, f: &Vec<u8>, ovl: usize) -> (r: bool)
    requires
        ovl <= acc@.len(),
    ensures
        r <==> (f@.len() >= ovl && f@.subrange(0, ovl as int) == acc@.subrange(
            acc@.len() - ovl,
            acc@.len() as int,
        )),
{
    if f.len() < ovl {
        return false;
    }
    let tail_at: usize = acc.len() - ovl;
    let mut j: usize = 0;
    while j < ovl
        invariant
            j <= ovl,
            ovl <= acc@.len(),
            acc@.len() <= usize::MAX,
            ovl <= f@.len(),
            tail_at == acc@.len() - ovl,
            forall|t: int| 0 <= t < j ==> f@[t] == acc@[tail_at + t],
        decreases ovl - j,
    {
        proof {
            assert(tail_at + j < acc@.len());
        }
        if f[j] != acc[tail_at + j] {
            proof {
                assert(f@.subrange(0, ovl as int)[j as int] != acc@.subrange(
                    acc@.len() - ovl,
                    acc@.len() as int,
                )[j as int]);
            }
            return false;
        }
        j = j + 1;
    }
    proof {
        assert(f@.subrange(0, ovl as int) =~= acc@.subrange(acc@.len() - ovl, acc@.len() as int));
    }
    true
}

/// Copies `src[from..to]` into a fresh vector.
pub fn copy_range(src: &[u8], from: usize, to: usize) -> (r: Vec<u8>)
    requires
        from <= to <= src@.len(),
    ensures
        r@ == src@.subrange(from as int, to as int),
{
    let mut out: Vec<u8> = Vec::new();
    let mut i: usize = from;
    while i < to
        invariant
            from <= i <= to <= src@.len(),
            out@ == src@.subrange(from as int, i as int),
        decreases to - i,
    {
        out.push(src[i]);
        i = i + 1;
        proof {
            assert(out@ =~= src@.subrange(from as int, i as int));
        }
    }
    out
}

/// Appends `src` to `dst`.
fn extend_vec(dst: &mut Vec<u8>, src: &Vec<u8>)
    ensures
        final(dst)@ == old(dst)@ + src@,
{
    crate::wire::extend_bytes(dst, src.as_slice());
}

/// `slice_start` advances by exactly one slice size per step.
pub proof fn lemma_slice_start_step(len: int, k: int, i: int)
    requires
        i >= 0,
    ensures
        slice_start(len, k, i + 1) == slice_start(len, k, i) + slice_size(len, k, i),
{
}

/// Closed form of `slice_start`, from which its bounds follow.
pub proof fn lemma_slice_start_closed(len: int, k: int, i: int)
    requires
        len >= 0,
        k >= 1,
        0 <= i,
    ensures
        slice_start(len, k, i) == i * (len / k) + if i <= len % k {
            i
        } else {
            len % k
        },
    decreases i,
{
    if i == 0 {
    } else {
        lemma_slice_start_closed(len, k, i - 1);
        assert((i - 1) * (len / k) + (len / k) == i * (len / k)) by (nonlinear_arith);
    }
}

/// Slice sizes are never negative.
pub proof fn lemma_slice_size_nonneg(len: int, k: int, i: int)
    requires
        len >= 0,
        k >= 1,
    ensures
        slice_size(len, k, i) >= 0,
{
    assert(len / k >= 0) by (nonlinear_arith)
        requires
            len >= 0,
            k >= 1,
    ;
}

/// Slice starts grow with the index.
pub proof fn lemma_slice_start_mono(len: int, k: int, i: int, j: int)
    requires
        len >= 0,
        k >= 1,
        0 <= i <= j,
    ensures
        slice_start(len, k, i) <= slice_start(len, k, j),
    decreases j - i,
{
    if i < j {
        lemma_slice_start_mono(len, k, i, j - 1);
        lemma_slice_size_nonneg(len, k, j - 1);
    }
}

/// Every slice start lies inside the packet.
pub proof fn lemma_slice_start_le_len(len: int, k: int, i: int)
    requires
        len >= 0,
        k >= 1,
        0 <= i <= k,
    ensures
        0 <= slice_start(len, k, i) <= len,
        i == k ==> slice_start(len, k, i) == len,
{
    lemma_slice_start_closed(len, k, i);
    vstd::arithmetic::div_mod::lemma_fundamental_div_mod(len, k);
    vstd::arithmetic::div_mod::lemma_mod_bound(len, k);
    vstd::arithmetic::div_mod::lemma_div_is_ordered_by_denominator(len, 1, k);
    assert(i * (len / k) <= k * (len / k)) by (nonlinear_arith)
        requires
            0 <= i <= k,
            len / k >= 0,
    ;
    assert(i * (len / k) >= 0) by (nonlinear_arith)
        requires
            i >= 0,
            len / k >= 0,
    ;
    if i == k {
        assert(k * (len / k) + len % k == len) by (nonlinear_arith)
            requires
                len == k * (len / k) + len % k,
        ;
    }
}

/// Peeling one slice off the reassembly fold.
proof fn lemma_reassemble_unfold(frags: Seq<Seq<u8>>, o: int, i: int)
    requires
        1 <= i < frags.len(),
    ensures
        spec_reassemble(frags.subrange(0, i + 1), o) == reassemble_step(
            spec_reassemble(frags.subrange(0, i), o),
            frags[i],
            o,
        ),
{
    let pre = frags.subrange(0, i + 1);
    assert(pre.drop_last() =~= frags.subrange(0, i));
    assert(pre.last() == frags[i]);
}

/// Round trip when the first slice is at least as long as the overlap: every
/// slice then carries exactly the last `o` bytes of the packet prefix before
/// it, and reassembly reconstructs the prefix slice by slice.
proof fn lemma_round_trip_wide(p: Seq<u8>, k: int, o: int, i: int)
    requires
        p.len() >= 1,
        1 <= k,
        o >= 0,
        slice_size(p.len() as int, k, 0) >= o,
        1 <= i <= k,
    ensures
        spec_reassemble(spec_fragments(p, k, o).subrange(0, i), o) == p.subrange(
            0,
            slice_start(p.len() as int, k, i),
        ),
    decreases i,
{
    let len = p.len() as int;
    let frags = spec_fragments(p, k, o);
    if i == 1 {
        lemma_slice_start_le_len(len, k, 1);
        assert(slice_start(len, k, 0) == 0);
        lemma_slice_start_step(len, k, 0);
        assert(slice_start(len, k, 1) == slice_size(len, k, 0));
        assert(frags.subrange(0, 1)[0] == spec_slice(p, k, o, 0));
        assert(spec_slice(p, k, o, 0) =~= p.subrange(0, slice_size(len, k, 0)));
    } else {
        lemma_round_trip_wide(p, k, o, i - 1);
        lemma_reassemble_unfold(frags, o, i - 1);
        let st = slice_start(len, k, i - 1);
        let sz = slice_size(len, k, i - 1);
        lemma_slice_start_mono(len, k, 1, i - 1);
        lemma_slice_start_le_len(len, k, i);
        lemma_slice_start_le_len(len, k, i - 1);
        lemma_slice_size_nonneg(len, k, i - 1);
        assert(slice_start(len, k, 0) == 0);
        lemma_slice_start_step(len, k, 0);
        assert(slice_start(len, k, 1) == slice_size(len, k, 0));
        assert(st >= o);
        let acc = p.subrange(0, st);
        // The wire slice i-1 covers [st - o, st + sz).
        assert(st + sz == slice_start(len, k, i) <= len);
        let f = spec_slice(p, k, o, i - 1);
        assert(f =~= p.subrange(st - o, st + sz));
        // Its first o bytes repeat the tail of the running reassembly.
        assert(acc.len() >= o);
        assert(f.len() == sz + o >= o);
        assert(f.subrange(0, o) =~= acc.subrange(acc.len() - o, acc.len() as int));
        assert(reassemble_step(acc, f, o) == acc + f.subrange(o, f.len() as int));
        assert(acc + f.subrange(o, f.len() as int) =~= p.subrange(0, st + sz));
    }
}

/// Round trip for the narrow shapes: once the whole packet fits into one
/// wire slice, every later slice is the whole packet and reassembly is
/// already complete after the second slice.
proof fn lemma_round_trip_narrow(p: Seq<u8>, k: int, o: int, i: int)
    requires
        p.len() >= 1,
        2 <= k,
        o >= 0,
        slice_size(p.len() as int, k, 0) < o,
        k == 2 || p.len() <= o,
        2 <= i <= k,
    ensures
        spec_reassemble(spec_fragments(p, k, o).subrange(0, i), o) == p,
    decreases i,
{
    let len = p.len() as int;
    let frags = spec_fragments(p, k, o);
    let sz0 = slice_size(len, k, 0);
    lemma_slice_start_le_len(len, k, 1);
    lemma_slice_start_le_len(len, k, 2);
    lemma_slice_start_le_len(len, k, k);
    assert(slice_start(len, k, 0) == 0);
    lemma_slice_start_step(len, k, 0);
    assert(slice_start(len, k, 1) == sz0);
    if i == 2 {
        // The first slice is the plain packet prefix.
        assert(frags.subrange(0, 1)[0] == spec_slice(p, k, o, 0));
        assert(spec_slice(p, k, o, 0) =~= p.subrange(0, sz0));
        lemma_reassemble_unfold(frags, o, 1);
        let acc = p.subrange(0, sz0);
        // The second wire slice reaches back to the packet start and runs to
        // its end.
        let sz1 = slice_size(len, k, 1);
        lemma_slice_size_nonneg(len, k, 1);
        if k == 2 {
            assert(slice_start(len, k, 2) == sz0 + sz1 == len);
            assert(sz1 + o > len);
        } else {
            assert(sz1 + o >= len);
        }
        let f = spec_slice(p, k, o, 1);
        assert(f =~= p.subrange(0, len));
        assert(acc.len() < o);
        let ovl = acc.len() as int;
        assert(f.len() == len >= ovl);
        assert(f.subrange(0, ovl) =~= acc.subrange(0, ovl));
        assert(acc.subrange(0, ovl) =~= acc.subrange(acc.len() - ovl, acc.len() as int));
        assert(reassemble_step(acc, f, o) == acc + f.subrange(ovl, f.len() as int));
        assert(acc + f.subrange(ovl, f.len() as int) =~= p);
    } else {
        lemma_round_trip_narrow(p, k, o, i - 1);
        lemma_reassemble_unfold(frags, o, i - 1);
        lemma_slice_start_le_len(len, k, i - 1);
        lemma_slice_start_le_len(len, k, i);
        lemma_slice_size_nonneg(len, k, i - 1);
        // Here p.len() <= o: every remaining slice is the whole packet, and
        // appending it to a finished reassembly changes nothing.
        let st = slice_start(len, k, i - 1);
        let sz = slice_size(len, k, i - 1);
        let f = spec_slice(p, k, o, i - 1);
        assert(st + sz <= len);
        assert(f =~= p.subrange(0, len));
        let acc = p;
        let ovl = if acc.len() >= o {
            o
        } else {
            acc.len() as int
        };
        assert(ovl == len);
        assert(f.subrange(0, ovl) =~= acc.subrange(acc.len() - ovl, acc.len() as int));
        assert(reassemble_step(acc, f, o) == acc + f.subrange(ovl, f.len() as int));
        assert(acc + f.subrange(ovl, f.len() as int) =~= p);
    }
}

/// Fragmentation round trip: reassembling the wire slices of a packet yields
/// the packet back, whenever the slice shape keeps the overlap aligned —
/// that is, for one or two slices, for packets no longer than the overlap,
/// or for slices at least as long as the overlap.
pub proof fn lemma_fragment_reassemble_round_trip(p: Seq<u8>, k: int, o: int)
    requires
        p.len() >= 1,
        1 <= k <= 8,
        o >= 0,
        k <= 2 || p.len() <= o || slice_size(p.len() as int, k, 0) >= o,
    ensures
        spec_reassemble(spec_fragments(p, k, o), o) == p,
{
    let len = p.len() as int;
    let frags = spec_fragments(p, k, o);
    assert(frags.subrange(0, k) =~= frags);
    let sz0 = slice_size(len, k, 0);
    if k == 1 {
        lemma_slice_start_le_len(len, k, 1);
        assert(slice_start(len, k, 0) == 0);
    lemma_slice_start_step(len, k, 0);
    assert(slice_start(len, k, 1) == sz0);
        vstd::arithmetic::div_mod::lemma_fundamental_div_mod(len, 1);
        assert(sz0 == len);
        assert(frags[0] == spec_slice(p, k, o, 0));
        assert(spec_slice(p, k, o, 0) =~= p.subrange(0, len));
        assert(p.subrange(0, len) =~= p);
    } else if sz0 >= o {
        lemma_round_trip_wide(p, k, o, k);
        lemma_slice_start_le_len(len, k, k);
        assert(p.subrange(0, len) =~= p);
    } else {
        lemma_round_trip_narrow(p, k, o, k);
    }
}

} // verus!
