//! The metadata skin: padding plus a masked coordinate trailer.
//!
//! Every encrypted fragment gets a trailer of two parts: first a padding
//! block whose length and fill are dictated by the metadata dimension of the
//! coordinate, then the seven coordinate fields serialized as little-endian
//! 32-bit words and masked byte-wise with a fixed XOR constant.  The padding
//! breaks length fingerprints; the trailer lets the receiver recover the
//! coordinate without a side channel.  Neither is a confidentiality
//! mechanism — confidentiality comes from the AEAD stage.
//!
//! Given the same coordinate the skin is byte-identical, so the receiver can
//! recompute the padding length exactly and strip the skin.

use vstd::prelude::*;
use crate::coordinate::DimensionalCoordinate;
use crate::errors::VaultError;
use crate::wire::{u32_le, u32_from_le, push_u32_le, read_u32_le, lemma_u32_le_round_trip};

verus! {

/// The byte every trailer byte is XOR-masked with.
pub const TRAILER_MASK: u8 = 0x5A;

/// One way of padding a fragment.
pub struct PaddingStrategy {
    pub min_padding: usize,
    pub max_padding: usize,
    pub pattern: Vec<u8>,
}

/// Which of the three padding strategies the coordinate selects.
pub open spec fn spec_strategy_index(c: DimensionalCoordinate) -> int {
    c.metadata as int % 3
}

pub open spec fn spec_pad_min(c: DimensionalCoordinate) -> int {
    if spec_strategy_index(c) == 0 {
        0
    } else if spec_strategy_index(c) == 1 {
        10
    } else {
        50
    }
}

pub open spec fn spec_pad_max(c: DimensionalCoordinate) -> int {
    if spec_strategy_index(c) == 0 {
        100
    } else if spec_strategy_index(c) == 1 {
        200
    } else {
        50
    }
}

pub open spec fn spec_pad_pattern(c: DimensionalCoordinate) -> Seq<u8> {
    if spec_strategy_index(c) == 0 {
        seq![0x00u8]
    } else if spec_strategy_index(c) == 1 {
        seq![0xFFu8, 0x00u8, 0xFFu8, 0x00u8]
    } else {
        seq![0xAAu8]
    }
}

/// How many padding bytes the coordinate dictates.
pub open spec fn spec_pad_len(c: DimensionalCoordinate) -> int {
    spec_pad_min(c) + c.metadata as int % (spec_pad_max(c) - spec_pad_min(c) + 1)
}

/// The padding block: the strategy pattern repeated to the dictated length.
pub open spec fn spec_padding(c: DimensionalCoordinate) -> Seq<u8> {
    Seq::new(
        spec_pad_len(c) as nat,
        |j: int| spec_pad_pattern(c)[j % spec_pad_pattern(c).len() as int],
    )
}

/// The coordinate fields as little-endian words, before masking.
pub open spec fn spec_trailer_raw(c: DimensionalCoordinate) -> Seq<u8> {
    u32_le(c.spatial) + u32_le(c.temporal) + u32_le(c.frequency) + u32_le(c.protocol) + u32_le(
        c.fragmentation,
    ) + u32_le(c.cryptographic) + u32_le(c.metadata)
}

/// The masked coordinate trailer.
pub open spec fn spec_trailer(c: DimensionalCoordinate) -> Seq<u8> {
    spec_trailer_raw(c).map_values(|b: u8| b ^ TRAILER_MASK)
}

/// A skinned fragment: payload, padding, masked trailer.
pub open spec fn spec_skin(data: Seq<u8>, c: DimensionalCoordinate) -> Seq<u8> {
    data + spec_padding(c) + spec_trailer(c)
}

/// The coordinate read back from the last 28 bytes of `data`.
pub open spec fn spec_decoded_coordinate(data: Seq<u8>) -> DimensionalCoordinate {
    let t = data.subrange(data.len() - 28, data.len() as int).map_values(
        |b: u8| b ^ TRAILER_MASK,
    );
    DimensionalCoordinate {
        spatial: u32_from_le(t.subrange(0, 4)),
        temporal: u32_from_le(t.subrange(4, 8)),
        frequency: u32_from_le(t.subrange(8, 12)),
        protocol: u32_from_le(t.subrange(12, 16)),
        fragmentation: u32_from_le(t.subrange(16, 20)),
        cryptographic: u32_from_le(t.subrange(20, 24)),
        metadata: u32_from_le(t.subrange(24, 28)),
    }
}

/// The reverse of `spec_skin`: recover the coordinate from the trailer,
/// recompute the padding length, and strip both.
pub open spec fn spec_strip(data: Seq<u8>) -> Option<(Seq<u8>, DimensionalCoordinate)> {
    if data.len() < 28 {
        None
    } else {
        let c = spec_decoded_coordinate(data);
        if !c.wf() {
            None
        } else if data.len() < spec_pad_len(c) + 28 {
            None
        } else {
            Some((data.subrange(0, data.len() - 28 - spec_pad_len(c)), c))
        }
    }
}

/// Applies and removes the metadata skin.
pub struct MetadataManipulator {
    padding_strategies: Vec<PaddingStrategy>,
}

impl MetadataManipulator {
    /// The three strategies exactly as the skin's specification fixes them.
    pub closed spec fn wf(self) -> bool {
        &&& self.padding_strategies@.len() == 3
        &&& self.padding_strategies@[0].min_padding == 0
        &&& self.padding_strategies@[0].max_padding == 100
        &&& self.padding_strategies@[0].pattern@ == seq![0x00u8]
        &&& self.padding_strategies@[1].min_padding == 10
        &&& self.padding_strategies@[1].max_padding == 200
        &&& self.padding_strategies@[1].pattern@ == seq![0xFFu8, 0x00u8, 0xFFu8, 0x00u8]
        &&& self.padding_strategies@[2].min_padding == 50
        &&& self.padding_strategies@[2].max_padding == 50
        &&& self.padding_strategies@[2].pattern@ == seq![0xAAu8]
    }

    pub fn new() -> (r: Self)
        ensures
            r.wf(),
    {
        let mut strategies: Vec<PaddingStrategy> = Vec::new();

        // Random-length zero padding.
        let mut p0: Vec<u8> = Vec::new();
        p0.push(0x00);
        strategies.push(PaddingStrategy { min_padding: 0, max_padding: 100, pattern: p0 });

        // Patterned padding with a fixed four-byte motif.
        let mut p1: Vec<u8> = Vec::new();
        p1.push(0xFF);
        p1.push(0x00);
        p1.push(0xFF);
        p1.push(0x00);
        strategies.push(PaddingStrategy { min_padding: 10, max_padding: 200, pattern: p1 });

        // Fixed-length filler padding.
        let mut p2: Vec<u8> = Vec::new();
        p2.push(0xAA);
        strategies.push(PaddingStrategy { min_padding: 50, max_padding: 50, pattern: p2 });

        let r = MetadataManipulator { padding_strategies: strategies };
        proof {
            assert(r.padding_strategies@[0].pattern@ =~= seq![0x00u8]);
            assert(r.padding_strategies@[1].pattern@ =~= seq![0xFFu8, 0x00u8, 0xFFu8, 0x00u8]);
            assert(r.padding_strategies@[2].pattern@ =~= seq![0xAAu8]);
        }
        r
    }

    /// Appends the coordinate-driven padding and the masked coordinate
    /// trailer to `packet`.
    pub fn manipulate_metadata(&self, packet: &[u8], coordinate: &DimensionalCoordinate) -> (r:
        Vec<u8>)
        requires
            self.wf(),
            coordinate.wf(),
            packet@.len() + 256 <= usize::MAX,
        ensures
            r@ == spec_skin(packet@, *coordinate),
    {
        let idx: usize = (coordinate.metadata % 3) as usize;
        let strat: &PaddingStrategy = &self.padding_strategies[idx];
        proof {
            assert(strat.min_padding as int == spec_pad_min(*coordinate));
            assert(strat.max_padding as int == spec_pad_max(*coordinate));
            assert(strat.pattern@ == spec_pad_pattern(*coordinate));
        }
        let span: usize = strat.max_padding - strat.min_padding + 1;
        let pad: usize = strat.min_padding + (coordinate.metadata as usize) % span;
        proof {
            assert(pad as int == spec_pad_len(*coordinate));
            assert(pad <= 200);
        }

        let mut result: Vec<u8> = Vec::new();
        crate::wire::extend_bytes(&mut result, packet);

        let pattern_len: usize = strat.pattern.len();
        let mut j: usize = 0;
        while j < pad
            invariant
                j <= pad,
                pad as int == spec_pad_len(*coordinate),
                pattern_len == strat.pattern@.len(),
                pattern_len >= 1,
                strat.pattern@ == spec_pad_pattern(*coordinate),
                result@ == packet@ + spec_padding(*coordinate).subrange(0, j as int),
            decreases pad - j,
        {
            result.push(strat.pattern[j % pattern_len]);
            j = j + 1;
            proof {
                assert(result@ =~= packet@ + spec_padding(*coordinate).subrange(0, j as int));
            }
        }
        proof {
            assert(spec_padding(*coordinate).subrange(0, pad as int) =~= spec_padding(
                *coordinate,
            ));
        }

        // The coordinate trailer, masked byte by byte.
        let mut raw: Vec<u8> = Vec::new();
        push_u32_le(&mut raw, coordinate.spatial);
        push_u32_le(&mut raw, coordinate.temporal);
        push_u32_le(&mut raw, coordinate.frequency);
        push_u32_le(&mut raw, coordinate.protocol);
        push_u32_le(&mut raw, coordinate.fragmentation);
        push_u32_le(&mut raw, coordinate.cryptographic);
        push_u32_le(&mut raw, coordinate.metadata);
        proof {
            assert(raw@ =~= spec_trailer_raw(*coordinate));
        }
        let ghost before_trailer = result@;
        let mut t: usize = 0;
        while t < raw.len()
            invariant
                t <= raw@.len(),
                raw@ == spec_trailer_raw(*coordinate),
                result@ == before_trailer + spec_trailer(*coordinate).subrange(0, t as int),
            decreases raw@.len() - t,
        {
            result.push(raw[t] ^ TRAILER_MASK);
            t = t + 1;
            proof {
                assert(result@ =~= before_trailer + spec_trailer(*coordinate).subrange(
                    0,
                    t as int,
                ));
            }
        }
        proof {
            assert(spec_trailer(*coordinate).subrange(
                0,
                spec_trailer(*coordinate).len() as int,
            ) =~= spec_trailer(*coordinate));
            assert(result@ =~= spec_skin(packet@, *coordinate));
        }
        result
    }

    /// Reads the coordinate hidden in the trailer of a skinned fragment, if
    /// one is present and its fields are in range.
    pub fn extract_metadata(&self, packet: &[u8]) -> (r: Option<DimensionalCoordinate>)
        ensures
            r matches Some(c) ==> packet@.len() >= 28 && c == spec_decoded_coordinate(packet@)
                && c.wf(),
            r is None ==> packet@.len() < 28 || !spec_decoded_coordinate(packet@).wf(),
    {
        if packet.len() < 28 {
            return None;
        }
        let c = decode_trailer(packet);
        if c.spatial < 128 && c.temporal < 128 && c.frequency < 128 && c.protocol < 128
            && c.fragmentation < 128 && c.cryptographic < 128 && c.metadata < 128 {
            Some(c)
        } else {
            None
        }
    }

    /// Removes padding and trailer from a skinned fragment, returning the
    /// bare payload and the recovered coordinate.
    pub fn strip_skin(&self, data: &[u8]) -> (r: Result<
        (Vec<u8>, DimensionalCoordinate),
        VaultError,
    >)
        requires
            self.wf(),
        ensures
            r is Ok <==> spec_strip(data@) is Some,
            r matches Ok(x) ==> (spec_strip(data@) matches Some(p) && x.0@ == p.0 && x.1 == p.1),
            r matches Err(e) ==> e == VaultError::CoordinateTrailerMissing,
    {
        if data.len() < 28 {
            return Err(VaultError::CoordinateTrailerMissing);
        }
        let c = decode_trailer(data);
        if !(c.spatial < 128 && c.temporal < 128 && c.frequency < 128 && c.protocol < 128
            && c.fragmentation < 128 && c.cryptographic < 128 && c.metadata < 128) {
            return Err(VaultError::CoordinateTrailerMissing);
        }
        let idx: usize = (c.metadata % 3) as usize;
        let strat: &PaddingStrategy = &self.padding_strategies[idx];
        let span: usize = strat.max_padding - strat.min_padding + 1;
        let pad: usize = strat.min_padding + (c.metadata as usize) % span;
        proof {
            assert(pad as int == spec_pad_len(c));
        }
        if data.len() < pad + 28 {
            return Err(VaultError::CoordinateTrailerMissing);
        }
        let payload = crate::fragmenting::copy_range(data, 0, data.len() - 28 - pad);
        Ok((payload, c))
    }
}

/// Reads the seven fields back out of the last 28 bytes of `data`.
fn decode_trailer(data: &[u8]) -> (c: DimensionalCoordinate)
    requires
        data@.len() >= 28,
    ensures
        c == spec_decoded_coordinate(data@),
{
    let at: usize = data.len() - 28;
    let mut unmasked: Vec<u8> = Vec::new();
    let mut j: usize = 0;
    let ghost t = data@.subrange(data@.len() - 28, data@.len() as int).map_values(
        |b: u8| b ^ TRAILER_MASK,
    );
    while j < 28
        invariant
            j <= 28,
            at == data@.len() - 28,
            28 <= data@.len() <= usize::MAX,
            t == data@.subrange(data@.len() - 28, data@.len() as int).map_values(
                |b: u8| b ^ TRAILER_MASK,
            ),
            unmasked@ == t.subrange(0, j as int),
        decreases 28 - j,
    {
        unmasked.push(data[at + j] ^ TRAILER_MASK);
        j = j + 1;
        proof {
            assert(unmasked@ =~= t.subrange(0, j as int));
        }
    }
    proof {
        assert(unmasked@ =~= t);
    }
    let c = DimensionalCoordinate {
        spatial: read_u32_le(unmasked.as_slice(), 0),
        temporal: read_u32_le(unmasked.as_slice(), 4),
        frequency: read_u32_le(unmasked.as_slice(), 8),
        protocol: read_u32_le(unmasked.as_slice(), 12),
        fragmentation: read_u32_le(unmasked.as_slice(), 16),
        cryptographic: read_u32_le(unmasked.as_slice(), 20),
        metadata: read_u32_le(unmasked.as_slice(), 24),
    };
    proof {
        assert(t.subrange(0, 4) =~= unmasked@.subrange(0, 4));
        assert(t.subrange(4, 8) =~= unmasked@.subrange(4, 8));
        assert(t.subrange(8, 12) =~= unmasked@.subrange(8, 12));
        assert(t.subrange(12, 16) =~= unmasked@.subrange(12, 16));
        assert(t.subrange(16, 20) =~= unmasked@.subrange(16, 20));
        assert(t.subrange(20, 24) =~= unmasked@.subrange(20, 24));
        assert(t.subrange(24, 28) =~= unmasked@.subrange(24, 28));
    }
    c
}

/// Unmasking a masked byte gives the byte back.
proof fn lemma_mask_involutive(b: u8)
    ensures
        (b ^ TRAILER_MASK) ^ TRAILER_MASK == b,
{
    assert((b ^ 0x5A) ^ 0x5A == b) by (bit_vector);
}

/// The coordinate read back from a skinned fragment is the coordinate the
/// skin was applied with.
pub proof fn lemma_skin_decodes(data: Seq<u8>, c: DimensionalCoordinate)
    requires
        c.wf(),
    ensures
        spec_decoded_coordinate(spec_skin(data, c)) == c,
{
    let s = spec_skin(data, c);
    assert(s.len() == data.len() + spec_padding(c).len() + 28);
    assert(s.subrange(s.len() - 28, s.len() as int) =~= spec_trailer(c));
    let masked_back = s.subrange(s.len() - 28, s.len() as int).map_values(
        |b: u8| b ^ TRAILER_MASK,
    );
    assert forall|i: int| 0 <= i < 28 implies masked_back[i] == spec_trailer_raw(c)[i] by {
        lemma_mask_involutive(spec_trailer_raw(c)[i]);
    }
    assert(masked_back =~= spec_trailer_raw(c));
    let raw = spec_trailer_raw(c);
    assert(raw.subrange(0, 4) =~= u32_le(c.spatial));
    assert(raw.subrange(4, 8) =~= u32_le(c.temporal));
    assert(raw.subrange(8, 12) =~= u32_le(c.frequency));
    assert(raw.subrange(12, 16) =~= u32_le(c.protocol));
    assert(raw.subrange(16, 20) =~= u32_le(c.fragmentation));
    assert(raw.subrange(20, 24) =~= u32_le(c.cryptographic));
    assert(raw.subrange(24, 28) =~= u32_le(c.metadata));
    lemma_u32_le_round_trip(c.spatial);
    lemma_u32_le_round_trip(c.temporal);
    lemma_u32_le_round_trip(c.frequency);
    lemma_u32_le_round_trip(c.protocol);
    lemma_u32_le_round_trip(c.fragmentation);
    lemma_u32_le_round_trip(c.cryptographic);
    lemma_u32_le_round_trip(c.metadata);
}

/// Metadata skin round trip: stripping a skinned fragment yields the bare
/// fragment and its coordinate.
pub proof fn lemma_skin_round_trip(data: Seq<u8>, c: DimensionalCoordinate)
    requires
        c.wf(),
    ensures
        spec_strip(spec_skin(data, c)) == Some((data, c)),
{
    let s = spec_skin(data, c);
    lemma_skin_decodes(data, c);
    assert(spec_padding(c).len() == spec_pad_len(c));
    assert(s.len() == data.len() + spec_pad_len(c) + 28);
    assert(s.subrange(0, s.len() - 28 - spec_pad_len(c)) =~= data);
}

} // verus!
