//! Seven-dimensional scattering coordinates.
//!
//! A coordinate is derived deterministically from a packet digest and a
//! per-session seed: both are hashed together and the first seven bytes of
//! the hash, reduced modulo 128, become the seven dimension fields.  Both
//! endpoints therefore agree on every scattering decision without exchanging
//! coordination traffic.

use vstd::prelude::*;

verus! {

/// One point in the seven-dimensional scattering space.  Every field lies in
/// `[0, 127]`.
#[derive(Clone, Copy, Debug, PartialEq, Eq, Hash, Structural)]
pub struct DimensionalCoordinate {
    /// Routing dimension.
    pub spatial: u32,
    /// Time dimension: drives the transmission delay.
    pub temporal: u32,
    /// Rate dimension: drives the delay jitter.
    pub frequency: u32,
    /// Protocol dimension: selects the header variant.
    pub protocol: u32,
    /// Fragmentation dimension: drives the fragment count.
    pub fragmentation: u32,
    /// Encryption dimension: folded into the AEAD nonce.
    pub cryptographic: u32,
    /// Header dimension: drives the padding strategy.
    pub metadata: u32,
}

/// The hash of `input`, as the underlying 32-byte cryptographic digest
/// computes it.  The digest is a function of the input bytes alone, so both
/// endpoints obtain the same value.
pub uninterp spec fn blake3_of(input: Seq<u8>) -> Seq<u8>;

/// Relies on `blake3::hash`: a 32-byte digest computed from the input bytes
/// alone.
#[verifier::external_body]
fn blake3_hash32(input: &[u8]) -> (r: [u8; 32])
    ensures
        r@ == blake3_of(input@),
{
    *blake3::hash(input).as_bytes()
}

/// The 32-byte digest of a packet, as the scatter path computes it before
/// deriving the coordinate.
pub(crate) fn packet_digest(packet: &[u8]) -> (r: [u8; 32])
    ensures
        r@ == blake3_of(packet@),
{
    blake3_hash32(packet)
}

/// The coordinate whose fields are the first seven bytes of `h`, each
/// reduced modulo 128.
pub open spec fn coordinate_of_hash(h: Seq<u8>) -> DimensionalCoordinate {
    DimensionalCoordinate {
        spatial: (h[0] % 128) as u32,
        temporal: (h[1] % 128) as u32,
        frequency: (h[2] % 128) as u32,
        protocol: (h[3] % 128) as u32,
        fragmentation: (h[4] % 128) as u32,
        cryptographic: (h[5] % 128) as u32,
        metadata: (h[6] % 128) as u32,
    }
}

/// The coordinate derived from a packet digest and a session seed: the two
/// are concatenated, hashed, and reduced field by field.
pub open spec fn spec_coordinate(digest: Seq<u8>, seed: Seq<u8>) -> DimensionalCoordinate {
    coordinate_of_hash(blake3_of(digest + seed))
}

impl DimensionalCoordinate {
    /// Whether every dimension field lies in `[0, 127]`.
    pub open spec fn wf(self) -> bool {
        &&& self.spatial < 128
        &&& self.temporal < 128
        &&& self.frequency < 128
        &&& self.protocol < 128
        &&& self.fragmentation < 128
        &&& self.cryptographic < 128
        &&& self.metadata < 128
    }

    /// Derives the scattering coordinate for a packet digest under a session
    /// seed.
    pub fn from_packet_hash(packet_digest: &[u8; 32], session_seed: &[u8; 32]) -> (c: Self)
        ensures
            c == spec_coordinate(packet_digest@, session_seed@),
            c.wf(),
    {
        let mut input: Vec<u8> = Vec::new();
        crate::wire::extend_bytes(&mut input, packet_digest.as_slice());
        crate::wire::extend_bytes(&mut input, session_seed.as_slice());
        proof {
            assert(input@ =~= packet_digest@ + session_seed@);
        }
        let h = blake3_hash32(input.as_slice());
        let c = DimensionalCoordinate {
            spatial: (h[0] % 128) as u32,
            temporal: (h[1] % 128) as u32,
            frequency: (h[2] % 128) as u32,
            protocol: (h[3] % 128) as u32,
            fragmentation: (h[4] % 128) as u32,
            cryptographic: (h[5] % 128) as u32,
            metadata: (h[6] % 128) as u32,
        };
        c
    }

    /// Folds the seven fields into one integer with a chained Cantor
    /// pairing, wrapping on overflow.  Metric and test use only; nothing is
    /// dispatched on it.
    pub fn to_linear_index(&self) -> (r: usize)
        ensures
            r == self.spec_linear_index(),
    {
        let mut index: usize = self.spatial as usize;
        index = cantor_pair(index, self.temporal as usize);
        index = cantor_pair(index, self.frequency as usize);
        index = cantor_pair(index, self.protocol as usize);
        index = cantor_pair(index, self.fragmentation as usize);
        index = cantor_pair(index, self.cryptographic as usize);
        index = cantor_pair(index, self.metadata as usize);
        index
    }

    /// The linear index as a chain of wrapped Cantor pairings over the seven
    /// fields.
    pub open spec fn spec_linear_index(self) -> usize {
        spec_cantor_pair(
            spec_cantor_pair(
                spec_cantor_pair(
                    spec_cantor_pair(
                        spec_cantor_pair(
                            spec_cantor_pair(
                                self.spatial as usize,
                                self.temporal as usize,
                            ),
                            self.frequency as usize,
                        ),
                        self.protocol as usize,
                    ),
                    self.fragmentation as usize,
                ),
                self.cryptographic as usize,
            ),
            self.metadata as usize,
        )
    }
}

/// The Cantor pairing `(x + y)(x + y + 1)/2 + y`, with every addition and
/// multiplication wrapping at the machine word size.
pub open spec fn spec_cantor_pair(x: usize, y: usize) -> usize {
    vstd::wrapping::usize_specs::wrapping_add(
        vstd::wrapping::usize_specs::wrapping_mul(
            vstd::wrapping::usize_specs::wrapping_add(x, y),
            vstd::wrapping::usize_specs::wrapping_add(vstd::wrapping::usize_specs::wrapping_add(x, y), 1),
        ) / 2,
        y,
    )
}

/// One step of the generalized Cantor pairing chain.
fn cantor_pair(x: usize, y: usize) -> (r: usize)
    ensures
        r == spec_cantor_pair(x, y),
{
    let s: usize = x.wrapping_add(y);
    (s.wrapping_mul(s.wrapping_add(1)) / 2).wrapping_add(y)
}

/// Coordinate derivation is a pure function: two derivations from the same
/// digest and seed yield bit-identical coordinates.
pub proof fn lemma_coordinate_deterministic(
    c1: DimensionalCoordinate,
    c2: DimensionalCoordinate,
    digest: Seq<u8>,
    seed: Seq<u8>,
)
    requires
        c1 == spec_coordinate(digest, seed),
        c2 == spec_coordinate(digest, seed),
    ensures
        c1 == c2,
{
}

} // verus!
