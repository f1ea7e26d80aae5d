//! The fragment that travels between the pipeline stages.

use vstd::prelude::*;
use crate::coordinate::DimensionalCoordinate;

verus! {

/// One of up to eight slices of a scattered packet, together with the
/// metadata both endpoints need to reassemble it.
#[derive(Debug)]
pub struct DimensionalFragment {
    /// The scattering coordinate shared by every fragment of the packet.
    pub coordinate: DimensionalCoordinate,
    /// The payload: plaintext slice, ciphertext, or skinned ciphertext,
    /// depending on the pipeline stage.
    pub data: Vec<u8>,
    /// The packet counter of the session at scatter time.
    pub sequence_id: u64,
    /// This fragment's index within its packet.
    pub fragment_id: u32,
    /// How many fragments the packet was cut into.
    pub total_fragments: u32,
    /// Scatter time, in unix seconds.
    pub timestamp: u64,
    /// Seconds after `timestamp` at which the fragment expires.
    pub ttl_secs: u64,
}

/// The mathematical image of a fragment.
#[verifier::ext_equal]
pub struct FragmentView {
    pub coordinate: DimensionalCoordinate,
    pub data: Seq<u8>,
    pub sequence_id: u64,
    pub fragment_id: u32,
    pub total_fragments: u32,
    pub timestamp: u64,
    pub ttl_secs: u64,
}

impl View for DimensionalFragment {
    type V = FragmentView;

    open spec fn view(&self) -> FragmentView {
        FragmentView {
            coordinate: self.coordinate,
            data: self.data@,
            sequence_id: self.sequence_id,
            fragment_id: self.fragment_id,
            total_fragments: self.total_fragments,
            timestamp: self.timestamp,
            ttl_secs: self.ttl_secs,
        }
    }
}

impl FragmentView {
    /// Every fragment carries a coordinate in range and an index below its
    /// packet's fragment count, which never exceeds eight.
    pub open spec fn wf(self) -> bool {
        &&& self.coordinate.wf()
        &&& 1 <= self.total_fragments <= 8
        &&& self.fragment_id < self.total_fragments
    }
}

impl DimensionalFragment {
    /// A deep copy with the same field values.
    pub fn duplicate(&self) -> (r: Self)
        ensures
            r@ == self@,
    {
        let data = crate::fragmenting::copy_range(self.data.as_slice(), 0, self.data.len());
        proof {
            assert(self.data@.subrange(0, self.data@.len() as int) =~= self.data@);
        }
        let r = DimensionalFragment {
            coordinate: self.coordinate,
            data,
            sequence_id: self.sequence_id,
            fragment_id: self.fragment_id,
            total_fragments: self.total_fragments,
            timestamp: self.timestamp,
            ttl_secs: self.ttl_secs,
        };
        proof {
            assert(r@ =~= self@);
        }
        r
    }
}

} // verus!
