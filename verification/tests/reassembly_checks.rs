//! The reassembly buffers: filing, duplicates, mismatches and TTL.

use sigma_vault::coordinate::DimensionalCoordinate;
use sigma_vault::errors::VaultError;
use sigma_vault::fragment::DimensionalFragment;
use sigma_vault::reassembly::ReassemblyBuffers;

fn frag(sequence_id: u64, fragment_id: u32, total: u32, timestamp: u64) -> DimensionalFragment {
    DimensionalFragment {
        coordinate: DimensionalCoordinate {
            spatial: 0,
            temporal: 0,
            frequency: 0,
            protocol: 0,
            fragmentation: 0,
            cryptographic: 0,
            metadata: 0,
        },
        data: vec![fragment_id as u8],
        sequence_id,
        fragment_id,
        total_fragments: total,
        timestamp,
        ttl_secs: 30,
    }
}

#[test]
fn duplicate_fragments_are_discarded() {
    let mut buffers = ReassemblyBuffers::new(30);
    assert_eq!(buffers.add_fragment(frag(1, 0, 2, 100), 100), Ok(true));
    assert_eq!(buffers.add_fragment(frag(1, 0, 2, 100), 100), Ok(false));
    assert_eq!(buffers.len(), 1);
}

#[test]
fn mismatched_totals_are_rejected() {
    let mut buffers = ReassemblyBuffers::new(30);
    assert_eq!(buffers.add_fragment(frag(1, 0, 3, 100), 100), Ok(true));
    assert_eq!(
        buffers.add_fragment(frag(1, 1, 2, 100), 100),
        Err(VaultError::FragmentationMismatch)
    );
}

#[test]
fn expired_fragments_are_rejected() {
    let mut buffers = ReassemblyBuffers::new(30);
    assert_eq!(
        buffers.add_fragment(frag(1, 0, 2, 100), 131),
        Err(VaultError::FragmentExpired)
    );
    assert_eq!(buffers.len(), 0);
}

#[test]
fn complete_bins_come_out_sorted() {
    let mut buffers = ReassemblyBuffers::new(30);
    // Out-of-order arrival; the bin keeps index order.
    assert_eq!(buffers.add_fragment(frag(9, 2, 3, 100), 100), Ok(true));
    assert_eq!(buffers.add_fragment(frag(9, 0, 3, 100), 100), Ok(true));
    assert_eq!(buffers.add_fragment(frag(9, 1, 3, 100), 100), Ok(true));
    let done = buffers.take_complete();
    assert_eq!(done.len(), 1);
    assert_eq!(buffers.len(), 0);
    let ids: Vec<u32> = done[0].fragments.iter().map(|f| f.fragment_id).collect();
    assert_eq!(ids, vec![0, 1, 2]);
}

#[test]
fn partial_bins_stay() {
    let mut buffers = ReassemblyBuffers::new(30);
    assert_eq!(buffers.add_fragment(frag(5, 0, 2, 100), 100), Ok(true));
    assert!(buffers.take_complete().is_empty());
    assert_eq!(buffers.len(), 1);
}

#[test]
fn stale_bins_are_dropped_whole() {
    let mut buffers = ReassemblyBuffers::new(30);
    assert_eq!(buffers.add_fragment(frag(5, 0, 3, 100), 100), Ok(true));
    assert_eq!(buffers.add_fragment(frag(5, 1, 3, 125), 125), Ok(true));
    // At 131 the first fragment is 31 seconds old: the whole bin goes.
    buffers.cleanup(131);
    assert_eq!(buffers.len(), 0);
}
