//! The fragmenter: slice shapes and the reassembly round trip.

use sigma_vault::coordinate::DimensionalCoordinate;
use sigma_vault::errors::VaultError;
use sigma_vault::fragmenting::FragmentationEngine;

fn coord_with_fragmentation(fragmentation: u32) -> DimensionalCoordinate {
    DimensionalCoordinate {
        spatial: 0,
        temporal: 0,
        frequency: 0,
        protocol: 0,
        fragmentation,
        cryptographic: 0,
        metadata: 0,
    }
}

#[test]
fn slice_shapes_are_exact() {
    // Ten bytes in two slices with three bytes of overlap: the second slice
    // reaches back three bytes into the first.
    let engine = FragmentationEngine::new(1400, 3);
    let packet: Vec<u8> = (0u8..10).collect();
    let frags = engine.fragment_packet(&packet, &coord_with_fragmentation(1));
    assert_eq!(frags.len(), 2);
    assert_eq!(frags[0], (0u8..5).collect::<Vec<u8>>());
    assert_eq!(frags[1], (2u8..10).collect::<Vec<u8>>());
}

#[test]
fn first_slices_take_the_remainder() {
    // Eleven bytes in four slices: sizes 3, 3, 3, 2 before overlap.
    let engine = FragmentationEngine::new(1400, 0);
    let packet: Vec<u8> = (0u8..11).collect();
    let frags = engine.fragment_packet(&packet, &coord_with_fragmentation(3));
    assert_eq!(frags.len(), 4);
    assert_eq!(frags[0].len(), 3);
    assert_eq!(frags[1].len(), 3);
    assert_eq!(frags[2].len(), 3);
    assert_eq!(frags[3].len(), 2);
}

#[test]
fn round_trip_three_slices() {
    let engine = FragmentationEngine::new(1400, 50);
    let packet = b"Hello, dimensional scattering!".to_vec();
    let frags = engine.fragment_packet(&packet, &coord_with_fragmentation(2));
    assert_eq!(frags.len(), 3);
    let rebuilt = engine.reassemble_fragments(&frags).unwrap();
    assert_eq!(rebuilt, packet);
}

#[test]
fn round_trip_single_byte() {
    let engine = FragmentationEngine::new(1400, 50);
    let packet = vec![0xABu8];
    let frags = engine.fragment_packet(&packet, &coord_with_fragmentation(0));
    assert_eq!(frags.len(), 1);
    let rebuilt = engine.reassemble_fragments(&frags).unwrap();
    assert_eq!(rebuilt, packet);
}

#[test]
fn round_trip_wide_slices() {
    // 800 bytes in 8 slices of 100: every slice is longer than the overlap.
    let engine = FragmentationEngine::new(1400, 50);
    let packet: Vec<u8> = (0..800u32).map(|i| (i % 251) as u8).collect();
    let frags = engine.fragment_packet(&packet, &coord_with_fragmentation(7));
    assert_eq!(frags.len(), 8);
    let rebuilt = engine.reassemble_fragments(&frags).unwrap();
    assert_eq!(rebuilt, packet);
}

#[test]
fn reassembling_nothing_fails() {
    let engine = FragmentationEngine::new(1400, 50);
    assert_eq!(engine.reassemble_fragments(&[]), Err(VaultError::FragmentationEmpty));
}
