//! Coordinate derivation: determinism, field ranges, and the linear index.

use sigma_vault::coordinate::DimensionalCoordinate;
use sigma_vault::math_proofs;

#[test]
fn test_dimensional_coordinate_creation() {
    let seed = [1u8; 32];
    let hash = blake3::hash(b"test");
    let coord = DimensionalCoordinate::from_packet_hash(hash.as_bytes(), &seed);

    assert!(coord.spatial < 128);
    assert!(coord.temporal < 128);
    assert!(coord.frequency < 128);
    assert!(coord.protocol < 128);
    assert!(coord.fragmentation < 128);
    assert!(coord.cryptographic < 128);
    assert!(coord.metadata < 128);
}

#[test]
fn test_deterministic_scattering() {
    assert!(math_proofs::prove_deterministic_scattering());
}

#[test]
fn coordinate_fields_follow_the_digest() {
    // The coordinate fields must be the first seven bytes of
    // blake3(digest || seed), each reduced modulo 128 — byte-exact.
    let digest = *blake3::hash(b"some packet").as_bytes();
    let seed = [9u8; 32];
    let coord = DimensionalCoordinate::from_packet_hash(&digest, &seed);

    let mut input = Vec::new();
    input.extend_from_slice(&digest);
    input.extend_from_slice(&seed);
    let outer = *blake3::hash(&input).as_bytes();
    assert_eq!(coord.spatial, (outer[0] % 128) as u32);
    assert_eq!(coord.temporal, (outer[1] % 128) as u32);
    assert_eq!(coord.frequency, (outer[2] % 128) as u32);
    assert_eq!(coord.protocol, (outer[3] % 128) as u32);
    assert_eq!(coord.fragmentation, (outer[4] % 128) as u32);
    assert_eq!(coord.cryptographic, (outer[5] % 128) as u32);
    assert_eq!(coord.metadata, (outer[6] % 128) as u32);
}

#[test]
fn different_seeds_give_different_coordinates() {
    let digest = *blake3::hash(b"identical packet").as_bytes();
    let c1 = DimensionalCoordinate::from_packet_hash(&digest, &[1u8; 32]);
    let c2 = DimensionalCoordinate::from_packet_hash(&digest, &[2u8; 32]);
    assert_ne!(c1, c2);
}

#[test]
fn linear_index_is_the_chained_cantor_pairing() {
    let coord = DimensionalCoordinate {
        spatial: 1,
        temporal: 2,
        frequency: 3,
        protocol: 4,
        fragmentation: 5,
        cryptographic: 6,
        metadata: 7,
    };
    fn pair(x: usize, y: usize) -> usize {
        let s = x.wrapping_add(y);
        (s.wrapping_mul(s.wrapping_add(1)) / 2).wrapping_add(y)
    }
    let mut expected: usize = 1;
    for d in [2usize, 3, 4, 5, 6, 7] {
        expected = pair(expected, d);
    }
    assert_eq!(coord.to_linear_index(), expected);
}

#[test]
fn linear_index_deterministic() {
    let digest = *blake3::hash(b"x").as_bytes();
    let c = DimensionalCoordinate::from_packet_hash(&digest, &[3u8; 32]);
    assert_eq!(c.to_linear_index(), c.to_linear_index());
}

#[test]
fn uniform_distribution_over_ten_thousand_digests() {
    // Over 10 000 uniformly random digests with one fixed seed, every
    // dimension stays within the chi-square bound for uniformity over
    // [0,127] at significance 0.05 (critical value 154.3 for 127 degrees
    // of freedom).
    let seed = [123u8; 32];
    let mut dimension_counts = vec![[0u32; 128]; 7];
    for i in 0..10_000usize {
        let hash = blake3::hash(&i.to_le_bytes());
        let c = DimensionalCoordinate::from_packet_hash(hash.as_bytes(), &seed);
        dimension_counts[0][c.spatial as usize] += 1;
        dimension_counts[1][c.temporal as usize] += 1;
        dimension_counts[2][c.frequency as usize] += 1;
        dimension_counts[3][c.protocol as usize] += 1;
        dimension_counts[4][c.fragmentation as usize] += 1;
        dimension_counts[5][c.cryptographic as usize] += 1;
        dimension_counts[6][c.metadata as usize] += 1;
    }
    let expected = 10_000f64 / 128.0;
    for dim in 0..7 {
        let mut chi_square = 0.0f64;
        for count in 0..128 {
            let observed = dimension_counts[dim][count] as f64;
            chi_square += (observed - expected).powi(2) / expected;
        }
        assert!(chi_square < 154.3, "dimension {dim} not uniform: {chi_square}");
    }
}
