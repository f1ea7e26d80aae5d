//! Dimensional scattering vault: a VPN data-plane obfuscator core.
//!
//! A plaintext packet is split into overlapping fragments, each fragment is
//! encrypted under a per-fragment nonce, wrapped in a padding skin that hides
//! its shape, and scheduled for release after a coordinate-driven delay.  The
//! receiving side strips the skin, decrypts, collects fragments per sequence
//! and reassembles the original packet.  All scattering decisions derive
//! deterministically from a per-session seed, so both endpoints agree on the
//! scattering coordinates without extra coordination traffic.

use vstd::prelude::*;

pub mod coordinate;
pub mod crypto;
pub mod daemon;
pub mod errors;
pub mod fragment;
pub mod fragmenting;
pub mod math_proofs;
pub mod protocol;
pub mod queue;
pub mod reassembly;
pub mod session;
pub mod vault;
pub mod skin;
pub mod wire;

verus! {

/// Library version.
pub const VERSION: &'static str = "0.1.0";

/// Initialization hook for embedders; the vault itself needs no global setup.
pub fn init() {
}

} // verus!
