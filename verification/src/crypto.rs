//! The AEAD stage: per-fragment encryption under deterministic nonces.
//!
//! Each fragment is sealed with the session AEAD key and a 12-byte nonce
//! built from the packet's sequence number, the fragment's index inside the
//! packet, and the cryptographic dimension of the coordinate.  The nonce is
//! injective in that triple, so no two fragments sealed under one key ever
//! share a nonce.
//!
//! Keys rotate on a fixed interval; the previous key is kept so fragments
//! still in flight across a rotation can be opened.  Receivers try the
//! current key first, then the prior one.

use vstd::prelude::*;
use crate::coordinate::DimensionalCoordinate;
use crate::errors::VaultError;
use crate::wire::{u32_le, u64_le, push_u32_le, push_u64_le, lemma_u32_le_injective, lemma_u64_le_injective};
use chacha20poly1305::{ChaCha20Poly1305, KeyInit};
use chacha20poly1305::aead::Aead;

verus! {

/// The ciphertext (payload plus tag) that the AEAD cipher produces for a
/// key, nonce and plaintext.  The cipher is deterministic, so this is a
/// function of the three inputs alone.
pub uninterp spec fn aead_sealed(key: Seq<u8>, nonce: Seq<u8>, plaintext: Seq<u8>) -> Seq<u8>;

/// Relies on `chacha20poly1305::ChaCha20Poly1305` through `aead::Aead::encrypt`:
/// a deterministic seal of the plaintext under (key, nonce), 16 tag bytes
/// appended, failing only when the message exceeds the cipher's block-count
/// limit (far above 2^32 bytes).
#[verifier::external_body]
fn chacha_encrypt(key: &[u8; 32], nonce: &[u8], plaintext: &[u8]) -> (r: Result<
    Vec<u8>,
    VaultError,
>)
    requires
        nonce@.len() == 12,
    ensures
        r matches Ok(ct) ==> ct@ == aead_sealed(key@, nonce@, plaintext@) && ct@.len()
            == plaintext@.len() + 16,
        plaintext@.len() < 0x1_0000_0000 ==> r is Ok,
        r matches Err(e) ==> e == VaultError::AeadFailure,
{
    let cipher = ChaCha20Poly1305::new(key.into());
    let nonce_arr = chacha20poly1305::Nonce::try_from(nonce).unwrap();
    match cipher.encrypt(&nonce_arr, plaintext) {
        Ok(ct) => Ok(ct),
        Err(_) => Err(VaultError::AeadFailure),
    }
}

/// Relies on `chacha20poly1305::ChaCha20Poly1305` through `aead::Aead::decrypt`:
/// opening succeeds exactly on ciphertexts sealed under (key, nonce), and
/// returns the plaintext they were sealed from; any other input fails the
/// tag check.
#[verifier::external_body]
fn chacha_decrypt(key: &[u8; 32], nonce: &[u8], ciphertext: &[u8]) -> (r: Result<
    Vec<u8>,
    VaultError,
>)
    requires
        nonce@.len() == 12,
    ensures
        r matches Ok(p) ==> ciphertext@ == aead_sealed(key@, nonce@, p@),
        forall|p: Seq<u8>| #[trigger] aead_sealed(key@, nonce@, p) == ciphertext@ ==> r is Ok,
        forall|p: Seq<u8>| #[trigger] aead_sealed(key@, nonce@, p) == ciphertext@ ==> (
        r matches Ok(q) ==> q@ == p),
        r matches Err(e) ==> e == VaultError::AeadFailure,
{
    let cipher = ChaCha20Poly1305::new(key.into());
    let nonce_arr = chacha20poly1305::Nonce::try_from(nonce).unwrap();
    match cipher.decrypt(&nonce_arr, ciphertext) {
        Ok(p) => Ok(p),
        Err(_) => Err(VaultError::AeadFailure),
    }
}

/// Whether `sealed` is a ciphertext produced under (key, nonce).
pub open spec fn spec_opens(key: Seq<u8>, nonce: Seq<u8>, sealed: Seq<u8>) -> bool {
    exists|q: Seq<u8>| aead_sealed(key, nonce, q) == sealed
}

/// The plaintext that seals to `sealed` under (key, nonce); meaningful only
/// when `spec_opens` holds.
pub open spec fn spec_opened(key: Seq<u8>, nonce: Seq<u8>, sealed: Seq<u8>) -> Seq<u8> {
    choose|q: Seq<u8>| aead_sealed(key, nonce, q) == sealed
}

/// The 12-byte AEAD nonce: little-endian sequence number, then the
/// cryptographic dimension packed with the fragment index.
pub open spec fn spec_nonce(sequence_id: u64, fragment_index: u32, crypto_dim: u32) -> Seq<u8> {
    u64_le(sequence_id) + u32_le((crypto_dim + 128 * fragment_index) as u32)
}

/// Builds the nonce for one fragment.
pub fn derive_nonce(sequence_id: u64, fragment_index: u32, coordinate: &DimensionalCoordinate) -> (r:
    Vec<u8>)
    requires
        coordinate.wf(),
        fragment_index < 8,
    ensures
        r@ == spec_nonce(sequence_id, fragment_index, coordinate.cryptographic),
        r@.len() == 12,
{
    let mut nonce: Vec<u8> = Vec::new();
    push_u64_le(&mut nonce, sequence_id);
    push_u32_le(&mut nonce, coordinate.cryptographic + 128 * fragment_index);
    nonce
}

/// Nonce uniqueness: distinct (sequence, fragment index, crypto dimension)
/// triples never produce the same nonce, so no nonce is ever reused under
/// one key.
pub proof fn lemma_nonce_unique(
    s1: u64,
    i1: u32,
    c1: u32,
    s2: u64,
    i2: u32,
    c2: u32,
)
    requires
        i1 < 8,
        i2 < 8,
        c1 < 128,
        c2 < 128,
        spec_nonce(s1, i1, c1) == spec_nonce(s2, i2, c2),
    ensures
        s1 == s2,
        i1 == i2,
        c1 == c2,
{
    let n1 = spec_nonce(s1, i1, c1);
    let n2 = spec_nonce(s2, i2, c2);
    assert(n1.subrange(0, 8) =~= u64_le(s1));
    assert(n2.subrange(0, 8) =~= u64_le(s2));
    assert(n1.subrange(8, 12) =~= u32_le((c1 + 128 * i1) as u32));
    assert(n2.subrange(8, 12) =~= u32_le((c2 + 128 * i2) as u32));
    lemma_u64_le_injective(s1, s2);
    lemma_u32_le_injective((c1 + 128 * i1) as u32, (c2 + 128 * i2) as u32);
    assert(c1 + 128 * i1 == c2 + 128 * i2);
    assert(c1 == c2 && i1 == i2) by (nonlinear_arith)
        requires
            c1 < 128,
            c2 < 128,
            i1 < 8,
            i2 < 8,
            c1 + 128 * i1 == c2 + 128 * i2,
    ;
}

/// AEAD round trip, as a machine-checked statement over every input:
/// sealing a payload and opening the result under the same key state and
/// the same (sequence, index, coordinate) nonce always returns the payload.
pub fn check_aead_round_trip(
    handler: &CryptoDimensionHandler,
    payload: &[u8],
    coordinate: &DimensionalCoordinate,
    nonce_seed: u64,
    fragment_index: u32,
) -> (r: bool)
    requires
        coordinate.wf(),
        fragment_index < 8,
        payload@.len() < 0x1_0000_0000,
    ensures
        r,
{
    let sealed = match handler.encrypt_fragment(payload, coordinate, nonce_seed, fragment_index) {
        Ok(ct) => ct,
        Err(_) => {
            proof {
                assert(false);
            }
            return false;
        },
    };
    let opened = match handler.decrypt_fragment(
        sealed.as_slice(),
        coordinate,
        nonce_seed,
        fragment_index,
    ) {
        Ok(p) => p,
        Err(_) => {
            proof {
                assert(false);
            }
            return false;
        },
    };
    crate::wire::bytes_eq(opened.as_slice(), payload)
}

/// Holds the live AEAD keys and the rotation schedule.
pub struct CryptoDimensionHandler {
    key: [u8; 32],
    prior_key: Option<[u8; 32]>,
    key_rotation_interval_ms: u64,
    last_rotation_ms: u64,
}

impl CryptoDimensionHandler {
    /// The bytes of the current key.
    pub closed spec fn spec_key(self) -> Seq<u8> {
        self.key@
    }

    /// The bytes of the retained previous key, if a rotation has happened.
    pub closed spec fn spec_prior_key(self) -> Option<Seq<u8>> {
        match self.prior_key {
            Some(k) => Some(k@),
            None => None,
        }
    }

    pub closed spec fn spec_rotation_interval_ms(self) -> u64 {
        self.key_rotation_interval_ms
    }

    pub closed spec fn spec_last_rotation_ms(self) -> u64 {
        self.last_rotation_ms
    }

    /// Installs the master key with the default five-minute rotation
    /// interval.
    pub fn new(master_key: &[u8; 32], now_ms: u64) -> (r: Self)
        ensures
            r.spec_key() == master_key@,
            r.spec_prior_key() is None,
            r.spec_rotation_interval_ms() == 300_000,
            r.spec_last_rotation_ms() == now_ms,
    {
        CryptoDimensionHandler {
            key: *master_key,
            prior_key: None,
            key_rotation_interval_ms: 300_000,
            last_rotation_ms: now_ms,
        }
    }

    /// Seals a fragment payload under the current key and the nonce of
    /// (sequence, index, crypto dimension).
    pub fn encrypt_fragment(
        &self,
        fragment: &[u8],
        coordinate: &DimensionalCoordinate,
        nonce_seed: u64,
        fragment_index: u32,
    ) -> (r: Result<Vec<u8>, VaultError>)
        requires
            coordinate.wf(),
            fragment_index < 8,
        ensures
            r matches Ok(ct) ==> ct@ == aead_sealed(
                self.spec_key(),
                spec_nonce(nonce_seed, fragment_index, coordinate.cryptographic),
                fragment@,
            ) && ct@.len() == fragment@.len() + 16,
            fragment@.len() < 0x1_0000_0000 ==> r is Ok,
            r matches Err(e) ==> e == VaultError::AeadFailure,
    {
        let nonce = derive_nonce(nonce_seed, fragment_index, coordinate);
        chacha_encrypt(&self.key, nonce.as_slice(), fragment)
    }

    /// Opens a sealed fragment, trying the current key first and then the
    /// retained prior key.  Succeeds exactly on ciphertexts sealed under one
    /// of the live keys with this fragment's nonce, and returns the
    /// plaintext they were sealed from.
    pub fn decrypt_fragment(
        &self,
        encrypted_fragment: &[u8],
        coordinate: &DimensionalCoordinate,
        nonce_seed: u64,
        fragment_index: u32,
    ) -> (r: Result<Vec<u8>, VaultError>)
        requires
            coordinate.wf(),
            fragment_index < 8,
        ensures
            ({
                let nonce = spec_nonce(nonce_seed, fragment_index, coordinate.cryptographic);
                &&& (r matches Ok(p) ==> encrypted_fragment@ == aead_sealed(
                    self.spec_key(),
                    nonce,
                    p@,
                ) || (self.spec_prior_key() matches Some(pk) && encrypted_fragment@
                    == aead_sealed(pk, nonce, p@)))
                &&& (forall|p: Seq<u8>| #[trigger]
                    aead_sealed(self.spec_key(), nonce, p) == encrypted_fragment@ ==> (
                    r matches Ok(q) && q@ == p))
                &&& (!spec_opens(self.spec_key(), nonce, encrypted_fragment@) ==> (
                self.spec_prior_key() matches Some(pk) ==> (forall|p: Seq<u8>| #[trigger]
                    aead_sealed(pk, nonce, p) == encrypted_fragment@ ==> (r matches Ok(q) && q@
                        == p))))
                &&& (r matches Err(e) ==> e == VaultError::AeadFailure)
            }),
    {
        let nonce = derive_nonce(nonce_seed, fragment_index, coordinate);
        match chacha_decrypt(&self.key, nonce.as_slice(), encrypted_fragment) {
            Ok(p) => Ok(p),
            Err(_) => {
                match &self.prior_key {
                    Some(pk) => chacha_decrypt(pk, nonce.as_slice(), encrypted_fragment),
                    None => Err(VaultError::AeadFailure),
                }
            },
        }
    }

    /// Whether the rotation clock has never been anchored.
    pub fn last_rotation_unset(&self) -> (r: bool)
        ensures
            r <==> self.spec_last_rotation_ms() == 0,
    {
        self.last_rotation_ms == 0
    }

    /// Starts the rotation clock without swapping keys.
    pub fn anchor(&mut self, now_ms: u64)
        ensures
            final(self).spec_key() == old(self).spec_key(),
            final(self).spec_prior_key() == old(self).spec_prior_key(),
            final(self).spec_rotation_interval_ms() == old(self).spec_rotation_interval_ms(),
            final(self).spec_last_rotation_ms() == now_ms,
    {
        self.last_rotation_ms = now_ms;
    }

    /// Whether the rotation interval has elapsed since the last rotation.
    pub fn needs_rotation(&self, now_ms: u64) -> (r: bool)
        ensures
            r <==> (self.spec_last_rotation_ms() <= now_ms && now_ms
                - self.spec_last_rotation_ms() >= self.spec_rotation_interval_ms()),
    {
        self.last_rotation_ms <= now_ms && now_ms - self.last_rotation_ms
            >= self.key_rotation_interval_ms
    }

    /// Swaps in a fresh key and retains the old one for in-flight
    /// fragments.
    pub fn rotate(&mut self, new_key: &[u8; 32], now_ms: u64)
        ensures
            final(self).spec_key() == new_key@,
            final(self).spec_prior_key() == Some(old(self).spec_key()),
            final(self).spec_rotation_interval_ms() == old(self).spec_rotation_interval_ms(),
            final(self).spec_last_rotation_ms() == now_ms,
    {
        self.prior_key = Some(self.key);
        self.key = *new_key;
        self.last_rotation_ms = now_ms;
    }
}

} // verus!
