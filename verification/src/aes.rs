//! Adapter to the external single-block cipher: AES from the `aesti` crate.
//!
//! The EME transform only needs "encrypt one 16-byte block under key K" and
//! "decrypt one 16-byte block under key K". Both are deterministic functions
//! of the key bytes and the input block alone; their values are named by the
//! uninterpreted functions `aes_enc` and `aes_dec` below, and every contract
//! of the transform speaks of those names.

use vstd::prelude::*;

verus! {

/// The key lengths the block cipher accepts: AES-128, AES-192, AES-256.
pub open spec fn valid_aes_key(k: Seq<u8>) -> bool {
    k.len() == 16 || k.len() == 24 || k.len() == 32
}

/// What AES encryption of one 16-byte block under key `k` returns.
pub uninterp spec fn aes_enc(k: Seq<u8>, b: Seq<u8>) -> Seq<u8>;

/// What AES decryption of one 16-byte block under key `k` returns.
pub uninterp spec fn aes_dec(k: Seq<u8>, b: Seq<u8>) -> Seq<u8>;

/// AES encryption under key `k`, as a function on blocks.
pub open spec fn aes_enc_fn(k: Seq<u8>) -> spec_fn(Seq<u8>) -> Seq<u8> {
    |b: Seq<u8>| aes_enc(k, b)
}

/// AES decryption under key `k`, as a function on blocks.
pub open spec fn aes_dec_fn(k: Seq<u8>) -> spec_fn(Seq<u8>) -> Seq<u8> {
    |b: Seq<u8>| aes_dec(k, b)
}

/// Relies on `aesti::Aes::with_key` and `aesti::Aes::encrypt`: `with_key`
/// returns `Ok` exactly on keys of length 16, 24 or 32, and `encrypt` writes
/// the AES encryption of `input`, a value determined by the key bytes and
/// the input block alone. AES decryption under the same key inverts it.
#[verifier::external_body]
pub(crate) fn encrypt_aes(out: &mut [u8; 16], k: &[u8], input: &[u8; 16])
    requires
        valid_aes_key(k@),
    ensures
        final(out)@ == aes_enc(k@, input@),
        aes_dec(k@, final(out)@) == input@,
{
    let aes = aesti::Aes::with_key(k).unwrap();
    aes.encrypt(out, input);
}

/// Relies on `aesti::Aes::with_key` and `aesti::Aes::decrypt`: `with_key`
/// returns `Ok` exactly on keys of length 16, 24 or 32, and `decrypt` writes
/// the AES decryption of `input`, a value determined by the key bytes and
/// the input block alone. AES encryption under the same key inverts it.
#[verifier::external_body]
pub(crate) fn decrypt_aes(out: &mut [u8; 16], k: &[u8], input: &[u8; 16])
    requires
        valid_aes_key(k@),
    ensures
        final(out)@ == aes_dec(k@, input@),
        aes_enc(k@, final(out)@) == input@,
{
    let aes = aesti::Aes::with_key(k).unwrap();
    aes.decrypt(out, input);
}

/// AES-encrypt the block in `out` in place.
pub fn encrypt_aes_ip(out: &mut [u8; 16], k: &[u8])
    requires
        valid_aes_key(k@),
    ensures
        final(out)@ == aes_enc(k@, old(out)@),
        aes_dec(k@, final(out)@) == old(out)@,
{
    let x: [u8; 16] = *out;
    encrypt_aes(out, k, &x);
}

/// AES-decrypt the block in `out` in place.
pub fn decrypt_aes_ip(out: &mut [u8; 16], k: &[u8])
    requires
        valid_aes_key(k@),
    ensures
        final(out)@ == aes_dec(k@, old(out)@),
        aes_enc(k@, final(out)@) == old(out)@,
{
    let x: [u8; 16] = *out;
    decrypt_aes(out, k, &x);
}

/// Whether a key is one the block cipher accepts.
pub fn key_is_valid(k: &[u8]) -> (r: bool)
    ensures
        r == valid_aes_key(k@),
{
    k.len() == 16 || k.len() == 24 || k.len() == 32
}

} // verus!
