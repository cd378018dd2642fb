//! EME (ECB-Mix-ECB): a tweakable wide-block cipher over 512-byte sectors,
//! built from a 128-bit block cipher (AES via the `aesti` crate).
//!
//! The construction is the EME-32 instantiation: block size n = 128 bits,
//! m = 32 blocks, message size 512 bytes. Each call is a pure, stateless
//! function from (key, tweak, plaintext) to ciphertext, or back; decryption
//! is the exact algebraic inverse of encryption (`lemma_eme_inverse`).

use vstd::prelude::*;

pub mod aes;
pub mod block;
pub mod transform;

use crate::aes::{aes_dec_fn, aes_enc_fn, key_is_valid, valid_aes_key};
use crate::transform::{eme_32_aes_dec, eme_32_aes_enc, eme_dec_spec, eme_enc_spec};

verus! {

/// The two ways a call can fail: a key the block cipher refuses, or a
/// buffer that is not exactly the fixed size the transform works on.
#[derive(Debug, Clone, Copy, PartialEq, Eq, Structural)]
pub enum EmeError {
    /// The key length is not one the block cipher accepts.
    InvalidKey,
    /// The tweak is not 16 bytes, or the message is not 512 bytes.
    InvalidInputLength,
}

/// Encrypt a 512-byte plaintext under `key` and a 16-byte `tweak`.
///
/// Fails with `InvalidInputLength` when the tweak or plaintext has the wrong
/// length, with `InvalidKey` when the key length is not 16, 24 or 32, and in
/// both cases before any cipher call; succeeds on all other inputs.
pub fn eme_encrypt(key: &[u8], tweak: &[u8], plaintext: &[u8]) -> (r: Result<[u8; 512], EmeError>)
    ensures
        tweak@.len() == 16 && plaintext@.len() == 512 && valid_aes_key(key@) ==> r is Ok
            && r->Ok_0@ == eme_enc_spec(aes_enc_fn(key@), tweak@, plaintext@) && eme_dec_spec(
            aes_enc_fn(key@),
            aes_dec_fn(key@),
            tweak@,
            r->Ok_0@,
        ) == plaintext@,
        tweak@.len() != 16 || plaintext@.len() != 512 ==> r == Result::<
            [u8; 512],
            EmeError,
        >::Err(EmeError::InvalidInputLength),
        tweak@.len() == 16 && plaintext@.len() == 512 && !valid_aes_key(key@) ==> r == Result::<
            [u8; 512],
            EmeError,
        >::Err(EmeError::InvalidKey),
{
    if tweak.len() != 16 || plaintext.len() != 512 {
        return Err(EmeError::InvalidInputLength);
    }
    if !key_is_valid(key) {
        return Err(EmeError::InvalidKey);
    }
    let mut t = [0u8; 16];
    for i in 0..16usize
        invariant
            tweak@.len() == 16,
            forall|kk: int| 0 <= kk < i ==> t@[kk] == tweak@[kk],
    {
        t[i] = tweak[i];
    }
    let mut p = [0u8; 512];
    for i in 0..512usize
        invariant
            plaintext@.len() == 512,
            forall|kk: int| 0 <= kk < i ==> p@[kk] == plaintext@[kk],
    {
        p[i] = plaintext[i];
    }
    proof {
        assert(t@ =~= tweak@);
        assert(p@ =~= plaintext@);
    }
    let mut c = [0u8; 512];
    eme_32_aes_enc(&mut c, key, &t, &p);
    Ok(c)
}

/// Decrypt a 512-byte ciphertext under `key` and a 16-byte `tweak`.
///
/// Fails with `InvalidInputLength` when the tweak or ciphertext has the
/// wrong length, with `InvalidKey` when the key length is not 16, 24 or 32,
/// and in both cases before any cipher call; succeeds on all other inputs.
pub fn eme_decrypt(key: &[u8], tweak: &[u8], ciphertext: &[u8]) -> (r: Result<[u8; 512], EmeError>)
    ensures
        tweak@.len() == 16 && ciphertext@.len() == 512 && valid_aes_key(key@) ==> r is Ok
            && r->Ok_0@ == eme_dec_spec(aes_enc_fn(key@), aes_dec_fn(key@), tweak@, ciphertext@)
            && eme_enc_spec(aes_enc_fn(key@), tweak@, r->Ok_0@) == ciphertext@,
        tweak@.len() != 16 || ciphertext@.len() != 512 ==> r == Result::<
            [u8; 512],
            EmeError,
        >::Err(EmeError::InvalidInputLength),
        tweak@.len() == 16 && ciphertext@.len() == 512 && !valid_aes_key(key@) ==> r == Result::<
            [u8; 512],
            EmeError,
        >::Err(EmeError::InvalidKey),
{
    if tweak.len() != 16 || ciphertext.len() != 512 {
        return Err(EmeError::InvalidInputLength);
    }
    if !key_is_valid(key) {
        return Err(EmeError::InvalidKey);
    }
    let mut t = [0u8; 16];
    for i in 0..16usize
        invariant
            tweak@.len() == 16,
            forall|kk: int| 0 <= kk < i ==> t@[kk] == tweak@[kk],
    {
        t[i] = tweak[i];
    }
    let mut c = [0u8; 512];
    for i in 0..512usize
        invariant
            ciphertext@.len() == 512,
            forall|kk: int| 0 <= kk < i ==> c@[kk] == ciphertext@[kk],
    {
        c[i] = ciphertext[i];
    }
    proof {
        assert(t@ =~= tweak@);
        assert(c@ =~= ciphertext@);
    }
    let mut p = [0u8; 512];
    eme_32_aes_dec(&mut p, key, &t, &c);
    Ok(p)
}

} // verus!
