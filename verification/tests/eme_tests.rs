use eme::aes::{decrypt_aes_ip, encrypt_aes_ip, key_is_valid};
use eme::block::{mult_by_2, mult_by_2_ip, xor_blocks, xor_blocks_ip};
use eme::transform::{eme_32_aes_dec, eme_32_aes_enc};
use eme::{eme_decrypt, eme_encrypt, EmeError};

fn sample_key() -> [u8; 32] {
    let mut k = [0u8; 32];
    for (i, b) in k.iter_mut().enumerate() {
        *b = (i as u8).wrapping_mul(7).wrapping_add(3);
    }
    k
}

fn sample_tweak() -> [u8; 16] {
    let mut t = [0u8; 16];
    for (i, b) in t.iter_mut().enumerate() {
        *b = (i as u8).wrapping_mul(31).wrapping_add(1);
    }
    t
}

fn sample_plaintext() -> [u8; 512] {
    let mut p = [0u8; 512];
    for (i, b) in p.iter_mut().enumerate() {
        *b = (i as u8).wrapping_mul(13).wrapping_add((i >> 8) as u8);
    }
    p
}

#[test]
fn it_works() {}

#[test]
fn roundtrip_recovers_plaintext() {
    let k = sample_key();
    let t = sample_tweak();
    let p = sample_plaintext();
    let mut c = [0u8; 512];
    eme_32_aes_enc(&mut c, &k, &t, &p);
    let mut back = [0u8; 512];
    eme_32_aes_dec(&mut back, &k, &t, &c);
    assert_eq!(back[..], p[..]);
}

#[test]
fn roundtrip_all_key_sizes() {
    let t = sample_tweak();
    let p = sample_plaintext();
    for len in [16usize, 24, 32] {
        let key = &sample_key()[..len];
        let c = eme_encrypt(key, &t, &p).unwrap();
        let back = eme_decrypt(key, &t, &c).unwrap();
        assert_eq!(back[..], p[..]);
    }
}

#[test]
fn tweak_sensitivity() {
    let k = sample_key();
    let p = sample_plaintext();
    let t1 = sample_tweak();
    let mut t2 = t1;
    t2[0] ^= 1;
    let mut c1 = [0u8; 512];
    let mut c2 = [0u8; 512];
    eme_32_aes_enc(&mut c1, &k, &t1, &p);
    eme_32_aes_enc(&mut c2, &k, &t2, &p);
    assert_ne!(c1[..], c2[..]);
    // A second distinct pair of tweaks, differing in the last byte.
    let mut t3 = t1;
    t3[15] ^= 0x80;
    let mut c3 = [0u8; 512];
    eme_32_aes_enc(&mut c3, &k, &t3, &p);
    assert_ne!(c1[..], c3[..]);
}

#[test]
fn full_diffusion_bit_flip() {
    let k = sample_key();
    let t = sample_tweak();
    let p = sample_plaintext();
    let mut base = [0u8; 512];
    eme_32_aes_enc(&mut base, &k, &t, &p);
    // Flip one bit in the first, a middle, and the last block, and check
    // that every one of the 32 ciphertext blocks changes each time.
    for &(byte, bit) in &[(0usize, 0u8), (250, 5), (511, 7)] {
        let mut flipped = p;
        flipped[byte] ^= 1 << bit;
        let mut c = [0u8; 512];
        eme_32_aes_enc(&mut c, &k, &t, &flipped);
        for j in 0..32 {
            assert_ne!(base[j * 16..(j + 1) * 16], c[j * 16..(j + 1) * 16]);
        }
    }
}

/// Multiplication by 4 in GF(2^128), written out directly: a two-bit shift
/// across the bytes with the top two bits of byte 15 folded back in.
fn direct_quad(a: &[u8; 16]) -> [u8; 16] {
    let c1 = a[15] >= 128;
    let c2 = (a[15] >> 6) & 1 == 1;
    let mut out = [0u8; 16];
    out[0] = (a[0] << 2) ^ (if c1 { 0x0e } else { 0 }) ^ (if c2 { 0x87 } else { 0 });
    out[1] = ((a[1] << 2) | (a[0] >> 6)) ^ (if c1 { 1 } else { 0 });
    for j in 2..16 {
        out[j] = (a[j] << 2) | (a[j - 1] >> 6);
    }
    out
}

#[test]
fn doubling_twice_is_mult_by_4() {
    let mut x = [0u8; 16];
    for round in 0..64u8 {
        for (i, b) in x.iter_mut().enumerate() {
            *b = (i as u8).wrapping_mul(97).wrapping_add(round.wrapping_mul(29));
        }
        let mut once = [0u8; 16];
        mult_by_2(&mut once, &x);
        let mut twice = once;
        mult_by_2_ip(&mut twice);
        assert_eq!(twice, direct_quad(&x));
    }
}

#[test]
fn doubling_exact_values() {
    // Carry from byte 0 into byte 1, no reduction.
    let mut x = [0u8; 16];
    x[0] = 0x80;
    let mut out = [0u8; 16];
    mult_by_2(&mut out, &x);
    let mut expect = [0u8; 16];
    expect[1] = 1;
    assert_eq!(out, expect);
    // Top bit of byte 15 folds back into byte 0 as 0x87.
    let mut y = [0u8; 16];
    y[15] = 0x80;
    mult_by_2(&mut out, &y);
    let mut expect2 = [0u8; 16];
    expect2[0] = 0x87;
    assert_eq!(out, expect2);
    // In-place doubling agrees with out-of-place.
    let mut z = y;
    mult_by_2_ip(&mut z);
    assert_eq!(z, expect2);
}

#[test]
fn xor_block_ops() {
    let a = [0x5au8; 16];
    let mut b = [0u8; 16];
    for (i, v) in b.iter_mut().enumerate() {
        *v = i as u8;
    }
    let mut out = [0u8; 16];
    xor_blocks(&mut out, &a, &b);
    for i in 0..16 {
        assert_eq!(out[i], 0x5a ^ (i as u8));
    }
    xor_blocks_ip(&mut out, &b);
    assert_eq!(out, a);
}

#[test]
fn zero_sector_is_deterministic_and_nonzero() {
    // Encrypting the all-zero sector with the all-zero tweak under a fixed
    // key: the output is deterministic, far from the plaintext, and decrypts
    // back to zero.
    let key = [0u8; 32];
    let t = [0u8; 16];
    let p = [0u8; 512];
    let c1 = eme_encrypt(&key, &t, &p).unwrap();
    let c2 = eme_encrypt(&key, &t, &p).unwrap();
    assert_eq!(c1[..], c2[..]);
    assert_ne!(c1[..], p[..]);
    for j in 0..32 {
        assert_ne!(c1[j * 16..(j + 1) * 16], [0u8; 16]);
    }
    let back = eme_decrypt(&key, &t, &c1).unwrap();
    assert_eq!(back[..], p[..]);
}

#[test]
fn block_cipher_adapter_roundtrip() {
    // The adapter really encrypts: the block changes, and decrypting it
    // restores the original.
    let k = sample_key();
    let orig = [0x42u8; 16];
    let mut blk = orig;
    encrypt_aes_ip(&mut blk, &k);
    assert_ne!(blk, orig);
    decrypt_aes_ip(&mut blk, &k);
    assert_eq!(blk, orig);
}

#[test]
fn length_rejection_plaintext() {
    let key = sample_key();
    let t = sample_tweak();
    assert_eq!(
        eme_encrypt(&key, &t, &[0u8; 511]),
        Err(EmeError::InvalidInputLength)
    );
    assert_eq!(
        eme_encrypt(&key, &t, &[0u8; 513]),
        Err(EmeError::InvalidInputLength)
    );
    assert_eq!(
        eme_decrypt(&key, &t, &[0u8; 511]),
        Err(EmeError::InvalidInputLength)
    );
    assert_eq!(
        eme_decrypt(&key, &t, &[0u8; 0]),
        Err(EmeError::InvalidInputLength)
    );
}

#[test]
fn length_rejection_tweak() {
    let key = sample_key();
    let p = [0u8; 512];
    assert_eq!(
        eme_encrypt(&key, &[0u8; 15], &p),
        Err(EmeError::InvalidInputLength)
    );
    assert_eq!(
        eme_encrypt(&key, &[0u8; 17], &p),
        Err(EmeError::InvalidInputLength)
    );
    assert_eq!(
        eme_decrypt(&key, &[0u8; 15], &p),
        Err(EmeError::InvalidInputLength)
    );
}

#[test]
fn invalid_key_rejected() {
    let t = sample_tweak();
    let p = [0u8; 512];
    for len in [0usize, 1, 15, 17, 23, 31, 33] {
        let key = vec![0u8; len];
        assert_eq!(eme_encrypt(&key, &t, &p), Err(EmeError::InvalidKey));
        assert_eq!(eme_decrypt(&key, &t, &p), Err(EmeError::InvalidKey));
        assert!(!key_is_valid(&key));
    }
    assert!(key_is_valid(&[0u8; 16]));
    assert!(key_is_valid(&[0u8; 24]));
    assert!(key_is_valid(&[0u8; 32]));
}

#[test]
fn length_check_precedes_key_check() {
    // A bad key and a bad length together: the length failure is reported,
    // before any cipher concern.
    let t = sample_tweak();
    assert_eq!(
        eme_encrypt(&[0u8; 5], &t, &[0u8; 100]),
        Err(EmeError::InvalidInputLength)
    );
}
