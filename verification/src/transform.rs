//! The EME transform: the three-pass encrypt algorithm over 32 blocks of 16
//! bytes, and its algebraic inverse.
//!
//! The whole pipeline is specified over an arbitrary block function
//! `e: spec_fn(Seq<u8>) -> Seq<u8>` (and `d` for the inverse direction), so
//! that the inverse law can be stated and proved of any block cipher pair;
//! the executable functions instantiate `e` and `d` with AES under the
//! caller's key.

use vstd::prelude::*;

use crate::aes::{
    aes_dec,
    aes_dec_fn,
    aes_enc,
    aes_enc_fn,
    decrypt_aes_ip,
    encrypt_aes,
    encrypt_aes_ip,
    valid_aes_key,
};
use crate::block::{
    double_block,
    double_n,
    lemma_xorb_assoc,
    lemma_xorb_cancel,
    lemma_xorb_comm,
    lemma_xorb_self,
    lemma_xorb_zero,
    mult_by_2,
    mult_by_2_ip,
    xor_blocks,
    xor_blocks_ip,
    xorb,
    zero_block,
};

verus! {

/// Block `j` (16 bytes) of a 512-byte message.
pub open spec fn block_of(s: Seq<u8>, j: int) -> Seq<u8> {
    s.subrange(16 * j, 16 * j + 16)
}

/// XOR-sum of the blocks `f(lo)`, ..., `f(hi - 1)`.
pub open spec fn xor_sum(f: spec_fn(int) -> Seq<u8>, lo: int, hi: int) -> Seq<u8>
    decreases hi - lo,
{
    if hi <= lo {
        zero_block()
    } else {
        xorb(xor_sum(f, lo, hi - 1), f(hi - 1))
    }
}

/// The doubling mask for block `j`: `2^(j+1) * e(0)`, the value `L` holds
/// when passes 1 and 3 reach block `j`.
pub open spec fn lmask(e: spec_fn(Seq<u8>) -> Seq<u8>, j: int) -> Seq<u8> {
    double_n(double_block(e(zero_block())), j)
}

/// Pass 1 of encryption: `PPP[j] = e(P[j] xor L_j)`.
pub open spec fn enc_ppp(e: spec_fn(Seq<u8>) -> Seq<u8>, p: Seq<u8>, j: int) -> Seq<u8> {
    e(xorb(block_of(p, j), lmask(e, j)))
}

/// The mixing input: `MP = T xor PPP[0] xor ... xor PPP[31]`.
pub open spec fn enc_mp(e: spec_fn(Seq<u8>) -> Seq<u8>, t: Seq<u8>, p: Seq<u8>) -> Seq<u8> {
    xorb(t, xor_sum(|j: int| enc_ppp(e, p, j), 0, 32))
}

/// The encrypted mixing value: `MC = e(MP)`.
pub open spec fn enc_mc(e: spec_fn(Seq<u8>) -> Seq<u8>, t: Seq<u8>, p: Seq<u8>) -> Seq<u8> {
    e(enc_mp(e, t, p))
}

/// The mixing mask: `M = MP xor MC`.
pub open spec fn enc_mask(e: spec_fn(Seq<u8>) -> Seq<u8>, t: Seq<u8>, p: Seq<u8>) -> Seq<u8> {
    xorb(enc_mp(e, t, p), enc_mc(e, t, p))
}

/// Pass 2 of encryption for blocks 1..31: `CCC[j] = PPP[j] xor 2^j * M`.
pub open spec fn enc_ccc_tail(
    e: spec_fn(Seq<u8>) -> Seq<u8>,
    t: Seq<u8>,
    p: Seq<u8>,
    j: int,
) -> Seq<u8> {
    xorb(enc_ppp(e, p, j), double_n(enc_mask(e, t, p), j))
}

/// Pass 2 of encryption: block 0 carries the tweak-mixing correction,
/// `CCC[0] = MC xor T xor CCC[1] xor ... xor CCC[31]`.
pub open spec fn enc_ccc(
    e: spec_fn(Seq<u8>) -> Seq<u8>,
    t: Seq<u8>,
    p: Seq<u8>,
    j: int,
) -> Seq<u8> {
    if j == 0 {
        xorb(xorb(enc_mc(e, t, p), t), xor_sum(|i: int| enc_ccc_tail(e, t, p, i), 1, 32))
    } else {
        enc_ccc_tail(e, t, p, j)
    }
}

/// Pass 3 of encryption: `C[j] = e(CCC[j]) xor L_j`.
pub open spec fn enc_block(
    e: spec_fn(Seq<u8>) -> Seq<u8>,
    t: Seq<u8>,
    p: Seq<u8>,
    j: int,
) -> Seq<u8> {
    xorb(e(enc_ccc(e, t, p, j)), lmask(e, j))
}

/// The whole EME encryption of a 512-byte plaintext.
pub open spec fn eme_enc_spec(e: spec_fn(Seq<u8>) -> Seq<u8>, t: Seq<u8>, p: Seq<u8>) -> Seq<u8> {
    Seq::new(512, |i: int| enc_block(e, t, p, i / 16)[i % 16])
}

/// Pass 1 of decryption: `CCC[j] = d(C[j] xor L_j)`. The mask `L` is still
/// derived from `e`, as the encrypt side derives it.
pub open spec fn dec_ccc(
    e: spec_fn(Seq<u8>) -> Seq<u8>,
    d: spec_fn(Seq<u8>) -> Seq<u8>,
    c: Seq<u8>,
    j: int,
) -> Seq<u8> {
    d(xorb(block_of(c, j), lmask(e, j)))
}

/// The recovered mixing value: `MC = T xor CCC[0] xor ... xor CCC[31]`.
pub open spec fn dec_mc(
    e: spec_fn(Seq<u8>) -> Seq<u8>,
    d: spec_fn(Seq<u8>) -> Seq<u8>,
    t: Seq<u8>,
    c: Seq<u8>,
) -> Seq<u8> {
    xorb(t, xor_sum(|j: int| dec_ccc(e, d, c, j), 0, 32))
}

/// The recovered mixing input: `MP = d(MC)`.
pub open spec fn dec_mp(
    e: spec_fn(Seq<u8>) -> Seq<u8>,
    d: spec_fn(Seq<u8>) -> Seq<u8>,
    t: Seq<u8>,
    c: Seq<u8>,
) -> Seq<u8> {
    d(dec_mc(e, d, t, c))
}

/// The mixing mask, recovered: `M = MP xor MC`.
pub open spec fn dec_mask(
    e: spec_fn(Seq<u8>) -> Seq<u8>,
    d: spec_fn(Seq<u8>) -> Seq<u8>,
    t: Seq<u8>,
    c: Seq<u8>,
) -> Seq<u8> {
    xorb(dec_mp(e, d, t, c), dec_mc(e, d, t, c))
}

/// Pass 2 of decryption for blocks 1..31: `PPP[j] = CCC[j] xor 2^j * M`.
pub open spec fn dec_ppp_tail(
    e: spec_fn(Seq<u8>) -> Seq<u8>,
    d: spec_fn(Seq<u8>) -> Seq<u8>,
    t: Seq<u8>,
    c: Seq<u8>,
    j: int,
) -> Seq<u8> {
    xorb(dec_ccc(e, d, c, j), double_n(dec_mask(e, d, t, c), j))
}

/// Pass 2 of decryption: `PPP[0] = MP xor T xor PPP[1] xor ... xor PPP[31]`.
pub open spec fn dec_ppp(
    e: spec_fn(Seq<u8>) -> Seq<u8>,
    d: spec_fn(Seq<u8>) -> Seq<u8>,
    t: Seq<u8>,
    c: Seq<u8>,
    j: int,
) -> Seq<u8> {
    if j == 0 {
        xorb(xorb(dec_mp(e, d, t, c), t), xor_sum(|i: int| dec_ppp_tail(e, d, t, c, i), 1, 32))
    } else {
        dec_ppp_tail(e, d, t, c, j)
    }
}

/// Pass 3 of decryption: `P[j] = d(PPP[j]) xor L_j`.
pub open spec fn dec_block(
    e: spec_fn(Seq<u8>) -> Seq<u8>,
    d: spec_fn(Seq<u8>) -> Seq<u8>,
    t: Seq<u8>,
    c: Seq<u8>,
    j: int,
) -> Seq<u8> {
    xorb(d(dec_ppp(e, d, t, c, j)), lmask(e, j))
}

/// The whole EME decryption of a 512-byte ciphertext.
pub open spec fn eme_dec_spec(
    e: spec_fn(Seq<u8>) -> Seq<u8>,
    d: spec_fn(Seq<u8>) -> Seq<u8>,
    t: Seq<u8>,
    c: Seq<u8>,
) -> Seq<u8> {
    Seq::new(512, |i: int| dec_block(e, d, t, c, i / 16)[i % 16])
}

/// Copy block `j` of a 512-byte buffer into a fresh 16-byte block.
fn load_block(s: &[u8; 512], j: usize) -> (r: [u8; 16])
    requires
        j < 32,
    ensures
        r@ == block_of(s@, j as int),
{
    let mut r = [0u8; 16];
    for i in 0..16usize
        invariant
            j < 32,
            forall|kk: int| 0 <= kk < i ==> r@[kk] == s@[16 * (j as int) + kk],
    {
        r[i] = s[16 * j + i];
    }
    proof {
        assert(r@ =~= block_of(s@, j as int));
    }
    r
}

/// Overwrite block `j` of a 512-byte buffer, leaving the other blocks as
/// they were.
fn store_block(s: &mut [u8; 512], j: usize, b: &[u8; 16])
    requires
        j < 32,
    ensures
        block_of(final(s)@, j as int) == b@,
        forall|jj: int| 0 <= jj < 32 && jj != j ==> block_of(final(s)@, jj) == block_of(
            old(s)@,
            jj,
        ),
{
    for i in 0..16usize
        invariant
            j < 32,
            forall|kk: int| 16 * (j as int) <= kk < 16 * (j as int) + i ==> s@[kk] == b@[kk - 16 * (
            j as int)],
            forall|kk: int|
                0 <= kk < 512 && !(16 * (j as int) <= kk < 16 * (j as int) + i) ==> s@[kk] == old(
                    s,
                )@[kk],
    {
        s[16 * j + i] = b[i];
    }
    proof {
        assert(block_of(s@, j as int) =~= b@);
        assert forall|jj: int| 0 <= jj < 32 && jj != j implies block_of(s@, jj) == block_of(
            old(s)@,
            jj,
        ) by {
            assert(block_of(s@, jj) =~= block_of(old(s)@, jj));
        }
    }
}

/// Two 512-byte messages whose 32 blocks agree are equal.
pub proof fn lemma_eq_by_blocks(a: Seq<u8>, b: Seq<u8>)
    requires
        a.len() == 512,
        b.len() == 512,
        forall|j: int| 0 <= j < 32 ==> block_of(a, j) == block_of(b, j),
    ensures
        a == b,
{
    assert forall|i: int| 0 <= i < 512 implies a[i] == b[i] by {
        vstd::arithmetic::div_mod::lemma_fundamental_div_mod(i, 16);
        vstd::arithmetic::div_mod::lemma_mod_bound(i, 16);
        let j = i / 16;
        let r = i % 16;
        assert(0 <= j < 32);
        assert(block_of(a, j)[r] == a[i]);
        assert(block_of(b, j)[r] == b[i]);
    }
    assert(a =~= b);
}

/// Block `j` of the encryption spec is the pass-3 block `j`.
pub proof fn lemma_enc_spec_block(
    e: spec_fn(Seq<u8>) -> Seq<u8>,
    t: Seq<u8>,
    p: Seq<u8>,
    j: int,
)
    requires
        0 <= j < 32,
    ensures
        block_of(eme_enc_spec(e, t, p), j) == enc_block(e, t, p, j),
{
    assert forall|i: int| 0 <= i < 16 implies block_of(eme_enc_spec(e, t, p), j)[i] == enc_block(
        e,
        t,
        p,
        j,
    )[i] by {
        vstd::arithmetic::div_mod::lemma_fundamental_div_mod_converse(16 * j + i, 16, j, i);
    }
    assert(block_of(eme_enc_spec(e, t, p), j) =~= enc_block(e, t, p, j));
}

/// Block `j` of the decryption spec is the pass-3 block `j`.
pub proof fn lemma_dec_spec_block(
    e: spec_fn(Seq<u8>) -> Seq<u8>,
    d: spec_fn(Seq<u8>) -> Seq<u8>,
    t: Seq<u8>,
    c: Seq<u8>,
    j: int,
)
    requires
        0 <= j < 32,
    ensures
        block_of(eme_dec_spec(e, d, t, c), j) == dec_block(e, d, t, c, j),
{
    assert forall|i: int| 0 <= i < 16 implies block_of(eme_dec_spec(e, d, t, c), j)[i] == dec_block(
        e,
        d,
        t,
        c,
        j,
    )[i] by {
        vstd::arithmetic::div_mod::lemma_fundamental_div_mod_converse(16 * j + i, 16, j, i);
    }
    assert(block_of(eme_dec_spec(e, d, t, c), j) =~= dec_block(e, d, t, c, j));
}

/// Two XOR-sums of functions that agree on the summed range are equal.
pub proof fn lemma_xor_sum_congruent(
    f: spec_fn(int) -> Seq<u8>,
    g: spec_fn(int) -> Seq<u8>,
    lo: int,
    hi: int,
)
    requires
        forall|j: int| lo <= j < hi ==> #[trigger] f(j) == g(j),
    ensures
        xor_sum(f, lo, hi) == xor_sum(g, lo, hi),
    decreases hi - lo,
{
    if hi > lo {
        lemma_xor_sum_congruent(f, g, lo, hi - 1);
    }
}

/// An XOR-sum over a nonempty range splits off its first term.
pub proof fn lemma_xor_sum_split_first(f: spec_fn(int) -> Seq<u8>, lo: int, hi: int)
    requires
        lo < hi,
    ensures
        xor_sum(f, lo, hi) == xorb(f(lo), xor_sum(f, lo + 1, hi)),
    decreases hi - lo,
{
    if hi == lo + 1 {
        assert(xor_sum(f, lo, lo) == zero_block());
        assert(xor_sum(f, lo + 1, hi) == zero_block());
        assert(xor_sum(f, lo, hi) == xorb(zero_block(), f(lo)));
        lemma_xorb_comm(zero_block(), f(lo));
    } else {
        lemma_xor_sum_split_first(f, lo, hi - 1);
        assert(xor_sum(f, lo, hi) == xorb(xor_sum(f, lo, hi - 1), f(hi - 1)));
        assert(xor_sum(f, lo + 1, hi) == xorb(xor_sum(f, lo + 1, hi - 1), f(hi - 1)));
        lemma_xorb_assoc(f(lo), xor_sum(f, lo + 1, hi - 1), f(hi - 1));
    }
}

/// The core of the inverse law, from pointwise hypotheses: `d` need only
/// invert `e` on the blocks that this one encryption actually runs through
/// `e` — the 32 masked plaintext blocks, the mixing input, and the 32 CCC
/// blocks. The executable encrypt establishes exactly these facts from its
/// cipher calls.
pub proof fn lemma_eme_dec_of_enc(
    e: spec_fn(Seq<u8>) -> Seq<u8>,
    d: spec_fn(Seq<u8>) -> Seq<u8>,
    t: Seq<u8>,
    p: Seq<u8>,
)
    requires
        t.len() == 16,
        p.len() == 512,
        forall|j: int| 0 <= j < 32 ==> (#[trigger] enc_ppp(e, p, j)).len() == 16,
        forall|j: int|
            0 <= j < 32 ==> d(#[trigger] enc_ppp(e, p, j)) == xorb(block_of(p, j), lmask(e, j)),
        enc_mc(e, t, p).len() == 16,
        d(enc_mc(e, t, p)) == enc_mp(e, t, p),
        forall|j: int| 0 <= j < 32 ==> (#[trigger] e(enc_ccc(e, t, p, j))).len() == 16,
        forall|j: int| 0 <= j < 32 ==> d(#[trigger] e(enc_ccc(e, t, p, j))) == enc_ccc(e, t, p, j),
    ensures
        eme_dec_spec(e, d, t, eme_enc_spec(e, t, p)) == p,
{
    let c = eme_enc_spec(e, t, p);
    let mp = enc_mp(e, t, p);
    let mc = enc_mc(e, t, p);
    let msk = enc_mask(e, t, p);

    // Pass 1 of decryption recovers every CCC block.
    assert forall|j: int| 0 <= j < 32 implies dec_ccc(e, d, c, j) == enc_ccc(e, t, p, j) by {
        lemma_enc_spec_block(e, t, p, j);
        assert(enc_ccc(e, t, p, j).len() == 16);
        lemma_xorb_cancel(e(enc_ccc(e, t, p, j)), lmask(e, j));
        assert(xorb(block_of(c, j), lmask(e, j)) == e(enc_ccc(e, t, p, j)));
    }

    // The mixing value MC is recovered from the CCC sum.
    let fdc = |j: int| dec_ccc(e, d, c, j);
    let fec = |j: int| enc_ccc(e, t, p, j);
    let fet = |i: int| enc_ccc_tail(e, t, p, i);
    lemma_xor_sum_congruent(fdc, fec, 0, 32);
    lemma_xor_sum_split_first(fec, 0, 32);
    lemma_xor_sum_congruent(fec, fet, 1, 32);
    let s1 = xor_sum(fet, 1, 32);
    assert(fec(0) == xorb(xorb(mc, t), s1));
    lemma_xorb_cancel(xorb(mc, t), s1);
    assert(xor_sum(fdc, 0, 32) == xorb(mc, t));
    assert(mp.len() == 16);
    lemma_xorb_comm(mc, t);
    lemma_xorb_assoc(t, t, mc);
    lemma_xorb_self(t);
    lemma_xorb_zero(mc);
    assert(dec_mc(e, d, t, c) == mc);

    // Hence MP and the mixing mask M are recovered.
    assert(dec_mp(e, d, t, c) == mp);
    assert(dec_mask(e, d, t, c) == msk);

    // Pass 2 of decryption recovers every PPP block of 1..31.
    assert forall|j: int| 1 <= j < 32 implies dec_ppp_tail(e, d, t, c, j) == enc_ppp(e, p, j) by {
        assert(dec_ccc(e, d, c, j) == enc_ccc(e, t, p, j));
        assert(enc_ccc(e, t, p, j) == xorb(enc_ppp(e, p, j), double_n(msk, j)));
        assert(enc_ppp(e, p, j).len() == 16);
        lemma_xorb_cancel(enc_ppp(e, p, j), double_n(msk, j));
    }

    // And the correction block PPP[0].
    let fdt = |i: int| dec_ppp_tail(e, d, t, c, i);
    let fep = |j: int| enc_ppp(e, p, j);
    lemma_xor_sum_congruent(fdt, fep, 1, 32);
    lemma_xor_sum_split_first(fep, 0, 32);
    let sp = xor_sum(fep, 1, 32);
    let x = xorb(fep(0), sp);
    assert(mp == xorb(t, x));
    lemma_xorb_comm(t, x);
    lemma_xorb_cancel(x, t);
    assert(xorb(mp, t) == x);
    assert(fep(0).len() == 16);
    lemma_xorb_cancel(fep(0), sp);
    assert(dec_ppp(e, d, t, c, 0) == enc_ppp(e, p, 0));

    // Pass 3 of decryption recovers every plaintext block.
    assert forall|j: int| 0 <= j < 32 implies dec_block(e, d, t, c, j) == block_of(p, j) by {
        assert(dec_ppp(e, d, t, c, j) == enc_ppp(e, p, j));
        assert(d(enc_ppp(e, p, j)) == xorb(block_of(p, j), lmask(e, j)));
        assert(block_of(p, j).len() == 16);
        lemma_xorb_cancel(block_of(p, j), lmask(e, j));
    }

    assert forall|j: int| 0 <= j < 32 implies block_of(eme_dec_spec(e, d, t, c), j) == block_of(
        p,
        j,
    ) by {
        lemma_dec_spec_block(e, d, t, c, j);
    }
    lemma_eq_by_blocks(eme_dec_spec(e, d, t, c), p);
}

/// The mirror of `lemma_eme_dec_of_enc`: re-encrypting what decryption
/// produced gives the ciphertext back, from pointwise hypotheses — `e` need
/// only invert `d` on the blocks that this one decryption actually runs
/// through `d`. The executable decrypt establishes exactly these facts from
/// its cipher calls.
pub proof fn lemma_eme_enc_of_dec(
    e: spec_fn(Seq<u8>) -> Seq<u8>,
    d: spec_fn(Seq<u8>) -> Seq<u8>,
    t: Seq<u8>,
    c: Seq<u8>,
)
    requires
        t.len() == 16,
        c.len() == 512,
        forall|j: int| 0 <= j < 32 ==> (#[trigger] dec_ccc(e, d, c, j)).len() == 16,
        forall|j: int|
            0 <= j < 32 ==> e(#[trigger] dec_ccc(e, d, c, j)) == xorb(block_of(c, j), lmask(e, j)),
        dec_mp(e, d, t, c).len() == 16,
        e(dec_mp(e, d, t, c)) == dec_mc(e, d, t, c),
        forall|j: int| 0 <= j < 32 ==> (#[trigger] d(dec_ppp(e, d, t, c, j))).len() == 16,
        forall|j: int| 0 <= j < 32 ==> e(#[trigger] d(dec_ppp(e, d, t, c, j))) == dec_ppp(e, d, t, c, j),
    ensures
        eme_enc_spec(e, t, eme_dec_spec(e, d, t, c)) == c,
{
    let p = eme_dec_spec(e, d, t, c);
    let dmp = dec_mp(e, d, t, c);
    let dmc = dec_mc(e, d, t, c);

    // Pass 1 of encryption recovers every PPP block of the decryption.
    assert forall|j: int| 0 <= j < 32 implies enc_ppp(e, p, j) == dec_ppp(e, d, t, c, j) by {
        lemma_dec_spec_block(e, d, t, c, j);
        lemma_xorb_cancel(d(dec_ppp(e, d, t, c, j)), lmask(e, j));
        assert(xorb(block_of(p, j), lmask(e, j)) == d(dec_ppp(e, d, t, c, j)));
    }

    // The mixing input MP is recovered from the PPP sum.
    let fep = |j: int| enc_ppp(e, p, j);
    let fdp = |j: int| dec_ppp(e, d, t, c, j);
    let fdt = |i: int| dec_ppp_tail(e, d, t, c, i);
    lemma_xor_sum_congruent(fep, fdp, 0, 32);
    lemma_xor_sum_split_first(fdp, 0, 32);
    lemma_xor_sum_congruent(fdp, fdt, 1, 32);
    let sp = xor_sum(fdt, 1, 32);
    assert(fdp(0) == xorb(xorb(dmp, t), sp));
    lemma_xorb_cancel(xorb(dmp, t), sp);
    assert(xor_sum(fep, 0, 32) == xorb(dmp, t));
    lemma_xorb_comm(dmp, t);
    lemma_xorb_assoc(t, t, dmp);
    lemma_xorb_self(t);
    lemma_xorb_zero(dmp);
    assert(enc_mp(e, t, p) == dmp);

    // Hence MC and the mixing mask M are recovered.
    assert(enc_mc(e, t, p) == dmc);
    assert(enc_mask(e, t, p) == dec_mask(e, d, t, c));

    // Pass 2 of encryption recovers every CCC block of 1..31.
    assert forall|j: int| 1 <= j < 32 implies enc_ccc_tail(e, t, p, j) == dec_ccc(e, d, c, j) by {
        assert(enc_ppp(e, p, j) == dec_ppp(e, d, t, c, j));
        assert(dec_ppp(e, d, t, c, j) == xorb(dec_ccc(e, d, c, j), double_n(dec_mask(e, d, t, c), j)));
        lemma_xorb_cancel(dec_ccc(e, d, c, j), double_n(dec_mask(e, d, t, c), j));
    }

    // And the correction block CCC[0].
    let fet = |i: int| enc_ccc_tail(e, t, p, i);
    let fdc = |j: int| dec_ccc(e, d, c, j);
    lemma_xor_sum_congruent(fet, fdc, 1, 32);
    lemma_xor_sum_split_first(fdc, 0, 32);
    let s1 = xor_sum(fdc, 1, 32);
    let x = xorb(fdc(0), s1);
    assert(dmc == xorb(t, x));
    lemma_xorb_comm(t, x);
    lemma_xorb_cancel(x, t);
    assert(xorb(dmc, t) == x);
    lemma_xorb_cancel(fdc(0), s1);
    assert(enc_ccc(e, t, p, 0) == dec_ccc(e, d, c, 0));

    // Pass 3 of encryption recovers every ciphertext block.
    assert forall|j: int| 0 <= j < 32 implies enc_block(e, t, p, j) == block_of(c, j) by {
        assert(enc_ccc(e, t, p, j) == dec_ccc(e, d, c, j));
        assert(e(dec_ccc(e, d, c, j)) == xorb(block_of(c, j), lmask(e, j)));
        assert(block_of(c, j).len() == 16);
        lemma_xorb_cancel(block_of(c, j), lmask(e, j));
    }

    assert forall|j: int| 0 <= j < 32 implies block_of(eme_enc_spec(e, t, p), j) == block_of(
        c,
        j,
    ) by {
        lemma_enc_spec_block(e, t, p, j);
    }
    lemma_eq_by_blocks(eme_enc_spec(e, t, p), c);
}

/// The inverse law: for every block function `e` that maps 16-byte blocks to
/// 16-byte blocks and every `d` that inverts it, EME decryption with `(e, d)`
/// undoes EME encryption with `e`, for all 16-byte tweaks and 512-byte
/// plaintexts. Instantiating `e` and `d` with block encryption and block
/// decryption under one key gives the law for the full cipher.
pub proof fn lemma_eme_inverse(
    e: spec_fn(Seq<u8>) -> Seq<u8>,
    d: spec_fn(Seq<u8>) -> Seq<u8>,
    t: Seq<u8>,
    p: Seq<u8>,
)
    requires
        t.len() == 16,
        p.len() == 512,
        forall|b: Seq<u8>| b.len() == 16 ==> (#[trigger] e(b)).len() == 16,
        forall|b: Seq<u8>| b.len() == 16 ==> d(#[trigger] e(b)) == b,
    ensures
        eme_dec_spec(e, d, t, eme_enc_spec(e, t, p)) == p,
{
    assert forall|j: int| 0 <= j < 32 implies (#[trigger] enc_ppp(e, p, j)).len() == 16 && d(
        enc_ppp(e, p, j),
    ) == xorb(block_of(p, j), lmask(e, j)) by {
        assert(xorb(block_of(p, j), lmask(e, j)).len() == 16);
        assert(e(xorb(block_of(p, j), lmask(e, j))).len() == 16);
    }
    assert(enc_mp(e, t, p).len() == 16);
    assert(e(enc_mp(e, t, p)).len() == 16);
    assert forall|j: int| 0 <= j < 32 implies (#[trigger] e(enc_ccc(e, t, p, j))).len() == 16 && d(
        e(enc_ccc(e, t, p, j)),
    ) == enc_ccc(e, t, p, j) by {
        assert(enc_ccc(e, t, p, j).len() == 16);
    }
    lemma_eme_dec_of_enc(e, d, t, p);
}

/// EME-32 encryption: encrypt the 512-byte plaintext `p` under key `k` and
/// tweak `t`, writing the ciphertext into `c`.
pub fn eme_32_aes_enc(c: &mut [u8; 512], k: &[u8], t: &[u8; 16], p: &[u8; 512])
    requires
        valid_aes_key(k@),
    ensures
        final(c)@ == eme_enc_spec(aes_enc_fn(k@), t@, p@),
        eme_dec_spec(aes_enc_fn(k@), aes_dec_fn(k@), t@, final(c)@) == p@,
{
    let ghost e = aes_enc_fn(k@);
    let ghost d = aes_dec_fn(k@);
    let ghost pppf = |j: int| enc_ppp(e, p@, j);
    let ghost cccf = |i: int| enc_ccc_tail(e, t@, p@, i);

    let mut zero = [0u8; 16];
    proof {
        assert(zero@ =~= zero_block());
    }
    encrypt_aes_ip(&mut zero, k);
    let mut l = [0u8; 16];
    mult_by_2(&mut l, &zero);
    proof {
        assert(l@ == lmask(e, 0));
    }

    // Pass 1: PPP[j] = e(P[j] xor L), doubling L after each block.
    for j in 0..32usize
        invariant
            valid_aes_key(k@),
            e == aes_enc_fn(k@),
            d == aes_dec_fn(k@),
            zero@ == e(zero_block()),
            l@ == lmask(e, j as int),
            forall|jj: int| 0 <= jj < j ==> block_of(c@, jj) == enc_ppp(e, p@, jj),
            forall|jj: int| 0 <= jj < j ==> (#[trigger] enc_ppp(e, p@, jj)).len() == 16,
            forall|jj: int|
                0 <= jj < j ==> d(#[trigger] enc_ppp(e, p@, jj)) == xorb(
                    block_of(p@, jj),
                    lmask(e, jj),
                ),
    {
        let mut blk = load_block(p, j);
        xor_blocks_ip(&mut blk, &l);
        encrypt_aes_ip(&mut blk, k);
        proof {
            assert(blk@ == enc_ppp(e, p@, j as int));
            assert(d(blk@) == aes_dec(k@, blk@));
        }
        store_block(c, j, &blk);
        mult_by_2_ip(&mut l);
    }

    // Mixing step: MP = T xor (xor-sum of all PPP[j]); MC = e(MP); M = MP xor MC.
    let mut mp = load_block(c, 0);
    xor_blocks_ip(&mut mp, t);
    proof {
        lemma_xorb_zero(enc_ppp(e, p@, 0));
        lemma_xorb_comm(enc_ppp(e, p@, 0), t@);
        assert(xor_sum(pppf, 0, 1) == xorb(xor_sum(pppf, 0, 0), pppf(0)));
        assert(mp@ == xorb(t@, xor_sum(pppf, 0, 1)));
    }
    for j in 1..32usize
        invariant
            valid_aes_key(k@),
            e == aes_enc_fn(k@),
            pppf == (|jj: int| enc_ppp(e, p@, jj)),
            forall|jj: int| 0 <= jj < 32 ==> block_of(c@, jj) == enc_ppp(e, p@, jj),
            mp@ == xorb(t@, xor_sum(pppf, 0, j as int)),
    {
        let blk = load_block(c, j);
        xor_blocks_ip(&mut mp, &blk);
        proof {
            lemma_xorb_assoc(t@, xor_sum(pppf, 0, j as int), pppf(j as int));
            assert(mp@ == xorb(t@, xor_sum(pppf, 0, j as int + 1)));
        }
    }
    proof {
        assert(mp@ == enc_mp(e, t@, p@));
    }
    let mut mc = [0u8; 16];
    encrypt_aes(&mut mc, k, &mp);
    let mut m = [0u8; 16];
    xor_blocks(&mut m, &mp, &mc);
    proof {
        assert(mc@ == enc_mc(e, t@, p@));
        assert(m@ == enc_mask(e, t@, p@));
        assert(enc_mc(e, t@, p@).len() == 16);
        assert(d(mc@) == aes_dec(k@, mc@));
        assert(d(enc_mc(e, t@, p@)) == enc_mp(e, t@, p@));
    }

    // Pass 2 over blocks 1..31: CCC[j] = PPP[j] xor 2^j * M.
    for j in 1..32usize
        invariant
            valid_aes_key(k@),
            e == aes_enc_fn(k@),
            m@ == double_n(enc_mask(e, t@, p@), j as int - 1),
            block_of(c@, 0) == enc_ppp(e, p@, 0),
            forall|jj: int| 1 <= jj < j ==> block_of(c@, jj) == enc_ccc_tail(e, t@, p@, jj),
            forall|jj: int| j <= jj < 32 ==> block_of(c@, jj) == enc_ppp(e, p@, jj),
    {
        mult_by_2_ip(&mut m);
        let mut blk = load_block(c, j);
        xor_blocks_ip(&mut blk, &m);
        proof {
            assert(blk@ == enc_ccc_tail(e, t@, p@, j as int));
        }
        store_block(c, j, &blk);
    }

    // Block 0 carries the correction: CCC[0] = MC xor T xor (xor-sum of CCC[1..31]).
    let mut acc = [0u8; 16];
    xor_blocks(&mut acc, &mc, t);
    proof {
        lemma_xorb_zero(xorb(mc@, t@));
        assert(acc@ == xorb(xorb(enc_mc(e, t@, p@), t@), xor_sum(cccf, 1, 1)));
    }
    for j in 1..32usize
        invariant
            valid_aes_key(k@),
            e == aes_enc_fn(k@),
            cccf == (|i: int| enc_ccc_tail(e, t@, p@, i)),
            forall|jj: int| 1 <= jj < 32 ==> block_of(c@, jj) == enc_ccc_tail(e, t@, p@, jj),
            acc@ == xorb(xorb(enc_mc(e, t@, p@), t@), xor_sum(cccf, 1, j as int)),
    {
        let blk = load_block(c, j);
        xor_blocks_ip(&mut acc, &blk);
        proof {
            lemma_xorb_assoc(
                xorb(enc_mc(e, t@, p@), t@),
                xor_sum(cccf, 1, j as int),
                cccf(j as int),
            );
            assert(acc@ == xorb(xorb(enc_mc(e, t@, p@), t@), xor_sum(cccf, 1, j as int + 1)));
        }
    }
    proof {
        assert(acc@ == enc_ccc(e, t@, p@, 0));
    }
    store_block(c, 0, &acc);

    // Pass 3: C[j] = e(CCC[j]) xor L, with L reset to 2 * e(0).
    let mut l = [0u8; 16];
    mult_by_2(&mut l, &zero);
    proof {
        assert(l@ == lmask(e, 0));
    }
    for j in 0..32usize
        invariant
            valid_aes_key(k@),
            e == aes_enc_fn(k@),
            d == aes_dec_fn(k@),
            l@ == lmask(e, j as int),
            forall|jj: int| 0 <= jj < j ==> block_of(c@, jj) == enc_block(e, t@, p@, jj),
            forall|jj: int| j <= jj < 32 ==> block_of(c@, jj) == enc_ccc(e, t@, p@, jj),
            forall|jj: int| 0 <= jj < j ==> (#[trigger] e(enc_ccc(e, t@, p@, jj))).len() == 16,
            forall|jj: int|
                0 <= jj < j ==> d(#[trigger] e(enc_ccc(e, t@, p@, jj))) == enc_ccc(e, t@, p@, jj),
    {
        let mut blk = load_block(c, j);
        encrypt_aes_ip(&mut blk, k);
        proof {
            assert(blk@ == e(enc_ccc(e, t@, p@, j as int)));
            assert(d(blk@) == aes_dec(k@, blk@));
        }
        xor_blocks_ip(&mut blk, &l);
        proof {
            assert(blk@ == enc_block(e, t@, p@, j as int));
        }
        store_block(c, j, &blk);
        mult_by_2_ip(&mut l);
    }
    proof {
        assert forall|j: int| 0 <= j < 32 implies block_of(c@, j) == block_of(
            eme_enc_spec(e, t@, p@),
            j,
        ) by {
            lemma_enc_spec_block(e, t@, p@, j);
        }
        lemma_eq_by_blocks(c@, eme_enc_spec(e, t@, p@));
        lemma_eme_dec_of_enc(e, d, t@, p@);
    }
}

/// EME-32 decryption: decrypt the 512-byte ciphertext `c` under key `k` and
/// tweak `t`, writing the plaintext into `p`. It runs the three passes of
/// encryption in reverse, with block decryption in passes 1 and 3; the
/// doubling masks are derived from block *encryption* of zero, as on the
/// encrypt side.
pub fn eme_32_aes_dec(p: &mut [u8; 512], k: &[u8], t: &[u8; 16], c: &[u8; 512])
    requires
        valid_aes_key(k@),
    ensures
        final(p)@ == eme_dec_spec(aes_enc_fn(k@), aes_dec_fn(k@), t@, c@),
        eme_enc_spec(aes_enc_fn(k@), t@, final(p)@) == c@,
{
    let ghost e = aes_enc_fn(k@);
    let ghost d = aes_dec_fn(k@);
    let ghost cccf = |j: int| dec_ccc(e, d, c@, j);
    let ghost pppf = |i: int| dec_ppp_tail(e, d, t@, c@, i);

    let mut zero = [0u8; 16];
    proof {
        assert(zero@ =~= zero_block());
    }
    encrypt_aes_ip(&mut zero, k);
    let mut l = [0u8; 16];
    mult_by_2(&mut l, &zero);
    proof {
        assert(l@ == lmask(e, 0));
    }

    // Pass 1: CCC[j] = d(C[j] xor L), doubling L after each block.
    for j in 0..32usize
        invariant
            valid_aes_key(k@),
            e == aes_enc_fn(k@),
            d == aes_dec_fn(k@),
            zero@ == e(zero_block()),
            l@ == lmask(e, j as int),
            forall|jj: int| 0 <= jj < j ==> block_of(p@, jj) == dec_ccc(e, d, c@, jj),
            forall|jj: int| 0 <= jj < j ==> (#[trigger] dec_ccc(e, d, c@, jj)).len() == 16,
            forall|jj: int|
                0 <= jj < j ==> e(#[trigger] dec_ccc(e, d, c@, jj)) == xorb(
                    block_of(c@, jj),
                    lmask(e, jj),
                ),
    {
        let mut blk = load_block(c, j);
        xor_blocks_ip(&mut blk, &l);
        decrypt_aes_ip(&mut blk, k);
        proof {
            assert(blk@ == dec_ccc(e, d, c@, j as int));
            assert(e(blk@) == aes_enc(k@, blk@));
        }
        store_block(p, j, &blk);
        mult_by_2_ip(&mut l);
    }

    // Mixing step, reversed: MC = T xor (xor-sum of all CCC[j]); MP = d(MC).
    let mut mc = load_block(p, 0);
    xor_blocks_ip(&mut mc, t);
    proof {
        lemma_xorb_zero(dec_ccc(e, d, c@, 0));
        lemma_xorb_comm(dec_ccc(e, d, c@, 0), t@);
        assert(xor_sum(cccf, 0, 1) == xorb(xor_sum(cccf, 0, 0), cccf(0)));
        assert(mc@ == xorb(t@, xor_sum(cccf, 0, 1)));
    }
    for j in 1..32usize
        invariant
            valid_aes_key(k@),
            e == aes_enc_fn(k@),
            d == aes_dec_fn(k@),
            cccf == (|jj: int| dec_ccc(e, d, c@, jj)),
            forall|jj: int| 0 <= jj < 32 ==> block_of(p@, jj) == dec_ccc(e, d, c@, jj),
            mc@ == xorb(t@, xor_sum(cccf, 0, j as int)),
    {
        let blk = load_block(p, j);
        xor_blocks_ip(&mut mc, &blk);
        proof {
            lemma_xorb_assoc(t@, xor_sum(cccf, 0, j as int), cccf(j as int));
            assert(mc@ == xorb(t@, xor_sum(cccf, 0, j as int + 1)));
        }
    }
    proof {
        assert(mc@ == dec_mc(e, d, t@, c@));
    }
    let mut mp = mc;
    decrypt_aes_ip(&mut mp, k);
    let mut m = [0u8; 16];
    xor_blocks(&mut m, &mp, &mc);
    proof {
        assert(mp@ == dec_mp(e, d, t@, c@));
        assert(m@ == dec_mask(e, d, t@, c@));
        assert(dec_mp(e, d, t@, c@).len() == 16);
        assert(e(mp@) == aes_enc(k@, mp@));
        assert(e(dec_mp(e, d, t@, c@)) == dec_mc(e, d, t@, c@));
    }

    // Pass 2 over blocks 1..31: PPP[j] = CCC[j] xor 2^j * M.
    for j in 1..32usize
        invariant
            valid_aes_key(k@),
            e == aes_enc_fn(k@),
            d == aes_dec_fn(k@),
            m@ == double_n(dec_mask(e, d, t@, c@), j as int - 1),
            block_of(p@, 0) == dec_ccc(e, d, c@, 0),
            forall|jj: int| 1 <= jj < j ==> block_of(p@, jj) == dec_ppp_tail(e, d, t@, c@, jj),
            forall|jj: int| j <= jj < 32 ==> block_of(p@, jj) == dec_ccc(e, d, c@, jj),
    {
        mult_by_2_ip(&mut m);
        let mut blk = load_block(p, j);
        xor_blocks_ip(&mut blk, &m);
        proof {
            assert(blk@ == dec_ppp_tail(e, d, t@, c@, j as int));
        }
        store_block(p, j, &blk);
    }

    // Block 0 carries the correction: PPP[0] = MP xor T xor (xor-sum of PPP[1..31]).
    let mut acc = [0u8; 16];
    xor_blocks(&mut acc, &mp, t);
    proof {
        lemma_xorb_zero(xorb(mp@, t@));
        assert(acc@ == xorb(xorb(dec_mp(e, d, t@, c@), t@), xor_sum(pppf, 1, 1)));
    }
    for j in 1..32usize
        invariant
            valid_aes_key(k@),
            e == aes_enc_fn(k@),
            d == aes_dec_fn(k@),
            pppf == (|i: int| dec_ppp_tail(e, d, t@, c@, i)),
            forall|jj: int| 1 <= jj < 32 ==> block_of(p@, jj) == dec_ppp_tail(e, d, t@, c@, jj),
            acc@ == xorb(xorb(dec_mp(e, d, t@, c@), t@), xor_sum(pppf, 1, j as int)),
    {
        let blk = load_block(p, j);
        xor_blocks_ip(&mut acc, &blk);
        proof {
            lemma_xorb_assoc(
                xorb(dec_mp(e, d, t@, c@), t@),
                xor_sum(pppf, 1, j as int),
                pppf(j as int),
            );
            assert(acc@ == xorb(xorb(dec_mp(e, d, t@, c@), t@), xor_sum(pppf, 1, j as int + 1)));
        }
    }
    proof {
        assert(acc@ == dec_ppp(e, d, t@, c@, 0));
    }
    store_block(p, 0, &acc);

    // Pass 3: P[j] = d(PPP[j]) xor L, with L reset to 2 * e(0).
    let mut l = [0u8; 16];
    mult_by_2(&mut l, &zero);
    proof {
        assert(l@ == lmask(e, 0));
    }
    for j in 0..32usize
        invariant
            valid_aes_key(k@),
            e == aes_enc_fn(k@),
            d == aes_dec_fn(k@),
            l@ == lmask(e, j as int),
            forall|jj: int| 0 <= jj < j ==> block_of(p@, jj) == dec_block(e, d, t@, c@, jj),
            forall|jj: int| j <= jj < 32 ==> block_of(p@, jj) == dec_ppp(e, d, t@, c@, jj),
            forall|jj: int| 0 <= jj < j ==> (#[trigger] d(dec_ppp(e, d, t@, c@, jj))).len() == 16,
            forall|jj: int|
                0 <= jj < j ==> e(#[trigger] d(dec_ppp(e, d, t@, c@, jj))) == dec_ppp(
                    e,
                    d,
                    t@,
                    c@,
                    jj,
                ),
    {
        let mut blk = load_block(p, j);
        decrypt_aes_ip(&mut blk, k);
        proof {
            assert(blk@ == d(dec_ppp(e, d, t@, c@, j as int)));
            assert(e(blk@) == aes_enc(k@, blk@));
        }
        xor_blocks_ip(&mut blk, &l);
        proof {
            assert(blk@ == dec_block(e, d, t@, c@, j as int));
        }
        store_block(p, j, &blk);
        mult_by_2_ip(&mut l);
    }
    proof {
        assert forall|j: int| 0 <= j < 32 implies block_of(p@, j) == block_of(
            eme_dec_spec(e, d, t@, c@),
            j,
        ) by {
            lemma_dec_spec_block(e, d, t@, c@, j);
        }
        lemma_eq_by_blocks(p@, eme_dec_spec(e, d, t@, c@));
        lemma_eme_enc_of_dec(e, d, t@, c@);
    }
}

} // verus!
