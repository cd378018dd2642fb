//! 16-byte block primitives: byte-wise XOR and multiplication by 2 in
//! GF(2^128) under the EME field convention (carry runs from byte `j - 1`
//! into byte `j`; the top bit of byte 15 folds back into byte 0 as 0x87).

use vstd::prelude::*;

verus! {

/// The all-zero 16-byte block.
pub open spec fn zero_block() -> Seq<u8> {
    Seq::new(16, |i: int| 0u8)
}

/// Byte-wise XOR of two 16-byte blocks.
pub open spec fn xorb(a: Seq<u8>, b: Seq<u8>) -> Seq<u8> {
    Seq::new(16, |i: int| a[i] ^ b[i])
}

/// Multiplication by 2 in GF(2^128): shift each byte left by one, carrying
/// each byte's top bit into the next byte, and fold byte 15's top bit back
/// into byte 0 as the reduction constant 0x87.
pub open spec fn double_block(a: Seq<u8>) -> Seq<u8> {
    Seq::new(
        16,
        |j: int|
            if j == 0 {
                if a[15] >= 128 {
                    (a[0] << 1) ^ 0x87u8
                } else {
                    a[0] << 1
                }
            } else {
                if a[j - 1] >= 128 {
                    (a[j] << 1) | 1u8
                } else {
                    a[j] << 1
                }
            },
    )
}

/// `double_block` iterated `n` times.
pub open spec fn double_n(a: Seq<u8>, n: int) -> Seq<u8>
    decreases n,
{
    if n <= 0 {
        a
    } else {
        double_block(double_n(a, n - 1))
    }
}

/// Multiplication by 4 in GF(2^128), computed directly: shift left by two
/// bit positions across the 16 bytes, with the top two bits of byte 15
/// folding back in as the reductions of 0x87 and its double.
pub open spec fn quad_block(a: Seq<u8>) -> Seq<u8> {
    Seq::new(
        16,
        |j: int|
            if j == 0 {
                ((a[0] << 2) ^ (if a[15] >= 128 {
                    0x0eu8
                } else {
                    0u8
                })) ^ (if (a[15] >> 6) & 1 == 1 {
                    0x87u8
                } else {
                    0u8
                })
            } else if j == 1 {
                ((a[1] << 2) | (a[0] >> 6)) ^ (if a[15] >= 128 {
                    1u8
                } else {
                    0u8
                })
            } else {
                (a[j] << 2) | (a[j - 1] >> 6)
            },
    )
}

/// Division by 2 in GF(2^128): the inverse of `double_block`. Whether the
/// reduction was folded in shows in the low bit of byte 0; undo it, shift
/// every byte right by one, and move each byte's low bit back up into the
/// previous byte.
pub open spec fn halve_block(b: Seq<u8>) -> Seq<u8> {
    Seq::new(
        16,
        |j: int|
            if j == 0 {
                ((b[0] ^ (if b[0] & 1 == 1 {
                    0x87u8
                } else {
                    0u8
                })) >> 1) | ((b[1] & 1) << 7)
            } else if j == 15 {
                (b[15] >> 1) | (if b[0] & 1 == 1 {
                    0x80u8
                } else {
                    0u8
                })
            } else {
                (b[j] >> 1) | ((b[j + 1] & 1) << 7)
            },
    )
}

/// Bit-level facts about XOR on bytes: commutativity, associativity,
/// self-inverse, and the zero identity.
proof fn lemma_u8_xor(x: u8, y: u8, z: u8)
    by (bit_vector)
    ensures
        x ^ y == y ^ x,
        (x ^ y) ^ z == x ^ (y ^ z),
        x ^ x == 0u8,
        x ^ 0u8 == x,
{
}

/// XOR of blocks is commutative.
pub proof fn lemma_xorb_comm(a: Seq<u8>, b: Seq<u8>)
    ensures
        xorb(a, b) == xorb(b, a),
{
    assert forall|i: int| 0 <= i < 16 implies xorb(a, b)[i] == xorb(b, a)[i] by {
        lemma_u8_xor(a[i], b[i], 0u8);
    }
    assert(xorb(a, b) =~= xorb(b, a));
}

/// XOR of blocks is associative.
pub proof fn lemma_xorb_assoc(a: Seq<u8>, b: Seq<u8>, c: Seq<u8>)
    ensures
        xorb(xorb(a, b), c) == xorb(a, xorb(b, c)),
{
    assert forall|i: int| 0 <= i < 16 implies xorb(xorb(a, b), c)[i] == xorb(a, xorb(b, c))[i] by {
        lemma_u8_xor(a[i], b[i], c[i]);
    }
    assert(xorb(xorb(a, b), c) =~= xorb(a, xorb(b, c)));
}

/// A block XORed with itself is the zero block.
pub proof fn lemma_xorb_self(a: Seq<u8>)
    ensures
        xorb(a, a) == zero_block(),
{
    assert forall|i: int| 0 <= i < 16 implies xorb(a, a)[i] == zero_block()[i] by {
        lemma_u8_xor(a[i], a[i], 0u8);
    }
    assert(xorb(a, a) =~= zero_block());
}

/// The zero block is the identity of block XOR.
pub proof fn lemma_xorb_zero(a: Seq<u8>)
    requires
        a.len() == 16,
    ensures
        xorb(a, zero_block()) == a,
        xorb(zero_block(), a) == a,
{
    assert forall|i: int| 0 <= i < 16 implies xorb(a, zero_block())[i] == a[i] && xorb(
        zero_block(),
        a,
    )[i] == a[i] by {
        lemma_u8_xor(a[i], 0u8, 0u8);
    }
    assert(xorb(a, zero_block()) =~= a);
    assert(xorb(zero_block(), a) =~= a);
}

/// XORing the same block twice cancels.
pub proof fn lemma_xorb_cancel(a: Seq<u8>, b: Seq<u8>)
    requires
        a.len() == 16,
    ensures
        xorb(xorb(a, b), b) == a,
{
    lemma_xorb_assoc(a, b, b);
    lemma_xorb_self(b);
    lemma_xorb_zero(a);
}

/// Byte 0 of doubling twice, over bytes 0, 15 and 14 of the input.
proof fn lemma_bv_quad_byte0(x: u8, y: u8, z: u8)
    by (bit_vector)
    ensures
        (if (if z >= 128 {
            (y << 1) | 1u8
        } else {
            y << 1
        }) >= 128 {
            ((if y >= 128 {
                (x << 1) ^ 0x87u8
            } else {
                x << 1
            }) << 1) ^ 0x87u8
        } else {
            (if y >= 128 {
                (x << 1) ^ 0x87u8
            } else {
                x << 1
            }) << 1
        }) == ((x << 2) ^ (if y >= 128 {
            0x0eu8
        } else {
            0u8
        })) ^ (if (y >> 6) & 1 == 1 {
            0x87u8
        } else {
            0u8
        }),
{
}

/// Byte 1 of doubling twice, over bytes 1, 0 and 15 of the input.
proof fn lemma_bv_quad_byte1(x: u8, w: u8, y: u8)
    by (bit_vector)
    ensures
        (if (if y >= 128 {
            (w << 1) ^ 0x87u8
        } else {
            w << 1
        }) >= 128 {
            ((if w >= 128 {
                (x << 1) | 1u8
            } else {
                x << 1
            }) << 1) | 1u8
        } else {
            (if w >= 128 {
                (x << 1) | 1u8
            } else {
                x << 1
            }) << 1
        }) == ((x << 2) | (w >> 6)) ^ (if y >= 128 {
            1u8
        } else {
            0u8
        }),
{
}

/// Bytes 2 to 15 of doubling twice, over bytes j, j-1 and j-2 of the input.
proof fn lemma_bv_quad_mid(x: u8, y: u8, z: u8)
    by (bit_vector)
    ensures
        (if (if z >= 128 {
            (y << 1) | 1u8
        } else {
            y << 1
        }) >= 128 {
            ((if y >= 128 {
                (x << 1) | 1u8
            } else {
                x << 1
            }) << 1) | 1u8
        } else {
            (if y >= 128 {
                (x << 1) | 1u8
            } else {
                x << 1
            }) << 1
        }) == (x << 2) | (y >> 6),
{
}

/// Byte 0 of halving after doubling, over bytes 0, 1 and 15 of the input.
proof fn lemma_bv_hd_byte0(x: u8, y: u8, w: u8)
    by (bit_vector)
    ensures
        (((if w >= 128 {
            (x << 1) ^ 0x87u8
        } else {
            x << 1
        }) ^ (if (if w >= 128 {
            (x << 1) ^ 0x87u8
        } else {
            x << 1
        }) & 1 == 1 {
            0x87u8
        } else {
            0u8
        })) >> 1) | (((if x >= 128 {
            (y << 1) | 1u8
        } else {
            y << 1
        }) & 1) << 7) == x,
{
}

/// Bytes 1 to 14 of halving after doubling, over bytes j, j-1 and j+1.
proof fn lemma_bv_hd_mid(x: u8, yp: u8, yn: u8)
    by (bit_vector)
    ensures
        ((if yp >= 128 {
            (x << 1) | 1u8
        } else {
            x << 1
        }) >> 1) | (((if x >= 128 {
            (yn << 1) | 1u8
        } else {
            yn << 1
        }) & 1) << 7) == x,
{
}

/// Byte 15 of halving after doubling, over bytes 15, 14 and 0 of the input.
proof fn lemma_bv_hd_byte15(x: u8, yp: u8, z: u8)
    by (bit_vector)
    ensures
        ((if yp >= 128 {
            (x << 1) | 1u8
        } else {
            x << 1
        }) >> 1) | (if (if x >= 128 {
            (z << 1) ^ 0x87u8
        } else {
            z << 1
        }) & 1 == 1 {
            0x80u8
        } else {
            0u8
        }) == x,
{
}

/// Byte 0 of doubling after halving, over bytes 0, 1 and 15 of the input.
proof fn lemma_bv_dh_byte0(b0: u8, b1: u8, b15: u8)
    by (bit_vector)
    ensures
        (if ((b15 >> 1) | (if b0 & 1 == 1 {
            0x80u8
        } else {
            0u8
        })) >= 128 {
            ((((b0 ^ (if b0 & 1 == 1 {
                0x87u8
            } else {
                0u8
            })) >> 1) | ((b1 & 1) << 7)) << 1) ^ 0x87u8
        } else {
            (((b0 ^ (if b0 & 1 == 1 {
                0x87u8
            } else {
                0u8
            })) >> 1) | ((b1 & 1) << 7)) << 1
        }) == b0,
{
}

/// Byte 1 of doubling after halving, over bytes 0, 1 and 2 of the input.
proof fn lemma_bv_dh_byte1(b0: u8, b1: u8, b2: u8)
    by (bit_vector)
    ensures
        (if (((b0 ^ (if b0 & 1 == 1 {
            0x87u8
        } else {
            0u8
        })) >> 1) | ((b1 & 1) << 7)) >= 128 {
            (((b1 >> 1) | ((b2 & 1) << 7)) << 1) | 1u8
        } else {
            ((b1 >> 1) | ((b2 & 1) << 7)) << 1
        }) == b1,
{
}

/// Bytes 2 to 14 of doubling after halving, over bytes j-1, j and j+1.
proof fn lemma_bv_dh_mid(bp: u8, bj: u8, bn: u8)
    by (bit_vector)
    ensures
        (if ((bp >> 1) | ((bj & 1) << 7)) >= 128 {
            (((bj >> 1) | ((bn & 1) << 7)) << 1) | 1u8
        } else {
            ((bj >> 1) | ((bn & 1) << 7)) << 1
        }) == bj,
{
}

/// Byte 15 of doubling after halving, over bytes 0, 14 and 15 of the input.
proof fn lemma_bv_dh_byte15(b0: u8, b14: u8, b15: u8)
    by (bit_vector)
    ensures
        (if ((b14 >> 1) | ((b15 & 1) << 7)) >= 128 {
            (((b15 >> 1) | (if b0 & 1 == 1 {
                0x80u8
            } else {
                0u8
            })) << 1) | 1u8
        } else {
            ((b15 >> 1) | (if b0 & 1 == 1 {
                0x80u8
            } else {
                0u8
            })) << 1
        }) == b15,
{
}

/// Doubling in GF(2^128) is a bijection on 16-byte blocks: `halve_block`
/// undoes it, and every block is the double of its halving.
pub proof fn lemma_double_block_bijective(a: Seq<u8>)
    requires
        a.len() == 16,
    ensures
        halve_block(double_block(a)) == a,
        double_block(halve_block(a)) == a,
{
    assert forall|j: int| 0 <= j < 16 implies halve_block(double_block(a))[j] == a[j] by {
        if j == 0 {
            lemma_bv_hd_byte0(a[0], a[1], a[15]);
        } else if j == 15 {
            lemma_bv_hd_byte15(a[15], a[14], a[0]);
        } else {
            lemma_bv_hd_mid(a[j], a[j - 1], a[j + 1]);
        }
    }
    assert(halve_block(double_block(a)) =~= a);
    assert forall|j: int| 0 <= j < 16 implies double_block(halve_block(a))[j] == a[j] by {
        if j == 0 {
            lemma_bv_dh_byte0(a[0], a[1], a[15]);
        } else if j == 1 {
            lemma_bv_dh_byte1(a[0], a[1], a[2]);
        } else if j == 15 {
            lemma_bv_dh_byte15(a[0], a[14], a[15]);
        } else {
            lemma_bv_dh_mid(a[j - 1], a[j], a[j + 1]);
        }
    }
    assert(double_block(halve_block(a)) =~= a);
}

/// Doubling twice in GF(2^128) is exactly the direct multiplication by 4.
pub proof fn lemma_double_twice(a: Seq<u8>)
    requires
        a.len() == 16,
    ensures
        double_block(double_block(a)) == quad_block(a),
{
    let d1 = double_block(a);
    assert forall|j: int| 0 <= j < 16 implies double_block(d1)[j] == quad_block(a)[j] by {
        if j == 0 {
            lemma_bv_quad_byte0(a[0], a[15], a[14]);
        } else if j == 1 {
            lemma_bv_quad_byte1(a[1], a[0], a[15]);
        } else {
            lemma_bv_quad_mid(a[j], a[j - 1], a[j - 2]);
        }
    }
    assert(double_block(double_block(a)) =~= quad_block(a));
}

/// Byte-wise XOR of two blocks, written into `out`.
pub fn xor_blocks(out: &mut [u8; 16], in1: &[u8; 16], in2: &[u8; 16])
    ensures
        final(out)@ == xorb(in1@, in2@),
{
    for i in 0..16usize
        invariant
            forall|k: int| 0 <= k < i ==> out@[k] == xorb(in1@, in2@)[k],
    {
        out[i] = in1[i] ^ in2[i];
    }
    proof {
        assert(out@ =~= xorb(in1@, in2@));
    }
}

/// Byte-wise XOR of `in2` into `out`, in place.
pub fn xor_blocks_ip(out: &mut [u8; 16], in2: &[u8; 16])
    ensures
        final(out)@ == xorb(old(out)@, in2@),
{
    for i in 0..16usize
        invariant
            forall|k: int| 0 <= k < i ==> out@[k] == xorb(old(out)@, in2@)[k],
            forall|k: int| i <= k < 16 ==> out@[k] == old(out)@[k],
    {
        out[i] = out[i] ^ in2[i];
    }
    proof {
        assert(out@ =~= xorb(old(out)@, in2@));
    }
}

/// Multiply `input` by 2 in GF(2^128), writing the result into `out`.
pub fn mult_by_2(out: &mut [u8; 16], input: &[u8; 16])
    ensures
        final(out)@ == double_block(input@),
{
    if input[15] >= 128 {
        out[0] = (input[0] << 1u8) ^ 0x87;
    } else {
        out[0] = input[0] << 1u8;
    }
    for j in 1..16usize
        invariant
            forall|k: int| 0 <= k < j ==> out@[k] == double_block(input@)[k],
    {
        if input[j - 1] >= 128 {
            out[j] = (input[j] << 1u8) | 1;
        } else {
            out[j] = input[j] << 1u8;
        }
    }
    proof {
        assert(out@ =~= double_block(input@));
    }
}

/// Multiply `out` by 2 in GF(2^128), in place.
pub fn mult_by_2_ip(out: &mut [u8; 16])
    ensures
        final(out)@ == double_block(old(out)@),
{
    let x: [u8; 16] = *out;
    mult_by_2(out, &x);
}

} // verus!
