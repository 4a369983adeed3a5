//! Running 16-bit cyclic-redundancy checksum over a byte buffer with an
//! explicit seed, computable incrementally. Blocks of the transfer protocol
//! carry this checksum as a two-byte trailer when the negotiated mode asks
//! for it.

use vstd::prelude::*;

verus! {

/// One shift step of the checksum: shift left by one and, when the high bit
/// was set, fold in the generator polynomial.
pub open spec fn crc_shift(c: u16) -> u16 {
    if c & 0x8000 != 0 {
        (c << 1) ^ 0x1021
    } else {
        c << 1
    }
}

/// `n` shift steps applied to `c`, last step outermost.
pub open spec fn crc_shiftn(c: u16, n: nat) -> u16
    decreases n,
{
    if n == 0 {
        c
    } else {
        crc_shift(crc_shiftn(c, (n - 1) as nat))
    }
}

/// Folding one byte into the running checksum: inject the byte into the high
/// half, then run eight shift steps.
pub open spec fn crc_byte(c: u16, b: u8) -> u16 {
    crc_shiftn(c ^ ((b as u16) << 8), 8)
}

/// The checksum of a whole buffer, starting from `seed`, bytes folded in from
/// the front.
pub open spec fn spec_crc16(seed: u16, data: Seq<u8>) -> u16
    decreases data.len(),
{
    if data.len() == 0 {
        seed
    } else {
        spec_crc16(crc_byte(seed, data[0]), data.skip(1))
    }
}

/// The shift steps can be peeled from either end.
proof fn lemma_shiftn_unfold_front(c: u16, n: nat)
    requires
        n > 0,
    ensures
        crc_shiftn(c, n) == crc_shiftn(crc_shift(c), (n - 1) as nat),
    decreases n,
{
    if n == 1 {
        assert(crc_shiftn(c, 1) == crc_shift(crc_shiftn(c, 0)));
        assert(crc_shiftn(crc_shift(c), 0) == crc_shift(c));
    } else {
        lemma_shiftn_unfold_front(c, (n - 1) as nat);
        assert(crc_shiftn(c, n) == crc_shift(crc_shiftn(c, (n - 1) as nat)));
        assert(crc_shiftn(crc_shift(c), (n - 1) as nat) == crc_shift(crc_shiftn(
            crc_shift(c),
            (n - 2) as nat,
        )));
    }
}

/// Pointwise exclusive-or of two equally long byte sequences.
pub open spec fn xor_seq(d1: Seq<u8>, d2: Seq<u8>) -> Seq<u8> {
    Seq::new(d1.len(), |i: int| d1[i] ^ d2[i])
}

/// The shift step distributes over exclusive-or.
proof fn lemma_shift_linear(a: u16, b: u16)
    ensures
        crc_shift(a ^ b) == crc_shift(a) ^ crc_shift(b),
{
    assert(((a & 0x8000 != 0) && (b & 0x8000 != 0)) ==> ((a ^ b) & 0x8000 == 0 && ((a ^ b) << 1)
        == (((a << 1) ^ 0x1021) ^ ((b << 1) ^ 0x1021)))) by (bit_vector);
    assert(((a & 0x8000 != 0) && (b & 0x8000 == 0)) ==> ((a ^ b) & 0x8000 != 0 && (((a ^ b) << 1)
        ^ 0x1021) == (((a << 1) ^ 0x1021) ^ (b << 1)))) by (bit_vector);
    assert(((a & 0x8000 == 0) && (b & 0x8000 != 0)) ==> ((a ^ b) & 0x8000 != 0 && (((a ^ b) << 1)
        ^ 0x1021) == ((a << 1) ^ ((b << 1) ^ 0x1021)))) by (bit_vector);
    assert(((a & 0x8000 == 0) && (b & 0x8000 == 0)) ==> ((a ^ b) & 0x8000 == 0 && ((a ^ b) << 1)
        == ((a << 1) ^ (b << 1)))) by (bit_vector);
}

/// The shift step never maps a nonzero state to zero.
proof fn lemma_shift_nonzero(c: u16)
    requires
        c != 0,
    ensures
        crc_shift(c) != 0,
{
    assert((c & 0x8000 != 0) ==> ((c << 1) ^ 0x1021) != 0) by (bit_vector);
    assert((c & 0x8000 == 0 && c != 0) ==> (c << 1) != 0) by (bit_vector);
}

proof fn lemma_shiftn_linear(a: u16, b: u16, n: nat)
    ensures
        crc_shiftn(a ^ b, n) == crc_shiftn(a, n) ^ crc_shiftn(b, n),
    decreases n,
{
    if n > 0 {
        lemma_shiftn_linear(a, b, (n - 1) as nat);
        lemma_shift_linear(crc_shiftn(a, (n - 1) as nat), crc_shiftn(b, (n - 1) as nat));
    }
}

proof fn lemma_shiftn_nonzero(c: u16, n: nat)
    requires
        c != 0,
    ensures
        crc_shiftn(c, n) != 0,
    decreases n,
{
    if n > 0 {
        lemma_shiftn_nonzero(c, (n - 1) as nat);
        lemma_shift_nonzero(crc_shiftn(c, (n - 1) as nat));
    }
}

/// Folding a byte distributes over exclusive-or of states and bytes.
proof fn lemma_byte_linear(c1: u16, c2: u16, b1: u8, b2: u8)
    ensures
        crc_byte(c1 ^ c2, b1 ^ b2) == crc_byte(c1, b1) ^ crc_byte(c2, b2),
{
    assert((((b1 ^ b2) as u16) << 8) == (((b1 as u16) << 8) ^ ((b2 as u16) << 8)))
        by (bit_vector);
    assert((c1 ^ c2) ^ (((b1 as u16) << 8) ^ ((b2 as u16) << 8)) == ((c1 ^ ((b1 as u16) << 8)) ^ (
    c2 ^ ((b2 as u16) << 8)))) by (bit_vector);
    lemma_shiftn_linear(c1 ^ ((b1 as u16) << 8), c2 ^ ((b2 as u16) << 8), 8);
}

/// Folding a zero byte into a nonzero state leaves it nonzero.
proof fn lemma_byte_zero_keeps_nonzero(c: u16)
    requires
        c != 0,
    ensures
        crc_byte(c, 0) != 0,
{
    assert(c ^ ((0u8 as u16) << 8) == c) by (bit_vector);
    lemma_shiftn_nonzero(c, 8);
}

/// Folding a nonzero byte into the zero state gives a nonzero state.
proof fn lemma_byte_nonzero_from_zero(b: u8)
    requires
        b != 0,
    ensures
        crc_byte(0, b) != 0,
{
    assert(b != 0 ==> (0u16 ^ ((b as u16) << 8)) != 0) by (bit_vector);
    lemma_shiftn_nonzero(0u16 ^ ((b as u16) << 8), 8);
}

/// The whole-buffer checksum distributes over exclusive-or of seeds and
/// buffers.
proof fn lemma_crc16_linear(s1: u16, s2: u16, d1: Seq<u8>, d2: Seq<u8>)
    requires
        d1.len() == d2.len(),
    ensures
        spec_crc16(s1 ^ s2, xor_seq(d1, d2)) == spec_crc16(s1, d1) ^ spec_crc16(s2, d2),
    decreases d1.len(),
{
    if d1.len() == 0 {
        assert(xor_seq(d1, d2).len() == 0);
    } else {
        lemma_byte_linear(s1, s2, d1[0], d2[0]);
        lemma_crc16_linear(crc_byte(s1, d1[0]), crc_byte(s2, d2[0]), d1.skip(1), d2.skip(1));
        assert(xor_seq(d1, d2).skip(1) =~= xor_seq(d1.skip(1), d2.skip(1)));
        assert(xor_seq(d1, d2)[0] == (d1[0] ^ d2[0]));
    }
}

/// A nonzero state stays nonzero while zero bytes are folded in.
proof fn lemma_crc16_nonzero_over_zeros(c: u16, d: Seq<u8>)
    requires
        c != 0,
        forall|j: int| 0 <= j < d.len() ==> d[j] == 0,
    ensures
        spec_crc16(c, d) != 0,
    decreases d.len(),
{
    if d.len() > 0 {
        lemma_byte_zero_keeps_nonzero(c);
        lemma_crc16_nonzero_over_zeros(crc_byte(c, 0), d.skip(1));
    }
}

/// A zero prefix of the buffer leaves the zero state unchanged.
proof fn lemma_crc16_zero_prefix(d: Seq<u8>, i: int)
    requires
        0 <= i <= d.len(),
        forall|j: int| 0 <= j < i ==> d[j] == 0,
    ensures
        spec_crc16(0, d) == spec_crc16(0, d.skip(i)),
    decreases i,
{
    if i > 0 {
        assert(crc_shift(0) == 0) by {
            assert(0u16 & 0x8000 == 0) by (bit_vector);
            assert((0u16 << 1) == 0) by (bit_vector);
        };
        assert(crc_byte(0, 0) == 0) by {
            assert(0u16 ^ ((0u8 as u16) << 8) == 0) by (bit_vector);
            assert(forall|n: nat| crc_shiftn(0u16, n) == crc_shiftn(0u16, n));
            lemma_shiftn_zero(8);
        };
        assert(d[0] == 0);
        assert(spec_crc16(0, d) == spec_crc16(crc_byte(0, 0), d.skip(1)));
        assert(forall|j: int| 0 <= j < i - 1 ==> d.skip(1)[j] == 0);
        lemma_crc16_zero_prefix(d.skip(1), i - 1);
        assert(d.skip(1).skip(i - 1) =~= d.skip(i));
    } else {
        assert(d.skip(0) =~= d);
    }
}

proof fn lemma_shiftn_zero(n: nat)
    ensures
        crc_shiftn(0, n) == 0,
    decreases n,
{
    if n > 0 {
        lemma_shiftn_zero((n - 1) as nat);
        assert(0u16 & 0x8000 == 0) by (bit_vector);
        assert((0u16 << 1) == 0) by (bit_vector);
    }
}

/// Flipping a single byte of the buffer changes the checksum, whatever the
/// seed: the checksum detects every single-byte corruption of a block
/// payload.
pub proof fn lemma_crc16_detects_byte_flip(seed: u16, d1: Seq<u8>, d2: Seq<u8>, i: int)
    requires
        d1.len() == d2.len(),
        0 <= i < d1.len(),
        d1[i] != d2[i],
        forall|j: int| 0 <= j < d1.len() && j != i ==> d1[j] == d2[j],
    ensures
        spec_crc16(seed, d1) != spec_crc16(seed, d2),
{
    let delta = xor_seq(d1, d2);
    assert(seed ^ seed == 0) by (bit_vector);
    lemma_crc16_linear(seed, seed, d1, d2);
    assert forall|j: int| 0 <= j < delta.len() && j != i implies delta[j] == 0 by {
        let x = d1[j];
        let y = d2[j];
        assert(x == y ==> (x ^ y) == 0) by (bit_vector);
    };
    assert(delta[i] != 0) by {
        let x = d1[i];
        let y = d2[i];
        assert(x != y ==> (x ^ y) != 0) by (bit_vector);
    };
    lemma_crc16_zero_prefix(delta, i);
    assert(delta.skip(i)[0] == delta[i]);
    lemma_byte_nonzero_from_zero(delta[i]);
    assert(forall|j: int| 0 <= j < delta.skip(i).skip(1).len() ==> delta.skip(i).skip(1)[j] == 0);
    lemma_crc16_nonzero_over_zeros(crc_byte(0, delta[i]), delta.skip(i).skip(1));
    assert(spec_crc16(0, delta) != 0);
    let r1 = spec_crc16(seed, d1);
    let r2 = spec_crc16(seed, d2);
    assert((r1 ^ r2) != 0 ==> r1 != r2) by (bit_vector);
}

/// Computes the running 16-bit checksum of `data` starting from `seed`.
pub fn crc16_ccitt(seed: u16, data: &[u8]) -> (r: u16)
    ensures
        r == spec_crc16(seed, data@),
{
    let mut crc = seed;
    let mut i: usize = 0;
    proof {
        assert(data@.skip(0) =~= data@);
    }
    while i < data.len()
        invariant
            i <= data@.len(),
            spec_crc16(crc, data@.skip(i as int)) == spec_crc16(seed, data@),
        decreases data@.len() - i,
    {
        let b = data[i];
        let ghost c_in = crc;
        crc = crc ^ ((b as u16) << 8);
        let ghost c0 = crc;
        let mut k: usize = 0;
        while k < 8
            invariant
                k <= 8,
                crc_shiftn(c0, 8) == crc_shiftn(crc, (8 - k) as nat),
            decreases 8 - k,
        {
            proof {
                lemma_shiftn_unfold_front(crc, (8 - k) as nat);
            }
            if crc & 0x8000 != 0 {
                crc = (crc << 1) ^ 0x1021;
            } else {
                crc = crc << 1;
            }
            k = k + 1;
        }
        proof {
            assert(crc == crc_byte(c_in, b));
            assert(data@.skip(i as int)[0] == data@[i as int]);
            assert(data@.skip(i as int).skip(1) =~= data@.skip(i as int + 1));
        }
        i = i + 1;
    }
    crc
}

} // verus!
