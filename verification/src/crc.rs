//! CRC-32 as used by the Ogg container: polynomial 0x04C11DB7, initial
//! value 0, no reflection, no final xor.

use vstd::prelude::*;

verus! {

/// The generator polynomial of the Ogg checksum.
pub const OGG_CRC_POLY: u32 = 0x04C1_1DB7;

/// One step of polynomial division: shift the register left by one bit and
/// subtract (xor) the polynomial when the bit shifted out was set.
pub open spec fn crc_shift_bit(r: u32) -> u32 {
    if r & 0x8000_0000u32 != 0 {
        (r << 1u32) ^ 0x04C1_1DB7u32
    } else {
        r << 1u32
    }
}

/// Eight division steps: the register after one whole byte was shifted through.
pub open spec fn crc_shift_byte(r: u32) -> u32 {
    crc_shift_bit(
        crc_shift_bit(
            crc_shift_bit(
                crc_shift_bit(crc_shift_bit(crc_shift_bit(crc_shift_bit(crc_shift_bit(r))))),
            ),
        ),
    )
}

/// `n` division steps.
pub open spec fn crc_shift_bits(r: u32, n: nat) -> u32
    decreases n,
{
    if n == 0 {
        r
    } else {
        crc_shift_bits(crc_shift_bit(r), (n - 1) as nat)
    }
}

/// Feeds one byte, most significant bit first, into the register `crc`.
pub open spec fn crc_byte(crc: u32, b: u8) -> u32 {
    crc_shift_byte(crc ^ ((b as u32) << 24u32))
}

/// The Ogg CRC-32 of `data`, defined bit by bit.
pub open spec fn ogg_crc(data: Seq<u8>) -> u32
    decreases data.len(),
{
    if data.len() == 0 {
        0
    } else {
        crc_byte(ogg_crc(data.drop_last()), data.last())
    }
}

/// Entry `i` of the byte-at-a-time lookup table.
pub open spec fn crc_table_entry(i: int) -> u32 {
    crc_shift_byte(((i as u32) << 24u32))
}

/// Shifting a byte through the register distributes over xor: one table
/// lookup on the top byte stands for eight single-bit steps.
pub proof fn lemma_crc_byte_by_table(crc: u32, b: u8)
    ensures
        crc_byte(crc, b) == (crc << 8u32) ^ crc_shift_byte(
            ((((crc >> 24u32) ^ (b as u32)) & 0xffu32) << 24u32),
        ),
{
    let bb: u32 = b as u32;
    assert(bb < 256);
    assert(crc_shift_byte(crc ^ (bb << 24u32)) == (crc << 8u32) ^ crc_shift_byte(
        ((((crc >> 24u32) ^ bb) & 0xffu32) << 24u32),
    )) by (bit_vector)
        requires
            bb < 256,
    ;
}

proof fn lemma_shift_bits_eight(r: u32)
    ensures
        crc_shift_bits(r, 8) == crc_shift_byte(r),
{
    reveal_with_fuel(crc_shift_bits, 9);
}

/// Builds the 256-entry lookup table of the byte-at-a-time algorithm.
fn crc_table() -> (table: Vec<u32>)
    ensures
        table@.len() == 256,
        forall|i: int| 0 <= i < 256 ==> table@[i] == #[trigger] crc_table_entry(i),
{
    let mut table: Vec<u32> = Vec::new();
    let mut i: u32 = 0;
    while i < 256
        invariant
            i <= 256,
            table@.len() == i,
            forall|j: int| 0 <= j < i ==> table@[j] == #[trigger] crc_table_entry(j),
        decreases 256 - i,
    {
        let start: u32 = i << 24u32;
        let mut r: u32 = start;
        let mut k: u32 = 0;
        while k < 8
            invariant
                k <= 8,
                r == crc_shift_bits(start, k as nat),
            decreases 8 - k,
        {
            proof {
                lemma_shift_bits_split(start, k as nat);
            }
            if r & 0x8000_0000u32 != 0 {
                r = (r << 1u32) ^ OGG_CRC_POLY;
            } else {
                r = r << 1u32;
            }
            k = k + 1;
        }
        proof {
            lemma_shift_bits_eight(start);
            assert(start == ((i as int) as u32) << 24u32);
        }
        table.push(r);
        i = i + 1;
    }
    table
}

proof fn lemma_shift_bits_split(r: u32, n: nat)
    ensures
        crc_shift_bits(r, n + 1) == crc_shift_bit(crc_shift_bits(r, n)),
    decreases n,
{
    if n > 0 {
        lemma_shift_bits_split(crc_shift_bit(r), (n - 1) as nat);
    } else {
        reveal_with_fuel(crc_shift_bits, 2);
    }
}

/// The byte-wise exclusive or of two sequences of equal length.
pub open spec fn xor_bytes(a: Seq<u8>, b: Seq<u8>) -> Seq<u8> {
    Seq::new(a.len(), |i: int| a[i] ^ b[i])
}

/// The four bytes of `v`, most significant first: how a checksum is
/// appended so that the register reads it back in order.
pub open spec fn be32(v: u32) -> Seq<u8> {
    seq![(v >> 24u32) as u8, (v >> 16u32) as u8, (v >> 8u32) as u8, v as u8]
}

proof fn lemma_shift_bit_linear(x: u32, y: u32)
    ensures
        crc_shift_bit(x ^ y) == crc_shift_bit(x) ^ crc_shift_bit(y),
{
    assert((if (x ^ y) & 0x8000_0000u32 != 0 { ((x ^ y) << 1u32) ^ 0x04C1_1DB7u32 } else { (x ^ y) << 1u32 })
        == (if x & 0x8000_0000u32 != 0 { (x << 1u32) ^ 0x04C1_1DB7u32 } else { x << 1u32 }) ^ (if y
        & 0x8000_0000u32 != 0 { (y << 1u32) ^ 0x04C1_1DB7u32 } else { y << 1u32 })) by (bit_vector);
}

proof fn lemma_shift_bits_linear(x: u32, y: u32, n: nat)
    ensures
        crc_shift_bits(x ^ y, n) == crc_shift_bits(x, n) ^ crc_shift_bits(y, n),
    decreases n,
{
    if n > 0 {
        lemma_shift_bit_linear(x, y);
        lemma_shift_bits_linear(crc_shift_bit(x), crc_shift_bit(y), (n - 1) as nat);
    }
}

proof fn lemma_shift_byte_linear(x: u32, y: u32)
    ensures
        crc_shift_byte(x ^ y) == crc_shift_byte(x) ^ crc_shift_byte(y),
{
    lemma_shift_bits_linear(x, y, 8);
    lemma_shift_bits_eight(x ^ y);
    lemma_shift_bits_eight(x);
    lemma_shift_bits_eight(y);
}

proof fn lemma_crc_byte_linear(c1: u32, b1: u8, c2: u32, b2: u8)
    ensures
        crc_byte(c1 ^ c2, b1 ^ b2) == crc_byte(c1, b1) ^ crc_byte(c2, b2),
{
    let x = c1 ^ ((b1 as u32) << 24u32);
    let y = c2 ^ ((b2 as u32) << 24u32);
    assert((c1 ^ c2) ^ (((b1 ^ b2) as u32) << 24u32) == x ^ y) by (bit_vector)
        requires
            x == c1 ^ ((b1 as u32) << 24u32),
            y == c2 ^ ((b2 as u32) << 24u32),
    ;
    lemma_shift_byte_linear(x, y);
}

/// The Ogg checksum is linear: the checksum of the byte-wise exclusive or
/// of two messages of one length is the exclusive or of their checksums.
pub proof fn lemma_crc_linear(a: Seq<u8>, b: Seq<u8>)
    requires
        a.len() == b.len(),
    ensures
        ogg_crc(xor_bytes(a, b)) == ogg_crc(a) ^ ogg_crc(b),
    decreases a.len(),
{
    if a.len() == 0 {
        assert(xor_bytes(a, b).len() == 0);
        assert(0u32 ^ 0u32 == 0u32) by (bit_vector);
    } else {
        lemma_crc_linear(a.drop_last(), b.drop_last());
        assert(xor_bytes(a, b).drop_last() =~= xor_bytes(a.drop_last(), b.drop_last()));
        lemma_crc_byte_linear(ogg_crc(a.drop_last()), a.last(), ogg_crc(b.drop_last()), b.last());
    }
}

/// Leading zero bytes do not change the Ogg checksum (its register starts
/// at zero).
pub proof fn lemma_crc_leading_zeros(k: nat, a: Seq<u8>)
    ensures
        ogg_crc(Seq::new(k, |i: int| 0u8) + a) == ogg_crc(a),
    decreases a.len(), k,
{
    let z = Seq::new(k, |i: int| 0u8);
    if a.len() == 0 {
        assert(z + a =~= z);
        if k > 0 {
            lemma_crc_leading_zeros((k - 1) as nat, a);
            assert(z.drop_last() =~= Seq::new((k - 1) as nat, |i: int| 0u8));
            assert(Seq::new((k - 1) as nat, |i: int| 0u8) + a =~= Seq::new((k - 1) as nat, |i: int| 0u8));
            assert(crc_shift_byte(0u32 ^ (0u32 << 24u32)) == 0u32) by (bit_vector);
            assert(((0u8 as u32) << 24u32) == 0u32) by (bit_vector);
        }
    } else {
        lemma_crc_leading_zeros(k, a.drop_last());
        assert((z + a).drop_last() =~= z + a.drop_last());
    }
}

proof fn lemma_crc_be32_step(c: u32)
    ensures
        crc_byte(crc_byte(crc_byte(crc_byte(c, (c >> 24u32) as u8), (c >> 16u32) as u8), (c >> 8u32) as u8), c as u8)
            == 0,
{
    assert(forall|r: u32| (r & 0xff00_0000u32) == 0 ==> #[trigger] crc_shift_byte(r) == r << 8u32) by (bit_vector);
    let b0 = (c >> 24u32) as u8;
    let b1 = (c >> 16u32) as u8;
    let b2 = (c >> 8u32) as u8;
    let b3 = c as u8;
    let r0 = c ^ ((b0 as u32) << 24u32);
    assert(r0 & 0xff00_0000u32 == 0 && r0 << 8u32 == c << 8u32) by (bit_vector)
        requires
            b0 == (c >> 24u32) as u8,
            r0 == c ^ ((b0 as u32) << 24u32),
    ;
    let r1 = (c << 8u32) ^ ((b1 as u32) << 24u32);
    assert(r1 & 0xff00_0000u32 == 0 && r1 << 8u32 == c << 16u32) by (bit_vector)
        requires
            b1 == (c >> 16u32) as u8,
            r1 == (c << 8u32) ^ ((b1 as u32) << 24u32),
    ;
    let r2 = (c << 16u32) ^ ((b2 as u32) << 24u32);
    assert(r2 & 0xff00_0000u32 == 0 && r2 << 8u32 == c << 24u32) by (bit_vector)
        requires
            b2 == (c >> 8u32) as u8,
            r2 == (c << 16u32) ^ ((b2 as u32) << 24u32),
    ;
    let r3 = (c << 24u32) ^ ((b3 as u32) << 24u32);
    assert(r3 & 0xff00_0000u32 == 0 && r3 << 8u32 == 0) by (bit_vector)
        requires
            b3 == c as u8,
            r3 == (c << 24u32) ^ ((b3 as u32) << 24u32),
    ;
}

/// Appending a message's checksum, most significant byte first, gives a
/// message whose checksum is zero.
pub proof fn lemma_crc_residue(a: Seq<u8>)
    ensures
        ogg_crc(a + be32(ogg_crc(a))) == 0,
{
    let c = ogg_crc(a);
    let m = a + be32(c);
    let m3 = m.drop_last();
    let m2 = m3.drop_last();
    let m1 = m2.drop_last();
    assert(m1.drop_last() =~= a);
    assert(m1.last() == #[verifier::truncate] ((c >> 24u32) as u8));
    assert(m2.last() == #[verifier::truncate] ((c >> 16u32) as u8));
    assert(m3.last() == #[verifier::truncate] ((c >> 8u32) as u8));
    assert(m.last() == #[verifier::truncate] (c as u8));
    assert(ogg_crc(m1) == crc_byte(c, m1.last()));
    assert(ogg_crc(m2) == crc_byte(ogg_crc(m1), m2.last()));
    assert(ogg_crc(m3) == crc_byte(ogg_crc(m2), m3.last()));
    assert(ogg_crc(m) == crc_byte(ogg_crc(m3), m.last()));
    lemma_crc_be32_step(c);
}

/// CRC-32 of `data` as the Ogg page checksum uses it.
pub fn crc32(data: &[u8]) -> (crc: u32)
    ensures
        crc == ogg_crc(data@),
{
    let table = crc_table();
    let mut crc: u32 = 0;
    let mut i: usize = 0;
    while i < data.len()
        invariant
            i <= data@.len(),
            table@.len() == 256,
            forall|j: int| 0 <= j < 256 ==> table@[j] == #[trigger] crc_table_entry(j),
            crc == ogg_crc(data@.take(i as int)),
        decreases data@.len() - i,
    {
        let byte = data[i];
        let idx: u32 = ((crc >> 24u32) ^ (byte as u32)) & 0xffu32;
        proof {
            lemma_crc_byte_by_table(crc, byte);
            assert(data@.take(i + 1).drop_last() =~= data@.take(i as int));
            assert(idx < 256) by (bit_vector)
                requires
                    idx == ((crc >> 24u32) ^ (byte as u32)) & 0xffu32,
            ;
            assert(table@[idx as int] == crc_table_entry(idx as int));
            assert(((idx as int) as u32) == idx);
        }
        crc = (crc << 8u32) ^ table[idx as usize];
        i = i + 1;
    }
    proof {
        assert(data@.take(data@.len() as int) =~= data@);
    }
    crc
}

} // verus!
