//! Bit streams over bytes, most significant bit first.

use vstd::prelude::*;

verus! {

/// The mask that selects bit `k` of a byte, counting from the most
/// significant bit.
pub open spec fn bit_mask(k: int) -> u8 {
    if k == 0 {
        0x80
    } else if k == 1 {
        0x40
    } else if k == 2 {
        0x20
    } else if k == 3 {
        0x10
    } else if k == 4 {
        0x08
    } else if k == 5 {
        0x04
    } else if k == 6 {
        0x02
    } else {
        0x01
    }
}

/// Bit `k` of a byte, counting from the most significant bit.
pub open spec fn byte_bit(b: u8, k: int) -> bool {
    b & bit_mask(k) != 0
}

/// Bit `i` of a byte string read as one stream; past the end the stream
/// continues with zeros.
pub open spec fn data_bit(data: Seq<u8>, i: int) -> bool {
    0 <= i && i / 8 < data.len() && byte_bit(data[i / 8], i % 8)
}

/// What bit `i` of a bit sequence adds to its byte when it sits at position
/// `k` of that byte. Bits past the end of the sequence count as zeros.
pub open spec fn bit_weight(bits: Seq<bool>, i: int, k: int) -> int {
    if 0 <= i < bits.len() && bits[i] {
        bit_mask(k) as int
    } else {
        0
    }
}

/// Byte `j` of a bit sequence packed eight bits to the byte.
pub open spec fn packed_byte(bits: Seq<bool>, j: int) -> u8 {
    (bit_weight(bits, 8 * j, 0) + bit_weight(bits, 8 * j + 1, 1) + bit_weight(bits, 8 * j + 2, 2)
        + bit_weight(bits, 8 * j + 3, 3) + bit_weight(bits, 8 * j + 4, 4) + bit_weight(
        bits,
        8 * j + 5,
        5,
    ) + bit_weight(bits, 8 * j + 6, 6) + bit_weight(bits, 8 * j + 7, 7)) as u8
}

/// A bit sequence packed into bytes; a final partial byte is padded with
/// zeros.
pub open spec fn packed(bits: Seq<bool>) -> Seq<u8> {
    Seq::new(((bits.len() + 7) / 8) as nat, |j: int| packed_byte(bits, j))
}

/// A byte is the sum of the masks of its set bits.
proof fn lemma_byte_is_sum_of_bits(b: u8)
    ensures
        b == (if b & 0x80 != 0 { 0x80int } else { 0 }) + (if b & 0x40 != 0 { 0x40int } else { 0 })
            + (if b & 0x20 != 0 { 0x20int } else { 0 }) + (if b & 0x10 != 0 { 0x10int } else { 0 })
            + (if b & 0x08 != 0 { 0x08int } else { 0 }) + (if b & 0x04 != 0 { 0x04int } else { 0 })
            + (if b & 0x02 != 0 { 0x02int } else { 0 }) + (if b & 0x01 != 0 { 0x01int } else { 0 }),
{
    let h7: u8 = if b & 0x80 != 0 { 0x80 } else { 0 };
    let h6: u8 = if b & 0x40 != 0 { 0x40 } else { 0 };
    let h5: u8 = if b & 0x20 != 0 { 0x20 } else { 0 };
    let h4: u8 = if b & 0x10 != 0 { 0x10 } else { 0 };
    let h3: u8 = if b & 0x08 != 0 { 0x08 } else { 0 };
    let h2: u8 = if b & 0x04 != 0 { 0x04 } else { 0 };
    let h1: u8 = if b & 0x02 != 0 { 0x02 } else { 0 };
    let h0: u8 = if b & 0x01 != 0 { 0x01 } else { 0 };
    assert(b == (if b & 0x80 != 0 { 0x80u8 } else { 0 }) + (if b & 0x40 != 0 { 0x40u8 } else { 0 })
        + (if b & 0x20 != 0 { 0x20u8 } else { 0 }) + (if b & 0x10 != 0 { 0x10u8 } else { 0 }) + (if b
        & 0x08 != 0 { 0x08u8 } else { 0 }) + (if b & 0x04 != 0 { 0x04u8 } else { 0 }) + (if b & 0x02
        != 0 { 0x02u8 } else { 0 }) + (if b & 0x01 != 0 { 0x01u8 } else { 0 })) by (bit_vector);
}

/// Where a bit sequence agrees with the stream of a byte string, the weight
/// of a bit is the mask of its position if the byte has that bit, else zero.
proof fn lemma_weight_of_data(bits: Seq<bool>, data: Seq<u8>, j: int, k: int)
    requires
        0 <= j < data.len(),
        0 <= k < 8,
        8 * j + k < bits.len(),
        bits[8 * j + k] == data_bit(data, 8 * j + k),
    ensures
        bit_weight(bits, 8 * j + k, k) == (if byte_bit(data[j], k) {
            bit_mask(k) as int
        } else {
            0
        }),
{
    let i = 8 * j + k;
    assert(i / 8 == j);
    assert(i % 8 == k);
}

/// Packing the bit stream of a byte string gives the bytes back: byte `j` of
/// the packing is byte `j` of the data wherever the bits agree with the
/// data's stream on that byte.
proof fn lemma_packed_byte_of_data(bits: Seq<bool>, data: Seq<u8>, j: int)
    requires
        0 <= j < data.len(),
        8 * j + 8 <= bits.len(),
        forall|i: int| 8 * j <= i < 8 * j + 8 ==> bits[i] == data_bit(data, i),
    ensures
        packed_byte(bits, j) == data[j],
{
    let b = data[j];
    lemma_byte_is_sum_of_bits(b);
    lemma_weight_of_data(bits, data, j, 0);
    lemma_weight_of_data(bits, data, j, 1);
    lemma_weight_of_data(bits, data, j, 2);
    lemma_weight_of_data(bits, data, j, 3);
    lemma_weight_of_data(bits, data, j, 4);
    lemma_weight_of_data(bits, data, j, 5);
    lemma_weight_of_data(bits, data, j, 6);
    lemma_weight_of_data(bits, data, j, 7);
}

/// The first `n` bits of the stream of a byte string.
pub open spec fn bit_stream(data: Seq<u8>, n: int) -> Seq<bool> {
    Seq::new(n as nat, |i: int| data_bit(data, i))
}

/// Packing at least all the bits of a byte string and keeping as many bytes
/// as the string has gives the string back.
pub proof fn lemma_packed_stream(data: Seq<u8>, n: int)
    requires
        n >= 8 * data.len(),
    ensures
        packed(bit_stream(data, n)).len() >= data.len(),
        packed(bit_stream(data, n)).subrange(0, data.len() as int) == data,
{
    let bits = bit_stream(data, n);
    assert forall|j: int| 0 <= j < data.len() implies packed(bits)[j] == data[j] by {
        lemma_packed_byte_of_data(bits, data, j);
    }
    assert(packed(bits).subrange(0, data.len() as int) =~= data);
}

/// The mask of bit `k`, most significant first.
fn mask_of(k: u8) -> (mask: u8)
    requires
        k < 8,
    ensures
        mask == bit_mask(k as int),
{
    if k == 0 {
        0x80
    } else if k == 1 {
        0x40
    } else if k == 2 {
        0x20
    } else if k == 3 {
        0x10
    } else if k == 4 {
        0x08
    } else if k == 5 {
        0x04
    } else if k == 6 {
        0x02
    } else {
        0x01
    }
}

/// Reads bit `index` of the stream of `data`; past the end it reads zero.
pub fn get_bit(data: &[u8], index: u128) -> (bit: bool)
    ensures
        bit == data_bit(data@, index as int),
{
    let byte_index = index / 8;
    if byte_index >= data.len() as u128 {
        return false;
    }
    let offset = (index % 8) as u8;
    data[byte_index as usize] & mask_of(offset) != 0
}

/// What the bit at `base + k` contributes to its byte from position `k`.
fn weight_at(bits: &Vec<bool>, base: usize, k: u8) -> (w: u8)
    requires
        k < 8,
        base < bits@.len(),
    ensures
        w == bit_weight(bits@, base + k, k as int),
{
    if (k as usize) < bits.len() - base && bits[base + k as usize] {
        mask_of(k)
    } else {
        0
    }
}

/// Packs the first `n` bytes' worth of a bit sequence.
pub fn pack_bits(bits: &Vec<bool>, n: usize) -> (bytes: Vec<u8>)
    requires
        n <= packed(bits@).len(),
    ensures
        bytes@ == packed(bits@).subrange(0, n as int),
{
    let len = bits.len();
    let mut bytes: Vec<u8> = Vec::with_capacity(n);
    let mut j: usize = 0;
    while j < n
        invariant
            j <= n,
            len == bits@.len(),
            n <= (len + 7) / 8,
            bytes@ == packed(bits@).subrange(0, j as int),
        decreases n - j,
    {
        let base = 8 * j;
        let mut byte: u8 = weight_at(bits, base, 0);
        byte = byte + weight_at(bits, base, 1);
        byte = byte + weight_at(bits, base, 2);
        byte = byte + weight_at(bits, base, 3);
        byte = byte + weight_at(bits, base, 4);
        byte = byte + weight_at(bits, base, 5);
        byte = byte + weight_at(bits, base, 6);
        byte = byte + weight_at(bits, base, 7);
        assert(byte == packed_byte(bits@, j as int));
        bytes.push(byte);
        j += 1;
    }
    bytes
}

/// Copies bytes.
pub fn copy_bytes(data: &[u8]) -> (out: Vec<u8>)
    ensures
        out@ == data@,
{
    let mut out: Vec<u8> = Vec::with_capacity(data.len());
    let mut i: usize = 0;
    while i < data.len()
        invariant
            i <= data@.len(),
            out@ == data@.subrange(0, i as int),
        decreases data@.len() - i,
    {
        out.push(data[i]);
        i += 1;
    }
    assert(data@.subrange(0, i as int) == data@);
    out
}

/// Compares two byte strings.
pub fn same_bytes(a: &[u8], b: &[u8]) -> (same: bool)
    ensures
        same == (a@ == b@),
{
    if a.len() != b.len() {
        return false;
    }
    let mut i: usize = 0;
    while i < a.len()
        invariant
            i <= a@.len(),
            a@.len() == b@.len(),
            forall|j: int| 0 <= j < i ==> a@[j] == b@[j],
        decreases a@.len() - i,
    {
        if a[i] != b[i] {
            return false;
        }
        i += 1;
    }
    assert(a@ =~= b@);
    true
}

/// Whether one byte string comes before another, or is the same, in
/// lexicographic order.
pub open spec fn lex_le(a: Seq<u8>, b: Seq<u8>) -> bool
    decreases a.len(),
{
    if a.len() == 0 {
        true
    } else if b.len() == 0 {
        false
    } else if a[0] != b[0] {
        a[0] < b[0]
    } else {
        lex_le(a.drop_first(), b.drop_first())
    }
}

/// Of two byte strings one comes before the other, or they are the same.
pub proof fn lemma_lex_total(a: Seq<u8>, b: Seq<u8>)
    ensures
        lex_le(a, b) || lex_le(b, a),
    decreases a.len(),
{
    if a.len() > 0 && b.len() > 0 && a[0] == b[0] {
        lemma_lex_total(a.drop_first(), b.drop_first());
    }
}

/// Compares two byte strings in lexicographic order.
pub fn lex_le_bytes(a: &[u8], b: &[u8]) -> (le: bool)
    ensures
        le == lex_le(a@, b@),
{
    let mut i: usize = 0;
    assert(a@.skip(0) =~= a@);
    assert(b@.skip(0) =~= b@);
    while i < a.len()
        invariant
            i <= a@.len(),
            i <= b@.len(),
            lex_le(a@, b@) == lex_le(a@.skip(i as int), b@.skip(i as int)),
        decreases a@.len() - i,
    {
        if i >= b.len() {
            return false;
        }
        if a[i] != b[i] {
            return a[i] < b[i];
        }
        assert(a@.skip(i as int).drop_first() =~= a@.skip(i + 1));
        assert(b@.skip(i as int).drop_first() =~= b@.skip(i + 1));
        i += 1;
    }
    true
}

/// Chunk `i` of the data cut into pieces of at most `max` bytes.
pub open spec fn chunk_at(data: Seq<u8>, max: int, i: int) -> Seq<u8> {
    data.subrange(
        i * max,
        if (i + 1) * max <= data.len() {
            (i + 1) * max
        } else {
            data.len() as int
        },
    )
}

/// The number of chunks of at most `max` bytes that `len` bytes need.
pub open spec fn chunk_count(len: int, max: int) -> int {
    if len % max == 0 {
        len / max
    } else {
        len / max + 1
    }
}

} // verus!
