//! Bit-packed block-state indices.
//!
//! A section stores 4096 palette indices in an array of 64-bit words. The
//! words are laid out as little-endian bytes, and entry `i` occupies the
//! `width` bits that start at bit `i * width` of that byte string, the least
//! significant bit of each byte counting first.

use crate::bytes::{le_i64, write_le_i64};
use vstd::arithmetic::power2::{lemma_pow2_unfold, pow2};
use vstd::prelude::*;

verus! {

/// Bit `p` of a byte string, bit 0 being the least significant bit of the
/// first byte.
pub open spec fn bit_at(bytes: Seq<u8>, p: int) -> bool {
    (bytes[p / 8] >> ((p % 8) as u8)) & 1 == 1
}

/// The number whose binary digits are the `n` bits from `start` on, the first
/// of them being the least significant.
pub open spec fn bits_value(bytes: Seq<u8>, start: int, n: int) -> nat
    decreases n,
{
    if n <= 0 {
        0
    } else {
        bits_value(bytes, start, n - 1) + if bit_at(bytes, start + n - 1) {
            pow2((n - 1) as nat)
        } else {
            0
        }
    }
}

/// A number of `n` bits is below two to the `n`.
pub proof fn lemma_bits_value_bound(bytes: Seq<u8>, start: int, n: int)
    requires
        0 <= n,
    ensures
        bits_value(bytes, start, n) < pow2(n as nat),
    decreases n,
{
    if n <= 0 {
        vstd::arithmetic::power2::lemma2_to64();
    } else {
        lemma_bits_value_bound(bytes, start, n - 1);
        lemma_pow2_unfold(n as nat);
    }
}

/// Reads the `n`-bit number that starts at bit `start` of `bytes`.
pub fn read_bits(bytes: &[u8], start: usize, n: usize) -> (number: u32)
    requires
        n <= 32,
        start + n <= bytes@.len() * 8,
        start + n <= usize::MAX,
    ensures
        number == bits_value(bytes@, start as int, n as int),
{
    let mut number: u32 = 0;
    let mut weight: u64 = 1;
    let mut j: usize = 0;
    proof {
        vstd::arithmetic::power2::lemma2_to64();
    }
    while j < n
        invariant
            j <= n <= 32,
            start + n <= bytes@.len() * 8,
            start + n <= usize::MAX,
            weight == pow2(j as nat),
            weight <= 0x1_0000_0000,
            number == bits_value(bytes@, start as int, j as int),
            number < weight,
        decreases n - j,
    {
        let bit: usize = start + j;
        let shift: u8 = (bit % 8) as u8;
        let binary: bool = (bytes[bit / 8] >> shift) & 1 == 1;
        proof {
            lemma_pow2_unfold((j + 1) as nat);
            vstd::arithmetic::power2::lemma2_to64();
            if j < 31 {
                vstd::arithmetic::power2::lemma_pow2_strictly_increases(j as nat, 31);
            }
        }
        if binary {
            number = number + (weight as u32);
        }
        weight = weight * 2;
        j += 1;
    }
    number
}

/// The bytes of a word array, each word written least significant byte first.
pub open spec fn le_stream(words: Seq<i64>) -> Seq<u8> {
    Seq::new(words.len() * 8, |i: int| le_i64(words[i / 8])[i % 8])
}

/// Bits per entry of a section whose packed words take up `total_bytes` bytes:
/// the bits available to each of the 4096 entries, and at least four.
pub open spec fn entry_width(total_bytes: int) -> int {
    if total_bytes * 8 / 4096 > 4 {
        total_bytes * 8 / 4096
    } else {
        4
    }
}

/// Whether a word array can be unpacked: it must hold 4096 entries of its
/// width, and the width must not exceed 32 bits.
pub open spec fn unpackable(words: Seq<i64>) -> bool {
    let width = entry_width((words.len() * 8) as int);
    width <= 32 && 4096 * width <= words.len() * 64
}

/// The 4096 entries packed in `bytes`.
pub open spec fn unpacked(bytes: Seq<u8>) -> Seq<nat> {
    let width = entry_width(bytes.len() as int);
    Seq::new(4096, |i: int| bits_value(bytes, i * width, width))
}

/// Lays a word array out as little-endian bytes.
pub fn words_to_le_bytes(words: &Vec<i64>) -> (bytes: Vec<u8>)
    requires
        words@.len() * 8 <= usize::MAX,
    ensures
        bytes@ == le_stream(words@),
{
    let mut bytes: Vec<u8> = Vec::new();
    let mut i: usize = 0;
    while i < words.len()
        invariant
            i <= words@.len(),
            words@.len() * 8 <= usize::MAX,
            bytes@.len() == i * 8,
            forall|k: int| 0 <= k < i * 8 ==> bytes@[k] == le_i64(words@[k / 8])[k % 8],
        decreases words@.len() - i,
    {
        let buf: [u8; 8] = write_le_i64(words[i]);
        let mut k: usize = 0;
        while k < 8
            invariant
                k <= 8,
                i < words@.len(),
                buf@ == le_i64(words@[i as int]),
                bytes@.len() == i * 8 + k,
                forall|m: int| 0 <= m < i * 8 + k ==> bytes@[m] == le_i64(words@[m / 8])[m % 8],
            decreases 8 - k,
        {
            bytes.push(buf[k]);
            k += 1;
        }
        i += 1;
    }
    bytes
}

/// Unpacks the 4096 palette indices of a section from its packed words, or
/// `None` when the array is too short for 4096 entries or the entries would
/// be wider than 32 bits.
pub fn unpack_indices(words: &Vec<i64>) -> (r: Option<Vec<usize>>)
    ensures
        r is Some <==> unpackable(words@),
        r matches Some(indices) ==> indices@.len() == 4096 && forall|i: int|
            0 <= i < 4096 ==> (#[trigger] indices@[i]) as nat == unpacked(le_stream(words@))[i],
{
    let count: usize = words.len();
    if count < 256 || count >= 2112 {
        return None;
    }
    let states = words_to_le_bytes(words);
    let block_bits: usize = states.len() * 8 / 4096;
    let block_bits: usize = if block_bits > 4 {
        block_bits
    } else {
        4
    };
    let mut indexes: Vec<usize> = Vec::new();
    let mut i: usize = 0;
    while i < 4096
        invariant
            i <= 4096,
            4 <= block_bits <= 32,
            block_bits == entry_width(states@.len() as int),
            4096 * block_bits <= states@.len() * 8,
            states@.len() <= 2112 * 8,
            indexes@.len() == i,
            forall|k: int|
                0 <= k < i ==> (#[trigger] indexes@[k]) as nat == unpacked(states@)[k],
        decreases 4096 - i,
    {
        assert(i * block_bits + block_bits <= 4096 * block_bits) by (nonlinear_arith)
            requires
                i < 4096,
                0 <= block_bits,
        ;
        let number: u32 = read_bits(states.as_slice(), i * block_bits, block_bits);
        indexes.push(number as usize);
        i += 1;
    }
    Some(indexes)
}


/// Bits that a palette of `n` entries needs for one index: the least `w`
/// with `n <= 2^w`.
pub open spec fn bits_needed(n: nat) -> nat
    decreases n,
{
    if n <= 1 {
        0
    } else {
        1 + bits_needed((n + 1) / 2)
    }
}

/// Bits per entry of a section with a palette of `n` entries: what its
/// indices need, and at least four.
pub open spec fn palette_width(n: nat) -> nat {
    if bits_needed(n) > 4 {
        bits_needed(n)
    } else {
        4
    }
}

/// A palette of `n` entries fits into its width.
pub proof fn lemma_bits_needed(n: nat)
    ensures
        n <= pow2(bits_needed(n)),
        n <= pow2(palette_width(n)),
    decreases n,
{
    vstd::arithmetic::power2::lemma2_to64();
    if n > 1 {
        lemma_bits_needed((n + 1) / 2);
        lemma_pow2_unfold(bits_needed(n));
    }
    if bits_needed(n) < 4 {
        vstd::arithmetic::power2::lemma_pow2_strictly_increases(bits_needed(n), 4);
    }
}

/// Binary digit `j` of `v`.
pub open spec fn digit(v: nat, j: nat) -> bool {
    (v / pow2(j)) % 2 == 1
}

/// Bit `p` of the packed form of `indices` at `width` bits per entry: digit
/// `p % width` of entry `p / width`.
pub open spec fn packed_bit(indices: Seq<nat>, width: int, p: int) -> bool {
    digit(indices[p / width], (p % width) as nat)
}

/// `w` where `b` holds, else zero.
pub open spec fn weight(b: bool, w: int) -> int {
    if b {
        w
    } else {
        0
    }
}

/// Byte `b` of the packed form: its bit `k` is bit `8 * b + k` of the packed
/// form.
pub open spec fn packed_byte(indices: Seq<nat>, width: int, b: int) -> u8 {
    (weight(packed_bit(indices, width, 8 * b), 1) + weight(packed_bit(indices, width, 8 * b + 1), 2)
        + weight(packed_bit(indices, width, 8 * b + 2), 4) + weight(
        packed_bit(indices, width, 8 * b + 3),
        8,
    ) + weight(packed_bit(indices, width, 8 * b + 4), 16) + weight(
        packed_bit(indices, width, 8 * b + 5),
        32,
    ) + weight(packed_bit(indices, width, 8 * b + 6), 64) + weight(
        packed_bit(indices, width, 8 * b + 7),
        128,
    )) as u8
}

/// The 4096 entries `indices` packed at `width` bits per entry.
pub open spec fn packed(indices: Seq<nat>, width: int) -> Seq<u8> {
    Seq::new((512 * width) as nat, |b: int| packed_byte(indices, width, b))
}

/// Bit `k` of a byte that is put together from eight bits.
proof fn lemma_byte_bits(b0: u8, b1: u8, b2: u8, b3: u8, b4: u8, b5: u8, b6: u8, b7: u8, k: u8)
    by (bit_vector)
    requires
        b0 <= 1,
        b1 <= 1,
        b2 <= 1,
        b3 <= 1,
        b4 <= 1,
        b5 <= 1,
        b6 <= 1,
        b7 <= 1,
        k < 8,
    ensures
        ((((b0 + 2 * b1 + 4 * b2 + 8 * b3 + 16 * b4 + 32 * b5 + 64 * b6 + 128 * b7) as u8) >> k) & 1)
            == (if k == 0 {
            b0
        } else if k == 1 {
            b1
        } else if k == 2 {
            b2
        } else if k == 3 {
            b3
        } else if k == 4 {
            b4
        } else if k == 5 {
            b5
        } else if k == 6 {
            b6
        } else {
            b7
        }),
{
}

/// A bit as a number.
spec fn bit(b: bool) -> u8 {
    if b {
        1
    } else {
        0
    }
}

/// The packed form holds the bits that went into it.
proof fn lemma_packed_bit(indices: Seq<nat>, width: int, p: int)
    requires
        0 < width,
        0 <= p < 4096 * width,
    ensures
        bit_at(packed(indices, width), p) == packed_bit(indices, width, p),
{
    let b = p / 8;
    let k = (p % 8) as u8;
    let f = |q: int| bit(packed_bit(indices, width, q));
    lemma_byte_bits(
        f(8 * b),
        f(8 * b + 1),
        f(8 * b + 2),
        f(8 * b + 3),
        f(8 * b + 4),
        f(8 * b + 5),
        f(8 * b + 6),
        f(8 * b + 7),
        k,
    );
    assert(packed(indices, width)[b] == packed_byte(indices, width, b));
    assert(packed_byte(indices, width, b) == (f(8 * b) + 2 * f(8 * b + 1) + 4 * f(8 * b + 2) + 8
        * f(8 * b + 3) + 16 * f(8 * b + 4) + 32 * f(8 * b + 5) + 64 * f(8 * b + 6) + 128 * f(
        8 * b + 7,
    )) as u8);
    assert(p == 8 * b + k);
}

/// Bit `j` of the entry that starts at bit `start`.
spec fn entry_bit(bytes: Seq<u8>, start: int, j: int) -> bool {
    bit_at(bytes, start + j)
}

/// The `n` low digits of `v`, read as a number, are `v` modulo two to the
/// `n`.
proof fn lemma_digits_value(bytes: Seq<u8>, start: int, v: nat, n: int)
    requires
        0 <= n,
        forall|j: int| 0 <= j < n ==> #[trigger] entry_bit(bytes, start, j) == digit(v, j as nat),
    ensures
        bits_value(bytes, start, n) == v % pow2(n as nat),
    decreases n,
{
    vstd::arithmetic::power2::lemma2_to64();
    if n > 0 {
        lemma_digits_value(bytes, start, v, n - 1);
        let low = pow2((n - 1) as nat);
        vstd::arithmetic::power2::lemma_pow2_pos((n - 1) as nat);
        lemma_pow2_unfold(n as nat);
        vstd::arithmetic::div_mod::lemma_mod_breakdown(v as int, low as int, 2);
        assert(entry_bit(bytes, start, n - 1) == digit(v, (n - 1) as nat));
        assert(pow2(n as nat) == low * 2);
        if digit(v, (n - 1) as nat) {
            assert(low * ((v as int / low as int) % 2) == low) by (nonlinear_arith)
                requires
                    (v as int / low as int) % 2 == 1,
            ;
        } else {
            assert(low * ((v as int / low as int) % 2) == 0) by (nonlinear_arith)
                requires
                    (v as int / low as int) % 2 == 0,
            ;
        }
    }
}

/// Packing 4096 indices at a width that holds each of them, and unpacking the
/// result, gives the indices back.
pub proof fn lemma_pack_unpack(indices: Seq<nat>, width: int)
    requires
        indices.len() == 4096,
        4 <= width <= 32,
        forall|i: int| 0 <= i < 4096 ==> (#[trigger] indices[i]) < pow2(width as nat),
    ensures
        packed(indices, width).len() == 512 * width,
        entry_width(packed(indices, width).len() as int) == width,
        unpacked(packed(indices, width)) == indices,
{
    let bytes = packed(indices, width);
    assert(entry_width(bytes.len() as int) == width);
    assert forall|i: int| 0 <= i < 4096 implies #[trigger] unpacked(bytes)[i] == indices[i] by {
        assert forall|j: int| 0 <= j < width implies #[trigger] entry_bit(bytes, i * width, j)
            == digit(indices[i], j as nat) by {
            let p = i * width + j;
            assert(0 <= p < 4096 * width) by (nonlinear_arith)
                requires
                    p == i * width + j,
                    0 <= i < 4096,
                    0 <= j < width,
            ;
            lemma_packed_bit(indices, width, p);
            vstd::arithmetic::div_mod::lemma_fundamental_div_mod_converse(p, width, i, j);
        }
        lemma_digits_value(bytes, i * width, indices[i], width);
        vstd::arithmetic::div_mod::lemma_small_mod(indices[i], pow2(width as nat));
    }
    assert(unpacked(bytes) =~= indices);
}

/// Packing the indices of a section with a palette of `n` entries at the
/// palette's width, and unpacking the result, gives the indices back.
pub proof fn lemma_palette_round_trip(n: nat, indices: Seq<nat>)
    requires
        indices.len() == 4096,
        palette_width(n) <= 32,
        forall|i: int| 0 <= i < 4096 ==> (#[trigger] indices[i]) < n,
    ensures
        unpacked(packed(indices, palette_width(n) as int)) == indices,
{
    lemma_bits_needed(n);
    lemma_pack_unpack(indices, palette_width(n) as int);
}


/// The word whose little-endian bytes are the eight bytes of `bytes` from
/// position `8 * i` on.
pub open spec fn word_at(bytes: Seq<u8>, i: int) -> i64 {
    let low = bytes[8 * i] + 0x100 * bytes[8 * i + 1] + 0x1_0000 * bytes[8 * i + 2] + 0x100_0000
        * bytes[8 * i + 3];
    let high = bytes[8 * i + 4] + 0x100 * bytes[8 * i + 5] + 0x1_0000 * bytes[8 * i + 6]
        + 0x100_0000 * bytes[8 * i + 7];
    crate::bytes::signed64(low + 0x1_0000_0000 * high) as i64
}

/// The words whose little-endian bytes are `bytes`.
pub open spec fn words_of(bytes: Seq<u8>) -> Seq<i64> {
    Seq::new(bytes.len() / 8, |i: int| word_at(bytes, i))
}

/// The lowest base-256 digit of a number and what is left above it.
proof fn lemma_low_byte(low: int, rest: int)
    requires
        0 <= low < 0x100,
        0 <= rest,
    ensures
        (low + 0x100 * rest) / 0x100 == rest,
        (low + 0x100 * rest) % 0x100 == low,
{
}

/// The base-256 digits of a number that is put together from eight bytes.
proof fn lemma_word_digits(b: Seq<int>, k: int)
    requires
        b.len() == 8,
        forall|i: int| 0 <= i < 8 ==> 0 <= #[trigger] b[i] < 0x100,
        0 <= k < 8,
    ensures
        crate::bytes::byte_digit(
            b[0] + 0x100 * b[1] + 0x1_0000 * b[2] + 0x100_0000 * b[3] + 0x1_0000_0000 * (b[4]
                + 0x100 * b[5] + 0x1_0000 * b[6] + 0x100_0000 * b[7]),
            k,
        ) == b[k],
{
    let u7 = b[7];
    let u6 = b[6] + 0x100 * u7;
    let u5 = b[5] + 0x100 * u6;
    let u4 = b[4] + 0x100 * u5;
    let u3 = b[3] + 0x100 * u4;
    let u2 = b[2] + 0x100 * u3;
    let u1 = b[1] + 0x100 * u2;
    let u0 = b[0] + 0x100 * u1;
    lemma_low_byte(b[7], 0);
    lemma_low_byte(b[6], u7);
    lemma_low_byte(b[5], u6);
    lemma_low_byte(b[4], u5);
    lemma_low_byte(b[3], u4);
    lemma_low_byte(b[2], u3);
    lemma_low_byte(b[1], u2);
    lemma_low_byte(b[0], u1);
    reveal_with_fuel(crate::bytes::byte_digit, 9);
    assert(crate::bytes::byte_digit(u7, 0) == b[7]);
    assert(crate::bytes::byte_digit(u6, 1) == crate::bytes::byte_digit(u7, 0));
    assert(crate::bytes::byte_digit(u5, 2) == crate::bytes::byte_digit(u6, 1));
    assert(crate::bytes::byte_digit(u4, 3) == crate::bytes::byte_digit(u5, 2));
    assert(crate::bytes::byte_digit(u3, 4) == crate::bytes::byte_digit(u4, 3));
    assert(crate::bytes::byte_digit(u2, 5) == crate::bytes::byte_digit(u3, 4));
    assert(crate::bytes::byte_digit(u1, 6) == crate::bytes::byte_digit(u2, 5));
    assert(crate::bytes::byte_digit(u0, 7) == crate::bytes::byte_digit(u1, 6));
}

/// A byte string of whole words is the little-endian layout of its words.
pub proof fn lemma_words_of(bytes: Seq<u8>)
    requires
        bytes.len() % 8 == 0,
    ensures
        words_of(bytes).len() * 8 == bytes.len(),
        le_stream(words_of(bytes)) == bytes,
{
    let words = words_of(bytes);
    assert forall|p: int| 0 <= p < bytes.len() implies le_stream(words)[p] == bytes[p] by {
        let i = p / 8;
        let k = p % 8;
        let b = Seq::new(8, |j: int| bytes[8 * i + j] as int);
        lemma_word_digits(b, k);
        assert(b[0] == bytes[8 * i] && b[1] == bytes[8 * i + 1] && b[2] == bytes[8 * i + 2] && b[3]
            == bytes[8 * i + 3]);
        assert(b[4] == bytes[8 * i + 4] && b[5] == bytes[8 * i + 5] && b[6] == bytes[8 * i + 6]
            && b[7] == bytes[8 * i + 7]);
        assert(b[k] == bytes[p]);
    }
    assert(le_stream(words) =~= bytes);
}

/// The words of a packed section can be unpacked, and unpacking them gives
/// the indices back.
pub proof fn lemma_pack_unpack_words(indices: Seq<nat>, width: int)
    requires
        indices.len() == 4096,
        4 <= width <= 32,
        forall|i: int| 0 <= i < 4096 ==> (#[trigger] indices[i]) < pow2(width as nat),
    ensures
        unpackable(words_of(packed(indices, width))),
        unpacked(le_stream(words_of(packed(indices, width)))) == indices,
{
    lemma_pack_unpack(indices, width);
    lemma_words_of(packed(indices, width));
}

} // verus!
