//! Bytes read as bit strings and as numbers, most significant bit first.

use vstd::prelude::*;

verus! {

/// Bit `k` of a byte, counted from its most significant bit.
pub open spec fn byte_bit(b: u8, k: int) -> bool {
    (b >> ((7 - k) as u8)) & 1 == 1
}

/// Bit `i` of a byte string, counted from the most significant bit of byte 0.
pub open spec fn bit_at(s: Seq<u8>, i: int) -> bool {
    byte_bit(s[i / 8], i % 8)
}

/// `s` with bit `i` the other way round.
pub open spec fn flip_bit(s: Seq<u8>, i: int) -> Seq<u8> {
    s.update(i / 8, s[i / 8] ^ (0x80u8 >> ((i % 8) as u8)))
}

/// The number in the first 9 bytes.
pub open spec fn value9(s: Seq<u8>) -> int {
    (((((((s[0] * 256 + s[1]) * 256 + s[2]) * 256 + s[3]) * 256 + s[4]) * 256 + s[5]) * 256 + s[6])
        * 256 + s[7]) * 256 + s[8]
}

/// The number in the first 10 bytes.
pub open spec fn value10(s: Seq<u8>) -> int {
    value9(s) * 256 + s[9]
}

/// The number in the first 12 bytes.
pub open spec fn value12(s: Seq<u8>) -> int {
    (value10(s) * 256 + s[10]) * 256 + s[11]
}

/// Ten bytes are determined by the number they spell.
pub proof fn law_number_determines_bytes(a: Seq<u8>, b: Seq<u8>)
    requires
        a.len() == 10,
        b.len() == 10,
        value10(a) == value10(b),
    ensures
        a == b,
{
    lemma_split_number(value9(a), a[9] as int, value9(b), b[9] as int);
    lemma_prefixes_agree(a, b);
    assert(a =~= b);
}

/// A number and a last byte are determined by what they make together.
proof fn lemma_split_number(a: int, x: int, b: int, y: int)
    requires
        a * 256 + x == b * 256 + y,
        0 <= x < 256,
        0 <= y < 256,
    ensures
        a == b,
        x == y,
{
}

/// Nine bytes are determined by the number they spell.
proof fn lemma_prefixes_agree(a: Seq<u8>, b: Seq<u8>)
    requires
        value9(a) == value9(b),
    ensures
        forall|i: int| 0 <= i < 9 ==> a[i] == b[i],
{
    let head = |s: Seq<u8>| ((s[0] * 256 + s[1]) * 256 + s[2]) * 256 + s[3];
    let tail = |s: Seq<u8>| (((head(s) * 256 + s[4]) * 256 + s[5]) * 256 + s[6]) * 256 + s[7];
    lemma_split_number(tail(a), a[8] as int, tail(b), b[8] as int);
    let t6 = |s: Seq<u8>| ((head(s) * 256 + s[4]) * 256 + s[5]) * 256 + s[6];
    lemma_split_number(t6(a), a[7] as int, t6(b), b[7] as int);
    let t5 = |s: Seq<u8>| (head(s) * 256 + s[4]) * 256 + s[5];
    lemma_split_number(t5(a), a[6] as int, t5(b), b[6] as int);
    let t4 = |s: Seq<u8>| head(s) * 256 + s[4];
    lemma_split_number(t4(a), a[5] as int, t4(b), b[5] as int);
    lemma_split_number(head(a), a[4] as int, head(b), b[4] as int);
}

/// Two bytes are the same where their bits are, and but for the bottom three where
/// their top five are, which masking leaves.
pub proof fn lemma_same_bits(a: u8, b: u8)
    ensures
        a == b <==> forall|k: int| 0 <= k < 8 ==> #[trigger] byte_bit(a, k) == byte_bit(b, k),
        a & 0xF8 == b & 0xF8 <==> forall|k: int|
            0 <= k < 5 ==> #[trigger] byte_bit(a, k) == byte_bit(b, k),
        a & 0xF8 == (a / 8) * 8,
        b & 0xF8 == (b / 8) * 8,
        (a & 0xF8) & 0xF8 == a & 0xF8,
        forall|k: int| 5 <= k < 8 ==> !#[trigger] byte_bit(a & 0xF8, k),
        forall|k: int| 0 <= k < 8 ==> !#[trigger] byte_bit(0, k),
{
    assert({
        let top = (a >> 7) & 1 == (b >> 7) & 1 && (a >> 6) & 1 == (b >> 6) & 1 && (a >> 5) & 1 == (b
            >> 5) & 1 && (a >> 4) & 1 == (b >> 4) & 1 && (a >> 3) & 1 == (b >> 3) & 1;
        let low = (a >> 2) & 1 == (b >> 2) & 1 && (a >> 1) & 1 == (b >> 1) & 1 && (a >> 0) & 1 == (b
            >> 0) & 1;
        &&& (a & 0xF8 == b & 0xF8) == top
        &&& (a == b) == (top && low)
        &&& a & 0xF8 == (a / 8) * 8
        &&& b & 0xF8 == (b / 8) * 8
        &&& (a & 0xF8) & 0xF8 == a & 0xF8
        &&& ((a & 0xF8) >> 2) & 1 == 0 && ((a & 0xF8) >> 1) & 1 == 0 && ((a & 0xF8) >> 0) & 1 == 0
        &&& forall|s: u8| #[trigger] (0u8 >> s) & 1 == 0
        &&& forall|s: u8| #[trigger] (a >> s) & 1 <= 1
        &&& forall|s: u8| #[trigger] (b >> s) & 1 <= 1
    }) by (bit_vector);
    let same = |k: int| byte_bit(a, k) == byte_bit(b, k);
    let top = same(0) && same(1) && same(2) && same(3) && same(4);
    assert(top == (a & 0xF8 == b & 0xF8));
    assert((top && same(5) && same(6) && same(7)) == (a == b));
    assert forall|k: int| 0 <= k < 5 && top implies #[trigger] byte_bit(a, k) == byte_bit(b, k) by {
        assert(k == 0 || k == 1 || k == 2 || k == 3 || k == 4);
    }
}

/// Bytes are added bit by bit.
pub proof fn lemma_xor_bit(a: u8, b: u8, k: int)
    requires
        0 <= k < 8,
    ensures
        byte_bit(a ^ b, k) == (byte_bit(a, k) != byte_bit(b, k)),
{
    let s = (7 - k) as u8;
    assert((((a ^ b) >> s) & 1 == 1) == (((a >> s) & 1 == 1) != ((b >> s) & 1 == 1)))
        by (bit_vector)
        requires
            s < 8,
    ;
}

/// Adding zero changes nothing.
pub proof fn lemma_xor_zero()
    by (bit_vector)
    ensures
        forall|x: u8| #[trigger] (0u8 ^ x) == x,
        forall|x: u8| #[trigger] (x ^ 0u8) == x,
{
}

/// Bits that are added give the sum modulo 2, which is zero where they agree.
pub proof fn lemma_add_bits(x: u8, y: u8)
    requires
        x <= 1,
        y <= 1,
    ensures
        x ^ y == (x + y) % 2,
        x ^ y <= 1,
{
    assert(x ^ y == (x + y) % 2) by (bit_vector)
        requires
            x <= 1,
            y <= 1,
    ;
}

/// A bit that was flipped is the other way round, and every other bit of its
/// byte is as it was.
pub proof fn lemma_flip_byte(b: u8, j: int, k: int)
    requires
        0 <= j < 8,
        0 <= k < 8,
    ensures
        byte_bit(b ^ (0x80u8 >> (j as u8)), k) == (byte_bit(b, k) != (j == k)),
{
    let x = j as u8;
    let y = (7 - k) as u8;
    assert((((b ^ (0x80u8 >> x)) >> y) & 1 == 1) == (((b >> y) & 1 == 1) != (x + y == 7)))
        by (bit_vector)
        requires
            x < 8,
            y < 8,
    ;
}

/// Flipping bit `i` of a byte string turns that bit and no other.
pub proof fn lemma_flip_bit(s: Seq<u8>, i: int, k: int)
    requires
        0 <= i < 8 * s.len(),
        0 <= k < 8 * s.len(),
    ensures
        bit_at(flip_bit(s, i), k) == (bit_at(s, k) != (i == k)),
{
    lemma_flip_byte(s[i / 8], i % 8, k % 8);
}

} // verus!
