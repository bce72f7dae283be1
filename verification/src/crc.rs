//! CRC-14 over the source-encoded message.

use vstd::prelude::*;
use crate::bits;
use crate::constants::CRC_POLYNOMIAL;

verus! {

/// The top bit of the division register.
const TOPBIT: u16 = 0x2000;

/// The bits of the division register.
const MASK: u16 = 0x3FFF;

/// One step of the division: the register moves up by one bit, and the
/// polynomial is taken off if a bit fell out at the top.
pub open spec fn divide(r: u16) -> u16 {
    if r & 0x2000 != 0 {
        ((r << 1) ^ 0x2757) & 0x3FFF
    } else {
        (r << 1) & 0x3FFF
    }
}

/// The remainder of the modulo-2 division of the first `n` bits of `message`,
/// followed by fourteen zeros, by the CRC polynomial.
pub open spec fn remainder(message: Seq<u8>, n: nat) -> u16
    decreases n,
{
    if n == 0 {
        0
    } else {
        divide(
            remainder(message, (n - 1) as nat) ^ if bits::bit_at(message, n - 1) {
                0x2000u16
            } else {
                0
            },
        )
    }
}

/// Byte `j` of a message as far as its first `n` bits go, with zeros behind them.
spec fn loaded(message: Seq<u8>, n: int, j: int) -> u8 {
    if 8 * j + 8 <= n {
        message[j]
    } else {
        message[j] & (0xFFu8 << ((8 * j + 8 - n) as u8))
    }
}

/// What is left of a byte once `k` of its bits are divided, at the top of the
/// register.
spec fn ahead(byte: u8, k: int) -> u16 {
    if k == 0 { 0 } else { ((byte << (k as u8)) as u16) << 6 }
}

/// One step of the register against one step of the division. The register holds
/// the remainder with the current byte loaded at its top, `ahead` being what is
/// left of that byte.
proof fn lemma_step(reg: u16, rem: u16, ahead: u8)
    requires
        reg & 0x3FFF == rem ^ ((ahead as u16) << 6),
    ensures
        ({
            let next = if reg & 0x2000 != 0 {
                (reg << 1) ^ 0x2757
            } else {
                reg << 1
            };
            next & 0x3FFF == divide(
                rem ^ if ahead & 0x80 != 0 {
                    0x2000u16
                } else {
                    0
                },
            ) ^ (((ahead << 1) as u16) << 6)
        }),
{
    assert({
        let next: u16 = if reg & 0x2000 != 0 {
            (reg << 1) ^ 0x2757
        } else {
            reg << 1
        };
        let fed: u16 = rem ^ if ahead & 0x80 != 0 {
            0x2000u16
        } else {
            0
        };
        let divided: u16 = if fed & 0x2000 != 0 {
            ((fed << 1) ^ 0x2757) & 0x3FFF
        } else {
            (fed << 1) & 0x3FFF
        };
        next & 0x3FFF == divided ^ (((ahead << 1) as u16) << 6)
    }) by (bit_vector)
        requires
            reg & 0x3FFF == rem ^ ((ahead as u16) << 6),
    ;
}

/// Masking keeps the register in range, and zero changes nothing.
proof fn lemma_register(reg: u16)
    ensures
        reg & 0x3FFF <= 0x3FFF,
        0u16 & 0x3FFF == 0,
        reg ^ 0 == reg,
        reg ^ reg == 0,
        (0u8 as u16) << 6 == 0,
{
    assert(reg & 0x3FFF <= 0x3FFF && 0u16 & 0x3FFF == 0 && reg ^ 0 == reg && reg ^ reg == 0 && (
    0u8 as u16) << 6 == 0) by (bit_vector);
}

/// A byte cut to its first `k` bits has those bits, and nothing behind them.
proof fn lemma_cut_byte(byte: u8, k: u8)
    requires
        0 < k < 8,
    ensures
        forall|i: u8| #![trigger byte >> i] 8 - k <= i < 8 ==> ((byte & (0xFFu8 << ((8 - k) as u8)))
            >> i) & 1 == (byte >> i) & 1,
        (byte & (0xFFu8 << ((8 - k) as u8))) << k == 0,
{
    let s = (8 - k) as u8;
    assert((byte & (0xFFu8 << s)) << k == 0 && forall|i: u8|
        #![trigger byte >> i]
        s <= i < 8 ==> ((byte & (0xFFu8 << s)) >> i) & 1 == (byte >> i) & 1) by (bit_vector)
        requires
            0 < k < 8,
            s == 8 - k,
    ;
}

/// Bitwise modulo-2 division over `num_bits` of `message` (MSB first).
#[verifier::spinoff_prover]
pub fn compute(message: &[u8], num_bits: usize) -> (r: u16)
    requires
        num_bits <= 8 * message@.len(),
    ensures
        r == remainder(message@, num_bits as nat),
        r <= 0x3FFF,
{
    let mut reg: u16 = 0;
    let mut idx_byte: usize = 0;
    let mut idx_bit: usize = 0;
    let ghost n = num_bits as int;
    proof {
        lemma_register(0);
    }
    while idx_bit < num_bits
        invariant
            n == num_bits,
            idx_bit <= num_bits <= 8 * message@.len(),
            idx_byte == (idx_bit + 7) / 8,
            reg & 0x3FFF == remainder(message@, idx_bit as nat) ^ ahead(
                loaded(message@, n, idx_bit as int / 8),
                idx_bit as int % 8,
            ),
        decreases num_bits - idx_bit,
    {
        let ghost rem = remainder(message@, idx_bit as nat);
        let ghost byte = loaded(message@, n, idx_bit as int / 8);
        let ghost k = (idx_bit % 8) as u8;
        let ghost held = reg;
        if idx_bit % 8 == 0 {
            let mut b: u8 = message[idx_byte];
            if num_bits - idx_bit < 8 {
                // The bits past `num_bits` are none of the message.
                b = b & (0xFFu8 << (8 - (num_bits - idx_bit)) as u8);
            }
            assert(b == byte);
            proof {
                lemma_register(rem);
                assert((held ^ ((byte as u16) << 6)) & 0x3FFF == rem ^ (((byte << 0) as u16) << 6))
                    by (bit_vector)
                    requires
                        held & 0x3FFF == rem,
                ;
            }
            reg = reg ^ ((b as u16) << 6);
            idx_byte += 1;
        }
        assert(reg & 0x3FFF == rem ^ (((byte << k) as u16) << 6));
        proof {
            lemma_step(reg, rem, byte << k);
            assert({
                &&& ((byte << k) & 0x80 != 0) == ((byte >> ((7 - k) as u8)) & 1 == 1)
                &&& (byte << k) << 1 == byte << ((k + 1) as u8)
                &&& (byte << 8u8) == 0
                &&& (0u8 as u16) << 6 == 0
            }) by (bit_vector)
                requires
                    k < 8,
            ;
            let whole = message@[idx_bit as int / 8];
            if byte != whole {
                let rest = (n - 8 * (idx_bit as int / 8)) as u8;
                lemma_cut_byte(whole, rest);
                assert((byte >> ((7 - k) as u8)) & 1 == (whole >> ((7 - k) as u8)) & 1);
            }
        }
        reg = if reg & TOPBIT != 0 {
            (reg << 1) ^ CRC_POLYNOMIAL
        } else {
            reg << 1
        };
        idx_bit += 1;
        proof {
            if idx_bit % 8 != 0 {
                assert(idx_bit as int / 8 == (idx_bit - 1) / 8);
                assert((idx_bit % 8) as u8 == (k + 1) as u8);
            } else {
                assert(k == 7);
            }
        }
    }
    proof {
        lemma_register(reg);
        lemma_register(remainder(message@, num_bits as nat));
        if n % 8 != 0 {
            lemma_cut_byte(message@[n / 8], (n % 8) as u8);
        }
    }
    reg & MASK
}

/// The checksum field of a 91-bit payload: bits 77 to 90.
pub open spec fn stored(a91: Seq<u8>) -> u16 {
    ((bits::value12(a91) / 32) % 0x4000) as u16
}

/// What the checksum covers: the first 77 bits, followed by zeros.
pub open spec fn covered(s: Seq<u8>) -> Seq<u8> {
    s.take(9) + seq![s[9] & 0xF8, 0, 0]
}

/// The checksum of the first 77 bits, which are zero-extended to 82.
pub open spec fn checksum(s: Seq<u8>) -> u16 {
    remainder(covered(s), 82)
}

/// A 77-bit payload with its checksum behind it.
pub open spec fn sealed(payload: Seq<u8>) -> Seq<u8> {
    let crc = checksum(payload);
    payload.take(9) + seq![
        (payload[9] & 0xF8) | ((crc >> 11) as u8),
        ((crc >> 3) & 0xFF) as u8,
        ((crc << 5) & 0xFF) as u8,
    ]
}

/// Does a 91-bit payload hold the checksum of its own first 77 bits?
pub open spec fn verifies(a91: Seq<u8>) -> bool {
    checksum(a91) == stored(a91)
}

/// A remainder fits the register.
pub proof fn lemma_remainder_fits(message: Seq<u8>, n: nat)
    ensures
        remainder(message, n) <= 0x3FFF,
    decreases n,
{
    if n > 0 {
        lemma_remainder_fits(message, (n - 1) as nat);
        let r = remainder(message, (n - 1) as nat) ^ if bits::bit_at(message, n - 1) {
            0x2000u16
        } else {
            0
        };
        lemma_register((r << 1) ^ 0x2757);
        lemma_register(r << 1);
    }
}

/// Is the coefficient of degree `d` of a message of `n` bits followed by fourteen
/// zeros, read as a polynomial, one?
pub open spec fn dividend_term(message: Seq<u8>, n: nat, d: int) -> bool {
    14 <= d < n + 14 && bits::bit_at(message, n + 13 - d)
}

/// Is the coefficient of degree `d` of the divisor one? That of degree 14 is, and
/// 0x2757 holds the others.
pub open spec fn divisor_term(d: int) -> bool {
    d == 14 || (0 <= d < 14 && (0x2757u16 >> (d as u16)) & 1 == 1)
}

/// Is the coefficient of degree `d` of the product of a quotient, leading
/// coefficient first, and the divisor one? One more coefficient of the quotient
/// moves the product up by a degree and adds the divisor if it is one.
pub open spec fn product_term(quotient: Seq<bool>, d: int) -> bool
    decreases quotient.len(),
{
    quotient.len() > 0 && (product_term(quotient.drop_last(), d - 1) != (quotient.last()
        && divisor_term(d)))
}

/// Is the coefficient of degree `d` of a remainder one?
pub open spec fn remainder_term(r: u16, d: int) -> bool {
    0 <= d < 14 && (r >> (d as u16)) & 1 == 1
}

/// One step of the division, coefficient by coefficient. Zero has none.
proof fn lemma_divide_term(r: u16, bit: bool, d: int)
    requires
        r <= 0x3FFF,
    ensures
        ({
            let fed = r ^ if bit { 0x2000u16 } else { 0 };
            remainder_term(divide(fed), d) == ((remainder_term(r, d - 1) != (d == 14 && bit)) != (
            fed & 0x2000 != 0 && divisor_term(d)))
        }),
        !remainder_term(0, d),
{
    let v: u16 = if bit { 0x2000 } else { 0 };
    let f: u16 = if 1 <= d <= 14 { (d - 1) as u16 } else { 0 };
    let e = (f + 1) as u16;
    assert({
        let top = (r ^ v) & 0x2000 != 0;
        let x = divide(r ^ v);
        &&& f < 13 ==> ((x >> e) & 1 == 1) == (((r >> f) & 1 == 1) != (top && (0x2757u16 >> e) & 1
            == 1))
        &&& ((x >> 0) & 1 == 1) == (top && (0x2757u16 >> 0) & 1 == 1)
        &&& top == (((r >> 13) & 1 == 1) != (v != 0))
        &&& (0u16 >> e) & 1 == 0 && (0u16 >> 0) & 1 == 0
    }) by (bit_vector)
        requires
            r <= 0x3FFF,
            v == 0 || v == 0x2000,
            f <= 13,
            e == f + 1,
    ;
}

/// The remainder is that of a division of polynomials modulo 2: the message
/// followed by fourteen zeros is a multiple of the divisor plus the remainder,
/// whose degree is below 14.
#[verifier::spinoff_prover]
pub proof fn law_remainder_is_left_by_division(message: Seq<u8>, n: nat) -> (quotient: Seq<bool>)
    ensures
        quotient.len() == n,
        forall|d: int| #[trigger]
            dividend_term(message, n, d) == (product_term(quotient, d) != remainder_term(
                remainder(message, n),
                d,
            )),
        remainder(message, n) <= 0x3FFF,
    decreases n,
{
    if n == 0 {
        assert forall|d: int| !#[trigger] dividend_term(message, 0, d) && !remainder_term(0, d) by {
            lemma_divide_term(0, false, d);
        }
        Seq::empty()
    } else {
        let k = (n - 1) as nat;
        let before = law_remainder_is_left_by_division(message, k);
        let r = remainder(message, k);
        let bit = bits::bit_at(message, n - 1);
        let fed = r ^ if bit { 0x2000u16 } else { 0 };
        let quotient = before.push(fed & 0x2000 != 0);
        lemma_remainder_fits(message, n);
        assert forall|d: int| #[trigger]
            dividend_term(message, n, d) == (product_term(quotient, d) != remainder_term(
            remainder(message, n),
            d,
        )) by {
            lemma_divide_term(r, bit, d);
            assert(quotient.drop_last() =~= before);
            assert(dividend_term(message, k, d - 1) == (product_term(before, d - 1)
                != remainder_term(r, d - 1)));
        }
        quotient
    }
}

/// A message of zeros leaves nothing.
pub proof fn law_zeros_leave_nothing(message: Seq<u8>, n: nat)
    requires
        forall|i: int| 0 <= i < n ==> !#[trigger] bits::bit_at(message, i),
    ensures
        remainder(message, n) == 0,
{
    law_remainder_is_linear(message, message, message, n);
    lemma_register(remainder(message, n));
}

/// A remainder depends on the bits divided alone: messages that agree on their
/// first `n` bits leave the same.
pub proof fn law_remainder_depends_on_its_bits(a: Seq<u8>, b: Seq<u8>, n: nat)
    requires
        forall|i: int| 0 <= i < n ==> #[trigger] bits::bit_at(a, i) == bits::bit_at(b, i),
    ensures
        remainder(a, n) == remainder(b, n),
    decreases n,
{
    if n > 0 {
        law_remainder_depends_on_its_bits(a, b, (n - 1) as nat);
        assert(bits::bit_at(a, n - 1) == bits::bit_at(b, n - 1));
    }
}

/// Dividing is linear: the remainder of a sum is the sum of the remainders.
pub proof fn law_remainder_is_linear(a: Seq<u8>, b: Seq<u8>, x: Seq<u8>, n: nat)
    requires
        forall|i: int|
            0 <= i < n ==> #[trigger] bits::bit_at(x, i) == (bits::bit_at(a, i) != bits::bit_at(
                b,
                i,
            )),
    ensures
        remainder(x, n) == remainder(a, n) ^ remainder(b, n),
    decreases n,
{
    if n == 0 {
        lemma_register(0);
    } else {
        let k = (n - 1) as nat;
        law_remainder_is_linear(a, b, x, k);
        assert(bits::bit_at(x, n - 1) == (bits::bit_at(a, n - 1) != bits::bit_at(b, n - 1)));
        let (r, q) = (remainder(a, k), remainder(b, k));
        let t: u16 = if bits::bit_at(a, k as int) { 0x2000 } else { 0 };
        let u: u16 = if bits::bit_at(b, k as int) { 0x2000 } else { 0 };
        let v: u16 = if bits::bit_at(x, k as int) { 0x2000 } else { 0 };
        assert(divide((r ^ q) ^ v) == divide(r ^ t) ^ divide(q ^ u)) by (bit_vector)
            requires
                t == 0 || t == 0x2000,
                u == 0 || u == 0x2000,
                v == 0 || v == 0x2000,
                (v != 0) == ((t != 0) != (u != 0)),
        ;
    }
}

/// The checksum is linear: that of two payloads added bit by bit is the sum of
/// theirs.
pub proof fn law_checksum_is_linear(a: Seq<u8>, b: Seq<u8>, x: Seq<u8>)
    requires
        a.len() == 10,
        b.len() == 10,
        x.len() == 10,
        forall|j: int| 0 <= j < 10 ==> #[trigger] x[j] == a[j] ^ b[j],
    ensures
        checksum(x) == checksum(a) ^ checksum(b),
{
    let (ca, cb, cx) = (covered(a), covered(b), covered(x));
    let (p, q) = (a[9], b[9]);
    assert((p ^ q) & 0xF8 == (p & 0xF8) ^ (q & 0xF8) && 0u8 ^ 0 == 0) by (bit_vector);
    assert(x[9] == p ^ q);
    assert forall|i: int| 0 <= i < 82 implies #[trigger] bits::bit_at(cx, i) == (bits::bit_at(ca, i)
        != bits::bit_at(cb, i)) by {
        let j = i / 8;
        if j < 9 {
            assert(x[j] == a[j] ^ b[j]);
        }
        assert(cx[j] == ca[j] ^ cb[j]);
        bits::lemma_xor_bit(ca[j], cb[j], i % 8);
    }
    law_remainder_is_linear(ca, cb, cx, 82);
}

/// The checksum field, read byte by byte.
#[verifier::spinoff_prover]
proof fn lemma_stored(a91: Seq<u8>)
    requires
        a91.len() >= 12,
    ensures
        stored(a91) == (((a91[9] as u16) & 0x07) << 11) | ((a91[10] as u16) << 3) | ((a91[11] as u16)
            >> 5),
        stored(a91) <= 0x3FFF,
        forall|i: int|
            77 <= i < 91 ==> #[trigger] bits::bit_at(a91, i) == remainder_term(stored(a91), 90 - i),
{
    let (b9, b10, b11) = (a91[9], a91[10], a91[11]);
    let high = bits::value9(a91);
    assert(bits::value12(a91) == high * 0x1000000 + b9 * 0x10000 + b10 * 0x100 + b11);
    assert((high * 0x1000000 + b9 * 0x10000 + b10 * 0x100 + b11) / 32 == high * 0x80000 + b9 * 0x800
        + b10 * 8 + b11 / 32);
    assert((high * 0x80000 + b9 * 0x800 + b10 * 8 + b11 / 32) % 0x4000 == (b9 % 8) * 0x800 + b10 * 8
        + b11 / 32);
    assert({
        let s: u16 = (((b9 as u16) & 0x07) << 11) | ((b10 as u16) << 3) | ((b11 as u16) >> 5);
        &&& s == (b9 % 8) * 0x800 + b10 * 8 + b11 / 32
        &&& s <= 0x3FFF
        &&& ((b9 >> 2) & 1 == 1) == ((s >> 13) & 1 == 1)
        &&& ((b9 >> 1) & 1 == 1) == ((s >> 12) & 1 == 1)
        &&& ((b9 >> 0) & 1 == 1) == ((s >> 11) & 1 == 1)
        &&& ((b10 >> 7) & 1 == 1) == ((s >> 10) & 1 == 1)
        &&& ((b10 >> 6) & 1 == 1) == ((s >> 9) & 1 == 1)
        &&& ((b10 >> 5) & 1 == 1) == ((s >> 8) & 1 == 1)
        &&& ((b10 >> 4) & 1 == 1) == ((s >> 7) & 1 == 1)
        &&& ((b10 >> 3) & 1 == 1) == ((s >> 6) & 1 == 1)
        &&& ((b10 >> 2) & 1 == 1) == ((s >> 5) & 1 == 1)
        &&& ((b10 >> 1) & 1 == 1) == ((s >> 4) & 1 == 1)
        &&& ((b10 >> 0) & 1 == 1) == ((s >> 3) & 1 == 1)
        &&& ((b11 >> 7) & 1 == 1) == ((s >> 2) & 1 == 1)
        &&& ((b11 >> 6) & 1 == 1) == ((s >> 1) & 1 == 1)
        &&& ((b11 >> 5) & 1 == 1) == ((s >> 0) & 1 == 1)
    }) by (bit_vector);
    assert forall|i: int| 77 <= i < 91 implies #[trigger] bits::bit_at(a91, i) == remainder_term(
        stored(a91),
        90 - i,
    ) by {
        assert(i == 77 || i == 78 || i == 79 || i == 80 || i == 81 || i == 82 || i == 83 || i == 84
            || i == 85 || i == 86 || i == 87 || i == 88 || i == 89 || i == 90);
    }
}

/// The checksum that 91 bits hold is bits 77 to 90, most significant bit first.
pub proof fn law_stored_is_behind_the_payload(a91: Seq<u8>, i: int)
    requires
        a91.len() >= 12,
        77 <= i < 91,
    ensures
        bits::bit_at(a91, i) == remainder_term(stored(a91), 90 - i),
        stored(a91) <= 0x3FFF,
{
    lemma_stored(a91);
}

/// Pull the transmitted CRC out of a 91-bit payload (bits 77..91).
pub fn extract(a91: &[u8]) -> (r: u16)
    requires
        a91@.len() >= 12,
    ensures
        r == stored(a91@),
        r <= 0x3FFF,
{
    proof {
        lemma_stored(a91@);
    }
    ((a91[9] as u16 & 0x07) << 11) | ((a91[10] as u16) << 3) | (a91[11] as u16 >> 5)
}

/// The remainder over 82 bits whose last byte is zero.
pub proof fn lemma_computed(message: Seq<u8>, s: Seq<u8>)
    requires
        message.len() >= 11,
        s.len() >= 10,
        forall|i: int| 0 <= i < 9 ==> message[i] == s[i],
        message[9] == s[9] & 0xF8,
        message[10] == 0,
    ensures
        remainder(message, 82) == checksum(s),
        checksum(s) <= 0x3FFF,
{
    assert forall|i: int| 0 <= i < 82 implies #[trigger] bits::bit_at(message, i) == bits::bit_at(
        covered(s),
        i,
    ) by {
        assert(message[i / 8] == covered(s)[i / 8]);
    }
    law_remainder_depends_on_its_bits(message, covered(s), 82);
    lemma_remainder_fits(message, 82);
}

/// Append the CRC to a 77-bit payload, yielding the 91 bits the LDPC encoder
/// takes. The CRC covers the payload zero-extended from 77 to 82 bits, which is
/// why the spare bits are cleared first.
pub fn add(payload: &[u8], a91: &mut [u8])
    requires
        payload@.len() >= 10,
        old(a91)@.len() >= 12,
    ensures
        final(a91)@ == sealed(payload@) + old(a91)@.skip(12),
{
    let mut i: usize = 0;
    while i < 10
        invariant
            i <= 10 <= payload@.len(),
            a91@.len() == old(a91)@.len() >= 12,
            forall|j: int| 0 <= j < i ==> a91@[j] == payload@[j],
            forall|j: int| 10 <= j < a91@.len() ==> a91@[j] == old(a91)@[j],
        decreases 10 - i,
    {
        a91[i] = payload[i];
        i += 1;
    }
    a91[9] = a91[9] & 0xF8;
    a91[10] = 0;
    let checksum: u16 = compute(a91, 82);
    proof {
        lemma_computed(a91@, payload@);
        assert((checksum >> 11) <= 0xFF && ((checksum >> 3) & 0xFF) <= 0xFF && ((checksum << 5)
            & 0xFF) <= 0xFF) by (bit_vector);
    }
    a91[9] = a91[9] | (checksum >> 11) as u8;
    a91[10] = ((checksum >> 3) & 0xFF) as u8;
    a91[11] = ((checksum << 5) & 0xFF) as u8;
    assert(a91@ =~= sealed(payload@) + old(a91)@.skip(12));
}

/// Does a 91-bit payload carry a CRC matching its own contents?
pub fn check(a91: &[u8]) -> (r: bool)
    requires
        a91@.len() >= 12,
    ensures
        r == verifies(a91@),
{
    let mut scratch: [u8; 12] = [0; 12];
    let mut i: usize = 0;
    while i < 9
        invariant
            i <= 9,
            a91@.len() >= 12,
            forall|j: int| 0 <= j < i ==> scratch@[j] == a91@[j],
            scratch@[10] == 0,
        decreases 9 - i,
    {
        scratch[i] = a91[i];
        i += 1;
    }
    scratch[9] = a91[9] & 0xF8;
    proof {
        lemma_computed(scratch@, a91@);
    }
    compute(&scratch, 82) == extract(a91)
}

/// The checksum put in by `add` is the one that `check` finds, and the payload is
/// in front of it bit for bit.
#[verifier::spinoff_prover]
pub proof fn law_sealed_verifies(payload: Seq<u8>)
    requires
        payload.len() >= 10,
    ensures
        verifies(sealed(payload)),
        stored(sealed(payload)) == checksum(payload),
        covered(sealed(payload)) == covered(payload),
        sealed(payload).len() == 12,
        sealed(payload)[11] % 32 == 0,
        bits::value12(sealed(payload)) == (bits::value10(payload) / 8) * 0x80000 + checksum(payload)
            * 32,
{
    let a91 = sealed(payload);
    let crc = checksum(payload);
    let (p9, b9, b10, b11) = (payload[9], a91[9], a91[10], a91[11]);
    lemma_remainder_fits(covered(payload), 82);
    assert({
        let b9: u8 = (p9 & 0xF8) | ((crc >> 11) as u8);
        let b10: u8 = ((crc >> 3) & 0xFF) as u8;
        let b11: u8 = ((crc << 5) & 0xFF) as u8;
        &&& b9 & 0xF8 == p9 & 0xF8
        &&& (((b9 as u16) & 0x07) << 11) | ((b10 as u16) << 3) | ((b11 as u16) >> 5) == crc
        &&& b9 * 0x10000 + b10 * 0x100 + b11 == (p9 / 8) * 0x80000 + crc * 32
        &&& b11 % 32 == 0
    }) by (bit_vector)
        requires
            crc <= 0x3FFF,
    ;
    lemma_stored(a91);
    assert(covered(a91) =~= covered(payload));
    let high = bits::value9(payload);
    assert(bits::value9(a91) == high);
    assert(bits::value10(payload) / 8 == high * 32 + p9 / 8);
}

/// The first 77 bits of what `add` makes are those of the payload.
pub proof fn law_sealed_begins_with_the_payload(payload: Seq<u8>, i: int)
    requires
        payload.len() >= 10,
        0 <= i < 77,
    ensures
        bits::bit_at(sealed(payload), i) == bits::bit_at(payload, i),
{
    law_sealed_verifies(payload);
    let a91 = sealed(payload);
    assert(covered(a91)[i / 8] == covered(payload)[i / 8]);
    bits::lemma_same_bits(a91[9], payload[9]);
}

/// Bits 77 to 90 of what `add` makes are the checksum, most significant bit first.
#[verifier::spinoff_prover]
pub proof fn law_sealed_ends_with_the_checksum(payload: Seq<u8>, i: int)
    requires
        payload.len() >= 10,
        77 <= i < 91,
    ensures
        bits::bit_at(sealed(payload), i) == remainder_term(checksum(payload), 90 - i),
{
    law_sealed_verifies(payload);
    law_stored_is_behind_the_payload(sealed(payload), i);
}

/// The checksum is the remainder of the 77 bits followed by five zeros, whatever is
/// behind those.
pub proof fn law_checksum_is_over_82_bits(payload: Seq<u8>, s: Seq<u8>)
    requires
        payload.len() >= 10,
        forall|i: int|
            0 <= i < 82 ==> #[trigger] bits::bit_at(s, i) == (i < 77 && bits::bit_at(payload, i)),
    ensures
        checksum(payload) == remainder(s, 82),
{
    let c = covered(payload);
    let masked = payload[9] & 0xF8;
    bits::lemma_same_bits(payload[9], masked);
    assert forall|i: int| 0 <= i < 82 implies #[trigger] bits::bit_at(s, i) == bits::bit_at(c, i) by {
        assert(c[i / 8] == if i / 8 < 9 {
            payload[i / 8]
        } else if i / 8 == 9 {
            payload[9] & 0xF8
        } else {
            0
        });
    }
    law_remainder_depends_on_its_bits(s, c, 82);
}

/// What `add` makes depends on the first 77 bits of the payload alone.
pub proof fn law_sealed_depends_on_77_bits(a: Seq<u8>, b: Seq<u8>)
    requires
        a.len() >= 10,
        b.len() >= 10,
        forall|i: int| 0 <= i < 77 ==> #[trigger] bits::bit_at(a, i) == bits::bit_at(b, i),
    ensures
        sealed(a) == sealed(b),
{
    assert forall|j: int, k: int| 0 <= j < 9 && 0 <= k < 8 || j == 9 && 0 <= k < 5 implies
        #[trigger] bits::byte_bit(a[j], k) == bits::byte_bit(b[j], k) by {
        assert(bits::bit_at(a, 8 * j + k) == bits::bit_at(b, 8 * j + k));
    }
    assert forall|j: int| 0 <= j < 9 implies a[j] == b[j] by {
        bits::lemma_same_bits(a[j], b[j]);
    }
    bits::lemma_same_bits(a[9], b[9]);
    assert(covered(a) =~= covered(b));
    assert(sealed(a) =~= sealed(b));
}

/// A payload of 91 bits that holds its own checksum is what `add` makes of its
/// first 77.
#[verifier::spinoff_prover]
pub proof fn law_verified_is_sealed(a91: Seq<u8>)
    requires
        a91.len() == 12,
        verifies(a91),
        a91[11] % 32 == 0,
    ensures
        sealed(covered(a91).take(10)) == a91,
{
    let kept = covered(a91).take(10);
    let crc = checksum(a91);
    lemma_stored(a91);
    let (b9, b10, b11) = (a91[9], a91[10], a91[11]);
    assert({
        &&& (b9 & 0xF8) & 0xF8 == b9 & 0xF8
        &&& ((b9 & 0xF8) & 0xF8) | ((crc >> 11) as u8) == b9
        &&& ((crc >> 3) & 0xFF) as u8 == b10
        &&& ((crc << 5) & 0xFF) as u8 == b11
    }) by (bit_vector)
        requires
            crc == (((b9 as u16) & 0x07) << 11) | ((b10 as u16) << 3) | ((b11 as u16) >> 5),
            b11 % 32 == 0,
    ;
    assert(covered(kept) =~= covered(a91));
    assert(sealed(kept) =~= a91);
}

/// The checksum detects any one bit of the 91 being flipped.
#[verifier::spinoff_prover]
pub proof fn law_flip_is_detected(a91: Seq<u8>, i: int)
    requires
        a91.len() >= 12,
        verifies(a91),
        0 <= i < 91,
    ensures
        !verifies(bits::flip_bit(a91, i)),
{
    let bad = bits::flip_bit(a91, i);
    let j = i / 8;
    let x = (i % 8) as u8;
    let (b, c) = (a91[j], bad[j]);
    lemma_stored(a91);
    lemma_stored(bad);
    assert({
        let m: u8 = 0x80u8 >> x;
        &&& (x < 5 ==> (b ^ m) & 0x07 == b & 0x07 && (b ^ m) & 0xF8 == (b & 0xF8) ^ m)
        &&& (x >= 5 ==> (b ^ m) & 0xF8 == b & 0xF8 && (b ^ m) & 0x07 != b & 0x07)
        &&& (x < 3 ==> (b ^ m) >> 5 != b >> 5)
        &&& b ^ m != b
    }) by (bit_vector)
        requires
            x < 8,
    ;
    if i < 77 {
        let (a, e) = (covered(a91), covered(bad));
        assert(e =~= bits::flip_bit(a, i));
        lemma_flip_changes_remainder(a, i, 82);
        let (a9, c9) = (a91[9], bad[9]);
        assert((c9 as u16) & 0x07 == (a9 as u16) & 0x07) by (bit_vector)
            requires
                c9 & 0x07 == a9 & 0x07,
        ;
    } else {
        assert(covered(bad) =~= covered(a91));
        let (a9, a10, a11) = (a91[9], a91[10], a91[11]);
        let (c9, c10, c11) = (bad[9], bad[10], bad[11]);
        assert((((a9 as u16) & 0x07) << 11) | ((a10 as u16) << 3) | ((a11 as u16) >> 5) != (((
        c9 as u16) & 0x07) << 11) | ((c10 as u16) << 3) | ((c11 as u16) >> 5)) by (bit_vector)
            requires
                a9 & 0x07 != c9 & 0x07 || a10 != c10 || a11 >> 5 != c11 >> 5,
        ;
    }
}

/// A message with one bit flipped leaves another remainder.
proof fn lemma_flip_changes_remainder(a: Seq<u8>, i: int, n: nat)
    requires
        0 <= i < 8 * a.len(),
        n <= 8 * a.len(),
    ensures
        (remainder(a, n) == remainder(bits::flip_bit(a, i), n)) == (n <= i),
    decreases n,
{
    if n > 0 {
        let e = bits::flip_bit(a, i);
        let k = (n - 1) as nat;
        lemma_flip_changes_remainder(a, i, k);
        lemma_remainder_fits(a, k);
        lemma_remainder_fits(e, k);
        bits::lemma_flip_bit(a, i, k as int);
        let (r, q) = (remainder(a, k), remainder(e, k));
        let t: u16 = if bits::bit_at(a, k as int) { 0x2000 } else { 0 };
        let u: u16 = if bits::bit_at(e, k as int) { 0x2000 } else { 0 };
        let (x, y) = (r ^ t, q ^ u);
        assert({
            let x: u16 = r ^ t;
            let y: u16 = q ^ u;
            let dx: u16 = if x & 0x2000 != 0 {
                ((x << 1) ^ 0x2757) & 0x3FFF
            } else {
                (x << 1) & 0x3FFF
            };
            let dy: u16 = if y & 0x2000 != 0 {
                ((y << 1) ^ 0x2757) & 0x3FFF
            } else {
                (y << 1) & 0x3FFF
            };
            (dx == dy) == (r ^ q == t ^ u) && (r ^ q == 0) == (r == q) && (t == u ==> t ^ u == 0)
                && (t != u ==> t ^ u == 0x2000)
        }) by (bit_vector)
            requires
                r <= 0x3FFF,
                q <= 0x3FFF,
                t == 0 || t == 0x2000,
                u == 0 || u == 0x2000,
        ;
        assert(0u16 != 0x2000);
        if n - 1 > i {
            assert(t == u);
        }
    }
}

} // verus!
