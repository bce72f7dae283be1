//! Type 0.0 free text: thirteen characters as a 71-bit integer in base 42, most
//! significant character first.

use vstd::prelude::*;
use crate::bits;
use crate::message;
use crate::message::{Message, PAYLOAD_BYTES};
use crate::text;
use crate::text::{charn, nchar, CharTable, Str};

verus! {

/// Forty-two to the power `k`.
pub open spec fn pow42(k: nat) -> int
    decreases k,
{
    if k == 0 { 1 } else { 42 * pow42((k - 1) as nat) }
}

/// The character a text has at position `i`: a space where it has ended, and
/// where it has a byte that free text cannot carry.
pub open spec fn free_glyph(t: Seq<u8>, i: int) -> u8 {
    if i < t.len() && CharTable::Full.has(t[i]) { t[i] } else { ' ' as u8 }
}

/// The first `n` characters of a text as a number in base 42.
pub open spec fn free_value(t: Seq<u8>, n: nat) -> int
    decreases n,
{
    if n == 0 {
        0
    } else {
        free_value(t, (n - 1) as nat) * 42 + CharTable::Full.index(free_glyph(t, n - 1))
    }
}

/// The thirteen characters of a number in base 42.
pub open spec fn free_glyphs(v: int) -> Seq<u8> {
    Seq::new(13, |i: int| CharTable::Full.glyph((v / pow42((12 - i) as nat)) % 42))
}

/// The free text that a payload holds.
pub open spec fn free_text(p: Seq<u8>) -> Seq<u8> {
    text::trimmed(free_glyphs(bits::value10(p) / 512))
}

/// The number in the first `n` bytes.
spec fn prefix_value(s: Seq<u8>, n: nat) -> int
    decreases n,
{
    if n == 0 { 0 } else { prefix_value(s, (n - 1) as nat) * 256 + s[n - 1] }
}

/// 256 to the power `k`.
spec fn pow256(k: nat) -> int
    decreases k,
{
    if k == 0 { 1 } else { 256 * pow256((k - 1) as nat) }
}

/// What bytes `j` to 8 contribute to a number of 9 bytes.
spec fn suffix_value(s: Seq<u8>, j: nat) -> int
    decreases 9 - j,
{
    if j >= 9 { 0 } else { suffix_value(s, j + 1) + s[j as int] * pow256((8 - j) as nat) }
}

proof fn lemma_pow42_positive(k: nat)
    ensures
        pow42(k) > 0,
    decreases k,
{
    if k > 0 {
        lemma_pow42_positive((k - 1) as nat);
    }
}

/// Dividing by 42 once more is dividing by the next power.
proof fn lemma_divide_again(v: int, k: nat)
    requires
        v >= 0,
    ensures
        (v / pow42(k)) / 42 == v / pow42(k + 1),
{
    lemma_pow42_positive(k);
    vstd::arithmetic::div_mod::lemma_div_denominator(v, pow42(k), 42);
    assert(pow42(k) * 42 == pow42(k + 1)) by (nonlinear_arith)
        requires
            pow42(k + 1) == 42 * pow42(k),
    ;
}

/// A number of `n` characters is below 42 to the power `n`.
proof fn lemma_free_value_bound(t: Seq<u8>, n: nat)
    ensures
        0 <= free_value(t, n) < pow42(n),
    decreases n,
{
    if n > 0 {
        lemma_free_value_bound(t, (n - 1) as nat);
    }
}

/// One step of multiplying by 42 from the right: the digit at weight `w`.
proof fn lemma_multiply_step(below: int, low: int, digit: int, carry: int, next: int, kept: int, w: int)
    requires
        below == low + carry * w,
        digit * 42 + carry == next * 256 + kept,
    ensures
        below + digit * w * 42 == low + kept * w + next * (256 * w),
{
    assert(below + digit * w * 42 == low + (digit * 42 + carry) * w) by (nonlinear_arith)
        requires
            below == low + carry * w,
    ;
    assert((next * 256 + kept) * w == kept * w + next * (256 * w)) by (nonlinear_arith);
}

/// Bytes from `j` on determine what they contribute.
proof fn lemma_suffix_agrees(a: Seq<u8>, b: Seq<u8>, j: nat)
    requires
        j <= 9,
        forall|k: int| j <= k < 9 ==> a[k] == b[k],
    ensures
        suffix_value(a, j) == suffix_value(b, j),
    decreases 9 - j,
{
    if j < 9 {
        lemma_suffix_agrees(a, b, j + 1);
    }
}

/// Nine bytes contribute the number they spell.
#[verifier::spinoff_prover]
proof fn lemma_suffix_is_value(s: Seq<u8>)
    ensures
        suffix_value(s, 0) == bits::value9(s),
{
    lemma_pow256_values();
    assert(suffix_value(s, 8) == s[8] * 1) by {
        assert(suffix_value(s, 9) == 0);
    }
    assert(suffix_value(s, 7) == suffix_value(s, 8) + s[7] * 0x100);
    assert(suffix_value(s, 6) == suffix_value(s, 7) + s[6] * 0x1_0000);
    assert(suffix_value(s, 5) == suffix_value(s, 6) + s[5] * 0x100_0000);
    assert(suffix_value(s, 4) == suffix_value(s, 5) + s[4] * 0x1_0000_0000);
    assert(suffix_value(s, 3) == suffix_value(s, 4) + s[3] * 0x100_0000_0000);
    assert(suffix_value(s, 2) == suffix_value(s, 3) + s[2] * 0x1_0000_0000_0000);
    assert(suffix_value(s, 1) == suffix_value(s, 2) + s[1] * 0x100_0000_0000_0000);
    assert(suffix_value(s, 0) == suffix_value(s, 1) + s[0] * 0x1_0000_0000_0000_0000);
}

/// The powers of 256 that a number of 9 bytes uses.
proof fn lemma_pow256_values()
    ensures
        pow256(0) == 1,
        pow256(1) == 0x100,
        pow256(2) == 0x1_0000,
        pow256(3) == 0x100_0000,
        pow256(4) == 0x1_0000_0000,
        pow256(5) == 0x100_0000_0000,
        pow256(6) == 0x1_0000_0000_0000,
        pow256(7) == 0x100_0000_0000_0000,
        pow256(8) == 0x1_0000_0000_0000_0000,
        pow256(9) == 0x100_0000_0000_0000_0000,
{
    reveal_with_fuel(pow256, 10);
}

/// Divide a number of 9 bytes by 42 in place, giving the remainder.
#[verifier::spinoff_prover]
fn divide_by_42(b71: &mut [u8; 9]) -> (rem: u16)
    ensures
        bits::value9(final(b71)@) == bits::value9(old(b71)@) / 42,
        rem == bits::value9(old(b71)@) % 42,
{
    let ghost given = b71@;
    let mut rem: u16 = 0;
    let mut j: usize = 0;
    while j < 9
        invariant
            j <= 9,
            rem < 42,
            given.len() == 9,
            forall|k: int| j <= k < 9 ==> b71@[k] == given[k],
            prefix_value(given, j as nat) == prefix_value(b71@, j as nat) * 42 + rem,
        decreases 9 - j,
    {
        let ghost before = b71@;
        let b: u8 = b71[j];
        assert((rem << 8) | b as u16 == rem * 256 + b) by (bit_vector)
            requires
                rem < 42,
        ;
        rem = (rem << 8) | b as u16;
        b71[j] = (rem / 42) as u8;
        rem = rem % 42;
        j += 1;
        proof {
            lemma_prefix_agrees(before, b71@, (j - 1) as nat);
        }
    }
    proof {
        reveal_with_fuel(prefix_value, 10);
        let (q, v) = (bits::value9(b71@), bits::value9(given));
        assert(v == q * 42 + rem);
    }
    rem
}

/// Bytes before `n` determine the number in them.
proof fn lemma_prefix_agrees(a: Seq<u8>, b: Seq<u8>, n: nat)
    requires
        forall|k: int| 0 <= k < n ==> a[k] == b[k],
    ensures
        prefix_value(a, n) == prefix_value(b, n),
    decreases n,
{
    if n > 0 {
        lemma_prefix_agrees(a, b, (n - 1) as nat);
    }
}

/// Multiply a number of 9 bytes by 42 in place and add a digit.
#[verifier::spinoff_prover]
fn multiply_by_42(b71: &mut [u8; 9], digit: u32)
    requires
        digit < 42,
        bits::value9(old(b71)@) * 42 + digit < 0x100_0000_0000_0000_0000int,
    ensures
        bits::value9(final(b71)@) == bits::value9(old(b71)@) * 42 + digit,
{
    let ghost given = b71@;
    let mut carry: u32 = digit;
    let mut j: usize = 9;
    assert(suffix_value(given, 9) == 0 && pow256(0) == 1);
    while j > 0
        invariant
            j <= 9,
            carry <= 42,
            given.len() == 9,
            forall|k: int| 0 <= k < j ==> b71@[k] == given[k],
            suffix_value(given, j as nat) * 42 + digit == suffix_value(b71@, j as nat) + carry
                * pow256((9 - j) as nat),
        decreases j,
    {
        let ghost before = b71@;
        j -= 1;
        let b: u8 = b71[j];
        let acc: u32 = b as u32 * 42 + carry;
        assert(acc & 0xFF == acc % 256 && acc >> 8 == acc / 256) by (bit_vector);
        b71[j] = (acc & 0xFF) as u8;
        proof {
            let w = pow256((8 - j) as nat);
            lemma_suffix_agrees(before, b71@, (j + 1) as nat);
            lemma_multiply_step(
                suffix_value(given, (j + 1) as nat) * 42 + digit,
                suffix_value(before, (j + 1) as nat),
                b as int,
                carry as int,
                (acc >> 8) as int,
                b71@[j as int] as int,
                w,
            );
            assert(pow256((9 - j) as nat) == 256 * w);
            assert((suffix_value(given, (j + 1) as nat) + b * w) * 42 == suffix_value(
                given,
                (j + 1) as nat,
            ) * 42 + b * w * 42) by (nonlinear_arith);
        }
        carry = acc >> 8;
    }
    proof {
        lemma_suffix_is_value(given);
        lemma_suffix_is_value(b71@);
        lemma_pow256_values();
        assert(carry * 0x100_0000_0000_0000_0000int <= bits::value9(given) * 42 + digit);
    }
}

/// Thirteen characters fit 71 bits.
proof fn lemma_pow42_of_13()
    ensures
        pow42(13) < 0x80_0000_0000_0000_0000int,
{
    reveal_with_fuel(pow42, 14);
}

proof fn lemma_pow42_grows(j: nat, k: nat)
    requires
        j <= k,
    ensures
        pow42(j) <= pow42(k),
    decreases k,
{
    lemma_pow42_positive(k);
    if j < k {
        lemma_pow42_positive((k - 1) as nat);
        lemma_pow42_grows(j, (k - 1) as nat);
    }
}

/// Shifting 9 bytes left by one bit doubles the number they spell.
proof fn lemma_shift_left(b: Seq<u8>, p: Seq<u8>)
    requires
        b.len() == 9,
        p.len() == 10,
        b[0] < 128,
        forall|k: int| 0 <= k < 8 ==> #[trigger] p[k] == (b[k] % 128) * 2 + b[k + 1] / 128,
        p[8] == (b[8] % 128) * 2,
        p[9] == 0,
    ensures
        bits::value10(p) == 512 * bits::value9(b),
{
    assert(p[0] == (b[0] % 128) * 2 + b[1] / 128);
    assert(p[1] == (b[1] % 128) * 2 + b[2] / 128);
    assert(p[2] == (b[2] % 128) * 2 + b[3] / 128);
    assert(p[3] == (b[3] % 128) * 2 + b[4] / 128);
    assert(p[4] == (b[4] % 128) * 2 + b[5] / 128);
    assert(p[5] == (b[5] % 128) * 2 + b[6] / 128);
    assert(p[6] == (b[6] % 128) * 2 + b[7] / 128);
    assert(p[7] == (b[7] % 128) * 2 + b[8] / 128);
}

/// Move 71 right-aligned bits to the front of a payload, undoing the shift that
/// `telemetry` applies: each byte takes the top bit of the byte after it. The
/// selectors behind them stay clear.
fn left_aligned(b71: &[u8; 9]) -> (payload: [u8; PAYLOAD_BYTES])
    requires
        bits::value9(b71@) < 0x80_0000_0000_0000_0000int,
    ensures
        bits::value10(payload@) == 512 * bits::value9(b71@),
{
    let mut payload: [u8; PAYLOAD_BYTES] = [0; PAYLOAD_BYTES];
    let mut i: usize = 0;
    while i < 9
        invariant
            i <= 9,
            forall|k: int|
                0 <= k < i && k < 8 ==> #[trigger] payload@[k] == (b71@[k] % 128) * 2 + b71@[k + 1]
                    / 128,
            i == 9 ==> payload@[8] == (b71@[8] % 128) * 2,
            payload@[9] == 0,
        decreases 9 - i,
    {
        let after: u8 = if i + 1 < 9 { b71[i + 1] } else { 0 };
        let b: u8 = b71[i];
        assert((b << 1) | (after >> 7) == (b % 128) * 2 + after / 128) by (bit_vector);
        payload[i] = (b << 1) | (after >> 7);
        i += 1;
    }
    proof {
        lemma_shift_left(b71@, payload@);
    }
    payload
}

impl Message {
    /// Decode type 0.0 free text: a 71-bit integer in base 42, most significant
    /// character first.
    #[verifier::spinoff_prover]
    pub fn decode_free(&self) -> (r: Str<14>)
        ensures
            r@ == free_text(self.payload@),
    {
        let mut b71: [u8; 9] = self.telemetry();
        let ghost v = bits::value10(self.payload@) / 512;
        let mut chars: [u8; 13] = [' ' as u8; 13];
        let mut idx: usize = 13;
        while idx > 0
            invariant
                idx <= 13,
                v >= 0,
                bits::value9(b71@) == v / pow42((13 - idx) as nat),
                forall|i: int| idx <= i < 13 ==> chars@[i] == free_glyphs(v)[i],
            decreases idx,
        {
            proof {
                lemma_divide_again(v, (13 - idx) as nat);
            }
            idx -= 1;
            let rem: u16 = divide_by_42(&mut b71);
            chars[idx] = charn(rem as i32, CharTable::Full);
        }
        let mut out: Str<14> = Str::new();
        out.push_bytes(&chars);
        assert(out@ =~= free_glyphs(v));
        out.trim_spaces();
        out
    }

    /// Encode free text: the first thirteen bytes of `text`, with a space for
    /// each that free text cannot carry.
    #[verifier::spinoff_prover]
    pub fn encode_free(text: &str) -> (r: Self)
        ensures
            bits::value10(r.payload@) == 512 * free_value(vstd::utf8::encode_utf8(text@), 13),
    {
        let t: &[u8] = text.as_bytes();
        let mut b71: [u8; 9] = [0; 9];
        let mut i: usize = 0;
        while i < 13
            invariant
                i <= 13,
                bits::value9(b71@) == free_value(t@, i as nat),
            decreases 13 - i,
        {
            let c: u8 = if i < t.len() { t[i] } else { ' ' as u8 };
            let digit: u32 = match nchar(c, CharTable::Full) {
                Some(n) => n as u32,
                None => 0,
            };
            proof {
                text::law_index_then_glyph(CharTable::Full, free_glyph(t@, i as int));
                lemma_free_value_bound(t@, (i + 1) as nat);
                lemma_pow42_grows((i + 1) as nat, 13);
                lemma_pow42_of_13();
            }
            multiply_by_42(&mut b71, digit);
            i += 1;
        }
        proof {
            lemma_free_value_bound(t@, 13);
            lemma_pow42_of_13();
        }
        Message { payload: left_aligned(&b71) }
    }
}

/// Dividing away the last `k` of thirteen characters leaves the ones before.
proof fn lemma_leading_characters(t: Seq<u8>, k: nat)
    requires
        k <= 13,
    ensures
        free_value(t, 13) / pow42(k) == free_value(t, (13 - k) as nat),
    decreases k,
{
    if k > 0 {
        lemma_leading_characters(t, (k - 1) as nat);
        lemma_free_value_bound(t, 13);
        lemma_divide_again(free_value(t, 13), (k - 1) as nat);
        text::law_index_then_glyph(CharTable::Full, free_glyph(t, 13 - k));
    }
}

/// Free text comes back from its payload as it went in: thirteen characters, with
/// a space for each that free text cannot carry, trimmed. The payload is of the
/// free-text kind.
pub proof fn law_free_text_round_trips(t: Seq<u8>, p: Seq<u8>)
    requires
        bits::value10(p) == 512 * free_value(t, 13),
    ensures
        free_text(p) == text::trimmed(Seq::new(13, |i: int| free_glyph(t, i))),
        message::kind(p) == message::MessageType::FreeText,
{
    lemma_free_value_bound(t, 13);
    lemma_free_glyphs(t);
    lemma_clear_selectors(p, free_value(t, 13));
}

/// The characters of a text come back from its number.
#[verifier::spinoff_prover]
pub proof fn lemma_free_glyphs(t: Seq<u8>)
    ensures
        free_glyphs(free_value(t, 13)) == Seq::new(13, |i: int| free_glyph(t, i)),
{
    let v = free_value(t, 13);
    assert forall|i: int| 0 <= i < 13 implies free_glyphs(v)[i] == free_glyph(t, i) by {
        lemma_leading_characters(t, (12 - i) as nat);
        text::law_index_then_glyph(CharTable::Full, free_glyph(t, i));
    }
    assert(free_glyphs(v) =~= Seq::new(13, |i: int| free_glyph(t, i)));
}

/// A payload with nothing behind its first 71 bits is free text.
proof fn lemma_clear_selectors(p: Seq<u8>, v: int)
    requires
        bits::value10(p) == 512 * v,
    ensures
        bits::value10(p) / 512 == v,
        message::kind(p) == message::MessageType::FreeText,
{
    let n = bits::value10(p);
    assert(n / 8 == 64 * v && (64 * v) % 8 == 0);
    assert(n / 64 == 8 * v && (8 * v) % 8 == 0);
}

/// A text of at most thirteen characters of the free-text table, without spaces
/// at its ends, comes back unchanged.
pub proof fn law_plain_text_is_unchanged(t: Seq<u8>, p: Seq<u8>)
    requires
        bits::value10(p) == 512 * free_value(t, 13),
        t.len() <= 13,
        text::is_trim(t),
        forall|i: int| 0 <= i < t.len() ==> CharTable::Full.has(#[trigger] t[i]),
    ensures
        free_text(p) == t,
{
    law_free_text_round_trips(t, p);
    let s = Seq::new(13, |i: int| free_glyph(t, i));
    assert(s.subrange(0, t.len() as int) =~= t);
    text::lemma_trim_around(s, 0, t.len() as int);
}

} // verus!
