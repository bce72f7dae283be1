//! From a corrected codeword to a message.

use vstd::prelude::*;
use crate::bits;
use crate::constants::{FT4_XOR_SEQUENCE, LDPC_K, LDPC_K_BYTES, LDPC_M, LDPC_N};
use crate::crc;
use crate::decode::{Candidate, Protocol, Waterfall};
use crate::ldpc;
use crate::ldpc_laws;
use crate::message::{Message, PAYLOAD_BYTES};
use crate::soft_bits;
use crate::tones;
use crate::tones::scramble;

verus! {

/// How a decode attempt went, whether or not it succeeded.
#[derive(Clone, Copy, PartialEq, Eq, Structural, Debug)]
pub struct DecodeStatus {
    pub ldpc_errors: usize,
    pub crc_extracted: u16,
    pub crc_calculated: u16,
}

impl Default for DecodeStatus {
    fn default() -> (r: Self)
        ensures
            r.ldpc_errors == 0,
            r.crc_extracted == 0,
            r.crc_calculated == 0,
    {
        DecodeStatus { ldpc_errors: 0, crc_extracted: 0, crc_calculated: 0 }
    }
}

/// Bit `i` of the first `n` of a string of bits, one byte each, as a number.
pub open spec fn bit_value(plain: Seq<u8>, n: int, i: int) -> int {
    if i < n && plain[i] != 0 { 1 } else { 0 }
}

/// The first `n` bits, eight to a byte, most significant first.
pub open spec fn packed_byte(plain: Seq<u8>, n: int, j: int) -> u8 {
    (((((((bit_value(plain, n, 8 * j) * 2 + bit_value(plain, n, 8 * j + 1)) * 2 + bit_value(
        plain,
        n,
        8 * j + 2,
    )) * 2 + bit_value(plain, n, 8 * j + 3)) * 2 + bit_value(plain, n, 8 * j + 4)) * 2 + bit_value(
        plain,
        n,
        8 * j + 5,
    )) * 2 + bit_value(plain, n, 8 * j + 6)) * 2 + bit_value(plain, n, 8 * j + 7)) as u8
}

/// The payload bits of a codeword, in 12 bytes.
pub open spec fn packed(plain: Seq<u8>) -> Seq<u8> {
    Seq::new(LDPC_K_BYTES as nat, |j: int| packed_byte(plain, LDPC_K as int, j))
}

/// The payload that a codeword holds, if its checksum is right.
pub open spec fn recovered(protocol: Protocol, plain: Seq<u8>) -> Option<Seq<u8>> {
    let a91 = packed(plain);
    if crc::verifies(a91) {
        Some(protocol.scrambled(crc::covered(a91).take(10)))
    } else {
        None
    }
}

/// Is `r` what a corrected codeword with this many parity errors left comes to?
pub open spec fn comes_to(
    protocol: Protocol,
    plain: Seq<u8>,
    errors: nat,
    r: (Option<Message>, DecodeStatus),
) -> bool {
    &&& r.1.ldpc_errors == errors
    &&& errors > 0 ==> r.0 is None && r.1.crc_extracted == 0 && r.1.crc_calculated == 0
    &&& errors == 0 ==> {
        &&& r.1.crc_extracted == crc::stored(packed(plain))
        &&& r.1.crc_calculated == crc::checksum(packed(plain))
        &&& match recovered(protocol, plain) {
            Some(payload) => r.0 matches Some(m) && m.payload@ == payload,
            None => r.0 is None,
        }
    }
}

/// Pack the first `num_bits` bits, one byte each, into bytes.
fn pack_bits(bits: &[u8], num_bits: usize, packed: &mut [u8])
    requires
        num_bits <= bits@.len(),
        8 * old(packed)@.len() <= usize::MAX,
    ensures
        final(packed)@ == Seq::new(
            old(packed)@.len(),
            |j: int| packed_byte(bits@, num_bits as int, j),
        ),
{
    let bytes: usize = packed.len();
    let mut j: usize = 0;
    while j < bytes
        invariant
            num_bits <= bits@.len(),
            8 * bytes <= usize::MAX,
            bytes == packed@.len() == old(packed)@.len(),
            j <= bytes,
            forall|k: int|
                0 <= k < j ==> #[trigger] packed@[k] == packed_byte(bits@, num_bits as int, k),
        decreases bytes - j,
    {
        let b0: u8 = taken(bits, num_bits, 8 * j);
        let b1: u8 = taken(bits, num_bits, 8 * j + 1);
        let b2: u8 = taken(bits, num_bits, 8 * j + 2);
        let b3: u8 = taken(bits, num_bits, 8 * j + 3);
        let b4: u8 = taken(bits, num_bits, 8 * j + 4);
        let b5: u8 = taken(bits, num_bits, 8 * j + 5);
        let b6: u8 = taken(bits, num_bits, 8 * j + 6);
        let b7: u8 = taken(bits, num_bits, 8 * j + 7);
        packed[j] = ((((((b0 * 2 + b1) * 2 + b2) * 2 + b3) * 2 + b4) * 2 + b5) * 2 + b6) * 2 + b7;
        j += 1;
    }
    assert(packed@ =~= Seq::new(
        old(packed)@.len(),
        |j: int| packed_byte(bits@, num_bits as int, j),
    ));
}

/// Bit `i` of the first `n`, as a number.
fn taken(bits: &[u8], n: usize, i: usize) -> (r: u8)
    requires
        n <= bits@.len(),
    ensures
        r == bit_value(bits@, n as int, i as int),
        r <= 1,
{
    if i < n && bits[i] != 0 {
        1
    } else {
        0
    }
}

/// Try to turn a corrected codeword into a message.
///
/// Returns `None` when parity errors were left or the CRC does not match. Both
/// are normal and common, since most candidates are noise. The status is
/// returned either way so a caller can report near-misses.
#[verifier::spinoff_prover]
pub fn decode_candidate(protocol: Protocol, plain: &[u8; LDPC_N], errors: usize) -> (r: (
    Option<Message>,
    DecodeStatus,
))
    ensures
        comes_to(protocol, plain@, errors as nat, r),
{
    let mut status: DecodeStatus = DecodeStatus::default();
    status.ldpc_errors = errors;
    if errors > 0 {
        return (None, status);
    }
    let mut a91: [u8; LDPC_K_BYTES] = [0; LDPC_K_BYTES];
    pack_bits(plain, LDPC_K, &mut a91);
    assert(a91@ =~= packed(plain@));
    let ghost whole = a91@;
    status.crc_extracted = crc::extract(&a91);
    // The CRC covers the payload zero-extended from 77 to 82 bits.
    a91[9] = a91[9] & 0xF8;
    a91[10] = 0;
    proof {
        crc::lemma_computed(a91@, whole);
    }
    status.crc_calculated = crc::compute(&a91, 82);
    if status.crc_extracted != status.crc_calculated {
        return (None, status);
    }
    let mut payload: [u8; PAYLOAD_BYTES] = [0; PAYLOAD_BYTES];
    let mut i: usize = 0;
    while i < PAYLOAD_BYTES
        invariant
            i <= PAYLOAD_BYTES,
            forall|j: int| 0 <= j < i ==> payload@[j] == a91@[j],
        decreases PAYLOAD_BYTES - i,
    {
        payload[i] = a91[i];
        i += 1;
    }
    assert(payload@ =~= crc::covered(whole).take(10));
    if matches!(protocol, Protocol::Ft4) {
        payload = scramble(&payload);
    }
    (Some(Message::from_payload(payload)), status)
}

/// A byte is what its bits make of it.
#[verifier::spinoff_prover]
proof fn lemma_byte_of_bits(x: u8)
    ensures
        ({
            let b = |k: int| if bits::byte_bit(x, k) { 1int } else { 0 };
            x == ((((((b(0) * 2 + b(1)) * 2 + b(2)) * 2 + b(3)) * 2 + b(4)) * 2 + b(5)) * 2 + b(6))
                * 2 + b(7)
        }),
{
    assert({
        let high = (((x >> 7) & 1) * 2 + ((x >> 6) & 1)) * 2 + ((x >> 5) & 1);
        let mid = (high * 2 + ((x >> 4) & 1)) * 2 + ((x >> 3) & 1);
        let n = ((mid * 2 + ((x >> 2) & 1)) * 2 + ((x >> 1) & 1)) * 2 + ((x >> 0) & 1);
        &&& x == n
        &&& (x >> 7) & 1 <= 1 && (x >> 6) & 1 <= 1 && (x >> 5) & 1 <= 1 && (x >> 4) & 1 <= 1
        &&& (x >> 3) & 1 <= 1 && (x >> 2) & 1 <= 1 && (x >> 1) & 1 <= 1 && (x >> 0) & 1 <= 1
    }) by (bit_vector);
}

/// Eight bits make a byte that has them.
#[verifier::spinoff_prover]
proof fn lemma_bits_of_byte(x: u8, b: Seq<int>)
    requires
        b.len() == 8,
        forall|k: int| 0 <= k < 8 ==> 0 <= #[trigger] b[k] <= 1,
        x == ((((((b[0] * 2 + b[1]) * 2 + b[2]) * 2 + b[3]) * 2 + b[4]) * 2 + b[5]) * 2 + b[6]) * 2
            + b[7],
    ensures
        forall|k: int| 0 <= k < 8 ==> #[trigger] bits::byte_bit(x, k) == (b[k] == 1),
{
    lemma_byte_of_bits(x);
    assert(0 <= b[0] <= 1 && 0 <= b[1] <= 1 && 0 <= b[2] <= 1 && 0 <= b[3] <= 1);
    assert(0 <= b[4] <= 1 && 0 <= b[5] <= 1 && 0 <= b[6] <= 1 && 0 <= b[7] <= 1);
    let c = |k: int| if bits::byte_bit(x, k) { 1int } else { 0 };
    assert(c(0) == b[0] && c(1) == b[1] && c(2) == b[2] && c(3) == b[3] && c(4) == b[4] && c(5)
        == b[5] && c(6) == b[6] && c(7) == b[7]);
    assert forall|k: int| 0 <= k < 8 implies #[trigger] bits::byte_bit(x, k) == (b[k] == 1) by {
        assert(c(k) == b[k]);
    }
}

/// Packed bits are the bits that were packed, and zeros behind them.
#[verifier::spinoff_prover]
pub proof fn lemma_packed_bits(plain: Seq<u8>)
    ensures
        packed(plain).len() == LDPC_K_BYTES,
        forall|i: int|
            0 <= i < LDPC_K ==> #[trigger] bits::bit_at(packed(plain), i) == (plain[i] != 0),
        packed(plain)[11] % 32 == 0,
{
    assert forall|i: int| 0 <= i < LDPC_K implies #[trigger] bits::bit_at(packed(plain), i) == (
    plain[i] != 0) by {
        let j = i / 8;
        let n = LDPC_K as int;
        let b = Seq::new(8, |k: int| bit_value(plain, n, 8 * j + k));
        assert(b[0] == bit_value(plain, n, 8 * j));
        lemma_bits_of_byte(packed_byte(plain, n, j), b);
        assert(8 * j + i % 8 == i);
        assert(b[i % 8] == bit_value(plain, n, i));
        assert(packed(plain)[j] == packed_byte(plain, n, j));
    }
}

/// The payload bits of the codeword for 91 bits are those bits.
#[verifier::spinoff_prover]
pub proof fn law_codeword_begins_with_the_payload(a91: Seq<u8>)
    requires
        a91.len() == LDPC_K_BYTES,
        a91[11] % 32 == 0,
    ensures
        packed(ldpc::codeword(a91)) == a91,
{
    let plain = ldpc::codeword(a91);
    assert forall|j: int| 0 <= j < LDPC_K_BYTES implies packed_byte(plain, LDPC_K as int, j)
        == a91[j] by {
        let x = a91[j];
        lemma_byte_of_bits(x);
        assert forall|k: int| 0 <= k < 8 implies #[trigger] bit_value(
            plain,
            LDPC_K as int,
            8 * j + k,
        ) == if bits::byte_bit(x, k) { 1int } else { 0 } by {
            let i = 8 * j + k;
            assert(i / 8 == j && i % 8 == k);
            if i < LDPC_K {
                assert(plain[i] == ldpc::code_bit(a91, i));
            } else {
                let s = (7 - k) as u8;
                assert((x >> s) & 1 == 0) by (bit_vector)
                    requires
                        x % 32 == 0,
                        s < 5,
                ;
            }
        }
        assert(8 * j == 8 * j + 0);
        assert(bit_value(plain, LDPC_K as int, 8 * j + 0) == if bits::byte_bit(x, 0) {
            1int
        } else {
            0
        });
        assert(bit_value(plain, LDPC_K as int, 8 * j + 1) == if bits::byte_bit(x, 1) {
            1int
        } else {
            0
        });
    }
    assert(packed(plain) =~= a91);
}

/// What is sent for a payload is what is recovered of it: its 77 bits, with the
/// three behind them cleared.
#[verifier::spinoff_prover]
pub proof fn law_sent_payload_is_recovered(protocol: Protocol, payload: Seq<u8>)
    requires
        payload.len() == 10,
    ensures
        recovered(protocol, protocol.sent(payload)) matches Some(q) && {
            &&& q.len() == 10
            &&& bits::value10(q) / 8 == bits::value10(payload) / 8
            &&& payload[9] % 8 == 0 ==> q == payload
        },
{
    let s = protocol.scrambled(payload);
    let a91 = crc::sealed(s);
    crc::law_sealed_verifies(s);
    law_codeword_begins_with_the_payload(a91);
    let q = protocol.scrambled(crc::covered(s).take(10));
    assert(recovered(protocol, protocol.sent(payload)) == Some(q));
    lemma_scrambled_back(protocol, payload);
    lemma_same_77_bits(payload, q);
}

/// A payload that was scrambled, cut to 77 bits and scrambled again has its 77
/// bits.
#[verifier::spinoff_prover]
proof fn lemma_scrambled_back(protocol: Protocol, payload: Seq<u8>)
    requires
        payload.len() == 10,
    ensures
        ({
            let q = protocol.scrambled(crc::covered(protocol.scrambled(payload)).take(10));
            &&& q.len() == 10
            &&& forall|i: int| 0 <= i < 9 ==> q[i] == payload[i]
            &&& q[9] / 8 == payload[9] / 8
            &&& protocol.scrambled(payload)[9] % 8 == payload[9] % 8
            &&& payload[9] % 8 == 0 ==> q == payload
        }),
{
    let s = protocol.scrambled(payload);
    let kept = crc::covered(s).take(10);
    let q = protocol.scrambled(kept);
    tones::law_scrambling_undoes_itself(protocol, payload);
    let (a, x) = (payload[9], FT4_XOR_SEQUENCE[9]);
    assert(x % 8 == 0);
    assert({
        &&& ((a ^ x) & 0xF8) ^ x == (a / 8) * 8
        &&& a & 0xF8 == (a / 8) * 8
        &&& (a ^ x) % 8 == a % 8
    }) by (bit_vector)
        requires
            x % 8 == 0,
    ;
    assert forall|i: int| 0 <= i < 9 implies q[i] == payload[i] by {
        assert(kept[i] == s[i]);
        assert(protocol.scrambled(s)[i] == payload[i]);
    }
    assert(kept[9] == s[9] & 0xF8);
    if a % 8 == 0 {
        assert(q =~= payload);
    }
}

/// Payloads that agree in nine bytes and five bits agree in 77 bits.
#[verifier::spinoff_prover]
proof fn lemma_same_77_bits(p: Seq<u8>, q: Seq<u8>)
    requires
        forall|i: int| 0 <= i < 9 ==> q[i] == p[i],
        q[9] / 8 == p[9] / 8,
    ensures
        bits::value10(q) / 8 == bits::value10(p) / 8,
{
    let high = bits::value9(p);
    assert(bits::value9(q) == high);
    assert((high * 256 + p[9]) / 8 == high * 32 + p[9] / 8);
    assert((high * 256 + q[9]) / 8 == high * 32 + q[9] / 8);
}

/// The hard decisions that soft bits stand for.
pub open spec fn hard_bits(wf: Waterfall, c: Candidate) -> Seq<u8> {
    Seq::new(LDPC_N as nat, |n: int| if wf.soft_bit(c, n) > 0 { 1u8 } else { 0 })
}

/// A transmission that was received clearly is decoded: where every data symbol
/// was recorded with its tone louder than every other, the hard decisions are the
/// codeword that was sent, which has no parity error, and its payload is
/// recovered.
#[verifier::spinoff_prover]
pub proof fn law_clear_transmission_decodes(wf: Waterfall, c: Candidate, payload: Seq<u8>)
    requires
        payload.len() == 10,
        forall|k: int|
            0 <= k < wf.protocol.data_symbols() ==> #[trigger] soft_bits::is_clear(
                wf,
                c,
                wf.protocol.sent(payload),
                k,
            ),
    ensures
        hard_bits(wf, c) == wf.protocol.sent(payload),
        ldpc::failures(hard_bits(wf, c), LDPC_M as nat) == 0,
        recovered(wf.protocol, hard_bits(wf, c)) matches Some(q) && bits::value10(q) / 8
            == bits::value10(payload) / 8,
{
    let p = wf.protocol;
    let sent = p.sent(payload);
    let a91 = crc::sealed(p.scrambled(payload));
    assert forall|n: int| 0 <= n < LDPC_N implies #[trigger] sent[n] <= 1 by {
        ldpc::law_codeword_bits(a91, n);
    }
    assert forall|n: int| 0 <= n < LDPC_N implies hard_bits(wf, c)[n] == sent[n] by {
        assert(soft_bits::is_clear(wf, c, sent, n / p.bits_per_symbol()));
        soft_bits::law_clear_symbol_gives_its_bits(wf, c, sent, n);
    }
    assert(hard_bits(wf, c) =~= sent);
    crc::law_sealed_verifies(p.scrambled(payload));
    ldpc_laws::law_encoded_is_valid(a91);
    law_sent_payload_is_recovered(p, payload);
}

/// Zeros pack to zero.
proof fn lemma_zeros_pack_to_zero(plain: Seq<u8>, j: int)
    requires
        plain.len() == LDPC_N,
        ldpc::all_zero(plain),
        0 <= j < LDPC_K_BYTES,
    ensures
        packed(plain)[j] == 0,
{
    assert forall|k: int| 0 <= k < 8 implies bit_value(plain, LDPC_K as int, #[trigger] (8 * j + k))
        == 0 by {}
    let n = LDPC_K as int;
    assert(bit_value(plain, n, 8 * j + 0) == 0);
    assert(packed_byte(plain, n, j) == 0);
}

/// A payload of which as much is covered as of a word of zeros has only zeros.
proof fn lemma_zeros_are_covered(word: Seq<u8>, s: Seq<u8>)
    requires
        word.len() == LDPC_N,
        ldpc::all_zero(word),
        s.len() == 10,
        s[9] % 8 == 0,
        crc::covered(packed(word)) == crc::covered(s),
    ensures
        ldpc::all_zero(s),
{
    let a91 = packed(word);
    assert forall|j: int| 0 <= j < 10 implies s[j] == 0 by {
        lemma_zeros_pack_to_zero(word, j);
        assert(crc::covered(a91)[j] == crc::covered(s)[j]);
        bits::lemma_same_bits(s[9], 0);
    }
}

/// Only 77 zeros have zero for a codeword.
proof fn lemma_zero_codeword(s: Seq<u8>)
    requires
        s.len() == 10,
        s[9] % 8 == 0,
        ldpc::all_zero(ldpc::codeword(crc::sealed(s))),
    ensures
        ldpc::all_zero(s),
{
    crc::law_sealed_verifies(s);
    law_codeword_begins_with_the_payload(crc::sealed(s));
    lemma_zeros_are_covered(ldpc::codeword(crc::sealed(s)), s);
}

/// Only the payload that scrambles to zero is sent as zero.
#[verifier::spinoff_prover]
proof fn lemma_sent_is_not_zero(protocol: Protocol, payload: Seq<u8>)
    requires
        payload.len() == 10,
        payload[9] % 8 == 0,
        protocol is Ft8 ==> !ldpc::all_zero(payload),
        protocol is Ft4 ==> payload != FT4_XOR_SEQUENCE@,
    ensures
        !ldpc::all_zero(protocol.sent(payload)),
{
    if ldpc::all_zero(protocol.sent(payload)) {
        let s = protocol.scrambled(payload);
        lemma_scrambled_back(protocol, payload);
        lemma_zero_codeword(s);
        if protocol is Ft4 {
            tones::law_scrambling_undoes_itself(protocol, payload);
            bits::lemma_xor_zero();
            assert forall|i: int| 0 <= i < 10 implies payload[i] == FT4_XOR_SEQUENCE[i] by {
                assert(protocol.scrambled(s)[i] == s[i] ^ FT4_XOR_SEQUENCE[i]);
                assert(s[i] == 0);
            }
            assert(payload =~= FT4_XOR_SEQUENCE@);
        }
    }
}

/// What is transmitted clearly is what is decoded, and at once: where every data
/// symbol was recorded with its tone louder than every other, the first hard
/// decision ends the belief propagation without an error, and the message that
/// comes of it is the one that was sent. The payload that is sent as zero is left
/// out, since zero is no legal message.
pub proof fn law_clear_transmission_is_decoded(
    wf: Waterfall,
    c: Candidate,
    payload: Seq<u8>,
    before: ldpc::BpDecoder,
    after: ldpc::BpDecoder,
    r: (Option<Message>, DecodeStatus),
)
    requires
        payload.len() == 10,
        payload[9] % 8 == 0,
        wf.protocol is Ft8 ==> !ldpc::all_zero(payload),
        wf.protocol is Ft4 ==> payload != FT4_XOR_SEQUENCE@,
        forall|k: int|
            0 <= k < wf.protocol.data_symbols() ==> #[trigger] soft_bits::is_clear(
                wf,
                c,
                wf.protocol.sent(payload),
                k,
            ),
        before.wants_more(),
        before.fewest() > 0,
        before.leads_to(hard_bits(wf, c), after),
        comes_to(wf.protocol, after.word(), after.fewest(), r),
    ensures
        !after.wants_more(),
        after.word() == wf.protocol.sent(payload),
        r.1.ldpc_errors == 0,
        r.0 matches Some(m) && m.payload@ == payload,
{
    law_clear_transmission_decodes(wf, c, payload);
    law_sent_payload_is_recovered(wf.protocol, payload);
    lemma_sent_is_not_zero(wf.protocol, payload);
}

/// What a word that was corrected comes to: with errors left nothing but their number
/// is reported, and the word that a payload is sent as comes back as its 77 bits, with
/// its checksum both in it and worked out.
#[verifier::spinoff_prover]
pub proof fn law_what_a_word_comes_to(
    protocol: Protocol,
    payload: Seq<u8>,
    errors: nat,
    word: Seq<u8>,
    r: (Option<Message>, DecodeStatus),
)
    requires
        payload.len() == 10,
        comes_to(protocol, word, errors, r),
    ensures
        r.1.ldpc_errors == errors,
        errors > 0 ==> r.0 is None && r.1.crc_extracted == 0 && r.1.crc_calculated == 0,
        errors == 0 && word == protocol.sent(payload) ==> {
            &&& r.1.crc_extracted == crc::checksum(protocol.scrambled(payload))
            &&& r.1.crc_calculated == crc::checksum(protocol.scrambled(payload))
            &&& r.0 matches Some(m) && (forall|i: int| 0 <= i < 9 ==> m.payload@[i] == payload[i])
                && m.payload@[9] / 8 == payload[9] / 8
            &&& payload[9] % 8 == 0 ==> (r.0->0).payload@ == payload
        },
{
    if errors == 0 && word == protocol.sent(payload) {
        let s = protocol.scrambled(payload);
        crc::law_sealed_verifies(s);
        law_codeword_begins_with_the_payload(crc::sealed(s));
        law_sent_payload_is_recovered(protocol, payload);
        lemma_scrambled_back(protocol, payload);
    }
}

/// What a word without errors comes to, bit by bit. The checksum in it is its bits 77
/// to 90, and the one that is worked out is that of its first 77 bits, followed by five
/// zeros. There is a message exactly if they agree: those 77 bits, with what FT4 adds
/// taken off, and nothing behind them.
#[verifier::spinoff_prover]
pub proof fn law_word_bit_by_bit(
    protocol: Protocol,
    word: Seq<u8>,
    s: Seq<u8>,
    r: (Option<Message>, DecodeStatus),
)
    requires
        comes_to(protocol, word, 0, r),
        s.len() >= 11,
        forall|i: int|
            0 <= i < 82 ==> #[trigger] bits::bit_at(s, i) == (i < 77 && word[i] != 0),
    ensures
        r.1.crc_calculated == crc::remainder(s, 82),
        forall|n: int|
            77 <= n < 91 ==> (#[trigger] word[n] != 0) == crc::remainder_term(
                r.1.crc_extracted,
                90 - n,
            ),
        r.1.crc_extracted <= 0x3FFF,
        r.0 is Some <==> r.1.crc_extracted == r.1.crc_calculated,
        r.0 matches Some(m) ==> ({
            let sent = protocol.scrambled(m.payload@);
            &&& sent.len() == 10
            &&& sent[9] % 8 == 0
            &&& forall|i: int| 0 <= i < 77 ==> #[trigger] bits::bit_at(sent, i) == (word[i] != 0)
        }),
{
    let a91 = packed(word);
    lemma_packed_bits(word);
    assert forall|i: int| 0 <= i < 82 implies #[trigger] bits::bit_at(s, i) == (i < 77
        && bits::bit_at(a91, i)) by {
        assert(i < 77 ==> bits::bit_at(a91, i) == (word[i] != 0));
    }
    crc::law_checksum_is_over_82_bits(a91, s);
    crc::law_stored_is_behind_the_payload(a91, 77);
    assert forall|n: int| 77 <= n < 91 implies (#[trigger] word[n] != 0) == crc::remainder_term(
        r.1.crc_extracted,
        90 - n,
    ) by {
        crc::law_stored_is_behind_the_payload(a91, n);
        assert(bits::bit_at(a91, n) == (word[n] != 0));
    }
    if let Some(m) = r.0 {
        let kept = crc::covered(a91).take(10);
        tones::law_scrambling_undoes_itself(protocol, kept);
        let sent = protocol.scrambled(m.payload@);
        assert(sent == kept);
        bits::lemma_same_bits(a91[9], kept[9]);
        assert(kept[9] == a91[9] & 0xF8);
        assert forall|i: int| 0 <= i < 77 implies #[trigger] bits::bit_at(sent, i) == (word[i]
            != 0) by {
            assert(bits::bit_at(a91, i) == (word[i] != 0));
            if i / 8 < 9 {
                assert(kept[i / 8] == a91[i / 8]);
            }
        }
    }
}

} // verus!
