//! What goes on the air and what comes off it: the tones of a codeword, and the soft
//! bits of what was received.

use vstd::prelude::*;
use crate::bits;
use crate::crc;
use crate::decode::{Candidate, Protocol, Waterfall};
use crate::ldpc;
use crate::ldpc_laws;
use crate::sync_laws;
use crate::sync_laws::{group_count, group_length, group_symbol, group_tone, received, recorded};
use crate::sync_laws::tone_count;

verus! {

/// The tone for each value of the bits of a data symbol: of two tones side by side,
/// the values differ in one bit.
pub open spec fn gray(p: Protocol, value: int) -> int {
    match p {
        Protocol::Ft8 => seq![0int, 1, 3, 2, 5, 6, 4, 7][value],
        Protocol::Ft4 => seq![0int, 1, 3, 2][value],
    }
}

/// How many data symbols there are.
pub open spec fn data_count(p: Protocol) -> int {
    match p {
        Protocol::Ft8 => 58,
        Protocol::Ft4 => 87,
    }
}

/// How many bits a data symbol has.
pub open spec fn data_width(p: Protocol) -> int {
    match p {
        Protocol::Ft8 => 3,
        Protocol::Ft4 => 2,
    }
}

/// The channel symbol of data symbol `k`: 29 of them between two sync groups.
pub open spec fn data_place(p: Protocol, k: int) -> int {
    match p {
        Protocol::Ft8 => k + 7 * (k / 29 + 1),
        Protocol::Ft4 => k + 1 + 4 * (k / 29 + 1),
    }
}

/// The value of data symbol `k` of a codeword, its bits most significant first.
pub open spec fn data_value(p: Protocol, codeword: Seq<u8>, k: int) -> int {
    match p {
        Protocol::Ft8 => 4 * codeword[3 * k] + 2 * codeword[3 * k + 1] + codeword[3 * k + 2],
        Protocol::Ft4 => 2 * codeword[2 * k] + codeword[2 * k + 1],
    }
}

/// Does a value have bit `bit` set, counted from the most significant?
pub open spec fn has_bit(p: Protocol, value: int, bit: int) -> bool {
    if bit == data_width(p) - 1 {
        value % 2 == 1
    } else if bit == data_width(p) - 2 {
        value % 4 >= 2
    } else {
        value % 8 >= 4
    }
}

/// A transmission is made of the sync groups, at their places, the data symbols of
/// its codeword, Gray-coded and in order, between them, and in FT4 a ramp at either
/// end.
#[verifier::spinoff_prover]
pub proof fn law_tones_of_a_codeword(p: Protocol, codeword: Seq<u8>)
    requires
        codeword.len() == 174,
        ldpc::is_binary(codeword),
    ensures
        ({
            let tones = p.channel(codeword);
            &&& tones.len() == match p {
                Protocol::Ft8 => 79nat,
                Protocol::Ft4 => 105nat,
            }
            &&& forall|m: int, k: int|
                #![trigger group_symbol(p, m, k)]
                0 <= m < group_count(p) && 0 <= k < group_length(p) ==> tones[group_symbol(p, m, k)]
                    == group_tone(p, m, k)
            &&& forall|k: int|
                #![trigger data_place(p, k)]
                0 <= k < data_count(p) ==> tones[data_place(p, k)] == gray(
                    p,
                    data_value(p, codeword, k),
                )
            &&& p is Ft4 ==> tones[0] == 0 && tones[104] == 0
        }),
{
    let tones = p.channel(codeword);
    assert forall|m: int, k: int|
        #![trigger group_symbol(p, m, k)]
        0 <= m < group_count(p) && 0 <= k < group_length(p) implies tones[group_symbol(p, m, k)]
        == group_tone(p, m, k) by {
        lemma_sync_tone(p, codeword, m, k);
    }
    assert forall|k: int|
        #![trigger data_place(p, k)]
        0 <= k < data_count(p) implies tones[data_place(p, k)] == gray(
        p,
        data_value(p, codeword, k),
    ) by {
        lemma_data_tone(p, codeword, k);
    }
}

/// A sync symbol has its tone.
#[verifier::spinoff_prover]
proof fn lemma_sync_tone(p: Protocol, codeword: Seq<u8>, m: int, k: int)
    requires
        0 <= m < group_count(p),
        0 <= k < group_length(p),
    ensures
        p.channel(codeword)[group_symbol(p, m, k)] == group_tone(p, m, k),
{
    sync_laws::law_sync_groups(p, m, k);
    let i = group_symbol(p, m, k);
    if p is Ft8 {
        assert(i % 36 == k);
    } else {
        assert((i - 1) % 33 == k && (i - 1) / 33 == m);
    }
}

/// A data symbol has the tone of its bits.
#[verifier::spinoff_prover]
proof fn lemma_data_tone(p: Protocol, codeword: Seq<u8>, k: int)
    requires
        codeword.len() == 174,
        ldpc::is_binary(codeword),
        0 <= k < data_count(p),
    ensures
        p.channel(codeword)[data_place(p, k)] == gray(p, data_value(p, codeword, k)),
        p.data_symbol(k) == data_place(p, k),
{
    let i = data_place(p, k);
    if p is Ft8 {
        assert(codeword[3 * k] <= 1 && codeword[3 * k + 1] <= 1 && codeword[3 * k + 2] <= 1);
        assert(i % 36 >= 7);
    } else {
        assert(codeword[2 * k] <= 1 && codeword[2 * k + 1] <= 1);
        assert((i - 1) % 33 >= 4);
    }
    lemma_gray(p, data_value(p, codeword, k));
}

/// The tone of a value.
proof fn lemma_gray(p: Protocol, value: int)
    requires
        0 <= value < tone_count(p),
    ensures
        p.gray_tone(value) == gray(p, value),
        0 <= gray(p, value) < tone_count(p),
{
}

/// The sequence that is added to an FT4 payload.
pub open spec fn scrambler(i: int) -> u8 {
    seq![0x4Au8, 0x5E, 0x89, 0xB4, 0xB0, 0x8A, 0x79, 0x55, 0xBE, 0x28][i]
}

/// FT8 sends a payload as it is, FT4 with a fixed sequence added to it.
pub proof fn law_only_ft4_scrambles(p: Protocol, payload: Seq<u8>)
    requires
        payload.len() == 10,
    ensures
        p.scrambled(payload).len() == 10,
        forall|i: int|
            #![trigger p.scrambled(payload)[i]]
            0 <= i < 10 ==> p.scrambled(payload)[i] == if p is Ft4 {
                payload[i] ^ scrambler(i)
            } else {
                payload[i]
            },
{
}

/// What is sent for a payload: a word of zeros and ones that satisfies every parity
/// check, beginning with the 77 bits of the payload, scrambled in FT4, and the 14 bits
/// of their checksum, most significant first. There is one such word.
#[verifier::spinoff_prover]
pub proof fn law_sent_word(p: Protocol, payload: Seq<u8>, n: int)
    requires
        payload.len() == 10,
    ensures
        ({
            let s = p.scrambled(payload);
            let word = p.sent(payload);
            &&& word.len() == 174
            &&& ldpc::is_binary(word)
            &&& ldpc::failures(word, 83) == 0
            &&& 0 <= n < 77 ==> (word[n] == 1) == bits::bit_at(s, n)
            &&& 77 <= n < 91 ==> (word[n] == 1) == crc::remainder_term(crc::checksum(s), 90 - n)
        }),
{
    let s = p.scrambled(payload);
    let a91 = crc::sealed(s);
    let word = p.sent(payload);
    ldpc_laws::law_encoded_is_valid(a91);
    assert forall|i: int| 0 <= i < 174 implies #[trigger] word[i] <= 1 by {
        ldpc::law_codeword_bits(a91, i);
    }
    if 0 <= n < 77 {
        ldpc::law_codeword_bits(a91, n);
        crc::law_sealed_begins_with_the_payload(s, n);
    } else if 77 <= n < 91 {
        ldpc::law_codeword_bits(a91, n);
        crc::law_sealed_ends_with_the_checksum(s, n);
    }
}

/// The loudest of the values with a bit set or cleared.
#[verifier::spinoff_prover]
proof fn lemma_loudest(wf: Waterfall, c: Candidate, k: int, bit: int, set: bool, n: nat) -> (best:
    int)
    requires
        0 <= k < data_count(wf.protocol),
        0 <= bit < data_width(wf.protocol),
        n <= tone_count(wf.protocol),
    ensures
        ({
            let p = wf.protocol;
            let symbol = data_place(p, k);
            let loudest = wf.loudest(c, symbol, bit, set, n);
            &&& forall|v: int|
                #![trigger gray(p, v)]
                0 <= v < n && has_bit(p, v, bit) == set ==> received(wf, c, symbol, gray(p, v))
                    <= loudest
            &&& loudest == -1 || (0 <= best < n && has_bit(p, best, bit) == set && loudest
                == received(wf, c, symbol, gray(p, best)))
        }),
    decreases n,
{
    if n == 0 {
        0
    } else {
        let p = wf.protocol;
        let symbol = data_place(p, k);
        let before = lemma_loudest(wf, c, k, bit, set, (n - 1) as nat);
        lemma_gray(p, n - 1);
        sync_laws::lemma_received(wf, c, symbol, gray(p, n - 1));
        assert(p.sets(n - 1, bit) == has_bit(p, n - 1, bit));
        if wf.loudest(c, symbol, bit, set, n) == wf.loudest(c, symbol, bit, set, (n - 1) as nat) {
            before
        } else {
            n - 1
        }
    }
}

/// A soft bit is the strongest tone that would set its bit against the strongest that
/// would clear it. Where the symbol was not recorded it is zero, which is no
/// information.
#[verifier::spinoff_prover]
pub proof fn law_soft_bit_is_set_against_cleared(wf: Waterfall, c: Candidate, n: int) -> (best: (
    int,
    int,
))
    requires
        0 <= n < 174,
    ensures
        ({
            let p = wf.protocol;
            let symbol = data_place(p, n / data_width(p));
            let bit = n % data_width(p);
            let tone = |v: int| received(wf, c, symbol, gray(p, v));
            &&& !recorded(wf, c, symbol) ==> wf.soft_bit(c, n) == 0
            &&& recorded(wf, c, symbol) ==> {
                &&& 0 <= best.0 < tone_count(p) && has_bit(p, best.0, bit)
                &&& 0 <= best.1 < tone_count(p) && !has_bit(p, best.1, bit)
                &&& wf.soft_bit(c, n) == tone(best.0) - tone(best.1)
                &&& forall|v: int|
                    #![trigger gray(p, v)]
                    0 <= v < tone_count(p) ==> tone(v) <= if has_bit(p, v, bit) {
                        tone(best.0)
                    } else {
                        tone(best.1)
                    }
            }
        }),
{
    let p = wf.protocol;
    let (k, bit) = (n / data_width(p), n % data_width(p));
    let symbol = data_place(p, k);
    let tones = tone_count(p) as nat;
    lemma_place(p, k);
    sync_laws::lemma_received(wf, c, symbol, 0);
    let one = lemma_loudest(wf, c, k, bit, true, tones);
    let zero = lemma_loudest(wf, c, k, bit, false, tones);
    let top = tone_count(p) - 1;
    assert(has_bit(p, top, bit) && !has_bit(p, 0, bit));
    assert(received(wf, c, symbol, gray(p, top)) <= wf.loudest(c, symbol, bit, true, tones));
    assert(received(wf, c, symbol, gray(p, 0)) <= wf.loudest(c, symbol, bit, false, tones));
    (one, zero)
}

/// The channel symbol of a data symbol.
proof fn lemma_place(p: Protocol, k: int)
    requires
        0 <= k < data_count(p),
    ensures
        p.data_symbol(k) == data_place(p, k),
        p.data_symbols() == data_count(p),
        p.bits_per_symbol() == data_width(p),
{
}

/// Soft bits can be extracted exactly if the cells of a block can be counted and every
/// data symbol that was recorded has the cells of all its tones.
#[verifier::spinoff_prover]
pub proof fn law_what_can_be_extracted(wf: Waterfall, c: Candidate)
    ensures
        wf.data_readable(c) <==> {
            &&& wf.time_osr * wf.freq_osr <= usize::MAX
            &&& wf.time_osr * wf.freq_osr * wf.num_bins <= usize::MAX
            &&& forall|k: int|
                #![trigger data_place(wf.protocol, k)]
                0 <= k < data_count(wf.protocol) && recorded(wf, c, data_place(wf.protocol, k))
                    ==> sync_laws::is_present(wf, c, data_place(wf.protocol, k), 0)
                    && sync_laws::is_present(
                    wf,
                    c,
                    data_place(wf.protocol, k),
                    tone_count(wf.protocol) - 1,
                )
        },
{
    lemma_place(wf.protocol, 0);
    assert forall|k: int|
        #![trigger data_place(wf.protocol, k)]
        #![trigger wf.protocol.data_symbol(k)]
        0 <= k < data_count(wf.protocol) implies wf.reads(c, wf.protocol.data_symbol(k)) == (
    recorded(wf, c, data_place(wf.protocol, k)) ==> sync_laws::is_present(
        wf,
        c,
        data_place(wf.protocol, k),
        0,
    ) && sync_laws::is_present(wf, c, data_place(wf.protocol, k), tone_count(wf.protocol) - 1)) by {
        lemma_place(wf.protocol, k);
        sync_laws::lemma_received(wf, c, data_place(wf.protocol, k), 0);
        sync_laws::lemma_received(
            wf,
            c,
            data_place(wf.protocol, k),
            tone_count(wf.protocol) - 1,
        );
    }
}

} // verus!
