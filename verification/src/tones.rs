//! The channel symbols that a payload transmits as.

use vstd::prelude::*;
use crate::constants::{
    FT4_COSTAS_PATTERN, FT4_GRAY_MAP, FT4_LENGTH_SYNC, FT4_ND, FT4_NN, FT4_NUM_SYNC, FT4_SYNC_OFFSET,
    FT4_XOR_SEQUENCE, FT8_COSTAS_PATTERN, FT8_GRAY_MAP, FT8_LENGTH_SYNC, FT8_ND, FT8_NN, LDPC_K_BYTES,
    LDPC_N,
};
use crate::crc;
use crate::decode::Protocol;
use crate::ldpc;
use crate::message::PAYLOAD_BYTES;

verus! {

impl Protocol {
    /// How many data symbols a transmission has.
    pub open spec fn data_symbols(self) -> int {
        if self is Ft8 { FT8_ND as int } else { FT4_ND as int }
    }

    /// How many bits a data symbol carries.
    pub open spec fn bits_per_symbol(self) -> int {
        if self is Ft8 { 3 } else { 2 }
    }

    /// The channel symbol that is data symbol `k`. Data symbols are interleaved
    /// with the sync groups.
    pub open spec fn data_symbol(self, k: int) -> int {
        if self is Ft8 {
            k + if k < 29 { 7int } else { 14 }
        } else {
            k + if k < 29 { 5int } else if k < 58 { 9 } else { 13 }
        }
    }

    /// The bits of data symbol `k` of a codeword, as a number.
    pub open spec fn symbol_value(self, codeword: Seq<u8>, k: int) -> int {
        if self is Ft8 {
            codeword[3 * k] * 4 + codeword[3 * k + 1] * 2 + codeword[3 * k + 2]
        } else {
            codeword[2 * k] * 2 + codeword[2 * k + 1]
        }
    }

    /// The tone of a data symbol, Gray-coded.
    pub open spec fn gray_tone(self, value: int) -> u8 {
        if self is Ft8 { FT8_GRAY_MAP[value] } else { FT4_GRAY_MAP[value] }
    }

    /// The payload as it is sent: FT4 has a fixed sequence added to it.
    pub open spec fn scrambled(self, payload: Seq<u8>) -> Seq<u8> {
        if self is Ft8 {
            payload
        } else {
            Seq::new(10, |i: int| payload[i] ^ FT4_XOR_SEQUENCE[i])
        }
    }

    /// The codeword that a payload is sent as.
    pub open spec fn sent(self, payload: Seq<u8>) -> Seq<u8> {
        ldpc::codeword(crc::sealed(self.scrambled(payload)))
    }

    /// Channel symbol `i` of a codeword.
    pub open spec fn channel_tone(self, codeword: Seq<u8>, i: int) -> u8 {
        if self is Ft8 {
            if i % 36 < 7 {
                FT8_COSTAS_PATTERN[i % 36]
            } else {
                self.gray_tone(self.symbol_value(codeword, if i < 36 { i - 7 } else { i - 14 }))
            }
        } else if i == 0 || i == FT4_NN - 1 {
            0
        } else if (i - 1) % 33 < 4 {
            FT4_COSTAS_PATTERN[(i - 1) / 33][(i - 1) % 33]
        } else {
            self.gray_tone(
                self.symbol_value(
                    codeword,
                    if i < 34 { i - 5 } else if i < 67 { i - 9 } else { i - 13 },
                ),
            )
        }
    }

    /// The channel symbols of a codeword.
    pub open spec fn channel(self, codeword: Seq<u8>) -> Seq<u8> {
        Seq::new(self.symbols() as nat, |i: int| self.channel_tone(codeword, i))
    }

    /// Do the tones carry the codeword: the sync groups in their places, the data
    /// symbols between them, and the ramps of FT4 at both ends?
    pub open spec fn carries(self, tones: Seq<u8>, codeword: Seq<u8>) -> bool {
        &&& tones.len() == self.symbols()
        &&& forall|m: int, k: int|
            #![trigger self.sync_tone(m, k)]
            0 <= m < self.sync_groups() && 0 <= k < self.sync_length() ==> tones[self.sync_symbol(
                m,
                k,
            )] == self.sync_tone(m, k)
        &&& forall|k: int|
            #![trigger self.symbol_value(codeword, k)]
            0 <= k < self.data_symbols() ==> tones[self.data_symbol(k)] == self.gray_tone(
                self.symbol_value(codeword, k),
            )
        &&& self is Ft4 ==> tones[0] == 0 && tones[FT4_NN - 1] == 0
    }

    /// The channel symbol that is data symbol `k`.
    pub(crate) fn data_place(self, k: usize) -> (r: usize)
        requires
            k < self.data_symbols(),
        ensures
            r == self.data_symbol(k as int),
            r < self.symbols(),
    {
        match self {
            Protocol::Ft8 => k + if k < 29 { 7 } else { 14 },
            Protocol::Ft4 => k + if k < 29 { 5 } else if k < 58 { 9 } else { 13 },
        }
    }
}

/// The tones that carry a codeword are its channel symbols and nothing else:
/// every channel symbol is a sync symbol, a data symbol or, in FT4, a ramp.
#[verifier::spinoff_prover]
pub proof fn law_carriers_are_unique(p: Protocol, tones: Seq<u8>, codeword: Seq<u8>)
    requires
        p.carries(tones, codeword),
    ensures
        tones == p.channel(codeword),
{
    assert forall|i: int| 0 <= i < p.symbols() implies tones[i] == p.channel_tone(codeword, i) by {
        if p is Ft8 {
            if i % 36 < 7 {
                let t = p.sync_tone(i / 36, i % 36);
                assert(p.sync_symbol(i / 36, i % 36) == i);
            } else {
                let k = if i < 36 { i - 7 } else { i - 14 };
                let v = p.symbol_value(codeword, k);
                assert(p.data_symbol(k) == i);
            }
        } else if i == 0 || i == 104 {
        } else if (i - 1) % 33 < 4 {
            let t = p.sync_tone((i - 1) / 33, (i - 1) % 33);
            assert(p.sync_symbol((i - 1) / 33, (i - 1) % 33) == i);
        } else {
            let k = if i < 34 { i - 5 } else if i < 67 { i - 9 } else { i - 13 };
            let v = p.symbol_value(codeword, k);
            assert(p.data_symbol(k) == i);
        }
    }
    assert(tones =~= p.channel(codeword));
}

/// The codeword that is sent for 77 bits.
fn code(payload: &[u8; PAYLOAD_BYTES]) -> (codeword: [u8; LDPC_N])
    ensures
        codeword@ == ldpc::codeword(crc::sealed(payload@)),
        forall|n: int| 0 <= n < 174 ==> #[trigger] codeword@[n] <= 1,
{
    let mut a91: [u8; LDPC_K_BYTES] = [0; LDPC_K_BYTES];
    crc::add(payload, &mut a91);
    assert(a91@ =~= crc::sealed(payload@));
    let codeword: [u8; LDPC_N] = ldpc::encode(&a91);
    proof {
        assert forall|n: int| 0 <= n < 174 implies #[trigger] codeword@[n] <= 1 by {
            ldpc::law_codeword_bits(a91@, n);
        }
    }
    codeword
}

/// The 79 channel symbols a payload transmits as: three Costas sync groups
/// interleaved with two 29-symbol data blocks.
///
/// This is what a transmitter needs, and what the signal level of a decoded
/// message is measured by.
#[verifier::spinoff_prover]
pub fn ft8_tones(payload: &[u8; PAYLOAD_BYTES]) -> (tones: [u8; FT8_NN])
    ensures
        Protocol::Ft8.carries(tones@, Protocol::Ft8.sent(payload@)),
        tones@ == Protocol::Ft8.channel(Protocol::Ft8.sent(payload@)),
{
    let codeword: [u8; LDPC_N] = code(payload);
    let mut tones: [u8; FT8_NN] = [0; FT8_NN];
    let mut i: usize = 0;
    while i < FT8_LENGTH_SYNC
        invariant
            i <= FT8_LENGTH_SYNC,
            forall|k: int|
                #![trigger FT8_COSTAS_PATTERN[k]]
                0 <= k < i ==> tones@[k] == FT8_COSTAS_PATTERN[k] && tones@[36 + k]
                    == FT8_COSTAS_PATTERN[k] && tones@[72 + k] == FT8_COSTAS_PATTERN[k],
        decreases FT8_LENGTH_SYNC - i,
    {
        let t: u8 = FT8_COSTAS_PATTERN[i];
        tones[i] = t;
        tones[36 + i] = t;
        tones[72 + i] = t;
        i += 1;
    }
    let ghost p = Protocol::Ft8;
    let mut k: usize = 0;
    while k < FT8_ND
        invariant
            k <= FT8_ND,
            p == Protocol::Ft8,
            forall|n: int| 0 <= n < 174 ==> #[trigger] codeword@[n] <= 1,
            forall|k: int|
                #![trigger FT8_COSTAS_PATTERN[k]]
                0 <= k < 7 ==> tones@[k] == FT8_COSTAS_PATTERN[k] && tones@[36 + k]
                    == FT8_COSTAS_PATTERN[k] && tones@[72 + k] == FT8_COSTAS_PATTERN[k],
            forall|j: int|
                #![trigger p.symbol_value(codeword@, j)]
                0 <= j < k ==> tones@[p.data_symbol(j)] == p.gray_tone(
                    p.symbol_value(codeword@, j),
                ),
        decreases FT8_ND - k,
    {
        let value: u8 = codeword[3 * k] * 4 + codeword[3 * k + 1] * 2 + codeword[3 * k + 2];
        tones[Protocol::Ft8.data_place(k)] = FT8_GRAY_MAP[value as usize];
        k += 1;
    }
    proof {
        law_carriers_are_unique(p, tones@, codeword@);
    }
    tones
}

/// A payload with the FT4 sequence added.
///
/// FT4 does this so that CQ, which is mostly zeros, does not put a long run of
/// one tone on the air.
pub(crate) fn scramble(payload: &[u8; PAYLOAD_BYTES]) -> (r: [u8; PAYLOAD_BYTES])
    ensures
        r@ == Protocol::Ft4.scrambled(payload@),
{
    let mut r: [u8; PAYLOAD_BYTES] = *payload;
    let mut i: usize = 0;
    while i < PAYLOAD_BYTES
        invariant
            i <= PAYLOAD_BYTES,
            forall|j: int|
                #![trigger r@[j]]
                0 <= j < i ==> r@[j] == payload@[j] ^ FT4_XOR_SEQUENCE[j],
            forall|j: int| i <= j < PAYLOAD_BYTES ==> r@[j] == payload@[j],
        decreases PAYLOAD_BYTES - i,
    {
        r[i] = r[i] ^ FT4_XOR_SEQUENCE[i];
        i += 1;
    }
    assert(r@ =~= Protocol::Ft4.scrambled(payload@));
    r
}

/// Adding the sequence of a protocol twice changes nothing.
pub proof fn law_scrambling_undoes_itself(p: Protocol, payload: Seq<u8>)
    requires
        payload.len() == 10,
    ensures
        p.scrambled(p.scrambled(payload)) == payload,
{
    assert forall|i: int| 0 <= i < 10 implies p.scrambled(p.scrambled(payload))[i]
        == payload[i] by {
        let (a, x) = (payload[i], FT4_XOR_SEQUENCE[i]);
        assert((a ^ x) ^ x == a) by (bit_vector);
    }
    assert(p.scrambled(p.scrambled(payload)) =~= payload);
}

/// The 105 channel symbols an FT4 payload transmits as: a ramp, four 4-symbol
/// Costas groups interleaved with three data blocks, and a closing ramp.
#[verifier::spinoff_prover]
pub fn ft4_tones(payload: &[u8; PAYLOAD_BYTES]) -> (tones: [u8; FT4_NN])
    ensures
        Protocol::Ft4.carries(tones@, Protocol::Ft4.sent(payload@)),
        tones@ == Protocol::Ft4.channel(Protocol::Ft4.sent(payload@)),
{
    let codeword: [u8; LDPC_N] = code(&scramble(payload));
    let mut tones: [u8; FT4_NN] = [0; FT4_NN];
    let ghost p = Protocol::Ft4;
    let mut m: usize = 0;
    while m < FT4_NUM_SYNC
        invariant
            m <= FT4_NUM_SYNC,
            p == Protocol::Ft4,
            forall|a: int, b: int|
                #![trigger p.sync_tone(a, b)]
                0 <= a < m && 0 <= b < 4 ==> tones@[p.sync_symbol(a, b)] == p.sync_tone(a, b),
            tones@[0] == 0,
            tones@[FT4_NN - 1] == 0,
        decreases FT4_NUM_SYNC - m,
    {
        let mut k: usize = 0;
        while k < FT4_LENGTH_SYNC
            invariant
                m < FT4_NUM_SYNC,
                k <= FT4_LENGTH_SYNC,
                p == Protocol::Ft4,
                forall|a: int, b: int|
                    #![trigger p.sync_tone(a, b)]
                    0 <= a < m && 0 <= b < 4 ==> tones@[p.sync_symbol(a, b)] == p.sync_tone(a, b),
                forall|b: int|
                    #![trigger p.sync_tone(m as int, b)]
                    0 <= b < k ==> tones@[p.sync_symbol(m as int, b)] == p.sync_tone(m as int, b),
                tones@[0] == 0,
                tones@[FT4_NN - 1] == 0,
            decreases FT4_LENGTH_SYNC - k,
        {
            tones[1 + FT4_SYNC_OFFSET * m + k] = FT4_COSTAS_PATTERN[m][k];
            k += 1;
        }
        m += 1;
    }
    let mut k: usize = 0;
    while k < FT4_ND
        invariant
            k <= FT4_ND,
            p == Protocol::Ft4,
            forall|n: int| 0 <= n < 174 ==> #[trigger] codeword@[n] <= 1,
            forall|a: int, b: int|
                #![trigger p.sync_tone(a, b)]
                0 <= a < 4 && 0 <= b < 4 ==> tones@[p.sync_symbol(a, b)] == p.sync_tone(a, b),
            forall|j: int|
                #![trigger p.symbol_value(codeword@, j)]
                0 <= j < k ==> tones@[p.data_symbol(j)] == p.gray_tone(
                    p.symbol_value(codeword@, j),
                ),
            tones@[0] == 0,
            tones@[FT4_NN - 1] == 0,
        decreases FT4_ND - k,
    {
        let value: u8 = codeword[2 * k] * 2 + codeword[2 * k + 1];
        tones[Protocol::Ft4.data_place(k)] = FT4_GRAY_MAP[value as usize];
        k += 1;
    }
    proof {
        law_carriers_are_unique(p, tones@, codeword@);
    }
    tones
}

} // verus!
