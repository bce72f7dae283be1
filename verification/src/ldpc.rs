//! LDPC(174,91): the encoder, the parity check, and the decisions of the
//! belief-propagation decoder.
//!
//! A codeword is 174 bits: 91 payload bits (77 message + 14 CRC) followed by
//! 83 parity bits. It is held as one byte per bit.

use vstd::prelude::*;
use crate::bits;
use crate::constants::{
    LDPC_GENERATOR, LDPC_K, LDPC_K_BYTES, LDPC_M, LDPC_N, LDPC_NM, LDPC_NUM_ROWS,
};

verus! {

/// The sum modulo 2 of the first `k` codeword bits in parity check `m`.
pub open spec fn check_sum(codeword: Seq<u8>, m: int, k: nat) -> u8
    decreases k,
{
    if k == 0 {
        0
    } else {
        check_sum(codeword, m, (k - 1) as nat) ^ codeword[LDPC_NM[m][k - 1] - 1]
    }
}

/// Does the codeword satisfy parity check `m`? It is opaque, so that what holds of
/// any checks is proved without their table.
#[verifier::opaque]
pub open spec fn satisfies(codeword: Seq<u8>, m: int) -> bool {
    check_sum(codeword, m, LDPC_NUM_ROWS[m] as nat) == 0
}

/// How many of the first `m` parity checks the codeword fails.
pub open spec fn failures(codeword: Seq<u8>, m: nat) -> nat
    decreases m,
{
    if m == 0 {
        0
    } else {
        failures(codeword, (m - 1) as nat) + if satisfies(codeword, m - 1) {
            0nat
        } else {
            1
        }
    }
}

/// In how many of the first `n` bit positions both byte strings have a one.
pub open spec fn overlap(a: Seq<u8>, b: Seq<u8>, n: nat) -> nat
    decreases n,
{
    if n == 0 {
        0
    } else {
        overlap(a, b, (n - 1) as nat) + if bits::bit_at(a, n - 1) && bits::bit_at(b, n - 1) {
            1nat
        } else {
            0
        }
    }
}

/// Row `i` of the generator matrix. It is opaque, so that what holds of any matrix
/// is proved without the table.
#[verifier::opaque]
pub open spec fn generator_row(i: int) -> Seq<u8> {
    LDPC_GENERATOR[i]@
}

/// Bit `n` of the codeword for a payload: the payload bits first, then one
/// parity bit for each row of the generator matrix.
pub open spec fn code_bit(message: Seq<u8>, n: int) -> u8 {
    if n < LDPC_K {
        if bits::bit_at(message, n) { 1 } else { 0 }
    } else {
        (overlap(message, generator_row(n - LDPC_K), 96) % 2) as u8
    }
}

/// The codeword for a payload.
pub open spec fn codeword(message: Seq<u8>) -> Seq<u8> {
    Seq::new(174, |n: int| code_bit(message, n))
}

/// Row `m` of the check matrix names six or seven codeword bits, and is zero past
/// them.
#[verifier::spinoff_prover]
pub proof fn law_rows_are_padded(m: int)
    requires
        0 <= m < LDPC_M,
    ensures
        6 <= LDPC_NUM_ROWS[m] <= 7,
        forall|i: int|
            #![trigger LDPC_NM[m][i]]
            0 <= i < LDPC_NUM_ROWS[m] ==> 1 <= LDPC_NM[m][i] <= LDPC_N,
        forall|i: int|
            #![trigger LDPC_NM[m][i]]
            LDPC_NUM_ROWS[m] <= i < 7 ==> LDPC_NM[m][i] == 0,
{
}

/// Number of failed parity checks; 0 means a valid codeword.
#[verifier::spinoff_prover]
pub fn check(codeword: &[u8; LDPC_N]) -> (r: usize)
    ensures
        r == failures(codeword@, LDPC_M as nat),
        r <= LDPC_M,
{
    let mut errors: usize = 0;
    let mut m: usize = 0;
    while m < LDPC_M
        invariant
            m <= LDPC_M,
            errors == failures(codeword@, m as nat),
            errors <= m,
        decreases LDPC_M - m,
    {
        proof {
            law_rows_are_padded(m as int);
        }
        let rows: usize = LDPC_NUM_ROWS[m] as usize;
        let mut x: u8 = 0;
        let mut i: usize = 0;
        while i < rows
            invariant
                m < LDPC_M,
                i <= rows <= 7,
                rows == LDPC_NUM_ROWS[m as int],
                forall|i: int|
                    #![trigger LDPC_NM[m as int][i]]
                    0 <= i < rows ==> 1 <= LDPC_NM[m as int][i] <= LDPC_N,
                x == check_sum(codeword@, m as int, i as nat),
            decreases rows - i,
        {
            let n: usize = LDPC_NM[m][i] as usize;
            x = x ^ codeword[n - 1];
            i += 1;
        }
        proof {
            reveal(satisfies);
        }
        if x != 0 {
            errors += 1;
        }
        m += 1;
    }
    errors
}

/// How many of the eight bits of a byte are ones.
pub open spec fn ones(x: u8) -> nat {
    let bit = |k: int| if bits::byte_bit(x, k) { 1nat } else { 0nat };
    bit(0) + bit(1) + bit(2) + bit(3) + bit(4) + bit(5) + bit(6) + bit(7)
}

/// Is the number of ones odd?
#[verifier::spinoff_prover]
fn parity(x: u8) -> (r: u8)
    ensures
        r == ones(x) % 2,
{
    let a: u8 = x ^ (x >> 4);
    let b: u8 = a ^ (a >> 2);
    let c: u8 = b ^ (b >> 1);
    assert({
        let a: u8 = x ^ (x >> 4);
        let b: u8 = a ^ (a >> 2);
        let c: u8 = b ^ (b >> 1);
        let n = ((x >> 7) & 1) + ((x >> 6) & 1) + ((x >> 5) & 1) + ((x >> 4) & 1) + ((x >> 3) & 1)
            + ((x >> 2) & 1) + ((x >> 1) & 1) + ((x >> 0) & 1);
        &&& c & 1 == n % 2
        &&& (x >> 7) & 1 <= 1 && (x >> 6) & 1 <= 1 && (x >> 5) & 1 <= 1 && (x >> 4) & 1 <= 1
        &&& (x >> 3) & 1 <= 1 && (x >> 2) & 1 <= 1 && (x >> 1) & 1 <= 1 && (x >> 0) & 1 <= 1
    }) by (bit_vector);
    c & 1
}

/// The overlap over one more bit of a byte.
#[verifier::spinoff_prover]
proof fn lemma_overlap_bit(a: Seq<u8>, b: Seq<u8>, j: nat, k: int)
    requires
        0 <= k < 8,
    ensures
        overlap(a, b, (8 * j + k + 1) as nat) == overlap(a, b, (8 * j + k) as nat)
            + if bits::byte_bit(a[j as int] & b[j as int], k) {
            1nat
        } else {
            0
        },
{
    let (x, y) = (a[j as int], b[j as int]);
    let s = (7 - k) as u8;
    assert((((x & y) >> s) & 1 == 1) == (((x >> s) & 1 == 1) && ((y >> s) & 1 == 1)))
        by (bit_vector);
    let i = 8 * j + k;
    assert(i / 8 == j && i % 8 == k);
}

/// The overlap over one more byte.
#[verifier::spinoff_prover]
proof fn lemma_overlap_byte(a: Seq<u8>, b: Seq<u8>, j: nat)
    ensures
        overlap(a, b, 8 * j + 8) == overlap(a, b, 8 * j) + ones(a[j as int] & b[j as int]),
{
    lemma_overlap_bit(a, b, j, 0);
    lemma_overlap_bit(a, b, j, 1);
    lemma_overlap_bit(a, b, j, 2);
    lemma_overlap_bit(a, b, j, 3);
    lemma_overlap_bit(a, b, j, 4);
    lemma_overlap_bit(a, b, j, 5);
    lemma_overlap_bit(a, b, j, 6);
    lemma_overlap_bit(a, b, j, 7);
}

/// Encode 91 payload bits (12 bytes, MSB first) into a 174-bit codeword,
/// returned as one byte per bit.
#[verifier::spinoff_prover]
pub fn encode(message: &[u8; LDPC_K_BYTES]) -> (r: [u8; LDPC_N])
    ensures
        r@ == codeword(message@),
{
    let mut out: [u8; LDPC_N] = [0; LDPC_N];
    let mut i: usize = 0;
    while i < LDPC_K
        invariant
            i <= LDPC_K,
            forall|n: int| 0 <= n < i ==> out@[n] == code_bit(message@, n),
        decreases LDPC_K - i,
    {
        let b: u8 = message[i / 8];
        let s: u8 = 7 - (i % 8) as u8;
        assert((b >> s) & 1 <= 1) by (bit_vector);
        out[i] = (b >> s) & 1;
        i += 1;
    }
    let mut i: usize = 0;
    while i < LDPC_M
        invariant
            i <= LDPC_M,
            forall|n: int| 0 <= n < LDPC_K + i ==> out@[n] == code_bit(message@, n),
        decreases LDPC_M - i,
    {
        let mut nsum: u8 = 0;
        let mut j: usize = 0;
        while j < LDPC_K_BYTES
            invariant
                i < LDPC_M,
                j <= LDPC_K_BYTES,
                nsum <= 1,
                nsum == overlap(message@, generator_row(i as int), 8 * j as nat) % 2,
            decreases LDPC_K_BYTES - j,
        {
            proof {
                reveal(generator_row);
                lemma_overlap_byte(message@, generator_row(i as int), j as nat);
            }
            let p: u8 = parity(message[j] & LDPC_GENERATOR[i][j]);
            proof {
                bits::lemma_add_bits(nsum, p);
            }
            nsum = nsum ^ p;
            j += 1;
        }
        out[LDPC_K + i] = nsum;
        i += 1;
    }
    assert(out@ =~= codeword(message@));
    out
}

/// A codeword is of zeros and ones, and begins with the payload bits.
#[verifier::spinoff_prover]
pub proof fn law_codeword_bits(message: Seq<u8>, n: int)
    requires
        0 <= n < LDPC_N,
    ensures
        codeword(message)[n] <= 1,
        n < LDPC_K ==> (codeword(message)[n] == 1 <==> bits::bit_at(message, n)),
{
}

/// The overlap with a sum is the sum of the overlaps, modulo 2.
#[verifier::spinoff_prover]
proof fn lemma_overlap_is_linear(a: Seq<u8>, b: Seq<u8>, x: Seq<u8>, row: Seq<u8>, n: nat)
    requires
        n <= 96,
        forall|j: int| 0 <= j < LDPC_K_BYTES ==> #[trigger] x[j] == a[j] ^ b[j],
    ensures
        overlap(x, row, n) % 2 == (overlap(a, row, n) + overlap(b, row, n)) % 2,
    decreases n,
{
    if n > 0 {
        lemma_overlap_is_linear(a, b, x, row, (n - 1) as nat);
        let i = n - 1;
        assert(x[i / 8] == a[i / 8] ^ b[i / 8]);
        bits::lemma_xor_bit(a[i / 8], b[i / 8], i % 8);
    }
}

/// The code is linear: the codeword of two payloads added bit by bit is the sum of
/// their codewords.
#[verifier::spinoff_prover]
pub proof fn law_code_is_linear(a: Seq<u8>, b: Seq<u8>, x: Seq<u8>)
    requires
        forall|j: int| 0 <= j < LDPC_K_BYTES ==> #[trigger] x[j] == a[j] ^ b[j],
    ensures
        forall|n: int|
            0 <= n < LDPC_N ==> #[trigger] codeword(x)[n] == codeword(a)[n] ^ codeword(b)[n],
{
    assert forall|n: int| 0 <= n < LDPC_N implies #[trigger] codeword(x)[n] == codeword(a)[n]
        ^ codeword(b)[n] by {
        law_codeword_bits(a, n);
        law_codeword_bits(b, n);
        bits::lemma_add_bits(codeword(a)[n], codeword(b)[n]);
        if n < LDPC_K {
            assert(x[n / 8] == a[n / 8] ^ b[n / 8]);
            bits::lemma_xor_bit(a[n / 8], b[n / 8], n % 8);
        } else {
            lemma_overlap_is_linear(a, b, x, generator_row(n - LDPC_K), 96);
        }
    }
}

/// Zero encodes to zero.
#[verifier::spinoff_prover]
pub proof fn law_zero_encodes_to_zero(zero: Seq<u8>)
    requires
        forall|j: int| 0 <= j < LDPC_K_BYTES ==> #[trigger] zero[j] == 0,
    ensures
        forall|n: int| 0 <= n < LDPC_N ==> #[trigger] codeword(zero)[n] == 0,
{
    bits::lemma_add_bits(0, 0);
    law_code_is_linear(zero, zero, zero);
    assert forall|n: int| 0 <= n < LDPC_N implies #[trigger] codeword(zero)[n] == 0 by {
        law_codeword_bits(zero, n);
        bits::lemma_add_bits(codeword(zero)[n], codeword(zero)[n]);
    }
}

/// Is every byte zero?
pub open spec fn all_zero(word: Seq<u8>) -> bool {
    forall|n: int| 0 <= n < word.len() ==> word[n] == 0
}

/// Is the word made of zeros and ones?
pub open spec fn is_binary(word: Seq<u8>) -> bool {
    forall|n: int| 0 <= n < word.len() ==> #[trigger] word[n] <= 1
}

/// Is the word one that a decode succeeds with: valid, and not zero?
pub open spec fn is_success(word: Seq<u8>) -> bool {
    failures(word, LDPC_M as nat) == 0 && !all_zero(word)
}

/// The course of a belief-propagation decode: which word it stands at, how few
/// parity errors it has seen, and whether it goes on. The beliefs themselves are
/// kept by the caller, who offers one hard decision per iteration.
#[derive(Clone, Copy, Debug)]
pub struct BpDecoder {
    plain: [u8; LDPC_N],
    min_errors: usize,
    iterations: usize,
    running: bool,
}

impl BpDecoder {
    /// A decode has seen no parity error left exactly where it stands at a valid
    /// codeword other than zero, and then it has stopped. One that runs has
    /// iterations left.
    #[verifier::type_invariant]
    pub closed spec fn wf(self) -> bool {
        &&& self.min_errors <= LDPC_M
        &&& self.running ==> self.min_errors > 0 && self.iterations > 0
        &&& self.min_errors == 0 <==> is_success(self.plain@)
    }

    /// The last hard decision.
    pub closed spec fn word(self) -> Seq<u8> {
        self.plain@
    }

    /// The smallest parity-error count seen; the number of checks before any.
    pub closed spec fn fewest(self) -> nat {
        self.min_errors as nat
    }

    /// How many more hard decisions may be offered.
    pub closed spec fn left(self) -> nat {
        self.iterations as nat
    }

    /// Is another hard decision wanted?
    pub closed spec fn wants_more(self) -> bool {
        self.running
    }

    /// Has a decode of at most `max_iters` iterations just begun? It stands at zero,
    /// with no check known to be satisfied.
    pub open spec fn is_fresh(self, max_iters: nat) -> bool {
        &&& self.word() == Seq::new(LDPC_N as nat, |n: int| 0u8)
        &&& self.fewest() == LDPC_M
        &&& self.left() == max_iters
        &&& self.wants_more() == (max_iters > 0)
    }

    /// Is `next` where a hard decision leads? It is the word now stood at. Zero
    /// ends the decode with what it had counted; any other word counts if it has
    /// fewer errors, and ends the decode if it has none or none more are allowed.
    pub open spec fn leads_to(self, hard: Seq<u8>, next: Self) -> bool {
        let errors = failures(hard, LDPC_M as nat);
        &&& next.word() == hard
        &&& next.left() == self.left() - 1
        &&& if all_zero(hard) {
            &&& next.fewest() == self.fewest()
            &&& !next.wants_more()
        } else {
            &&& next.fewest() == if errors < self.fewest() { errors } else { self.fewest() }
            &&& next.wants_more() == (errors > 0 && self.left() > 1)
        }
    }

    /// A decode of at most `max_iters` iterations.
    pub fn new(max_iters: usize) -> (r: Self)
        ensures
            r.is_fresh(max_iters as nat),
    {
        let r = BpDecoder {
            plain: [0; LDPC_N],
            min_errors: LDPC_M,
            iterations: max_iters,
            running: max_iters > 0,
        };
        assert(r.word() =~= Seq::new(LDPC_N as nat, |n: int| 0u8));
        r
    }

    /// Is another hard decision wanted?
    pub fn is_running(&self) -> (r: bool)
        ensures
            r == self.wants_more(),
            r ==> self.left() > 0 && self.fewest() > 0,
    {
        proof {
            use_type_invariant(self);
        }
        self.running
    }

    /// Take the hard decision of one iteration.
    ///
    /// All-zeros satisfies every parity check but is not a legal message, so
    /// converging there means the signal is lost, and the decode stops with what
    /// it had counted. A word without errors ends it too.
    #[verifier::spinoff_prover]
    pub fn offer(&mut self, hard: &[u8; LDPC_N])
        requires
            old(self).wants_more(),
        ensures
            old(self).leads_to(hard@, *final(self)),
    {
        proof {
            use_type_invariant(&*self);
        }
        let mut sum: u32 = 0;
        let mut n: usize = 0;
        while n < LDPC_N
            invariant
                n <= LDPC_N,
                sum <= 255 * n,
                (sum == 0) == (forall|k: int| 0 <= k < n ==> hard@[k] == 0),
            decreases LDPC_N - n,
        {
            sum += hard[n] as u32;
            n += 1;
        }
        let errors: usize = check(hard);
        let min_errors: usize = if sum != 0 && errors < self.min_errors {
            errors
        } else {
            self.min_errors
        };
        let running: bool = sum != 0 && errors > 0 && self.iterations > 1;
        *self = BpDecoder { plain: *hard, min_errors, iterations: self.iterations - 1, running };
    }

    /// The word and the smallest parity-error count seen, which is zero exactly for
    /// a valid codeword that is not zero.
    pub fn outcome(&self) -> (r: ([u8; LDPC_N], usize))
        ensures
            r.0@ == self.word(),
            r.1 == self.fewest(),
            r.1 <= LDPC_M,
            r.1 == 0 <==> failures(r.0@, LDPC_M as nat) == 0 && !all_zero(r.0@),
    {
        proof {
            use_type_invariant(self);
        }
        (self.plain, self.min_errors)
    }
}

/// Is this the course of a decode of at most `max_iters` iterations, from its
/// beginning over the hard decisions that were offered?
pub open spec fn is_course(states: Seq<BpDecoder>, hards: Seq<Seq<u8>>, max_iters: nat) -> bool {
    &&& states.len() == hards.len() + 1
    &&& states[0].is_fresh(max_iters)
    &&& forall|i: int| 0 <= i < hards.len() ==> #[trigger] is_step(states, hards, i)
}

/// Was hard decision `i` wanted, and is the next state where it leads?
pub open spec fn is_step(states: Seq<BpDecoder>, hards: Seq<Seq<u8>>, i: int) -> bool {
    states[i].wants_more() && states[i].leads_to(hards[i], states[i + 1])
}

/// A course without its last hard decision is a course, and that leads on from it.
proof fn lemma_shorter_course(states: Seq<BpDecoder>, hards: Seq<Seq<u8>>, max_iters: nat)
    requires
        is_course(states, hards, max_iters),
        hards.len() > 0,
    ensures
        is_course(states.drop_last(), hards.drop_last(), max_iters),
        states.drop_last().last().wants_more(),
        states.drop_last().last().leads_to(hards.last(), states.last()),
{
    let (fewer, before) = (hards.drop_last(), states.drop_last());
    let n = fewer.len() as int;
    assert(is_step(states, hards, n));
    assert forall|i: int| 0 <= i < fewer.len() implies #[trigger] is_step(before, fewer, i) by {
        assert(is_step(states, hards, i));
    }
}

/// A decode has success exactly where it ends at a valid codeword that is not zero:
/// after any course, the count is zero for such a word and for no other. It stands
/// at the last word offered, no more words are offered than iterations allowed,
/// and without any it stands at zero with every check counted.
#[verifier::spinoff_prover]
pub proof fn law_zero_errors_is_success(
    states: Seq<BpDecoder>,
    hards: Seq<Seq<u8>>,
    max_iters: nat,
)
    requires
        is_course(states, hards, max_iters),
    ensures
        states.last().fewest() == 0 <==> is_success(states.last().word()),
        states.last().fewest() <= LDPC_M,
        states.last().wants_more() ==> states.last().fewest() > 0 && states.last().left() > 0,
        hards.len() + states.last().left() == max_iters,
        hards.len() > 0 ==> states.last().word() == hards.last(),
        hards.len() == 0 ==> states.last().is_fresh(max_iters),
        hards.len() == 0 ==> states.last().word().len() == LDPC_N && all_zero(states.last().word())
            && states.last().fewest() == LDPC_M,
    decreases hards.len(),
{
    if hards.len() > 0 {
        lemma_shorter_course(states, hards, max_iters);
        law_zero_errors_is_success(states.drop_last(), hards.drop_last(), max_iters);
    }
}

/// The count is the smallest seen: no word offered other than zero has fewer
/// errors, and one has as many, unless none has fewer than there are checks.
#[verifier::spinoff_prover]
pub proof fn law_fewest_errors_are_counted(
    states: Seq<BpDecoder>,
    hards: Seq<Seq<u8>>,
    max_iters: nat,
)
    requires
        is_course(states, hards, max_iters),
    ensures
        forall|i: int|
            0 <= i < hards.len() && !all_zero(#[trigger] hards[i]) ==> states.last().fewest()
                <= failures(hards[i], LDPC_M as nat),
        states.last().fewest() == LDPC_M || exists|i: int|
            0 <= i < hards.len() && !all_zero(#[trigger] hards[i]) && states.last().fewest()
                == failures(hards[i], LDPC_M as nat),
    decreases hards.len(),
{
    if hards.len() > 0 {
        let n = hards.len() - 1;
        let (fewer, before) = (hards.drop_last(), states.drop_last());
        lemma_shorter_course(states, hards, max_iters);
        law_fewest_errors_are_counted(before, fewer, max_iters);
        assert forall|i: int| 0 <= i < hards.len() && !all_zero(#[trigger] hards[i]) implies
            states.last().fewest() <= failures(hards[i], LDPC_M as nat) by {
            if i < n {
                assert(fewer[i] == hards[i]);
            }
        }
        if states.last().fewest() != LDPC_M && states.last().fewest() == before.last().fewest() {
            let i = choose|i: int|
                0 <= i < fewer.len() && !all_zero(#[trigger] fewer[i]) && before.last().fewest()
                    == failures(fewer[i], LDPC_M as nat);
            assert(hards[i] == fewer[i]);
        }
    }
}

/// The outcome is made of zeros and ones where every hard decision that was offered
/// is.
pub proof fn law_outcome_is_binary(
    states: Seq<BpDecoder>,
    hards: Seq<Seq<u8>>,
    max_iters: nat,
)
    requires
        is_course(states, hards, max_iters),
        forall|i: int| 0 <= i < hards.len() ==> is_binary(#[trigger] hards[i]),
    ensures
        is_binary(states.last().word()),
{
    law_zero_errors_is_success(states, hards, max_iters);
}

/// A clean codeword comes back bit for bit: where the first hard decision is valid
/// and not zero, it ends the decode and is its outcome, without an error.
pub proof fn law_clean_word_comes_back(
    before: BpDecoder,
    hard: Seq<u8>,
    after: BpDecoder,
    max_iters: nat,
)
    requires
        max_iters >= 1,
        before.is_fresh(max_iters),
        is_success(hard),
        before.leads_to(hard, after),
    ensures
        after.word() == hard,
        after.fewest() == 0,
        !after.wants_more(),
{
}

/// A decode goes on exactly as long as it may and has to: until a word is zero or
/// valid, or as many words were offered as iterations allowed.
#[verifier::spinoff_prover]
pub proof fn law_decode_goes_on(states: Seq<BpDecoder>, hards: Seq<Seq<u8>>, max_iters: nat)
    requires
        is_course(states, hards, max_iters),
    ensures
        states.last().wants_more() <==> hards.len() < max_iters && (hards.len() > 0 ==> !all_zero(
            hards.last(),
        ) && failures(hards.last(), LDPC_M as nat) > 0),
{
    law_zero_errors_is_success(states, hards, max_iters);
    if hards.len() > 0 {
        lemma_shorter_course(states, hards, max_iters);
        law_zero_errors_is_success(states.drop_last(), hards.drop_last(), max_iters);
    }
}

/// The sum of the first `k` bits that parity check `m` names.
pub open spec fn named_sum(word: Seq<u8>, m: int, k: nat) -> int
    decreases k,
{
    if k == 0 {
        0
    } else {
        named_sum(word, m, (k - 1) as nat) + word[LDPC_NM[m][k - 1] - 1]
    }
}

/// Does parity check `m` fail: do the bits that it names have an odd sum?
pub open spec fn is_odd(word: Seq<u8>, m: int) -> bool {
    named_sum(word, m, LDPC_NUM_ROWS[m] as nat) % 2 == 1
}

/// How many of the first `m` parity checks are odd.
pub open spec fn odd_checks(word: Seq<u8>, m: nat) -> nat
    decreases m,
{
    if m == 0 {
        0
    } else {
        odd_checks(word, (m - 1) as nat) + if is_odd(word, m - 1) {
            1nat
        } else {
            0
        }
    }
}

/// The sum modulo 2 of the bits of a check.
#[verifier::spinoff_prover]
proof fn lemma_named_sum(word: Seq<u8>, m: int, k: nat)
    requires
        word.len() == LDPC_N,
        is_binary(word),
        0 <= m < LDPC_M,
        k <= LDPC_NUM_ROWS[m],
    ensures
        check_sum(word, m, k) == named_sum(word, m, k) % 2,
        check_sum(word, m, k) <= 1,
    decreases k,
{
    if k > 0 {
        lemma_named_sum(word, m, (k - 1) as nat);
        law_rows_are_padded(m);
        let n = LDPC_NM[m][k - 1] - 1;
        assert(word[n] <= 1);
        bits::lemma_add_bits(check_sum(word, m, (k - 1) as nat), word[n]);
    }
}

/// The errors of a word are the parity checks whose bits have an odd sum.
#[verifier::spinoff_prover]
pub proof fn law_errors_are_odd_checks(word: Seq<u8>, m: nat)
    requires
        word.len() == LDPC_N,
        is_binary(word),
        m <= LDPC_M,
    ensures
        failures(word, m) == odd_checks(word, m),
    decreases m,
{
    if m > 0 {
        law_errors_are_odd_checks(word, (m - 1) as nat);
        law_rows_are_padded(m - 1);
        lemma_named_sum(word, m - 1, LDPC_NUM_ROWS[m - 1] as nat);
        reveal(satisfies);
    }
}

} // verus!
