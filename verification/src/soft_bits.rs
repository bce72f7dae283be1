//! Soft bits: for each bit of a codeword, the strongest tone that would set it
//! against the strongest that would clear it.

use vstd::prelude::*;
use crate::constants::{FT4_GRAY_MAP, FT4_ND, FT8_GRAY_MAP, FT8_ND, LDPC_N};
use crate::decode::{Candidate, Protocol, Waterfall};

verus! {

impl Protocol {
    /// Is bit `bit` of a data symbol set in `value`, counted from the most
    /// significant?
    pub open spec fn sets(self, value: int, bit: int) -> bool {
        if self is Ft8 {
            if bit == 0 {
                value / 4 % 2 == 1
            } else if bit == 1 {
                value / 2 % 2 == 1
            } else {
                value % 2 == 1
            }
        } else if bit == 0 {
            value / 2 % 2 == 1
        } else {
            value % 2 == 1
        }
    }

    /// Is bit `bit` of a data symbol set in `value`?
    fn is_set(self, value: usize, bit: usize) -> (r: bool)
        ensures
            r == self.sets(value as int, bit as int),
    {
        match self {
            Protocol::Ft8 => if bit == 0 {
                value / 4 % 2 == 1
            } else if bit == 1 {
                value / 2 % 2 == 1
            } else {
                value % 2 == 1
            },
            Protocol::Ft4 => if bit == 0 { value / 2 % 2 == 1 } else { value % 2 == 1 },
        }
    }

    /// The tone of a data symbol.
    fn tone_of(self, value: usize) -> (r: usize)
        requires
            value < self.tones(),
        ensures
            r == self.gray_tone(value as int),
            r < self.tones(),
    {
        match self {
            Protocol::Ft8 => FT8_GRAY_MAP[value] as usize,
            Protocol::Ft4 => FT4_GRAY_MAP[value] as usize,
        }
    }
}

impl<'a> Waterfall<'a> {
    /// The magnitude with which a channel symbol of a candidate was received as
    /// `value`.
    pub open spec fn value_level(self, c: Candidate, symbol: int, value: int) -> int {
        self.level(c, symbol, self.protocol.gray_tone(value) as int)
    }

    /// Are the cells of every data symbol of a candidate there, of those that were
    /// recorded?
    pub open spec fn data_readable(self, c: Candidate) -> bool {
        &&& self.stride_fits()
        &&& forall|k: int|
            0 <= k < self.protocol.data_symbols() ==> #[trigger] self.reads(
                c,
                self.protocol.data_symbol(k),
            )
    }

    /// Can every recorded data symbol of a candidate be read?
    pub fn is_data_readable(&self, c: &Candidate) -> (r: bool)
        ensures
            r == self.data_readable(*c),
    {
        if !self.is_countable() {
            return false;
        }
        let nd: usize = match self.protocol {
            Protocol::Ft8 => FT8_ND,
            Protocol::Ft4 => FT4_ND,
        };
        let mut k: usize = 0;
        while k < nd
            invariant
                nd == self.protocol.data_symbols(),
                k <= nd,
                self.stride_fits(),
                forall|j: int|
                    0 <= j < k ==> #[trigger] self.reads(*c, self.protocol.data_symbol(j)),
            decreases nd - k,
        {
            if !self.can_read(c, self.protocol.data_place(k)) {
                assert(!self.reads(*c, self.protocol.data_symbol(k as int)));
                return false;
            }
            k += 1;
        }
        true
    }

    /// The strongest of the first `n` values of a channel symbol that have the bit
    /// set, or cleared; -1 where there is none.
    pub open spec fn loudest(self, c: Candidate, symbol: int, bit: int, set: bool, n: nat) -> int
        decreases n,
    {
        if n == 0 {
            -1
        } else {
            let before = self.loudest(c, symbol, bit, set, (n - 1) as nat);
            let level = self.value_level(c, symbol, n - 1);
            if self.protocol.sets(n - 1, bit) == set && level > before {
                level
            } else {
                before
            }
        }
    }

    /// Soft bit `n` of a candidate in half-decibels: above zero for a one, below
    /// for a zero, and zero, "no information", where the symbol was not recorded.
    pub open spec fn soft_bit(self, c: Candidate, n: int) -> int {
        let width = self.protocol.bits_per_symbol();
        let symbol = self.protocol.data_symbol(n / width);
        let tones = self.protocol.tones() as nat;
        if self.heard(c, symbol) {
            self.loudest(c, symbol, n % width, true, tones) - self.loudest(
                c,
                symbol,
                n % width,
                false,
                tones,
            )
        } else {
            0
        }
    }
}

/// Soft bit `bit` of a recorded channel symbol.
#[verifier::spinoff_prover]
fn extract_bit(wf: &Waterfall, c: &Candidate, symbol: usize, bit: usize) -> (r: i32)
    requires
        wf.stride_fits(),
        wf.reads(*c, symbol as int),
        symbol < wf.protocol.symbols(),
        wf.heard(*c, symbol as int),
    ensures
        r == wf.loudest(*c, symbol as int, bit as int, true, wf.protocol.tones() as nat)
            - wf.loudest(*c, symbol as int, bit as int, false, wf.protocol.tones() as nat),
{
    let p: usize = wf.cell(c, symbol);
    let tones: usize = wf.protocol.num_tones();
    let mut ones: i32 = -1;
    let mut zeros: i32 = -1;
    let mut value: usize = 0;
    while value < tones
        invariant
            tones == wf.protocol.tones(),
            value <= tones,
            p == wf.start(*c, symbol as int),
            p + tones <= wf.mag@.len() <= usize::MAX,
            ones == wf.loudest(*c, symbol as int, bit as int, true, value as nat),
            zeros == wf.loudest(*c, symbol as int, bit as int, false, value as nat),
            -1 <= ones <= 255,
            -1 <= zeros <= 255,
        decreases tones - value,
    {
        let level: i32 = wf.mag[p + wf.protocol.tone_of(value)] as i32;
        if wf.protocol.is_set(value, bit) {
            if level > ones {
                ones = level;
            }
        } else if level > zeros {
            zeros = level;
        }
        value += 1;
    }
    ones - zeros
}

/// The soft bits of a candidate, in half-decibels.
#[verifier::spinoff_prover]
pub fn extract_likelihood(wf: &Waterfall, c: &Candidate) -> (r: [i32; LDPC_N])
    requires
        wf.data_readable(*c),
    ensures
        r@ == Seq::new(LDPC_N as nat, |n: int| wf.soft_bit(*c, n) as i32),
        forall|n: int| 0 <= n < LDPC_N ==> #[trigger] r@[n] == wf.soft_bit(*c, n),
{
    let mut soft: [i32; LDPC_N] = [0; LDPC_N];
    let (nd, width): (usize, usize) = match wf.protocol {
        Protocol::Ft8 => (FT8_ND, 3),
        Protocol::Ft4 => (FT4_ND, 2),
    };
    let mut n: usize = 0;
    while n < LDPC_N
        invariant
            wf.data_readable(*c),
            nd == wf.protocol.data_symbols(),
            width == wf.protocol.bits_per_symbol(),
            nd * width == LDPC_N,
            n <= LDPC_N,
            forall|j: int| 0 <= j < n ==> #[trigger] soft@[j] == wf.soft_bit(*c, j),
            forall|j: int| n <= j < LDPC_N ==> soft@[j] == 0,
        decreases LDPC_N - n,
    {
        let k: usize = n / width;
        assert(k < nd) by (nonlinear_arith)
            requires
                k == n / width,
                n < nd * width,
                width > 0,
        ;
        let symbol: usize = wf.protocol.data_place(k);
        if wf.is_heard(c, symbol) {
            assert(wf.reads(*c, wf.protocol.data_symbol(k as int)));
            soft[n] = extract_bit(wf, c, symbol, n % width);
        }
        n += 1;
    }
    assert(soft@ =~= Seq::new(LDPC_N as nat, |n: int| wf.soft_bit(*c, n) as i32));
    soft
}

/// Was data symbol `k` of a codeword recorded, with its tone louder than every
/// other?
pub open spec fn is_clear(wf: Waterfall, c: Candidate, codeword: Seq<u8>, k: int) -> bool {
    let symbol = wf.protocol.data_symbol(k);
    let sent = wf.protocol.symbol_value(codeword, k);
    &&& wf.heard(c, symbol)
    &&& forall|v: int|
        #![trigger wf.value_level(c, symbol, v)]
        0 <= v < wf.protocol.tones() && v != sent ==> wf.value_level(c, symbol, v) < wf.value_level(
            c,
            symbol,
            sent,
        )
}

/// The loudest of the values with a bit is at least each of them.
proof fn lemma_loudest_bounds(
    wf: Waterfall,
    c: Candidate,
    symbol: int,
    bit: int,
    set: bool,
    n: nat,
    top: int,
)
    requires
        forall|v: int|
            #![trigger wf.value_level(c, symbol, v)]
            0 <= v < n && wf.protocol.sets(v, bit) == set ==> wf.value_level(c, symbol, v) <= top,
        -1 <= top,
    ensures
        wf.loudest(c, symbol, bit, set, n) <= top,
        forall|v: int|
            #![trigger wf.value_level(c, symbol, v)]
            0 <= v < n && wf.protocol.sets(v, bit) == set ==> wf.value_level(c, symbol, v)
                <= wf.loudest(c, symbol, bit, set, n),
    decreases n,
{
    if n > 0 {
        lemma_loudest_bounds(wf, c, symbol, bit, set, (n - 1) as nat, top);
    }
}

/// A clear symbol gives back its bits: each soft bit is above zero where the
/// codeword has a one, and below where it has a zero.
#[verifier::spinoff_prover]
pub proof fn law_clear_symbol_gives_its_bits(
    wf: Waterfall,
    c: Candidate,
    codeword: Seq<u8>,
    n: int,
)
    requires
        codeword.len() == LDPC_N,
        forall|i: int| 0 <= i < LDPC_N ==> #[trigger] codeword[i] <= 1,
        0 <= n < LDPC_N,
        is_clear(wf, c, codeword, n / wf.protocol.bits_per_symbol()),
    ensures
        wf.soft_bit(c, n) > 0 <==> codeword[n] == 1,
        wf.soft_bit(c, n) < 0 <==> codeword[n] == 0,
{
    let p = wf.protocol;
    let width = p.bits_per_symbol();
    let (k, bit) = (n / width, n % width);
    let symbol = p.data_symbol(k);
    let sent = p.symbol_value(codeword, k);
    let tones = p.tones() as nat;
    assert(codeword[width * k] <= 1 && codeword[width * k + 1] <= 1 && codeword[width * k + width
        - 1] <= 1);
    assert(0 <= sent < tones);
    assert(p.sets(sent, bit) == (codeword[n] == 1));
    let set = codeword[n] == 1;
    let top = wf.value_level(c, symbol, sent);
    lemma_loudest_bounds(wf, c, symbol, bit, set, tones, top);
    lemma_loudest_bounds(wf, c, symbol, bit, !set, tones, top - 1);
}

} // verus!
