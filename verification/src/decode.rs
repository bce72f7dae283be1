//! The spectrogram and the score of a possible message start in it.
//!
//! The input is a "waterfall": FFT magnitudes for the whole slot, laid out as
//! `[block][time_sub][freq_sub][bin]`. Bins are spaced 6.25 Hz apart, exactly the
//! FT8 tone spacing, and there is one block per 0.16 s symbol, so the grid *is*
//! the FSK demodulator: each cell is "how much energy was in this tone during
//! this symbol". Magnitudes are stored as `dB * 2 + 240` in a byte.

use vstd::prelude::*;
use crate::constants::{
    FT4_COSTAS_PATTERN, FT4_LENGTH_SYNC, FT4_NN, FT4_NUM_SYNC, FT4_SYNC_OFFSET, FT8_COSTAS_PATTERN,
    FT8_LENGTH_SYNC, FT8_NN, FT8_NUM_SYNC, FT8_SYNC_OFFSET,
};

pub use crate::candidates::{best_candidates, find_candidates};
pub use crate::recover::{decode_candidate, DecodeStatus};
pub use crate::soft_bits::extract_likelihood;
pub use crate::tones::{ft4_tones, ft8_tones};

verus! {

/// The two protocols.
#[derive(Clone, Copy, PartialEq, Eq, Structural, Debug)]
pub enum Protocol {
    Ft8,
    Ft4,
}

impl Protocol {
    /// How many tones a symbol can be.
    pub open spec fn tones(self) -> int {
        if self is Ft8 { 8 } else { 4 }
    }

    /// How many symbols a transmission has.
    pub open spec fn symbols(self) -> int {
        if self is Ft8 { FT8_NN as int } else { FT4_NN as int }
    }

    /// How many sync groups a transmission has.
    pub open spec fn sync_groups(self) -> int {
        if self is Ft8 { FT8_NUM_SYNC as int } else { FT4_NUM_SYNC as int }
    }

    /// How many symbols a sync group has.
    pub open spec fn sync_length(self) -> int {
        if self is Ft8 { FT8_LENGTH_SYNC as int } else { FT4_LENGTH_SYNC as int }
    }

    /// The symbol that is number `k` of sync group `m`. The first symbol of FT4
    /// is a ramp, so its sync groups start at 1.
    pub open spec fn sync_symbol(self, m: int, k: int) -> int {
        if self is Ft8 { FT8_SYNC_OFFSET * m + k } else { 1 + FT4_SYNC_OFFSET * m + k }
    }

    /// The tone of that symbol.
    pub open spec fn sync_tone(self, m: int, k: int) -> int {
        if self is Ft8 { FT8_COSTAS_PATTERN[k] as int } else { FT4_COSTAS_PATTERN[m][k] as int }
    }

    /// How many tones a symbol can be.
    pub fn num_tones(self) -> (r: usize)
        ensures
            r == self.tones(),
    {
        match self {
            Protocol::Ft8 => 8,
            Protocol::Ft4 => 4,
        }
    }

    /// How many symbols a transmission has.
    pub fn num_symbols(self) -> (r: usize)
        ensures
            r == self.symbols(),
    {
        match self {
            Protocol::Ft8 => FT8_NN,
            Protocol::Ft4 => FT4_NN,
        }
    }
}

/// FFT magnitudes for one slot, `[block][time_sub][freq_sub][bin]`.
///
/// Each stored byte is a magnitude in half-decibels offset by 120, so
/// `dB = byte * 0.5 - 120`. That makes the whole spectrogram a quarter the size
/// of single-precision numbers at no useful loss, since the sync search only ever
/// compares neighbouring bins.
#[derive(Clone, Copy, Debug)]
pub struct Waterfall<'a> {
    pub mag: &'a [u8],
    /// Symbols stored.
    pub num_blocks: usize,
    /// Bins per symbol, in units of the 6.25 Hz tone spacing.
    pub num_bins: usize,
    /// Time subdivisions per symbol.
    pub time_osr: usize,
    /// Frequency subdivisions per tone spacing.
    pub freq_osr: usize,
    pub protocol: Protocol,
}

/// A possible message start, in time and frequency.
#[derive(Clone, Copy, PartialEq, Eq, Structural, Debug)]
pub struct Candidate {
    pub score: i16,
    pub time_offset: i16,
    pub freq_offset: i16,
    pub time_sub: u8,
    pub freq_sub: u8,
}

impl Default for Candidate {
    fn default() -> (r: Self)
        ensures
            r.score == 0,
            r.time_offset == 0,
            r.freq_offset == 0,
            r.time_sub == 0,
            r.freq_sub == 0,
    {
        Candidate { score: 0, time_offset: 0, freq_offset: 0, time_sub: 0, freq_sub: 0 }
    }
}

/// Division that rounds toward zero, by a positive number.
pub open spec fn quotient(a: int, b: int) -> int {
    if a >= 0 { a / b } else { -((-a) / b) }
}

impl<'a> Waterfall<'a> {
    /// Cells per block.
    pub open spec fn stride(self) -> int {
        self.time_osr * self.freq_osr * self.num_bins
    }

    /// Can the cells of a block be counted?
    pub open spec fn stride_fits(self) -> bool {
        self.time_osr * self.freq_osr <= usize::MAX && self.stride() <= usize::MAX
    }

    /// Are all blocks there?
    pub open spec fn complete(self) -> bool {
        self.stride_fits() && self.num_blocks * self.stride() <= self.mag@.len()
    }

    /// Was symbol `k` of a candidate recorded? Time offsets run negative: a
    /// message whose first symbols fell before the recording may still have all
    /// its data bits.
    pub open spec fn heard(self, c: Candidate, k: int) -> bool {
        0 <= c.time_offset + k < self.num_blocks
    }

    /// The cell of tone 0 in symbol `k` of a candidate.
    pub open spec fn start(self, c: Candidate, k: int) -> int {
        (c.time_offset + k) * self.stride() + (c.time_sub * self.freq_osr + c.freq_sub)
            * self.num_bins + c.freq_offset
    }

    /// Are the cells of every tone of symbol `k` there, if it was recorded?
    pub open spec fn reads(self, c: Candidate, k: int) -> bool {
        self.heard(c, k) ==> 0 <= self.start(c, k) && self.start(c, k) + self.protocol.tones()
            <= self.mag@.len()
    }

    /// Are the cells of every tone of every recorded symbol of a candidate there?
    pub open spec fn readable(self, c: Candidate) -> bool {
        &&& self.stride_fits()
        &&& forall|k: int| 0 <= k < self.protocol.symbols() ==> #[trigger] self.reads(c, k)
    }

    /// Is the cell `off` bins from tone 0 of symbol `k` of a candidate there?
    pub open spec fn has(self, c: Candidate, k: int, off: int) -> bool {
        0 <= self.start(c, k) + off < self.mag@.len()
    }

    /// Are the cells that the score reads for number `k` of sync group `m` there?
    /// If that symbol was recorded, they are its tone, the tones beside it, and the
    /// same tone in the symbols of its group that were recorded beside it.
    pub open spec fn sync_reads(self, c: Candidate, m: int, k: int) -> bool {
        let symbol = self.protocol.sync_symbol(m, k);
        let tone = self.protocol.sync_tone(m, k);
        self.heard(c, symbol) ==> {
            &&& self.has(c, symbol, tone)
            &&& tone > 0 ==> self.has(c, symbol, tone - 1)
            &&& tone < self.protocol.tones() - 1 ==> self.has(c, symbol, tone + 1)
            &&& k > 0 && self.heard(c, symbol - 1) ==> self.has(c, symbol - 1, tone)
            &&& k + 1 < self.protocol.sync_length() && self.heard(c, symbol + 1) ==> self.has(
                c,
                symbol + 1,
                tone,
            )
        }
    }

    /// Are the cells that the score of a candidate is made of there?
    pub open spec fn sync_readable(self, c: Candidate) -> bool {
        &&& self.stride_fits()
        &&& forall|m: int, k: int|
            0 <= m < self.protocol.sync_groups() && 0 <= k < self.protocol.sync_length()
                ==> #[trigger] self.sync_reads(c, m, k)
    }

    /// Do two spectrograms have one shape?
    pub open spec fn same_shape(self, other: Self) -> bool {
        &&& self.mag@.len() == other.mag@.len()
        &&& self.num_blocks == other.num_blocks
        &&& self.num_bins == other.num_bins
        &&& self.time_osr == other.time_osr
        &&& self.freq_osr == other.freq_osr
        &&& self.protocol == other.protocol
    }

    /// The magnitude of a tone in symbol `k` of a candidate.
    pub open spec fn level(self, c: Candidate, k: int, tone: int) -> int {
        self.mag@[self.start(c, k) + tone] as int
    }

    /// How much symbol `k` of sync group `m` stands out from its neighbours in
    /// frequency and time, summed over those that there are, and their number.
    pub open spec fn sync_gain(self, c: Candidate, m: int, k: int) -> (int, int) {
        let symbol = self.protocol.sync_symbol(m, k);
        let tone = self.protocol.sync_tone(m, k);
        if self.heard(c, symbol) {
            let here = self.level(c, symbol, tone);
            let lower = tone > 0;
            let higher = tone < self.protocol.tones() - 1;
            let earlier = k > 0 && self.heard(c, symbol - 1);
            let later = k + 1 < self.protocol.sync_length() && self.heard(c, symbol + 1);
            (
                (if lower { here - self.level(c, symbol, tone - 1) } else { 0 }) + (if higher {
                    here - self.level(c, symbol, tone + 1)
                } else {
                    0
                }) + (if earlier { here - self.level(c, symbol - 1, tone) } else { 0 }) + (
                if later { here - self.level(c, symbol + 1, tone) } else { 0 }),
                (if lower { 1int } else { 0 }) + (if higher { 1int } else { 0 }) + (if earlier {
                    1int
                } else {
                    0
                }) + (if later { 1int } else { 0 }),
            )
        } else {
            (0, 0)
        }
    }

    /// The sum over the first `n` sync symbols.
    pub open spec fn sync_sum(self, c: Candidate, n: nat) -> (int, int)
        decreases n,
    {
        if n == 0 {
            (0, 0)
        } else {
            let (sum, count) = self.sync_sum(c, (n - 1) as nat);
            let length = self.protocol.sync_length();
            let (gain, more) = self.sync_gain(c, (n - 1) / length, (n - 1) % length);
            (sum + gain, count + more)
        }
    }

    /// The sync score of a candidate: the mean by which its sync symbols stand out
    /// from their neighbours, rounded toward zero.
    pub open spec fn sync_score(self, c: Candidate) -> int {
        let n = (self.protocol.sync_groups() * self.protocol.sync_length()) as nat;
        let (sum, count) = self.sync_sum(c, n);
        if count > 0 { quotient(sum, count) } else { 0 }
    }

    /// Cells per block.
    pub fn block_stride(&self) -> (r: usize)
        requires
            self.stride_fits(),
        ensures
            r == self.stride(),
    {
        self.time_osr * self.freq_osr * self.num_bins
    }

    /// Was symbol `k` of a candidate recorded?
    pub(crate) fn is_heard(&self, c: &Candidate, k: usize) -> (r: bool)
        requires
            k < 0x1000,
        ensures
            r == self.heard(*c, k as int),
    {
        let block: i32 = c.time_offset as i32 + k as i32;
        block >= 0 && (block as usize) < self.num_blocks
    }

    /// The cell of tone 0 in a recorded symbol of a candidate, or, where that is
    /// well past all cells, another that is.
    #[verifier::spinoff_prover]
    pub(crate) fn origin(&self, c: &Candidate, k: usize) -> (r: i128)
        requires
            self.stride_fits(),
            k < 0x1000,
            self.heard(*c, k as int),
        ensures
            r == self.start(*c, k as int) || (r > self.mag@.len() + 0x100 && self.start(
                *c,
                k as int,
            ) > self.mag@.len() + 0x100),
            -0x8000 <= r <= 0x10_0000_0000_0000_0000_0000,
            self.mag@.len() <= usize::MAX,
    {
        let block: u128 = (c.time_offset as i32 + k as i32) as u128;
        let stride: u128 = self.block_stride() as u128;
        let bins: u128 = self.num_bins as u128;
        let cells: usize = self.mag.len();
        proof {
            lemma_small_product(block as int, stride as int);
            lemma_small_product(c.time_sub as int, self.freq_osr as int);
        }
        let row: u128 = c.time_sub as u128 * self.freq_osr as u128 + c.freq_sub as u128;
        proof {
            lemma_row_limit(row as int, bins as int, self.mag@.len() as int);
        }
        if self.num_bins > 0 && row > (cells / self.num_bins) as u128 + 0x9000 {
            return cells as i128 + 0x200;
        }
        (block * stride + row * bins) as i128 + c.freq_offset as i128
    }

    /// The magnitude in a cell, if it is there.
    pub(crate) fn at(&self, cell: i128) -> (r: Option<u8>)
        ensures
            r matches Some(v) ==> 0 <= cell < self.mag@.len() && v == self.mag@[cell as int],
            r is None ==> !(0 <= cell < self.mag@.len()),
    {
        if cell >= 0 && cell < self.mag.len() as i128 {
            Some(self.mag[cell as usize])
        } else {
            None
        }
    }

    /// Are the cells of every tone of symbol `k` there, if it was recorded?
    pub(crate) fn can_read(&self, c: &Candidate, k: usize) -> (r: bool)
        requires
            self.stride_fits(),
            k < 0x1000,
        ensures
            r == self.reads(*c, k as int),
    {
        if self.is_heard(c, k) {
            let p: i128 = self.origin(c, k);
            p >= 0 && p + self.protocol.num_tones() as i128 <= self.mag.len() as i128
        } else {
            true
        }
    }

    /// The cell of tone 0 in a recorded symbol of a candidate.
    pub(crate) fn cell(&self, c: &Candidate, k: usize) -> (r: usize)
        requires
            self.stride_fits(),
            k < 0x1000,
            self.heard(*c, k as int),
            self.reads(*c, k as int),
        ensures
            r == self.start(*c, k as int),
            r + self.protocol.tones() <= self.mag@.len() <= usize::MAX,
    {
        self.origin(c, k) as usize
    }

    /// Can the cells of a block be counted?
    pub fn is_countable(&self) -> (r: bool)
        ensures
            r == self.stride_fits(),
    {
        let (t, f, b): (u128, u128, u128) = (
            self.time_osr as u128,
            self.freq_osr as u128,
            self.num_bins as u128,
        );
        proof {
            lemma_word_product(self.time_osr, self.freq_osr);
        }
        if t * f > usize::MAX as u128 {
            return false;
        }
        proof {
            lemma_word_product((t * f) as usize, self.num_bins);
        }
        t * f * b <= usize::MAX as u128
    }

    /// Can every recorded symbol of a candidate be read?
    pub fn is_readable(&self, c: &Candidate) -> (r: bool)
        ensures
            r == self.readable(*c),
            r ==> self.sync_readable(*c) && self.data_readable(*c),
    {
        if !self.is_countable() {
            return false;
        }
        let symbols: usize = self.protocol.num_symbols();
        let mut k: usize = 0;
        while k < symbols
            invariant
                symbols == self.protocol.symbols(),
                k <= symbols,
                self.stride_fits(),
                forall|j: int| 0 <= j < k ==> #[trigger] self.reads(*c, j),
            decreases symbols - k,
        {
            if !self.can_read(c, k) {
                assert(!self.reads(*c, k as int));
                return false;
            }
            k += 1;
        }
        proof {
            lemma_readable_is_enough(*self, *c);
        }
        true
    }
}

/// A word times a number of 16 bits stays small.
proof fn lemma_small_product(a: int, b: int)
    requires
        0 <= a <= 0x10000,
        0 <= b <= 0xFFFF_FFFF_FFFF_FFFF,
    ensures
        0 <= a * b <= 0x10000 * 0xFFFF_FFFF_FFFF_FFFF,
{
    assert(0 <= a * b <= 0x10000 * 0xFFFF_FFFF_FFFF_FFFFint) by (nonlinear_arith)
        requires
            0 <= a <= 0x10000,
            0 <= b <= 0xFFFF_FFFF_FFFF_FFFF,
    ;
}

/// Rows of cells are past all cells when their number is well past the quotient.
proof fn lemma_row_limit(row: int, bins: int, cells: int)
    requires
        0 <= row,
        0 <= bins,
        0 <= cells,
    ensures
        0 <= row * bins,
        bins == 0 ==> row * bins == 0,
        bins > 0 && row > cells / bins + 0x9000 ==> row * bins > cells + 0x9000,
        bins > 0 && row <= cells / bins + 0x9000 ==> row * bins <= cells + 0x9000 * bins,
{
    assert(0 <= row * bins) by (nonlinear_arith)
        requires
            0 <= row,
            0 <= bins,
    ;
    if bins > 0 {
        let q = cells / bins;
        vstd::arithmetic::div_mod::lemma_fundamental_div_mod(cells, bins);
        vstd::arithmetic::div_mod::lemma_mod_bound(cells, bins);
        assert(row > q + 0x9000 ==> row * bins >= bins * q + bins + 0x9000 * bins)
            by (nonlinear_arith)
            requires
                bins > 0,
        ;
        assert(row <= q + 0x9000 ==> row * bins <= bins * q + 0x9000 * bins) by (nonlinear_arith)
            requires
                bins > 0,
        ;
    }
}

/// The product of two words fits two words.
proof fn lemma_word_product(a: usize, b: usize)
    ensures
        0 <= a * b <= 0xFFFF_FFFF_FFFF_FFFE_0000_0000_0000_0001,
{
    assert(0 <= a * b <= 0xFFFF_FFFF_FFFF_FFFFint * 0xFFFF_FFFF_FFFF_FFFF) by (nonlinear_arith)
        requires
            0 <= a <= 0xFFFF_FFFF_FFFF_FFFF,
            0 <= b <= 0xFFFF_FFFF_FFFF_FFFF,
    ;
}

/// In a complete spectrogram a candidate can be read if its subdivisions and its
/// tones are all within a block.
pub proof fn lemma_complete_is_readable(wf: Waterfall, c: Candidate)
    requires
        wf.complete(),
        c.time_sub < wf.time_osr,
        c.freq_sub < wf.freq_osr,
        0 <= c.freq_offset,
        c.freq_offset + wf.protocol.tones() <= wf.num_bins,
    ensures
        wf.readable(c),
{
    let (t, f, b) = (wf.time_osr as int, wf.freq_osr as int, wf.num_bins as int);
    let (ts, fs, stride) = (c.time_sub as int, c.freq_sub as int, wf.stride());
    let row = ts * f + fs;
    assert(0 <= row && row + 1 <= t * f) by (nonlinear_arith)
        requires
            row == ts * f + fs,
            0 <= ts < t,
            0 <= fs < f,
    ;
    assert(0 <= row * b && row * b + b <= (t * f) * b) by (nonlinear_arith)
        requires
            0 <= row,
            row + 1 <= t * f,
            0 <= b,
    ;
    assert forall|k: int| 0 <= k < wf.protocol.symbols() implies #[trigger] wf.reads(c, k) by {
        if wf.heard(c, k) {
            let block = c.time_offset + k;
            assert(0 <= block * stride && block * stride + stride <= wf.num_blocks * stride)
                by (nonlinear_arith)
                requires
                    0 <= block,
                    block + 1 <= wf.num_blocks,
                    0 <= stride,
            ;
        }
    }
}

/// Where every recorded symbol can be read, the sync symbols and the data symbols
/// can.
pub proof fn lemma_readable_is_enough(wf: Waterfall, c: Candidate)
    requires
        wf.readable(c),
    ensures
        wf.sync_readable(c),
        wf.data_readable(c),
{
    let p = wf.protocol;
    assert forall|m: int, k: int|
        0 <= m < p.sync_groups() && 0 <= k < p.sync_length() implies #[trigger] wf.sync_reads(
        c,
        m,
        k,
    ) by {
        let symbol = p.sync_symbol(m, k);
        assert(0 <= symbol < p.symbols());
        assert(0 <= p.sync_tone(m, k) < p.tones());
        assert(wf.reads(c, symbol));
        assert(k > 0 ==> wf.reads(c, symbol - 1));
        assert(k + 1 < p.sync_length() ==> wf.reads(c, symbol + 1));
    }
}

/// The cell of tone 0 in symbol `k` of a candidate is where the layout
/// `[block][time_sub][freq_sub][bin]` has it.
pub proof fn law_layout(wf: Waterfall, c: Candidate, k: int)
    ensures
        wf.start(c, k) == (((c.time_offset + k) * wf.time_osr + c.time_sub) * wf.freq_osr
            + c.freq_sub) * wf.num_bins + c.freq_offset,
{
    let (t, f, b) = (wf.time_osr as int, wf.freq_osr as int, wf.num_bins as int);
    let (block, ts, fs) = (c.time_offset + k, c.time_sub as int, c.freq_sub as int);
    assert(((block * t + ts) * f + fs) * b == block * (t * f * b) + (ts * f + fs) * b)
        by (nonlinear_arith);
}

/// The symbol and the tone of number `k` of sync group `m`.
fn sync_place(protocol: Protocol, m: usize, k: usize) -> (r: (usize, usize))
    requires
        m < protocol.sync_groups(),
        k < protocol.sync_length(),
    ensures
        r.0 == protocol.sync_symbol(m as int, k as int),
        r.1 == protocol.sync_tone(m as int, k as int),
        r.0 + protocol.sync_length() - k <= protocol.symbols(),
        k <= r.0,
        r.1 < protocol.tones(),
{
    match protocol {
        Protocol::Ft8 => (FT8_SYNC_OFFSET * m + k, FT8_COSTAS_PATTERN[k] as usize),
        Protocol::Ft4 => (1 + FT4_SYNC_OFFSET * m + k, FT4_COSTAS_PATTERN[m][k] as usize),
    }
}

/// The magnitude in a cell.
fn cell_level(wf: &Waterfall, cell: i128) -> (r: i32)
    requires
        0 <= cell < wf.mag@.len(),
    ensures
        r == wf.mag@[cell as int],
{
    wf.mag[cell as usize] as i32
}

/// One sync symbol against its neighbours: each of at most four comparisons is
/// of bytes.
#[verifier::spinoff_prover]
fn sync_symbol_gain(wf: &Waterfall, c: &Candidate, m: usize, k: usize) -> (r: (i32, i32))
    requires
        wf.sync_readable(*c),
        m < wf.protocol.sync_groups(),
        k < wf.protocol.sync_length(),
    ensures
        (r.0 as int, r.1 as int) == wf.sync_gain(*c, m as int, k as int),
        0 <= r.1 <= 4,
        -255 * r.1 <= r.0 <= 255 * r.1,
{
    let (symbol, tone): (usize, usize) = sync_place(wf.protocol, m, k);
    let length: usize = match wf.protocol {
        Protocol::Ft8 => FT8_LENGTH_SYNC,
        Protocol::Ft4 => FT4_LENGTH_SYNC,
    };
    if !wf.is_heard(c, symbol) {
        return (0, 0);
    }
    assert(wf.sync_reads(*c, m as int, k as int));
    let p: i128 = wf.origin(c, symbol) + tone as i128;
    let here: i32 = cell_level(wf, p);
    let mut gain: i32 = 0;
    let mut count: i32 = 0;
    if tone > 0 {
        gain += here - cell_level(wf, p - 1);
        count += 1;
    }
    if tone < wf.protocol.num_tones() - 1 {
        gain += here - cell_level(wf, p + 1);
        count += 1;
    }
    if k > 0 && wf.is_heard(c, symbol - 1) {
        gain += here - cell_level(wf, wf.origin(c, symbol - 1) + tone as i128);
        count += 1;
    }
    if k + 1 < length && wf.is_heard(c, symbol + 1) {
        gain += here - cell_level(wf, wf.origin(c, symbol + 1) + tone as i128);
        count += 1;
    }
    (gain, count)
}

/// Sync score: how much the expected Costas tone stands out from its immediate
/// neighbours in frequency and time.
///
/// Comparing only neighbours is what makes the score robust to a sloping noise
/// floor, which is the normal state of an HF band.
#[verifier::spinoff_prover]
pub fn sync_score(wf: &Waterfall, c: &Candidate) -> (r: i32)
    requires
        wf.sync_readable(*c),
    ensures
        r == wf.sync_score(*c),
        -255 <= r <= 255,
{
    let (groups, length): (usize, usize) = match wf.protocol {
        Protocol::Ft8 => (FT8_NUM_SYNC, FT8_LENGTH_SYNC),
        Protocol::Ft4 => (FT4_NUM_SYNC, FT4_LENGTH_SYNC),
    };
    let total: usize = groups * length;
    let mut score: i32 = 0;
    let mut num_average: i32 = 0;
    let mut n: usize = 0;
    while n < total
        invariant
            wf.sync_readable(*c),
            groups == wf.protocol.sync_groups(),
            length == wf.protocol.sync_length(),
            total == groups * length,
            n <= total <= 21,
            (score as int, num_average as int) == wf.sync_sum(*c, n as nat),
            0 <= num_average <= 4 * n,
            -255 * num_average <= score <= 255 * num_average,
        decreases total - n,
    {
        assert(n / length < groups) by (nonlinear_arith)
            requires
                n < groups * length,
                length > 0,
        ;
        let (gain, more): (i32, i32) = sync_symbol_gain(wf, c, n / length, n % length);
        score += gain;
        num_average += more;
        n += 1;
    }
    if num_average > 0 {
        let ghost (sum, count) = (score as int, num_average as int);
        proof {
            assert(score >= 0 ==> 0 <= sum / count <= 255) by (nonlinear_arith)
                requires
                    count > 0,
                    score as int == sum,
                    sum <= 255 * count,
            ;
            assert(score < 0 ==> 0 <= (-sum) / count <= 255) by (nonlinear_arith)
                requires
                    count > 0,
                    score as int == sum,
                    -sum <= 255 * count,
            ;
        }
        if score >= 0 {
            (score as u32 / num_average as u32) as i32
        } else {
            -(((-score) as u32 / num_average as u32) as i32)
        }
    } else {
        0
    }
}

/// What every sync symbol stands out by, their sum does.
proof fn lemma_sums_stand_out(wf: Waterfall, c: Candidate, h: int, n: nat)
    requires
        n <= wf.protocol.sync_groups() * wf.protocol.sync_length(),
        forall|m: int, k: int|
            0 <= m < wf.protocol.sync_groups() && 0 <= k < wf.protocol.sync_length() ==> (
            #[trigger] wf.sync_gain(c, m, k)).0 >= h * wf.sync_gain(c, m, k).1,
    ensures
        wf.sync_sum(c, n).0 >= h * wf.sync_sum(c, n).1,
    decreases n,
{
    if n > 0 {
        lemma_sums_stand_out(wf, c, h, (n - 1) as nat);
        let length = wf.protocol.sync_length();
        let (m, k) = ((n - 1) / length, (n - 1) % length);
        assert(m < wf.protocol.sync_groups()) by (nonlinear_arith)
            requires
                m == (n - 1) / length,
                n <= wf.protocol.sync_groups() * length,
                length > 0,
        ;
        let (a, b) = (wf.sync_sum(c, (n - 1) as nat).1, wf.sync_gain(c, m, k).1);
        assert(h * (a + b) == h * a + h * b) by (nonlinear_arith);
    } else {
        assert(h * 0 == 0) by (nonlinear_arith);
    }
}

/// A signal scores at least what its sync symbols stand out by: where each is
/// louder than its neighbours by `h` on average, and one was recorded that has a
/// neighbour, the score is no lower.
pub proof fn law_score_is_what_stands_out(wf: Waterfall, c: Candidate, h: int)
    requires
        h >= 0,
        forall|m: int, k: int|
            0 <= m < wf.protocol.sync_groups() && 0 <= k < wf.protocol.sync_length() ==> (
            #[trigger] wf.sync_gain(c, m, k)).0 >= h * wf.sync_gain(c, m, k).1,
        wf.sync_sum(
            c,
            (wf.protocol.sync_groups() * wf.protocol.sync_length()) as nat,
        ).1 > 0,
    ensures
        wf.sync_score(c) >= h,
{
    let n = (wf.protocol.sync_groups() * wf.protocol.sync_length()) as nat;
    lemma_sums_stand_out(wf, c, h, n);
    let (sum, count) = wf.sync_sum(c, n);
    assert(sum >= 0 && sum / count >= h) by (nonlinear_arith)
        requires
            sum >= h * count,
            count > 0,
            h >= 0,
    ;
}

/// What every level is raised by, no sum of differences shows.
proof fn lemma_raised_sums(a: Waterfall, b: Waterfall, c: Candidate, d: int, n: nat)
    requires
        a.same_shape(b),
        a.sync_readable(c),
        forall|i: int| 0 <= i < a.mag@.len() ==> #[trigger] b.mag@[i] == a.mag@[i] + d,
        n <= a.protocol.sync_groups() * a.protocol.sync_length(),
    ensures
        a.sync_sum(c, n) == b.sync_sum(c, n),
    decreases n,
{
    if n > 0 {
        lemma_raised_sums(a, b, c, d, (n - 1) as nat);
        let length = a.protocol.sync_length();
        let (m, k) = ((n - 1) / length, (n - 1) % length);
        assert(0 <= m < a.protocol.sync_groups()) by (nonlinear_arith)
            requires
                m == (n - 1) / length,
                0 < n <= a.protocol.sync_groups() * length,
                length > 0,
        ;
        assert(a.sync_reads(c, m, k));
        let symbol = a.protocol.sync_symbol(m, k);
        assert(a.start(c, symbol) == b.start(c, symbol));
        assert(a.start(c, symbol - 1) == b.start(c, symbol - 1));
        assert(a.start(c, symbol + 1) == b.start(c, symbol + 1));
        assert(a.sync_gain(c, m, k) == b.sync_gain(c, m, k));
    }
}

/// Are the levels of a spectrogram all from `low` to `high`?
pub open spec fn levels_within(wf: Waterfall, low: int, high: int) -> bool {
    forall|i: int| 0 <= i < wf.mag@.len() ==> low <= #[trigger] wf.mag@[i] <= high
}

/// Each sync symbol stands out by no more than the levels differ, and so do their
/// sums.
proof fn lemma_sums_are_bounded(wf: Waterfall, c: Candidate, low: int, high: int, n: nat)
    requires
        wf.sync_readable(c),
        levels_within(wf, low, high),
        low <= high,
        n <= wf.protocol.sync_groups() * wf.protocol.sync_length(),
    ensures
        0 <= wf.sync_sum(c, n).1,
        -((high - low) * wf.sync_sum(c, n).1) <= wf.sync_sum(c, n).0 <= (high - low) * wf.sync_sum(
            c,
            n,
        ).1,
    decreases n,
{
    let h = high - low;
    if n > 0 {
        lemma_sums_are_bounded(wf, c, low, high, (n - 1) as nat);
        let length = wf.protocol.sync_length();
        let (m, k) = ((n - 1) / length, (n - 1) % length);
        assert(0 <= m < wf.protocol.sync_groups()) by (nonlinear_arith)
            requires
                m == (n - 1) / length,
                0 < n <= wf.protocol.sync_groups() * length,
                length > 0,
        ;
        assert(wf.sync_reads(c, m, k));
        let (gain, more) = wf.sync_gain(c, m, k);
        let count = wf.sync_sum(c, (n - 1) as nat).1;
        assert(h * 0 == 0 && h * 1 == h && h * 2 == h + h && h * 3 == h + h + h && h * 4 == h + h + h
            + h) by (nonlinear_arith);
        assert(0 <= more <= 4 && -(h * more) <= gain <= h * more);
        assert(h * (count + more) == h * count + h * more) by (nonlinear_arith);
    } else {
        assert(h * 0 == 0) by (nonlinear_arith);
    }
}

/// No score is above what the levels of a spectrogram differ by.
pub proof fn law_score_is_within_the_levels(wf: Waterfall, c: Candidate, low: int, high: int)
    requires
        wf.sync_readable(c),
        levels_within(wf, low, high),
        low <= high,
    ensures
        -(high - low) <= wf.sync_score(c) <= high - low,
{
    let h = high - low;
    let n = (wf.protocol.sync_groups() * wf.protocol.sync_length()) as nat;
    lemma_sums_are_bounded(wf, c, low, high, n);
    let (sum, count) = wf.sync_sum(c, n);
    if count > 0 {
        assert(sum >= 0 ==> 0 <= sum / count <= h) by (nonlinear_arith)
            requires
                count > 0,
                sum <= h * count,
        ;
        assert(sum < 0 ==> 0 <= (-sum) / count <= h) by (nonlinear_arith)
            requires
                count > 0,
                -sum <= h * count,
        ;
    }
}

/// The score does not depend on the noise floor: raised by the same everywhere, a
/// spectrogram gives a candidate the same score.
pub proof fn law_raised_floor_keeps_the_score(a: Waterfall, b: Waterfall, c: Candidate, d: int)
    requires
        a.same_shape(b),
        a.sync_readable(c),
        forall|i: int| 0 <= i < a.mag@.len() ==> #[trigger] b.mag@[i] == a.mag@[i] + d,
    ensures
        a.sync_score(c) == b.sync_score(c),
{
    lemma_raised_sums(
        a,
        b,
        c,
        d,
        (a.protocol.sync_groups() * a.protocol.sync_length()) as nat,
    );
}

} // verus!
