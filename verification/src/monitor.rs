//! The spectrogram of a slot as it is collected, and the messages found in it.
//!
//! **Feed this incrementally.** [`Monitor::process`] takes the levels of one
//! symbol, so the cost of the analysis is spread across the slot instead of
//! landing as one stall at the end.

use vstd::prelude::*;
use crate::constants::LDPC_N;
use crate::decode::{Candidate, Protocol, Waterfall};
use crate::listing;
use crate::listing::list_decodes;

pub use crate::listing::Decode;

verus! {

/// How to lay out the spectrogram.
#[derive(Clone, Copy, Debug)]
pub struct MonitorConfig {
    /// Samples per symbol.
    pub block_size: usize,
    /// Lowest bin to look at.
    pub min_bin: usize,
    /// The bin past the highest to look at.
    pub max_bin: usize,
    /// Symbols in a slot.
    pub max_blocks: usize,
    pub protocol: Protocol,
    /// Time subdivisions per symbol. 2 is the usual choice.
    pub time_osr: usize,
    /// Frequency subdivisions per tone spacing. 2 is the usual choice.
    pub freq_osr: usize,
}

impl Default for MonitorConfig {
    /// The standard setup: FT8 in 12 kHz audio, the 200 to 3000 Hz slice that it
    /// lives in, and twofold oversampling on both axes.
    fn default() -> (r: Self)
        ensures
            r.block_size == 1920,
            r.min_bin == 32,
            r.max_bin == 481,
            r.max_blocks == 93,
            r.protocol is Ft8,
            r.time_osr == 2,
            r.freq_osr == 2,
            r.valid(),
    {
        MonitorConfig {
            block_size: 1920,
            min_bin: 32,
            max_bin: 481,
            max_blocks: 93,
            protocol: Protocol::Ft8,
            time_osr: 2,
            freq_osr: 2,
        }
    }
}

impl MonitorConfig {
    /// Cells per block.
    pub open spec fn stride(self) -> int {
        self.time_osr * self.freq_osr * (self.max_bin - self.min_bin)
    }

    /// Can the spectrogram be laid out?
    pub open spec fn valid(self) -> bool {
        &&& self.time_osr > 0
        &&& self.min_bin <= self.max_bin
        &&& self.block_size * self.freq_osr <= usize::MAX
        &&& self.time_osr * self.freq_osr <= usize::MAX
        &&& self.stride() <= usize::MAX
        &&& self.max_blocks * self.time_osr <= usize::MAX
        &&& self.max_blocks * self.time_osr * self.freq_osr <= usize::MAX
        &&& self.max_blocks * self.stride() <= usize::MAX
    }

    /// Can the spectrogram be laid out?
    pub fn is_valid(&self) -> (r: bool)
        ensures
            r == self.valid(),
    {
        if self.time_osr == 0 || self.min_bin > self.max_bin || self.block_size.checked_mul(
            self.freq_osr,
        ).is_none() {
            return false;
        }
        let stride: usize = match self.time_osr.checked_mul(self.freq_osr) {
            Some(rows) => match rows.checked_mul(self.max_bin - self.min_bin) {
                Some(stride) => stride,
                None => {
                    return false;
                },
            },
            None => {
                return false;
            },
        };
        let times: usize = match self.max_blocks.checked_mul(self.time_osr) {
            Some(times) => times,
            None => {
                return false;
            },
        };
        times.checked_mul(self.freq_osr).is_some() && self.max_blocks.checked_mul(stride).is_some()
    }

    /// Points of a Fourier transform: it spans `freq_osr` symbols.
    pub open spec fn nfft(self) -> int {
        self.block_size * self.freq_osr
    }

    /// Where the level of cell `o` of a block is among the levels of its
    /// transforms, one after the other. Point `bin * freq_osr + freq_sub` of the
    /// transform for a time subdivision is what that bin and subdivision hold.
    pub open spec fn source(self, o: int) -> int {
        let num_bins = self.max_bin - self.min_bin;
        let (row, bin) = (o / num_bins, self.min_bin + o % num_bins);
        (row / (self.freq_osr as int)) * self.nfft() + bin * self.freq_osr + row % (
        self.freq_osr as int)
    }
}

/// A level as it is stored: 0 to 240 spans -120 to 0 dB in half-dB steps.
pub open spec fn stored_level(level: int) -> u8 {
    if level < 0 { 0 } else if level > 255 { 255 } else { level as u8 }
}

/// Accumulates a spectrogram, then finds what is in it.
#[derive(Debug)]
pub struct Monitor {
    cfg: MonitorConfig,
    num_blocks: usize,
    mag: Vec<u8>,
}

impl Monitor {
    /// All blocks have room, and no more are stored than have.
    #[verifier::type_invariant]
    pub closed spec fn wf(self) -> bool {
        &&& self.cfg.valid()
        &&& self.num_blocks <= self.cfg.max_blocks
        &&& self.mag@.len() == self.cfg.max_blocks * self.cfg.stride()
    }

    /// The layout.
    pub closed spec fn config(self) -> MonitorConfig {
        self.cfg
    }

    /// Symbols stored so far.
    pub closed spec fn blocks(self) -> nat {
        self.num_blocks as nat
    }

    /// The cells of all blocks of the slot, stored or not.
    pub closed spec fn cells(self) -> Seq<u8> {
        self.mag@
    }

    /// Is `next` where the levels of a symbol lead? Of a frame of the wrong length, and
    /// of one past a full slot, nothing is stored. Any other is the next block.
    pub open spec fn leads_to(self, frame_len: int, levels: Seq<i32>, next: Self) -> bool {
        let cfg = self.config();
        let at = self.blocks() * cfg.stride();
        &&& next.config() == cfg
        &&& if self.blocks() == cfg.max_blocks || frame_len != cfg.block_size {
            &&& next.blocks() == self.blocks()
            &&& next.cells() == self.cells()
        } else {
            &&& next.blocks() == self.blocks() + 1
            &&& next.cells().len() == self.cells().len()
            &&& at + cfg.stride() <= self.cells().len()
            &&& forall|i: int|
                #![trigger next.cells()[i]]
                0 <= i < self.cells().len() ==> next.cells()[i] == if at <= i < at + cfg.stride() {
                    stored_level(levels[cfg.source(i - at)] as int)
                } else {
                    self.cells()[i]
                }
        }
    }

    /// An empty spectrogram.
    pub fn new(cfg: MonitorConfig) -> (r: Self)
        requires
            cfg.valid(),
        ensures
            r.config() == cfg,
            r.blocks() == 0,
            r.cells() == Seq::new((cfg.max_blocks * cfg.stride()) as nat, |i: int| 0u8),
    {
        let stride: usize = cfg.time_osr * cfg.freq_osr * (cfg.max_bin - cfg.min_bin);
        let cells: usize = cfg.max_blocks * stride;
        let mag: Vec<u8> = vec![0; cells];
        let r = Monitor { cfg, num_blocks: 0, mag };
        assert(r.cells() =~= Seq::new((cfg.max_blocks * cfg.stride()) as nat, |i: int| 0u8));
        r
    }

    /// Samples expected per symbol.
    pub fn block_size(&self) -> (r: usize)
        ensures
            r == self.config().block_size,
    {
        self.cfg.block_size
    }

    /// Symbols stored so far.
    pub fn num_blocks(&self) -> (r: usize)
        ensures
            r == self.blocks(),
            r <= self.config().max_blocks,
    {
        proof {
            use_type_invariant(self);
        }
        self.num_blocks
    }

    /// True once a full slot has been collected; further `process` calls are
    /// ignored.
    pub fn is_full(&self) -> (r: bool)
        ensures
            r == (self.blocks() == self.config().max_blocks),
    {
        proof {
            use_type_invariant(self);
        }
        self.num_blocks >= self.cfg.max_blocks
    }

    /// Start a new slot.
    pub fn reset(&mut self)
        ensures
            final(self).blocks() == 0,
            final(self).config() == old(self).config(),
            final(self).cells() == old(self).cells(),
    {
        proof {
            use_type_invariant(&*self);
        }
        self.num_blocks = 0;
    }

    /// Borrow the spectrogram accumulated so far.
    pub fn waterfall(&self) -> (r: Waterfall<'_>)
        ensures
            r.mag@ == self.cells(),
            r.num_blocks == self.blocks(),
            r.num_bins == self.config().max_bin - self.config().min_bin,
            r.time_osr == self.config().time_osr,
            r.freq_osr == self.config().freq_osr,
            r.protocol == self.config().protocol,
            r.complete(),
    {
        proof {
            use_type_invariant(self);
            let stride = self.cfg.stride();
            assert(self.num_blocks * stride <= self.cfg.max_blocks * stride) by (nonlinear_arith)
                requires
                    self.num_blocks <= self.cfg.max_blocks,
                    0 <= stride,
            ;
        }
        Waterfall {
            mag: self.mag.as_slice(),
            num_blocks: self.num_blocks,
            num_bins: self.cfg.max_bin - self.cfg.min_bin,
            time_osr: self.cfg.time_osr,
            freq_osr: self.cfg.freq_osr,
            protocol: self.cfg.protocol,
        }
    }

    /// Store one symbol: the levels of its transforms, one after the other.
    /// `frame_len` is how many samples they were made from. Anything but
    /// [`block_size`](Self::block_size) samples is ignored, since a short frame
    /// would silently shift every subsequent symbol; and so is a symbol past a
    /// full slot.
    #[verifier::spinoff_prover]
    pub fn process(&mut self, frame_len: usize, levels: &[i32])
        requires
            old(self).blocks() < old(self).config().max_blocks && frame_len
                == old(self).config().block_size && old(self).config().stride() > 0 ==> old(
                self,
            ).config().time_osr * old(self).config().nfft() <= levels@.len() && old(
                self,
            ).config().max_bin <= old(self).config().block_size,
        ensures
            old(self).leads_to(frame_len as int, levels@, *final(self)),
    {
        proof {
            use_type_invariant(&*self);
        }
        if self.num_blocks >= self.cfg.max_blocks || frame_len != self.cfg.block_size {
            return;
        }
        let cfg: MonitorConfig = self.cfg;
        let bins: usize = cfg.max_bin - cfg.min_bin;
        let stride: usize = cfg.time_osr * cfg.freq_osr * bins;
        proof {
            lemma_block_fits(self.num_blocks as int, cfg.max_blocks as int, stride as int);
        }
        let at: usize = self.num_blocks * stride;
        let nfft: usize = cfg.block_size * cfg.freq_osr;
        let count: usize = levels.len();
        let ghost before = self.mag@;
        let mut o: usize = 0;
        while o < stride
            invariant
                cfg == self.cfg,
                cfg == old(self).config(),
                self.num_blocks == old(self).blocks() < cfg.max_blocks,
                cfg.valid(),
                bins == cfg.max_bin - cfg.min_bin,
                stride == cfg.stride(),
                at == self.num_blocks * stride,
                at + stride <= before.len(),
                before == old(self).cells(),
                before.len() == self.mag@.len() == cfg.max_blocks * stride <= usize::MAX,
                nfft == cfg.nfft(),
                stride > 0 ==> cfg.time_osr * nfft <= levels@.len() && cfg.max_bin
                    <= cfg.block_size,
                count == levels@.len(),
                o <= stride,
                forall|i: int|
                    #![trigger self.mag@[i]]
                    0 <= i < before.len() ==> self.mag@[i] == if at <= i < at + o {
                        stored_level(levels@[cfg.source(i - at)] as int)
                    } else {
                        before[i]
                    },
            decreases stride - o,
        {
            proof {
                lemma_source(cfg, o as int);
            }
            let row: usize = o / bins;
            let bin: usize = cfg.min_bin + o % bins;
            let source: usize = (row / cfg.freq_osr) * nfft + bin * cfg.freq_osr + row
                % cfg.freq_osr;
            let level: i32 = levels[source];
            let stored: u8 = if level < 0 {
                0
            } else if level > 255 {
                255
            } else {
                level as u8
            };
            self.mag[at + o] = stored;
            o += 1;
        }
        self.num_blocks = self.num_blocks + 1;
    }
}

impl Monitor {
    /// Every message in the slot, given the corrected codeword and the parity
    /// errors of each candidate that was found: each payload once, with the
    /// first of its candidates.
    pub fn decode_all(&self, found: &[Candidate], outcomes: &[([u8; LDPC_N], usize)]) -> (r: Vec<
        Decode,
    >)
        requires
            found@.len() == outcomes@.len(),
        ensures
            listing::is_list(
                r@,
                self.config().protocol,
                found@,
                outcomes@,
                listing::listed(
                    listing::payloads(self.config().protocol, outcomes@),
                    found@.len(),
                ),
            ),
    {
        list_decodes(self.cfg.protocol, found, outcomes)
    }
}

/// Slide a window along by one subblock of samples. A transform spans `freq_osr`
/// symbols, so consecutive windows overlap heavily, and that overlap is what
/// gives sub-symbol time resolution.
pub fn slide<T: Copy>(window: &mut [T], samples: &[T])
    requires
        samples@.len() <= old(window)@.len(),
    ensures
        final(window)@ == old(window)@.skip(samples@.len() as int) + samples@,
{
    let (n, len): (usize, usize) = (samples.len(), window.len());
    let mut i: usize = 0;
    while i < len - n
        invariant
            n == samples@.len(),
            n <= len == window@.len() == old(window)@.len(),
            i <= len - n,
            forall|j: int| 0 <= j < i ==> window@[j] == old(window)@[j + n],
            forall|j: int| i <= j < len ==> window@[j] == old(window)@[j],
        decreases len - n - i,
    {
        window[i] = window[i + n];
        i += 1;
    }
    let mut i: usize = 0;
    while i < n
        invariant
            n == samples@.len(),
            n <= len == window@.len() == old(window)@.len(),
            i <= n,
            forall|j: int| 0 <= j < len - n ==> window@[j] == old(window)@[j + n],
            forall|j: int| len - n <= j < len - n + i ==> window@[j] == samples@[j - (len - n)],
        decreases n - i,
    {
        window[len - n + i] = samples[i];
        i += 1;
    }
    assert(window@ =~= old(window)@.skip(n as int) + samples@);
}

/// A block that is not past the last has room.
proof fn lemma_block_fits(block: int, max_blocks: int, stride: int)
    requires
        0 <= block < max_blocks,
        0 <= stride,
    ensures
        0 <= block * stride,
        block * stride + stride <= max_blocks * stride,
{
    assert(0 <= block * stride && block * stride + stride <= max_blocks * stride)
        by (nonlinear_arith)
        requires
            0 <= block,
            block + 1 <= max_blocks,
            0 <= stride,
    ;
}

/// The level of a cell is among the levels of the transforms.
#[verifier::spinoff_prover]
proof fn lemma_source(cfg: MonitorConfig, o: int)
    requires
        cfg.valid(),
        cfg.max_bin <= cfg.block_size,
        0 <= o < cfg.stride(),
    ensures
        cfg.max_bin > cfg.min_bin,
        cfg.freq_osr > 0,
        ({
            let num_bins = cfg.max_bin - cfg.min_bin;
            let f = cfg.freq_osr as int;
            let (row, bin) = (o / num_bins, cfg.min_bin + o % num_bins);
            &&& 0 <= row
            &&& 0 <= row / f < cfg.time_osr
            &&& bin < cfg.max_bin
            &&& 0 <= bin * f
            &&& 0 <= (row / f) * cfg.nfft()
            &&& 0 <= row % f < f
        }),
        0 <= cfg.source(o) < cfg.time_osr * cfg.nfft(),
{
    let (t, f, b) = (cfg.time_osr as int, cfg.freq_osr as int, cfg.max_bin - cfg.min_bin);
    assert(t * f * b > 0 ==> f > 0 && b > 0) by (nonlinear_arith)
        requires
            t > 0,
            f >= 0,
            b >= 0,
    ;
    let row = o / b;
    vstd::arithmetic::div_mod::lemma_mod_bound(o, b);
    vstd::arithmetic::div_mod::lemma_fundamental_div_mod(o, b);
    assert(0 <= row < t * f) by (nonlinear_arith)
        requires
            o == b * row + o % b,
            0 <= o % b < b,
            0 <= o < t * f * b,
            b > 0,
    ;
    vstd::arithmetic::div_mod::lemma_mod_bound(row, f);
    vstd::arithmetic::div_mod::lemma_fundamental_div_mod(row, f);
    let (q, m) = (row / f, row % f);
    assert(0 <= q < t) by (nonlinear_arith)
        requires
            row == f * q + m,
            0 <= m < f,
            0 <= row < t * f,
            f > 0,
    ;
    let bin = cfg.min_bin + o % b;
    let n = cfg.nfft();
    assert(bin * f + f <= n) by (nonlinear_arith)
        requires
            bin + 1 <= cfg.block_size,
            f > 0,
            n == cfg.block_size * f,
    ;
    assert(0 <= bin * f) by (nonlinear_arith)
        requires
            0 <= bin,
            0 < f,
    ;
    assert(0 <= q * n && q * n + n <= t * n) by (nonlinear_arith)
        requires
            0 <= q,
            q + 1 <= t,
            0 <= n,
    ;
}

/// The level of a bin of a block, at a subdivision of time and of frequency, is that
/// of the transform for that part of the symbol, at the point that many subdivisions
/// above the bin: kept within a byte.
#[verifier::spinoff_prover]
pub proof fn law_cells_hold_the_transforms(
    cfg: MonitorConfig,
    time_sub: int,
    freq_sub: int,
    bin: int,
    level: int,
)
    requires
        cfg.valid(),
        0 <= time_sub < cfg.time_osr,
        0 <= freq_sub < cfg.freq_osr,
        0 <= bin < cfg.max_bin - cfg.min_bin,
    ensures
        ({
            let bins = cfg.max_bin - cfg.min_bin;
            let cell = (time_sub * cfg.freq_osr + freq_sub) * bins + bin;
            &&& 0 <= cell < cfg.stride()
            &&& cfg.stride() == cfg.time_osr * cfg.freq_osr * bins
            &&& cfg.source(cell) == time_sub * (cfg.block_size * cfg.freq_osr) + (cfg.min_bin + bin)
                * cfg.freq_osr + freq_sub
        }),
        0 <= level <= 255 ==> stored_level(level) == level,
        level < 0 ==> stored_level(level) == 0,
        level > 255 ==> stored_level(level) == 255,
{
    let (t, f, bins) = (cfg.time_osr as int, cfg.freq_osr as int, cfg.max_bin - cfg.min_bin);
    let row = time_sub * f + freq_sub;
    let cell = row * bins + bin;
    vstd::arithmetic::div_mod::lemma_fundamental_div_mod_converse(cell, bins, row, bin);
    vstd::arithmetic::div_mod::lemma_fundamental_div_mod_converse(row, f, time_sub, freq_sub);
    assert(0 <= row && row + 1 <= t * f) by (nonlinear_arith)
        requires
            row == time_sub * f + freq_sub,
            0 <= time_sub < t,
            0 <= freq_sub < f,
    ;
    assert(0 <= row * bins && row * bins + bins <= (t * f) * bins) by (nonlinear_arith)
        requires
            0 <= row,
            row + 1 <= t * f,
            0 <= bins,
    ;
}

/// Symbol after symbol is stored: one of the right length, while there is room, is the
/// next block, each cell of which holds the level of its transform, kept within a
/// byte; the blocks before it stay as they were, and so does all of the slot where the
/// frame was short or the slot full.
#[verifier::spinoff_prover]
pub proof fn law_symbols_are_stored(
    before: Monitor,
    after: Monitor,
    frame_len: int,
    levels: Seq<i32>,
    block: int,
    time_sub: int,
    freq_sub: int,
    bin: int,
)
    requires
        before.leads_to(frame_len, levels, after),
        before.config().valid(),
        0 <= block,
        0 <= time_sub < before.config().time_osr,
        0 <= freq_sub < before.config().freq_osr,
        0 <= bin < before.config().max_bin - before.config().min_bin,
    ensures
        ({
            let cfg = before.config();
            let bins = cfg.max_bin - cfg.min_bin;
            let cell = ((block * cfg.time_osr + time_sub) * cfg.freq_osr + freq_sub) * bins + bin;
            let taken = before.blocks() != cfg.max_blocks && frame_len == cfg.block_size;
            let level = levels[time_sub * (cfg.block_size * cfg.freq_osr) + (cfg.min_bin + bin)
                * cfg.freq_osr + freq_sub] as int;
            &&& after.config() == cfg
            &&& after.blocks() == before.blocks() + if taken { 1int } else { 0 }
            &&& after.cells().len() == before.cells().len()
            &&& !taken ==> after.cells() == before.cells()
            &&& taken && block == before.blocks() ==> after.cells()[cell] == if level < 0 {
                0
            } else if level > 255 {
                255
            } else {
                level
            }
            &&& taken && block < before.blocks() ==> after.cells()[cell] == before.cells()[cell]
        }),
{
    let cfg = before.config();
    let (t, f, bins) = (cfg.time_osr as int, cfg.freq_osr as int, cfg.max_bin - cfg.min_bin);
    let stride = cfg.stride();
    let o = (time_sub * f + freq_sub) * bins + bin;
    let level = levels[time_sub * (cfg.block_size * f) + (cfg.min_bin + bin) * f + freq_sub] as int;
    law_cells_hold_the_transforms(cfg, time_sub, freq_sub, bin, level);
    let cell = ((block * t + time_sub) * f + freq_sub) * bins + bin;
    assert(cell == block * (t * f * bins) + o) by (nonlinear_arith)
        requires
            o == (time_sub * f + freq_sub) * bins + bin,
            cell == ((block * t + time_sub) * f + freq_sub) * bins + bin,
    ;
    let at = before.blocks() * stride;
    if before.blocks() != cfg.max_blocks && frame_len == cfg.block_size {
        assert(0 <= block * stride) by (nonlinear_arith)
            requires
                0 <= block,
                0 <= stride,
        ;
        if block < before.blocks() {
            assert(block * stride + stride <= at) by (nonlinear_arith)
                requires
                    block + 1 <= before.blocks(),
                    0 <= stride,
                    at == before.blocks() * stride,
            ;
        } else if block == before.blocks() {
            assert(cell - at == o);
        }
    }
}

/// A layout is possible exactly if there is a time subdivision, the bins are in order,
/// and all that has to be counted can be.
pub proof fn law_possible_layouts(cfg: MonitorConfig)
    ensures
        cfg.valid() <==> cfg.time_osr >= 1 && cfg.min_bin <= cfg.max_bin && cfg.block_size
            * cfg.freq_osr <= usize::MAX && cfg.time_osr * cfg.freq_osr <= usize::MAX && cfg.time_osr
            * cfg.freq_osr * (cfg.max_bin - cfg.min_bin) <= usize::MAX && cfg.max_blocks
            * cfg.time_osr <= usize::MAX && cfg.max_blocks * cfg.time_osr * cfg.freq_osr
            <= usize::MAX && cfg.max_blocks * (cfg.time_osr * cfg.freq_osr * (cfg.max_bin
            - cfg.min_bin)) <= usize::MAX,
{
}

} // verus!
