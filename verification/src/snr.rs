//! What the signal-to-noise ratio of a decoded message is estimated from.
//!
//! Once a message has decoded we know exactly which tone was sent in every
//! symbol, so the signal level is taken from those cells. The noise floor is
//! measured from a guard band either side of the signal's tones, not from the
//! other tones of each symbol: those sit one bin away and are full of the
//! signal's own spectral leakage. The floor is a median rather than a mean, so a
//! neighbouring station in the guard band raises it barely at all.

use vstd::prelude::*;
use crate::decode::{Candidate, Protocol, Waterfall};
use crate::message::PAYLOAD_BYTES;
use crate::tones::{ft4_tones, ft8_tones};

verus! {

/// Bins next to the signal that are left out, which clears Hann leakage.
pub const GUARD: i32 = 4;

/// Bins either side that are measured, enough to take a median over without
/// wandering into unrelated spectrum.
pub const WINDOW: i32 = 20;

/// How often a level occurs.
pub open spec fn count_of(levels: Seq<u8>, v: int) -> nat
    decreases levels.len(),
{
    if levels.len() == 0 {
        0
    } else {
        count_of(levels.drop_last(), v) + if levels.last() == v { 1nat } else { 0 }
    }
}

/// How many levels are no higher than `v`.
pub open spec fn count_up_to(levels: Seq<u8>, v: int) -> nat
    decreases levels.len(),
{
    if levels.len() == 0 {
        0
    } else {
        count_up_to(levels.drop_last(), v) + if levels.last() <= v { 1nat } else { 0 }
    }
}

/// Is `v` the lowest level that half of the levels do not exceed?
pub open spec fn is_median(levels: Seq<u8>, v: int) -> bool {
    &&& count_up_to(levels, v) >= levels.len() / 2
    &&& forall|u: int| 0 <= u < v ==> #[trigger] count_up_to(levels, u) < levels.len() / 2
}

impl<'a> Waterfall<'a> {
    /// The levels of the tones sent in the first `n` symbols, of those that were
    /// recorded and whose cell is there.
    pub open spec fn signal_levels(self, c: Candidate, tones: Seq<u8>, n: nat) -> Seq<u8>
        decreases n,
    {
        if n == 0 {
            Seq::empty()
        } else {
            let before = self.signal_levels(c, tones, (n - 1) as nat);
            if self.heard(c, n - 1) && self.has(c, n - 1, tones[n - 1] as int) {
                before.push(self.level(c, n - 1, tones[n - 1] as int) as u8)
            } else {
                before
            }
        }
    }

    /// Is the cell `off` bins from tone 0 of symbol `k` one that the noise is
    /// measured in: outside the guard, inside the window, a bin of the spectrogram
    /// and a cell that is there?
    pub open spec fn is_noise(self, c: Candidate, k: int, off: int) -> bool {
        let last = self.protocol.tones() - 1;
        &&& -(GUARD + WINDOW) <= off <= last + GUARD + WINDOW
        &&& !(-GUARD <= off <= last + GUARD)
        &&& 0 <= c.freq_offset + off < self.num_bins
        &&& self.has(c, k, off)
    }

    /// The noise levels of symbol `k`, from the window's lower end up to `end`.
    pub open spec fn symbol_noise(self, c: Candidate, k: int, end: int) -> Seq<u8>
        decreases end + GUARD + WINDOW,
    {
        if end <= -(GUARD + WINDOW) {
            Seq::empty()
        } else {
            let before = self.symbol_noise(c, k, end - 1);
            if self.is_noise(c, k, end - 1) {
                before.push(self.level(c, k, end - 1) as u8)
            } else {
                before
            }
        }
    }

    /// The noise levels of the first `n` symbols, of those that were recorded.
    pub open spec fn noise_levels(self, c: Candidate, n: nat) -> Seq<u8>
        decreases n,
    {
        if n == 0 {
            Seq::empty()
        } else {
            let before = self.noise_levels(c, (n - 1) as nat);
            if self.heard(c, n - 1) {
                before + self.symbol_noise(
                    c,
                    n - 1,
                    self.protocol.tones() + GUARD + WINDOW,
                )
            } else {
                before
            }
        }
    }

    /// Can the levels of a candidate be measured? If a symbol was recorded, the
    /// bins of the window are counted in 16 bits.
    pub open spec fn measurable(self, c: Candidate) -> bool {
        &&& self.stride_fits()
        &&& forall|k: int|
            0 <= k < self.protocol.symbols() && #[trigger] self.heard(c, k) ==> i16::MIN
                <= c.freq_offset - GUARD - WINDOW && c.freq_offset + self.protocol.tones() - 1
                + GUARD + WINDOW <= i16::MAX
    }

    /// Is `r` what the signal-to-noise ratio of a payload is estimated from: the
    /// levels of the tones that were sent for it and the median of the noise, or
    /// nothing where there are none of either?
    pub open spec fn measures(self, c: Candidate, payload: Seq<u8>, r: Option<SnrLevels>) -> bool {
        let n = self.protocol.symbols() as nat;
        let tones = self.protocol.channel(self.protocol.sent(payload));
        let signal = self.signal_levels(c, tones, n);
        let noise = self.noise_levels(c, n);
        if signal.len() == 0 || noise.len() == 0 {
            r is None
        } else {
            r matches Some(s) && s.signal@ == signal && is_median(noise, s.noise as int)
        }
    }
}

/// The levels that a signal-to-noise ratio is estimated from.
#[derive(Debug)]
pub struct SnrLevels {
    /// The level of the tone that was sent, for each recorded symbol.
    pub signal: Vec<u8>,
    /// The median level of the noise.
    pub noise: u8,
}

/// One more level is counted where it belongs.
proof fn lemma_count_push(levels: Seq<u8>, x: u8)
    ensures
        forall|v: int| #[trigger]
            count_of(levels.push(x), v) == count_of(levels, v) + if x == v { 1nat } else { 0 },
{
    assert(levels.push(x).drop_last() =~= levels);
}

/// No level occurs more often than there are levels.
proof fn lemma_count_bound(levels: Seq<u8>, v: int)
    ensures
        count_of(levels, v) <= levels.len(),
    decreases levels.len(),
{
    if levels.len() > 0 {
        lemma_count_bound(levels.drop_last(), v);
    }
}

/// Counting level by level counts them all.
proof fn lemma_count_up_to_next(levels: Seq<u8>, v: int)
    requires
        0 <= v,
    ensures
        count_up_to(levels, v) == count_up_to(levels, v - 1) + count_of(levels, v),
        count_up_to(levels, -1) == 0,
        v >= 255 ==> count_up_to(levels, v) == levels.len(),
    decreases levels.len(),
{
    if levels.len() > 0 {
        lemma_count_up_to_next(levels.drop_last(), v);
    }
}

/// The lowest level that half of the levels do not exceed, from how often each
/// occurs.
#[verifier::spinoff_prover]
fn median_of(hist: &[u32; 256], count: u32, levels: Ghost<Seq<u8>>) -> (r: u8)
    requires
        count == levels@.len(),
        forall|v: int| 0 <= v < 256 ==> #[trigger] hist@[v] == count_of(levels@, v),
    ensures
        is_median(levels@, r as int),
{
    let want: u32 = count / 2;
    let mut acc: u32 = 0;
    let mut v: usize = 0;
    proof {
        lemma_count_up_to_next(levels@, 0);
    }
    while v < 255
        invariant
            v <= 255,
            want == count / 2,
            count == levels@.len(),
            acc <= count,
            acc == count_up_to(levels@, v - 1),
            forall|u: int| 0 <= u < v ==> #[trigger] count_up_to(levels@, u) < want,
            forall|v: int| 0 <= v < 256 ==> #[trigger] hist@[v] == count_of(levels@, v),
        decreases 255 - v,
    {
        proof {
            lemma_count_up_to_next(levels@, v as int);
            lemma_count_up_to_bound(levels@, v as int);
        }
        acc += hist[v];
        if acc >= want {
            return v as u8;
        }
        v += 1;
    }
    proof {
        lemma_count_up_to_next(levels@, 255);
    }
    255
}

/// No more levels are counted than there are.
proof fn lemma_count_up_to_bound(levels: Seq<u8>, v: int)
    ensures
        count_up_to(levels, v) <= levels.len(),
    decreases levels.len(),
{
    if levels.len() > 0 {
        lemma_count_up_to_bound(levels.drop_last(), v);
    }
}

/// Does the histogram count the levels?
spec fn counts(hist: Seq<u32>, levels: Seq<u8>) -> bool {
    forall|v: int| 0 <= v < 256 ==> #[trigger] hist[v] == count_of(levels, v)
}

/// Add the noise levels of a recorded symbol to the histogram of those before.
#[verifier::spinoff_prover]
fn add_noise(
    wf: &Waterfall,
    c: &Candidate,
    k: usize,
    hist: &mut [u32; 256],
    count: u32,
    before: Ghost<Seq<u8>>,
) -> (r: u32)
    requires
        wf.stride_fits(),
        k < wf.protocol.symbols(),
        wf.heard(*c, k as int),
        counts(old(hist)@, before@),
        count == before@.len() <= 0x10000,
    ensures
        ({
            let end = wf.protocol.tones() + GUARD + WINDOW;
            let levels = before@ + wf.symbol_noise(*c, k as int, end);
            &&& counts(final(hist)@, levels)
            &&& r == levels.len() <= before@.len() + 56
        }),
{
    let p: i128 = wf.origin(c, k);
    let last: i32 = wf.protocol.num_tones() as i32 - 1;
    let mut n: u32 = count;
    let mut off: i32 = -(GUARD + WINDOW);
    let ghost mut levels = before@;
    assert(before@ + wf.symbol_noise(*c, k as int, off as int) =~= before@);
    while off <= last + GUARD + WINDOW
        invariant
            p == wf.start(*c, k as int) || (p > wf.mag@.len() + 0x100 && wf.start(*c, k as int)
                > wf.mag@.len() + 0x100),
            -0x8000 <= p <= 0x10_0000_0000_0000_0000_0000,
            last == wf.protocol.tones() - 1,
            -(GUARD + WINDOW) <= off <= last + GUARD + WINDOW + 1,
            levels == before@ + wf.symbol_noise(*c, k as int, off as int),
            counts(hist@, levels),
            n == levels.len() <= before@.len() + off + GUARD + WINDOW,
            before@.len() <= 0x10000,
        decreases last + GUARD + WINDOW + 1 - off,
    {
        let guarded: bool = -GUARD <= off && off <= last + GUARD;
        let bin: i32 = c.freq_offset as i32 + off;
        if !guarded && bin >= 0 && (bin as usize) < wf.num_bins {
            if let Some(v) = wf.at(p + off as i128) {
                assert(wf.is_noise(*c, k as int, off as int));
                proof {
                    lemma_count_bound(levels, v as int);
                    lemma_count_push(levels, v);
                    levels = levels.push(v);
                }
                hist[v as usize] = hist[v as usize] + 1;
                n += 1;
                proof {
                    assert(counts(hist@, levels));
                }
            }
        }
        off += 1;
        proof {
            assert(levels =~= before@ + wf.symbol_noise(*c, k as int, off as int));
        }
    }
    n
}

/// The levels that the signal-to-noise ratio of a decoded payload is estimated
/// from, or `None` where no symbol or no noise was recorded.
#[verifier::spinoff_prover]
pub fn snr_levels(wf: &Waterfall, c: &Candidate, payload: &[u8; PAYLOAD_BYTES]) -> (r: Option<
    SnrLevels,
>)
    requires
        wf.measurable(*c),
    ensures
        wf.measures(*c, payload@, r),
{
    match wf.protocol {
        Protocol::Ft8 => levels_of(wf, c, &ft8_tones(payload)),
        Protocol::Ft4 => levels_of(wf, c, &ft4_tones(payload)),
    }
}

/// Can the levels of a candidate be measured?
pub fn is_measurable(wf: &Waterfall, c: &Candidate) -> (r: bool)
    ensures
        r == wf.measurable(*c),
{
    if !wf.is_countable() {
        return false;
    }
    let (offset, last): (i32, i32) = (
        c.freq_offset as i32,
        wf.protocol.num_tones() as i32 - 1,
    );
    if i16::MIN as i32 <= offset - GUARD - WINDOW && offset + last + GUARD + WINDOW
        <= i16::MAX as i32 {
        return true;
    }
    let symbols: usize = wf.protocol.num_symbols();
    let mut k: usize = 0;
    while k < symbols
        invariant
            symbols == wf.protocol.symbols(),
            k <= symbols,
            !(i16::MIN <= c.freq_offset - GUARD - WINDOW && c.freq_offset + wf.protocol.tones() - 1
                + GUARD + WINDOW <= i16::MAX),
            forall|j: int| 0 <= j < k ==> !#[trigger] wf.heard(*c, j),
        decreases symbols - k,
    {
        if wf.is_heard(c, k) {
            return false;
        }
        k += 1;
    }
    true
}

/// The levels of a transmission of known tones.
#[verifier::spinoff_prover]
fn levels_of(wf: &Waterfall, c: &Candidate, tones: &[u8]) -> (r: Option<SnrLevels>)
    requires
        wf.stride_fits(),
        tones@.len() == wf.protocol.symbols(),
    ensures
        ({
            let n = wf.protocol.symbols() as nat;
            let signal = wf.signal_levels(*c, tones@, n);
            let noise = wf.noise_levels(*c, n);
            if signal.len() == 0 || noise.len() == 0 {
                r is None
            } else {
                r matches Some(s) && s.signal@ == signal && is_median(noise, s.noise as int)
            }
        }),
{
    let symbols: usize = wf.protocol.num_symbols();
    let mut signal: Vec<u8> = Vec::new();
    let mut hist: [u32; 256] = [0; 256];
    let mut count: u32 = 0;
    let mut k: usize = 0;
    while k < symbols
        invariant
            wf.stride_fits(),
            symbols == wf.protocol.symbols() == tones@.len(),
            k <= symbols <= 105,
            signal@ == wf.signal_levels(*c, tones@, k as nat),
            counts(hist@, wf.noise_levels(*c, k as nat)),
            count == wf.noise_levels(*c, k as nat).len() <= 56 * k,
        decreases symbols - k,
    {
        if wf.is_heard(c, k) {
            if let Some(v) = wf.at(wf.origin(c, k) + tones[k] as i128) {
                signal.push(v);
            }
            let before: Ghost<Seq<u8>> = Ghost(wf.noise_levels(*c, k as nat));
            count = add_noise(wf, c, k, &mut hist, count, before);
        }
        k += 1;
    }
    if signal.len() == 0 || count == 0 {
        return None;
    }
    let noise: u8 = median_of(&hist, count, Ghost(wf.noise_levels(*c, symbols as nat)));
    Some(SnrLevels { signal, noise })
}

/// Levels have one median.
pub proof fn law_median_is_unique(levels: Seq<u8>, u: int, v: int)
    requires
        0 <= u,
        0 <= v,
        is_median(levels, u),
        is_median(levels, v),
    ensures
        u == v,
{
    if u < v {
        assert(count_up_to(levels, u) < levels.len() / 2);
    } else if v < u {
        assert(count_up_to(levels, v) < levels.len() / 2);
    }
}

/// Is the cell `off` bins from tone 0 of symbol `k` one of the signal's tones or of
/// the guard beside them, in a symbol that was recorded and a bin of the
/// spectrogram?
pub open spec fn is_guarded(wf: Waterfall, c: Candidate, k: int, off: int) -> bool {
    &&& 0 <= k < wf.protocol.symbols()
    &&& wf.heard(c, k)
    &&& -GUARD <= off <= wf.protocol.tones() - 1 + GUARD
    &&& 0 <= c.freq_offset + off < wf.num_bins
}

/// The noise is not measured in a guarded cell of any symbol.
#[verifier::spinoff_prover]
proof fn lemma_noise_is_not_guarded(wf: Waterfall, c: Candidate, k: int, off: int, g: int, goff: int)
    requires
        wf.is_noise(c, k, off),
        is_guarded(wf, c, g, goff),
    ensures
        wf.start(c, k) + off != wf.start(c, g) + goff,
{
    if wf.start(c, k) + off == wf.start(c, g) + goff {
        let (t, f, b) = (wf.time_osr as int, wf.freq_osr as int, wf.num_bins as int);
        let (stride, d) = (wf.stride(), g - k);
        assert((c.time_offset + g) * stride - (c.time_offset + k) * stride == d * stride)
            by (nonlinear_arith)
            requires
                d == g - k,
        ;
        assert(t * f == 0 ==> stride == 0) by (nonlinear_arith)
            requires
                stride == t * f * b,
        ;
        assert(t * f >= 0) by (nonlinear_arith)
            requires
                t >= 0,
                f >= 0,
        ;
        assert(t * f >= 1 ==> stride >= b) by (nonlinear_arith)
            requires
                stride == t * f * b,
                b >= 0,
        ;
        assert(stride >= b && d >= 1 ==> d * stride >= b) by (nonlinear_arith)
            requires
                b >= 0,
        ;
        assert(stride >= b && d <= -1 ==> d * stride <= -b) by (nonlinear_arith)
            requires
                b >= 0,
        ;
        assert(stride == 0 || d == 0 ==> d * stride == 0) by (nonlinear_arith);
    }
}

/// Where the noise of a symbol is the same cell by cell, it is the same.
proof fn lemma_same_symbol_noise(a: Waterfall, b: Waterfall, c: Candidate, k: int, end: int)
    requires
        a.same_shape(b),
        forall|off: int| #[trigger] a.is_noise(c, k, off) ==> a.level(c, k, off) == b.level(c, k, off),
    ensures
        a.symbol_noise(c, k, end) == b.symbol_noise(c, k, end),
    decreases end + GUARD + WINDOW,
{
    if end > -(GUARD + WINDOW) {
        lemma_same_symbol_noise(a, b, c, k, end - 1);
        assert(a.is_noise(c, k, end - 1) == b.is_noise(c, k, end - 1));
    }
}

/// Where the signal and the noise of every symbol are the same cell by cell, their
/// levels are the same.
proof fn lemma_same_levels(a: Waterfall, b: Waterfall, c: Candidate, tones: Seq<u8>, n: nat)
    requires
        a.same_shape(b),
        forall|k: int, off: int|
            0 <= k < n && a.heard(c, k) && #[trigger] a.is_noise(c, k, off) ==> a.level(c, k, off)
                == b.level(c, k, off),
        forall|k: int|
            0 <= k < n && #[trigger] a.heard(c, k) && a.has(c, k, tones[k] as int) ==> a.level(
                c,
                k,
                tones[k] as int,
            ) == b.level(c, k, tones[k] as int),
    ensures
        a.signal_levels(c, tones, n) == b.signal_levels(c, tones, n),
        a.noise_levels(c, n) == b.noise_levels(c, n),
    decreases n,
{
    if n > 0 {
        lemma_same_levels(a, b, c, tones, (n - 1) as nat);
        assert(a.heard(c, n - 1) == b.heard(c, n - 1));
        if a.heard(c, n - 1) {
            lemma_same_symbol_noise(a, b, c, n - 1, a.protocol.tones() + GUARD + WINDOW);
        }
    }
}

/// The estimate does not depend on the tones that were not sent, nor on the guard
/// beside the tones: two spectrograms that differ there alone, and in no cell of a
/// tone that was sent, give the same levels.
#[verifier::spinoff_prover]
pub proof fn law_guard_does_not_matter(
    a: Waterfall,
    b: Waterfall,
    c: Candidate,
    payload: Seq<u8>,
    ra: Option<SnrLevels>,
    rb: Option<SnrLevels>,
)
    requires
        a.same_shape(b),
        forall|i: int|
            0 <= i < a.mag@.len() && #[trigger] a.mag@[i] != b.mag@[i] ==> exists|k: int, off: int| #[trigger]
                is_guarded(a, c, k, off) && i == a.start(c, k) + off,
        forall|k: int|
            0 <= k < a.protocol.symbols() && #[trigger] a.heard(c, k) ==> {
                let tone = a.protocol.channel(a.protocol.sent(payload))[k] as int;
                a.has(c, k, tone) ==> a.level(c, k, tone) == b.level(c, k, tone)
            },
        a.measures(c, payload, ra),
        b.measures(c, payload, rb),
    ensures
        ra is None <==> rb is None,
        ra matches Some(x) ==> rb matches Some(y) && x.signal@ == y.signal@ && x.noise == y.noise,
{
    let n = a.protocol.symbols() as nat;
    let tones = a.protocol.channel(a.protocol.sent(payload));
    assert forall|k: int, off: int|
        0 <= k < n && a.heard(c, k) && #[trigger] a.is_noise(c, k, off) implies a.level(c, k, off)
        == b.level(c, k, off) by {
        let i = a.start(c, k) + off;
        assert(a.start(c, k) == b.start(c, k));
        if a.mag@[i] != b.mag@[i] {
            let (g, goff) = choose|g: int, goff: int| #[trigger]
                is_guarded(a, c, g, goff) && i == a.start(c, g) + goff;
            lemma_noise_is_not_guarded(a, c, k, off, g, goff);
        }
    }
    lemma_same_levels(a, b, c, tones, n);
    if let (Some(x), Some(y)) = (ra, rb) {
        law_median_is_unique(a.noise_levels(c, n), x.noise as int, y.noise as int);
    }
}

} // verus!
