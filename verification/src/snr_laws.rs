//! What the levels of a signal-to-noise estimate are: the signal where it was sent,
//! the noise in two windows beside it.

use vstd::prelude::*;
use crate::decode::{Candidate, Waterfall};
use crate::snr;
use crate::snr::SnrLevels;
use crate::sync_laws;
use crate::sync_laws::{cell_of, received, recorded, tone_count};

verus! {

/// How many of the first `n` numbers have a property.
pub open spec fn how_many(f: spec_fn(int) -> bool, n: nat) -> nat
    decreases n,
{
    if n == 0 {
        0
    } else {
        how_many(f, (n - 1) as nat) + if f(n - 1) {
            1nat
        } else {
            0
        }
    }
}

/// Where all numbers have a property, they are as many as they are.
proof fn lemma_all_of_them(f: spec_fn(int) -> bool, n: nat)
    requires
        forall|i: int| 0 <= i < n ==> #[trigger] f(i),
    ensures
        how_many(f, n) == n,
    decreases n,
{
    if n > 0 {
        lemma_all_of_them(f, (n - 1) as nat);
    }
}

/// There are no fewer up to a later number.
proof fn lemma_no_fewer(f: spec_fn(int) -> bool, k: nat, n: nat)
    requires
        k <= n,
    ensures
        how_many(f, k) <= how_many(f, n),
        k < n && f(k as int) ==> how_many(f, k) < how_many(f, n),
    decreases n,
{
    if k < n {
        lemma_no_fewer(f, k, (n - 1) as nat);
    }
}

/// What holds of the same numbers holds of as many.
proof fn lemma_as_many(f: spec_fn(int) -> bool, g: spec_fn(int) -> bool, n: nat)
    requires
        forall|i: int| 0 <= i < n ==> #[trigger] f(i) == g(i),
    ensures
        how_many(f, n) == how_many(g, n),
    decreases n,
{
    if n > 0 {
        lemma_as_many(f, g, (n - 1) as nat);
    }
}

/// How many symbols a transmission has.
pub open spec fn symbol_count(wf: Waterfall) -> int {
    if wf.protocol is Ft8 { 79 } else { 105 }
}

/// Was a tone recorded in a symbol: its block within the recording, and its cell
/// there?
pub open spec fn is_there(wf: Waterfall, c: Candidate, symbol: int, tone: int) -> bool {
    recorded(wf, c, symbol) && 0 <= cell_of(wf, c, symbol, tone) < wf.mag@.len()
}

/// The tone sent in a symbol.
pub open spec fn sent_tone(wf: Waterfall, payload: Seq<u8>, symbol: int) -> int {
    wf.protocol.channel(wf.protocol.sent(payload))[symbol] as int
}

/// Is the noise measured `off` bins from the lowest tone in a symbol? It is in the
/// twenty bins that are four bins away on either side of the tones, as far as there
/// are bins and the symbol was recorded.
pub open spec fn is_measured(wf: Waterfall, c: Candidate, symbol: int, off: int) -> bool {
    let last = tone_count(wf.protocol) - 1;
    &&& -24 <= off <= -5 || last + 5 <= off <= last + 24
    &&& 0 <= c.freq_offset + off < wf.num_bins
    &&& is_there(wf, c, symbol, off)
}

/// How many bins from the lower end of the lower window to the upper end of the upper
/// one.
pub open spec fn window_width(wf: Waterfall) -> int {
    tone_count(wf.protocol) + 48
}

/// Is place `j` one where noise is measured, counted over all windows of all symbols?
pub open spec fn noise_place(wf: Waterfall, c: Candidate, j: int) -> bool {
    is_measured(wf, c, j / window_width(wf), j % window_width(wf) - 24)
}

/// The level at place `j`.
pub open spec fn noise_at(wf: Waterfall, c: Candidate, j: int) -> int {
    received(wf, c, j / window_width(wf), j % window_width(wf) - 24)
}

/// Is place `j` one where noise of at most `v` is measured?
pub open spec fn noise_up_to(wf: Waterfall, c: Candidate, v: int, j: int) -> bool {
    noise_place(wf, c, j) && noise_at(wf, c, j) <= v
}

/// The signal levels, one by one.
#[verifier::spinoff_prover]
proof fn lemma_signal(wf: Waterfall, c: Candidate, tones: Seq<u8>, n: nat)
    ensures
        ({
            let f = |k: int| is_there(wf, c, k, tones[k] as int);
            let s = wf.signal_levels(c, tones, n);
            &&& s.len() == how_many(f, n)
            &&& forall|k: int|
                #![trigger tones[k]]
                0 <= k < n && is_there(wf, c, k, tones[k] as int) ==> s[how_many(f, k as nat) as int]
                    == received(wf, c, k, tones[k] as int)
        }),
    decreases n,
{
    let f = |k: int| is_there(wf, c, k, tones[k] as int);
    if n > 0 {
        lemma_signal(wf, c, tones, (n - 1) as nat);
        let s = wf.signal_levels(c, tones, n);
        sync_laws::lemma_received(wf, c, n - 1, tones[n - 1] as int);
        assert forall|k: int|
            #![trigger tones[k]]
            0 <= k < n && is_there(wf, c, k, tones[k] as int) implies s[how_many(
            f,
            k as nat,
        ) as int] == received(wf, c, k, tones[k] as int) by {
            if k < n - 1 {
                lemma_no_fewer(f, k as nat, (n - 1) as nat);
                assert(f(k));
            }
        }
    }
}

/// The noise levels up to a place of symbol `k`.
spec fn noise_so_far(wf: Waterfall, c: Candidate, k: int, end: int) -> Seq<u8> {
    wf.noise_levels(c, k as nat) + if wf.heard(c, k) {
        wf.symbol_noise(c, k, end)
    } else {
        Seq::empty()
    }
}

/// Counting one more level.
proof fn lemma_count_one_more(s: Seq<u8>, x: u8, v: int)
    ensures
        snr::count_up_to(s.push(x), v) == snr::count_up_to(s, v) + if x <= v {
            1nat
        } else {
            0
        },
{
    assert(s.push(x).drop_last() =~= s);
}

/// The noise levels are those of the noise places.
#[verifier::spinoff_prover]
proof fn lemma_noise(wf: Waterfall, c: Candidate, k: int, end: int, v: int)
    requires
        0 <= k,
        -24 <= end <= tone_count(wf.protocol) + 24,
    ensures
        ({
            let s = noise_so_far(wf, c, k, end);
            let n = (k * window_width(wf) + end + 24) as nat;
            &&& s.len() == how_many(|j: int| noise_place(wf, c, j), n)
            &&& snr::count_up_to(s, v) == how_many(|j: int| noise_up_to(wf, c, v, j), n)
        }),
    decreases k, end + 24,
{
    let w = window_width(wf);
    let f = |j: int| noise_place(wf, c, j);
    let g = |j: int| noise_up_to(wf, c, v, j);
    let s = noise_so_far(wf, c, k, end);
    assert(0 <= k * w) by (nonlinear_arith)
        requires
            0 <= k,
            0 < w,
    ;
    if end > -24 {
        lemma_noise(wf, c, k, end - 1, v);
        let before = noise_so_far(wf, c, k, end - 1);
        let j = k * w + end + 23;
        vstd::arithmetic::div_mod::lemma_fundamental_div_mod_converse(j, w, k, end + 23);
        sync_laws::lemma_received(wf, c, k, end - 1);
        assert(j % w - 24 == end - 1 && j / w == k);
        if noise_place(wf, c, j) {
            let x = wf.level(c, k, end - 1) as u8;
            assert(wf.is_noise(c, k, end - 1));
            assert(s =~= before.push(x));
            lemma_count_one_more(before, x, v);
        } else {
            assert(!(wf.heard(c, k) && wf.is_noise(c, k, end - 1)));
            assert(s =~= before);
        }
        assert(how_many(f, (j + 1) as nat) == how_many(f, j as nat) + if f(j) { 1nat } else { 0 });
        assert(how_many(g, (j + 1) as nat) == how_many(g, j as nat) + if g(j) { 1nat } else { 0 });
    } else if k > 0 {
        let top = tone_count(wf.protocol) + 24;
        lemma_noise(wf, c, k - 1, top, v);
        assert((k - 1) * w + top + 24 == k * w) by (nonlinear_arith)
            requires
                w == top + 24,
        ;
        assert(s =~= wf.noise_levels(c, k as nat));
        assert(noise_so_far(wf, c, k - 1, top) =~= wf.noise_levels(c, k as nat));
    } else {
        assert(s =~= Seq::<u8>::empty());
        assert(0 * w == 0) by (nonlinear_arith);
    }
}

/// What an estimate is made from. The signal has one level for each symbol in which
/// the tone that was sent was recorded: the level of that tone, in the order of the
/// symbols. The noise is the lowest level that half of the levels in the windows do
/// not exceed. There is nothing to estimate from exactly where no tone that was sent
/// was recorded, or no noise.
#[verifier::spinoff_prover]
pub proof fn law_levels_are_those_recorded(
    wf: Waterfall,
    c: Candidate,
    payload: Seq<u8>,
    r: Option<SnrLevels>,
)
    requires
        wf.measures(c, payload, r),
    ensures
        ({
            let n = symbol_count(wf) as nat;
            let sent = |k: int| is_there(wf, c, k, sent_tone(wf, payload, k));
            let places = (n * window_width(wf)) as nat;
            let noise = how_many(|j: int| noise_place(wf, c, j), places);
            &&& r is Some <==> how_many(sent, n) > 0 && noise > 0
            &&& r matches Some(s) ==> {
                &&& s.signal@.len() == how_many(sent, n)
                &&& forall|k: int|
                    #![trigger sent_tone(wf, payload, k)]
                    0 <= k < n && is_there(wf, c, k, sent_tone(wf, payload, k))
                        ==> s.signal@[how_many(sent, k as nat) as int] == received(
                        wf,
                        c,
                        k,
                        sent_tone(wf, payload, k),
                    )
                &&& how_many(|j: int| noise_up_to(wf, c, s.noise as int, j), places) >= noise / 2
                &&& s.noise > 0 ==> how_many(|j: int| noise_up_to(wf, c, s.noise - 1, j), places)
                    < noise / 2
            }
        }),
{
    let n = symbol_count(wf) as nat;
    let tones = wf.protocol.channel(wf.protocol.sent(payload));
    let sent = |k: int| is_there(wf, c, k, sent_tone(wf, payload, k));
    let f = |k: int| is_there(wf, c, k, tones[k] as int);
    let v = if r is Some { (r->0).noise as int } else { 0 };
    let levels = wf.noise_levels(c, n);
    lemma_signal(wf, c, tones, n);
    assert forall|k: nat| #[trigger] how_many(sent, k) == how_many(f, k) by {
        lemma_as_many(sent, f, k);
    }
    lemma_noise(wf, c, n as int, -24, v);
    lemma_noise(wf, c, n as int, -24, v - 1);
    assert(noise_so_far(wf, c, n as int, -24) =~= levels);
    if let Some(s) = r {
        assert forall|k: int|
            #![trigger sent_tone(wf, payload, k)]
            0 <= k < n && is_there(wf, c, k, sent_tone(wf, payload, k)) implies s.signal@[how_many(
            sent,
            k as nat,
        ) as int] == received(wf, c, k, sent_tone(wf, payload, k)) by {
            assert(tones[k] as int == sent_tone(wf, payload, k));
        }
        if v > 0 {
            assert(snr::count_up_to(levels, v - 1) < levels.len() / 2);
        }
    }
}

/// Where a transmission was recorded as a whole, the signal has the level of the tone
/// that was sent in each symbol.
#[verifier::spinoff_prover]
pub proof fn law_signal_of_a_whole_transmission(
    wf: Waterfall,
    c: Candidate,
    payload: Seq<u8>,
    s: SnrLevels,
)
    requires
        wf.measures(c, payload, Some(s)),
        forall|k: int|
            #![trigger sent_tone(wf, payload, k)]
            0 <= k < symbol_count(wf) ==> is_there(wf, c, k, sent_tone(wf, payload, k)),
    ensures
        s.signal@.len() == symbol_count(wf),
        forall|k: int|
            #![trigger s.signal@[k]]
            0 <= k < symbol_count(wf) ==> s.signal@[k] == received(
                wf,
                c,
                k,
                sent_tone(wf, payload, k),
            ),
{
    law_levels_are_those_recorded(wf, c, payload, Some(s));
    let sent = |k: int| is_there(wf, c, k, sent_tone(wf, payload, k));
    assert forall|k: int| 0 <= k <= symbol_count(wf) implies #[trigger] how_many(sent, k as nat)
        == k by {
        assert forall|i: int| 0 <= i < k implies #[trigger] sent(i) by {
            let t = sent_tone(wf, payload, i);
        }
        lemma_all_of_them(sent, k as nat);
    }
    assert forall|k: int|
        #![trigger s.signal@[k]]
        0 <= k < symbol_count(wf) implies s.signal@[k] == received(
        wf,
        c,
        k,
        sent_tone(wf, payload, k),
    ) by {
        assert(how_many(sent, k as nat) == k);
        assert(is_there(wf, c, k, sent_tone(wf, payload, k)));
    }
}

/// Levels can be measured exactly if the cells of a block can be counted and, where a
/// symbol was recorded, the bins of the windows are within 16 bits.
pub proof fn law_what_can_be_measured(wf: Waterfall, c: Candidate)
    ensures
        wf.measurable(c) <==> {
            &&& wf.time_osr * wf.freq_osr <= usize::MAX
            &&& wf.time_osr * wf.freq_osr * wf.num_bins <= usize::MAX
            &&& (exists|k: int| 0 <= k < symbol_count(wf) && #[trigger] recorded(wf, c, k))
                ==> -32_768 <= c.freq_offset - 24 && c.freq_offset + tone_count(wf.protocol) + 23
                <= 32_767
        },
{
    assert forall|k: int| #[trigger] wf.heard(c, k) == recorded(wf, c, k) by {}
    if exists|k: int| 0 <= k < symbol_count(wf) && #[trigger] recorded(wf, c, k) {
        let k = choose|k: int| 0 <= k < symbol_count(wf) && #[trigger] recorded(wf, c, k);
        assert(wf.heard(c, k));
    }
}

} // verus!
