//! What the sync search is for: how a score follows from the levels of a
//! spectrogram, and which starts are found.

use vstd::prelude::*;
use crate::candidates;
use crate::decode;
use crate::decode::{Candidate, Protocol, Waterfall};

verus! {

/// The cell of a tone in a symbol of a candidate, in the layout
/// `[block][time_sub][freq_sub][bin]`.
pub open spec fn cell_of(wf: Waterfall, c: Candidate, symbol: int, tone: int) -> int {
    (((c.time_offset + symbol) * wf.time_osr + c.time_sub) * wf.freq_osr + c.freq_sub) * wf.num_bins
        + (c.freq_offset + tone)
}

/// The level with which a tone was received in a symbol of a candidate.
pub open spec fn received(wf: Waterfall, c: Candidate, symbol: int, tone: int) -> int {
    wf.mag@[cell_of(wf, c, symbol, tone)] as int
}

/// Is the block of a symbol of a candidate within the recording?
pub open spec fn recorded(wf: Waterfall, c: Candidate, symbol: int) -> bool {
    0 <= c.time_offset + symbol && c.time_offset + symbol < wf.num_blocks
}

/// How many symbols a sync group has.
pub open spec fn group_length(p: Protocol) -> int {
    match p {
        Protocol::Ft8 => 7,
        Protocol::Ft4 => 4,
    }
}

/// How many sync groups there are.
pub open spec fn group_count(p: Protocol) -> int {
    match p {
        Protocol::Ft8 => 3,
        Protocol::Ft4 => 4,
    }
}

/// How many tones there are.
pub open spec fn tone_count(p: Protocol) -> int {
    match p {
        Protocol::Ft8 => 8,
        Protocol::Ft4 => 4,
    }
}

/// The channel symbol of number `k` of sync group `m`.
pub open spec fn group_symbol(p: Protocol, m: int, k: int) -> int {
    match p {
        Protocol::Ft8 => 36 * m + k,
        Protocol::Ft4 => 1 + 33 * m + k,
    }
}

/// The tone of number `k` of sync group `m`.
pub open spec fn group_tone(p: Protocol, m: int, k: int) -> int {
    match p {
        Protocol::Ft8 => seq![3int, 1, 4, 0, 6, 5, 2][k],
        Protocol::Ft4 => seq![
            seq![0int, 1, 3, 2],
            seq![1int, 0, 2, 3],
            seq![2int, 3, 1, 0],
            seq![3int, 2, 0, 1],
        ][m][k],
    }
}

/// The tones and places of the sync symbols are those of the protocol.
#[verifier::spinoff_prover]
pub proof fn law_sync_groups(p: Protocol, m: int, k: int)
    requires
        0 <= m < group_count(p),
        0 <= k < group_length(p),
    ensures
        p.sync_groups() == group_count(p),
        p.sync_length() == group_length(p),
        p.tones() == tone_count(p),
        p.sync_symbol(m, k) == group_symbol(p, m, k),
        p.sync_tone(m, k) == group_tone(p, m, k),
        0 <= group_symbol(p, m, k) < p.symbols(),
        0 <= group_tone(p, m, k) < tone_count(p),
{
}

/// No two symbols of a sync group that are side by side have one tone.
#[verifier::spinoff_prover]
proof fn lemma_tones_alternate(p: Protocol, m: int, k: int)
    requires
        0 <= m < group_count(p),
        0 <= k < group_length(p) - 1,
    ensures
        group_tone(p, m, k) != group_tone(p, m, k + 1),
{
}

/// Is a sync symbol compared with its neighbour `d`: the tone below, the tone above,
/// the same tone one symbol earlier or later in the group? It is if it was recorded
/// and that neighbour is there.
pub open spec fn is_compared(wf: Waterfall, c: Candidate, m: int, k: int, d: int) -> bool {
    let p = wf.protocol;
    let symbol = group_symbol(p, m, k);
    let tone = group_tone(p, m, k);
    recorded(wf, c, symbol) && if d == 0 {
        tone > 0
    } else if d == 1 {
        tone < tone_count(p) - 1
    } else if d == 2 {
        k > 0 && recorded(wf, c, symbol - 1)
    } else {
        k < group_length(p) - 1 && recorded(wf, c, symbol + 1)
    }
}

/// The level of a sync symbol minus that of its neighbour `d`.
pub open spec fn difference(wf: Waterfall, c: Candidate, m: int, k: int, d: int) -> int {
    let p = wf.protocol;
    let symbol = group_symbol(p, m, k);
    let tone = group_tone(p, m, k);
    received(wf, c, symbol, tone) - if d == 0 {
        received(wf, c, symbol, tone - 1)
    } else if d == 1 {
        received(wf, c, symbol, tone + 1)
    } else if d == 2 {
        received(wf, c, symbol - 1, tone)
    } else {
        received(wf, c, symbol + 1, tone)
    }
}

/// The sum of the first `n` values of a function.
pub open spec fn total(f: spec_fn(int) -> int, n: nat) -> int
    decreases n,
{
    if n == 0 {
        0
    } else {
        total(f, (n - 1) as nat) + f(n - 1)
    }
}

/// The levels of a symbol are those of the layout.
pub proof fn lemma_received(wf: Waterfall, c: Candidate, symbol: int, tone: int)
    ensures
        wf.start(c, symbol) + tone == cell_of(wf, c, symbol, tone),
        wf.level(c, symbol, tone) == received(wf, c, symbol, tone),
        wf.heard(c, symbol) == recorded(wf, c, symbol),
{
    decode::law_layout(wf, c, symbol);
}

/// What a sync symbol stands out by is the sum of its differences.
#[verifier::spinoff_prover]
pub proof fn law_gain_is_a_sum_of_differences(wf: Waterfall, c: Candidate, m: int, k: int)
    requires
        0 <= m < group_count(wf.protocol),
        0 <= k < group_length(wf.protocol),
    ensures
        ({
            let f = |d: int|
                if is_compared(wf, c, m, k, d) { difference(wf, c, m, k, d) } else { 0 };
            let g = |d: int| if is_compared(wf, c, m, k, d) { 1int } else { 0 };
            &&& wf.sync_gain(c, m, k).0 == f(0) + f(1) + f(2) + f(3)
            &&& wf.sync_gain(c, m, k).1 == g(0) + g(1) + g(2) + g(3)
        }),
{
    law_sync_groups(wf.protocol, m, k);
    let symbol = group_symbol(wf.protocol, m, k);
    let tone = group_tone(wf.protocol, m, k);
    lemma_received(wf, c, symbol, tone);
    lemma_received(wf, c, symbol, tone - 1);
    lemma_received(wf, c, symbol, tone + 1);
    lemma_received(wf, c, symbol - 1, tone);
    lemma_received(wf, c, symbol + 1, tone);
}

/// The difference that number `i` of all comparisons makes: four to a symbol, as
/// many symbols to a group as there are.
pub open spec fn nth_difference(wf: Waterfall, c: Candidate, i: int) -> int {
    let length = group_length(wf.protocol);
    let (m, k, d) = ((i / 4) / length, (i / 4) % length, i % 4);
    if is_compared(wf, c, m, k, d) { difference(wf, c, m, k, d) } else { 0 }
}

/// Is number `i` of all comparisons made?
pub open spec fn nth_compared(wf: Waterfall, c: Candidate, i: int) -> int {
    let length = group_length(wf.protocol);
    let (m, k, d) = ((i / 4) / length, (i / 4) % length, i % 4);
    if is_compared(wf, c, m, k, d) { 1 } else { 0 }
}

/// The sums that a score is made of, comparison by comparison.
#[verifier::spinoff_prover]
proof fn lemma_sums(wf: Waterfall, c: Candidate, n: nat)
    requires
        n <= group_count(wf.protocol) * group_length(wf.protocol),
    ensures
        wf.sync_sum(c, n).0 == total(|i: int| nth_difference(wf, c, i), 4 * n),
        wf.sync_sum(c, n).1 == total(|i: int| nth_compared(wf, c, i), 4 * n),
    decreases n,
{
    if n > 0 {
        lemma_sums(wf, c, (n - 1) as nat);
        let length = group_length(wf.protocol);
        let (m, k) = ((n - 1) / length, (n - 1) % length);
        assert(0 <= m < group_count(wf.protocol)) by (nonlinear_arith)
            requires
                m == (n - 1) / length,
                0 < n <= group_count(wf.protocol) * length,
                length > 0,
        ;
        law_sync_groups(wf.protocol, m, k);
        law_gain_is_a_sum_of_differences(wf, c, m, k);
        let f = |i: int| nth_difference(wf, c, i);
        let g = |i: int| nth_compared(wf, c, i);
        let b = 4 * (n - 1);
        assert(b / 4 == n - 1 && (b + 1) / 4 == n - 1 && (b + 2) / 4 == n - 1 && (b + 3) / 4 == n
            - 1);
        assert(b % 4 == 0 && (b + 1) % 4 == 1 && (b + 2) % 4 == 2 && (b + 3) % 4 == 3);
        lemma_four_more(f, b as nat);
        lemma_four_more(g, b as nat);
    }
}

/// Four more values of a sum.
proof fn lemma_four_more(f: spec_fn(int) -> int, n: nat)
    ensures
        total(f, n + 4) == total(f, n) + f(n as int) + f(n as int + 1) + f(n as int + 2) + f(n as int + 3),
{
    reveal_with_fuel(total, 5);
}

/// A score is the mean difference between the sync tones and their neighbours,
/// rounded toward zero: over every sync symbol that was recorded, whatever the time
/// offset, and every neighbour of it that is there. Without any it is zero.
#[verifier::spinoff_prover]
pub proof fn law_score_is_the_mean_difference(wf: Waterfall, c: Candidate)
    ensures
        ({
            let n = (4 * group_count(wf.protocol) * group_length(wf.protocol)) as nat;
            let sum = total(|i: int| nth_difference(wf, c, i), n);
            let count = total(|i: int| nth_compared(wf, c, i), n);
            let score = wf.sync_score(c);
            &&& count >= 0
            &&& count == 0 ==> score == 0
            &&& count > 0 && sum >= 0 ==> score * count <= sum < (score + 1) * count
            &&& count > 0 && sum <= 0 ==> (score - 1) * count < sum <= score * count
        }),
{
    let n = (group_count(wf.protocol) * group_length(wf.protocol)) as nat;
    law_sync_groups(wf.protocol, 0, 0);
    lemma_sums(wf, c, n);
    let g = |i: int| nth_compared(wf, c, i);
    lemma_no_less(g, 4 * n);
    let (sum, count) = wf.sync_sum(c, n);
    assert(4 * n == (4 * group_count(wf.protocol) * group_length(wf.protocol)) as nat);
    if count > 0 {
        let score = wf.sync_score(c);
        assert(sum >= 0 ==> (sum / count) * count <= sum < (sum / count + 1) * count)
            by (nonlinear_arith)
            requires
                count > 0,
        ;
        let u = -sum;
        assert(u >= 0 ==> (u / count) * count <= u < (u / count + 1) * count) by (nonlinear_arith)
            requires
                count > 0,
        ;
        if sum < 0 {
            let q = u / count;
            assert(score == -q);
            assert((-q - 1) * count == -((q + 1) * count) && (-q) * count == -(q * count))
                by (nonlinear_arith);
        } else if sum == 0 {
            assert(0int / count == 0) by (nonlinear_arith)
                requires
                    count > 0,
            ;
            assert((0 - 1) * count < 0 && 0 * count == 0) by (nonlinear_arith)
                requires
                    count > 0,
            ;
        }
    }
}

/// A sum of values that are not below zero is not.
proof fn lemma_no_less(f: spec_fn(int) -> int, n: nat)
    requires
        forall|i: int| 0 <= #[trigger] f(i),
    ensures
        0 <= total(f, n),
        forall|i: int| 0 <= i < n ==> #[trigger] f(i) <= total(f, n),
    decreases n,
{
    if n > 0 {
        lemma_no_less(f, (n - 1) as nat);
    }
}

/// Is a signal planted at a candidate: in every sync symbol that was recorded, the
/// sync tone at level `loud` and every other tone at level `quiet`?
pub open spec fn is_planted(wf: Waterfall, c: Candidate, loud: int, quiet: int) -> bool {
    forall|m: int, k: int, tone: int|
        #![trigger received(wf, c, group_symbol(wf.protocol, m, k), tone)]
        0 <= m < group_count(wf.protocol) && 0 <= k < group_length(wf.protocol) && recorded(
            wf,
            c,
            group_symbol(wf.protocol, m, k),
        ) && 0 <= tone < tone_count(wf.protocol) ==> received(
            wf,
            c,
            group_symbol(wf.protocol, m, k),
            tone,
        ) == if tone == group_tone(wf.protocol, m, k) { loud } else { quiet }
}

/// A planted sync symbol stands out by the whole difference from each neighbour.
#[verifier::spinoff_prover]
proof fn lemma_planted_gain(wf: Waterfall, c: Candidate, loud: int, quiet: int, m: int, k: int)
    requires
        is_planted(wf, c, loud, quiet),
        0 <= m < group_count(wf.protocol),
        0 <= k < group_length(wf.protocol),
    ensures
        wf.sync_gain(c, m, k).0 == (loud - quiet) * wf.sync_gain(c, m, k).1,
        0 <= wf.sync_gain(c, m, k).1,
        recorded(wf, c, group_symbol(wf.protocol, m, k)) ==> wf.sync_gain(c, m, k).1 > 0,
{
    let p = wf.protocol;
    let h = loud - quiet;
    law_gain_is_a_sum_of_differences(wf, c, m, k);
    law_sync_groups(p, m, k);
    let symbol = group_symbol(p, m, k);
    let tone = group_tone(p, m, k);
    assert(h * 0 == 0 && h * 1 == h && h * 2 == h + h && h * 3 == h + h + h && h * 4 == h + h + h + h)
        by (nonlinear_arith);
    if recorded(wf, c, symbol) {
        assert(received(wf, c, group_symbol(p, m, k), tone) == loud);
        assert(tone > 0 ==> received(wf, c, group_symbol(p, m, k), tone - 1) == quiet);
        assert(tone < tone_count(p) - 1 ==> received(wf, c, group_symbol(p, m, k), tone + 1)
            == quiet);
        if k > 0 {
            lemma_tones_alternate(p, m, k - 1);
            assert(group_symbol(p, m, k - 1) == symbol - 1);
            assert(recorded(wf, c, symbol - 1) ==> received(
                wf,
                c,
                group_symbol(p, m, k - 1),
                tone,
            ) == quiet);
        }
        if k < group_length(p) - 1 {
            lemma_tones_alternate(p, m, k);
            assert(group_symbol(p, m, k + 1) == symbol + 1);
            assert(recorded(wf, c, symbol + 1) ==> received(
                wf,
                c,
                group_symbol(p, m, k + 1),
                tone,
            ) == quiet);
        }
        assert(forall|d: int| 0 <= d < 4 && is_compared(wf, c, m, k, d) ==> difference(wf, c, m, k, d)
            == h);
    }
}

/// The sums over planted sync symbols.
proof fn lemma_planted_sums(wf: Waterfall, c: Candidate, loud: int, quiet: int, n: nat)
    requires
        is_planted(wf, c, loud, quiet),
        n <= group_count(wf.protocol) * group_length(wf.protocol),
    ensures
        wf.sync_sum(c, n).0 == (loud - quiet) * wf.sync_sum(c, n).1,
        0 <= wf.sync_sum(c, n).1,
        forall|m: int, k: int|
            #![trigger group_symbol(wf.protocol, m, k)]
            0 <= m && 0 <= k < group_length(wf.protocol) && m * group_length(wf.protocol) + k < n
                && recorded(wf, c, group_symbol(wf.protocol, m, k)) ==> wf.sync_sum(c, n).1 > 0,
    decreases n,
{
    let h = loud - quiet;
    if n > 0 {
        lemma_planted_sums(wf, c, loud, quiet, (n - 1) as nat);
        let length = group_length(wf.protocol);
        let (m, k) = ((n - 1) / length, (n - 1) % length);
        assert(0 <= m < group_count(wf.protocol)) by (nonlinear_arith)
            requires
                m == (n - 1) / length,
                0 < n <= group_count(wf.protocol) * length,
                length > 0,
        ;
        law_sync_groups(wf.protocol, m, k);
        lemma_planted_gain(wf, c, loud, quiet, m, k);
        let (a, b) = (wf.sync_sum(c, (n - 1) as nat).1, wf.sync_gain(c, m, k).1);
        assert(h * (a + b) == h * a + h * b) by (nonlinear_arith);
        assert forall|i: int, j: int|
            #![trigger group_symbol(wf.protocol, i, j)]
            0 <= i && 0 <= j < length && i * length + j < n && recorded(
                wf,
                c,
                group_symbol(wf.protocol, i, j),
            ) implies wf.sync_sum(c, n).1 > 0 by {
            if i * length + j == n - 1 {
                vstd::arithmetic::div_mod::lemma_fundamental_div_mod_converse(n - 1, length, i, j);
            }
        }
    } else {
        assert(h * 0 == 0) by (nonlinear_arith);
        assert forall|i: int, j: int|
            #![trigger group_symbol(wf.protocol, i, j)]
            0 <= i && 0 <= j < group_length(wf.protocol) && i * group_length(wf.protocol) + j
                < 0 implies false by {
            assert(i * group_length(wf.protocol) >= 0) by (nonlinear_arith)
                requires
                    i >= 0,
                    group_length(wf.protocol) > 0,
            ;
        }
    }
}

/// A planted signal scores what it is louder by, wherever in time it starts, if one
/// of its sync symbols was recorded.
#[verifier::spinoff_prover]
pub proof fn law_planted_signal_scores_its_level(
    wf: Waterfall,
    c: Candidate,
    loud: int,
    quiet: int,
    m: int,
    k: int,
)
    requires
        is_planted(wf, c, loud, quiet),
        0 <= m < group_count(wf.protocol),
        0 <= k < group_length(wf.protocol),
        recorded(wf, c, group_symbol(wf.protocol, m, k)),
    ensures
        wf.sync_score(c) == loud - quiet,
{
    law_sync_groups(wf.protocol, m, k);
    let (groups, length) = (group_count(wf.protocol), group_length(wf.protocol));
    let n = (groups * length) as nat;
    lemma_planted_sums(wf, c, loud, quiet, n);
    assert(m * length + k < groups * length) by (nonlinear_arith)
        requires
            0 <= m < groups,
            0 <= k < length,
    ;
    let (sum, count) = wf.sync_sum(c, n);
    let h = loud - quiet;
    assert(count > 0);
    assert(sum == h * count);
    vstd::arithmetic::div_mod::lemma_div_multiples_vanish(h, count);
    vstd::arithmetic::div_mod::lemma_div_multiples_vanish(-h, count);
    assert((-h) * count == -(h * count)) by (nonlinear_arith);
    assert(count * h == h * count && count * (-h) == (-h) * count) by (nonlinear_arith);
    assert(h >= 0 ==> h * count >= 0) by (nonlinear_arith)
        requires
            count > 0,
    ;
    assert(h < 0 ==> h * count < 0) by (nonlinear_arith)
        requires
            count > 0,
    ;
}

/// Is the candidate one of the starts of a search: from ten symbols before the slot
/// to nineteen into it, at every frequency at which all tones are within the bins,
/// and every subdivision of both?
pub open spec fn is_start(wf: Waterfall, c: Candidate) -> bool {
    &&& -10 <= c.time_offset <= 19
    &&& 0 <= c.freq_offset
    &&& c.freq_offset + tone_count(wf.protocol) <= wf.num_bins
    &&& (c.time_sub as int) < wf.time_osr
    &&& (c.freq_sub as int) < wf.freq_osr
}

/// Every start is looked at, and nothing else: what is found are starts with their
/// own scores, none below the minimum, each once, the highest first; and a start
/// that reaches the minimum is found unless every slot has one that scores no lower.
pub proof fn law_every_start_is_looked_at(
    wf: Waterfall,
    min_score: int,
    found: Seq<Candidate>,
    slots: int,
    c: Candidate,
)
    requires
        candidates::are_best(wf, min_score, found, slots),
    ensures
        found.len() <= slots,
        forall|i: int|
            #![trigger found[i]]
            0 <= i < found.len() ==> is_start(wf, found[i]) && found[i].score == wf.sync_score(
                found[i],
            ) && found[i].score >= min_score,
        forall|i: int, j: int|
            #![trigger found[i], found[j]]
            0 <= i < j < found.len() ==> found[i] != found[j] && found[i].score >= found[j].score,
        is_start(wf, c) && c.score == wf.sync_score(c) && c.score >= min_score ==> (exists|i: int|
            0 <= i < found.len() && #[trigger] found[i] == c) || (found.len() == slots && (forall|
            i: int,
        |
            #![trigger found[i]]
            0 <= i < found.len() ==> found[i].score >= c.score)),
{
    law_sync_groups(wf.protocol, 0, 0);
    assert forall|i: int|
        #![trigger found[i]]
        0 <= i < found.len() implies is_start(wf, found[i]) && found[i].score == wf.sync_score(
        found[i],
    ) && found[i].score >= min_score by {
        assert(candidates::is_eligible(wf, min_score, found[i]));
    }
    if is_start(wf, c) && c.score == wf.sync_score(c) && c.score >= min_score {
        assert(candidates::is_eligible(wf, min_score, c));
        if !found.contains(c) && slots > 0 {
            assert forall|i: int|
                #![trigger found[i]]
                0 <= i < found.len() implies found[i].score >= c.score by {
                assert(found[i].score >= found[slots - 1].score);
            }
        }
    }
}

/// A planted signal is found, wherever in time it starts: where no level is outside
/// those of its tones, the first candidate found scores as it does, and it is found
/// itself unless every slot has one that scores the same.
#[verifier::spinoff_prover]
pub proof fn law_planted_signal_is_found(
    wf: Waterfall,
    min_score: int,
    found: Seq<Candidate>,
    slots: int,
    c: Candidate,
    loud: int,
    quiet: int,
    m: int,
    k: int,
)
    requires
        candidates::are_best(wf, min_score, found, slots),
        candidates::is_searchable(wf),
        slots > 0,
        is_start(wf, c),
        is_planted(wf, c, loud, quiet),
        0 <= m < group_count(wf.protocol),
        0 <= k < group_length(wf.protocol),
        recorded(wf, c, group_symbol(wf.protocol, m, k)),
        quiet <= loud,
        loud - quiet >= min_score,
        c.score == loud - quiet,
        forall|i: int|
            #![trigger wf.mag@[i]]
            0 <= i < wf.mag@.len() ==> quiet <= wf.mag@[i] <= loud,
    ensures
        found.len() > 0,
        found[0].score == loud - quiet,
        (exists|i: int| 0 <= i < found.len() && #[trigger] found[i] == c) || (found.len() == slots
            && (forall|i: int|
            #![trigger found[i]]
            0 <= i < found.len() ==> found[i].score == loud - quiet)),
{
    law_planted_signal_scores_its_level(wf, c, loud, quiet, m, k);
    law_every_start_is_looked_at(wf, min_score, found, slots, c);
    law_sync_groups(wf.protocol, 0, 0);
    assert(candidates::is_eligible(wf, min_score, c));
    candidates::law_best_comes_first(wf, min_score, found, slots, c);
    assert forall|i: int|
        #![trigger found[i]]
        0 <= i < found.len() implies found[i].score <= loud - quiet by {
        assert(candidates::is_eligible(wf, min_score, found[i]));
        candidates::lemma_grid_is_readable(wf, found[i]);
        decode::law_score_is_within_the_levels(wf, found[i], quiet, loud);
    }
}

/// Is a cell of a symbol there?
pub open spec fn is_present(wf: Waterfall, c: Candidate, symbol: int, tone: int) -> bool {
    0 <= cell_of(wf, c, symbol, tone) < wf.mag@.len()
}

/// A candidate can be scored exactly if the cells of a block can be counted and every
/// cell that is compared is there.
#[verifier::spinoff_prover]
pub proof fn law_what_can_be_scored(wf: Waterfall, c: Candidate)
    ensures
        wf.sync_readable(c) <==> {
            &&& wf.time_osr * wf.freq_osr <= usize::MAX
            &&& wf.time_osr * wf.freq_osr * wf.num_bins <= usize::MAX
            &&& forall|m: int, k: int|
                #![trigger group_symbol(wf.protocol, m, k)]
                0 <= m < group_count(wf.protocol) && 0 <= k < group_length(wf.protocol) && recorded(
                    wf,
                    c,
                    group_symbol(wf.protocol, m, k),
                ) ==> {
                    let symbol = group_symbol(wf.protocol, m, k);
                    let tone = group_tone(wf.protocol, m, k);
                    &&& is_present(wf, c, symbol, tone)
                    &&& is_compared(wf, c, m, k, 0) ==> is_present(wf, c, symbol, tone - 1)
                    &&& is_compared(wf, c, m, k, 1) ==> is_present(wf, c, symbol, tone + 1)
                    &&& is_compared(wf, c, m, k, 2) ==> is_present(wf, c, symbol - 1, tone)
                    &&& is_compared(wf, c, m, k, 3) ==> is_present(wf, c, symbol + 1, tone)
                }
        },
{
    law_sync_groups(wf.protocol, 0, 0);
    assert forall|m: int, k: int|
        #![trigger group_symbol(wf.protocol, m, k)]
        #![trigger wf.sync_reads(c, m, k)]
        0 <= m < group_count(wf.protocol) && 0 <= k < group_length(
            wf.protocol,
        ) implies wf.sync_reads(c, m, k) == (recorded(wf, c, group_symbol(wf.protocol, m, k)) ==> {
        let symbol = group_symbol(wf.protocol, m, k);
        let tone = group_tone(wf.protocol, m, k);
        &&& is_present(wf, c, symbol, tone)
        &&& is_compared(wf, c, m, k, 0) ==> is_present(wf, c, symbol, tone - 1)
        &&& is_compared(wf, c, m, k, 1) ==> is_present(wf, c, symbol, tone + 1)
        &&& is_compared(wf, c, m, k, 2) ==> is_present(wf, c, symbol - 1, tone)
        &&& is_compared(wf, c, m, k, 3) ==> is_present(wf, c, symbol + 1, tone)
    }) by {
        law_sync_groups(wf.protocol, m, k);
        let symbol = group_symbol(wf.protocol, m, k);
        let tone = group_tone(wf.protocol, m, k);
        lemma_received(wf, c, symbol, tone);
        lemma_received(wf, c, symbol, tone - 1);
        lemma_received(wf, c, symbol, tone + 1);
        lemma_received(wf, c, symbol - 1, tone);
        lemma_received(wf, c, symbol + 1, tone);
    }
}

/// A spectrogram that has all its blocks can be searched, and so can any other in which
/// every start can be scored.
pub proof fn law_what_can_be_searched(wf: Waterfall)
    ensures
        wf.time_osr * wf.freq_osr <= usize::MAX && wf.time_osr * wf.freq_osr * wf.num_bins
            <= usize::MAX && wf.num_blocks * (wf.time_osr * wf.freq_osr * wf.num_bins)
            <= wf.mag@.len() ==> candidates::is_searchable(wf),
        (forall|c: Candidate| is_start(wf, c) ==> #[trigger] wf.sync_readable(c))
            ==> candidates::is_searchable(wf),
{
    law_sync_groups(wf.protocol, 0, 0);
}

/// Does the search come to one start before another: at a lower time subdivision, then
/// frequency subdivision, then time, then frequency?
pub open spec fn is_earlier(a: Candidate, b: Candidate) -> bool {
    if a.time_sub != b.time_sub {
        a.time_sub < b.time_sub
    } else if a.freq_sub != b.freq_sub {
        a.freq_sub < b.freq_sub
    } else if a.time_offset != b.time_offset {
        a.time_offset < b.time_offset
    } else {
        a.freq_offset < b.freq_offset
    }
}

/// Of starts that score the same, the first to come are served: fewer than there are
/// slots come before one that is found and score as high.
pub proof fn law_first_come_first_served(
    wf: Waterfall,
    min_score: int,
    found: Seq<Candidate>,
    slots: int,
    i: int,
    w: Seq<Candidate>,
)
    requires
        candidates::are_best(wf, min_score, found, slots),
        0 <= i < found.len(),
        forall|j: int, k: int|
            #![trigger w[j], w[k]]
            0 <= j < k < w.len() ==> w[j] != w[k],
        forall|j: int|
            #![trigger w[j]]
            0 <= j < w.len() ==> is_start(wf, w[j]) && w[j].score == wf.sync_score(w[j]) && w[j].score
                >= min_score && is_earlier(w[j], found[i]) && w[j].score >= found[i].score,
    ensures
        w.len() < slots,
{
    law_sync_groups(wf.protocol, 0, 0);
    assert(w.no_duplicates());
    assert forall|j: int| 0 <= j < w.len() implies candidates::is_eligible(
        wf,
        min_score,
        #[trigger] w[j],
    ) && candidates::is_before(w[j], found[i]) && w[j].score >= found[i].score by {}
    assert(candidates::had_a_slot(wf, min_score, found[i], slots));
}

} // verus!
