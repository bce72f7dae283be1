//! The sync search: the best-scoring starts, kept in a heap.

use vstd::prelude::*;
use crate::decode;
use crate::decode::{sync_score, Candidate, Waterfall};

verus! {

broadcast use vstd::seq_lib::group_to_multiset_ensures;

/// Are the first `n` candidates a heap: none below its parent's score?
pub open spec fn is_heap(s: Seq<Candidate>, n: int) -> bool {
    forall|i: int| 0 < i < n ==> s[(i - 1) / 2].score <= (#[trigger] s[i]).score
}

/// Are the scores from `from` to `to` in descending order?
pub open spec fn is_descending(s: Seq<Candidate>, from: int, to: int) -> bool {
    forall|i: int, j: int| from <= i <= j < to ==> (#[trigger] s[i]).score >= (#[trigger] s[j]).score
}

/// The root of a heap has the lowest score.
proof fn lemma_root_is_lowest(s: Seq<Candidate>, n: int, i: int)
    requires
        is_heap(s, n),
        0 <= i < n,
    ensures
        s[0].score <= s[i].score,
    decreases i,
{
    if i > 0 {
        lemma_root_is_lowest(s, n, (i - 1) / 2);
    }
}

/// Exchange two candidates.
fn exchange(heap: &mut [Candidate], i: usize, j: usize)
    requires
        i < old(heap)@.len(),
        j < old(heap)@.len(),
    ensures
        final(heap)@ == old(heap)@.update(i as int, old(heap)@[j as int]).update(
            j as int,
            old(heap)@[i as int],
        ),
{
    let (a, b): (Candidate, Candidate) = (heap[i], heap[j]);
    heap[i] = b;
    heap[j] = a;
}

/// An exchange within the first `n` candidates keeps them, in another order.
proof fn lemma_exchange(s: Seq<Candidate>, n: int, i: int, j: int)
    requires
        0 <= i < n <= s.len(),
        0 <= j < n,
    ensures
        s.update(i, s[j]).update(j, s[i]).take(n).to_multiset() == s.take(n).to_multiset(),
{
    let t = s.take(n);
    assert(s.update(i, s[j]).update(j, s[i]).take(n) =~= t.update(i, t[j]).update(j, t[i]));
    vstd::seq_lib::to_multiset_update(t, i, t[j]);
    vstd::seq_lib::to_multiset_update(t.update(i, t[j]), j, t[i]);
    let m = t.to_multiset();
    assert(m.count(t[i]) > 0 && m.count(t[j]) > 0) by {
        assert(t.contains(t[i]) && t.contains(t[j]));
    }
    assert(t.update(i, t[j]).update(j, t[i]).to_multiset() =~= m);
}

/// Sink the root of the first `n` candidates to its place.
#[verifier::spinoff_prover]
fn heapify_down(heap: &mut [Candidate], n: usize)
    requires
        n <= old(heap)@.len(),
        forall|i: int|
            0 < i < n && (i - 1) / 2 != 0 ==> old(heap)@[(i - 1) / 2].score <= (#[trigger] old(
                heap,
            )@[i]).score,
    ensures
        final(heap)@.len() == old(heap)@.len(),
        is_heap(final(heap)@, n as int),
        final(heap)@.take(n as int).to_multiset() == old(heap)@.take(n as int).to_multiset(),
        forall|i: int| n <= i < old(heap)@.len() ==> final(heap)@[i] == old(heap)@[i],
{
    let mut current: usize = 0;
    let mut sunk: bool = false;
    while !sunk && current < n / 2
        invariant
            n <= heap@.len() == old(heap)@.len(),
            current < n || n == 0,
            sunk ==> is_heap(heap@, n as int),
            forall|i: int|
                0 < i < n && (i - 1) / 2 != current ==> heap@[(i - 1) / 2].score <= (
                #[trigger] heap@[i]).score,
            forall|i: int|
                0 < i < n && (i - 1) / 2 == current && current > 0 ==> heap@[(current - 1) / 2].score
                    <= (#[trigger] heap@[i]).score,
            heap@.take(n as int).to_multiset() == old(heap)@.take(n as int).to_multiset(),
            forall|i: int| n <= i < old(heap)@.len() ==> heap@[i] == old(heap)@[i],
        decreases n - current, if sunk { 0int } else { 1 },
    {
        let left: usize = 2 * current + 1;
        let right: usize = left + 1;
        let mut smallest: usize = current;
        if heap[left].score < heap[smallest].score {
            smallest = left;
        }
        if right < n && heap[right].score < heap[smallest].score {
            smallest = right;
        }
        if smallest == current {
            assert forall|i: int| 0 < i < n implies heap@[(i - 1) / 2].score <= (
            #[trigger] heap@[i]).score by {
                if (i - 1) / 2 == current {
                    assert(i == left || i == right);
                }
            }
            sunk = true;
        } else {
            let ghost before = heap@;
            exchange(heap, smallest, current);
            proof {
                lemma_exchange(before, n as int, smallest as int, current as int);
                assert forall|i: int| 0 < i < n && (i - 1) / 2 != smallest implies heap@[(i - 1)
                    / 2].score <= (#[trigger] heap@[i]).score by {
                    assert(before[i].score == before[i].score);
                    if (i - 1) / 2 == current {
                        assert(i == left || i == right);
                    }
                }
            }
            current = smallest;
        }
    }
    if !sunk {
        assert forall|i: int| 0 < i < n implies heap@[(i - 1) / 2].score <= (
        #[trigger] heap@[i]).score by {
            assert((i - 1) / 2 < n / 2);
        }
    }
}

/// Raise the last of the first `n` candidates to its place.
#[verifier::spinoff_prover]
fn heapify_up(heap: &mut [Candidate], n: usize)
    requires
        0 < n <= old(heap)@.len(),
        is_heap(old(heap)@, n - 1),
    ensures
        final(heap)@.len() == old(heap)@.len(),
        is_heap(final(heap)@, n as int),
        final(heap)@.take(n as int).to_multiset() == old(heap)@.take(n as int).to_multiset(),
        forall|i: int| n <= i < old(heap)@.len() ==> final(heap)@[i] == old(heap)@[i],
{
    let mut current: usize = n - 1;
    while current > 0 && heap[current].score < heap[(current - 1) / 2].score
        invariant
            current < n <= heap@.len() == old(heap)@.len(),
            forall|i: int|
                0 < i < n && i != current ==> heap@[(i - 1) / 2].score <= (#[trigger] heap@[i]).score,
            forall|i: int|
                0 < i < n && (i - 1) / 2 == current && current > 0 ==> heap@[(current - 1) / 2].score
                    <= (#[trigger] heap@[i]).score,
            heap@.take(n as int).to_multiset() == old(heap)@.take(n as int).to_multiset(),
            forall|i: int| n <= i < old(heap)@.len() ==> heap@[i] == old(heap)@[i],
        decreases current,
    {
        let parent: usize = (current - 1) / 2;
        let ghost before = heap@;
        exchange(heap, parent, current);
        proof {
            lemma_exchange(before, n as int, parent as int, current as int);
            assert forall|i: int| 0 < i < n && i != parent implies heap@[(i - 1) / 2].score <= (
            #[trigger] heap@[i]).score by {
                assert(before[i].score == before[i].score);
                if parent > 0 {
                    assert(before[parent as int].score >= before[(parent - 1) / 2].score);
                }
            }
            assert forall|i: int| 0 < i < n && (i - 1) / 2 == parent && parent > 0 implies heap@[(
            parent - 1) / 2].score <= (#[trigger] heap@[i]).score by {
                assert(before[i].score == before[i].score);
                assert(before[parent as int].score >= before[(parent - 1) / 2].score);
            }
        }
        current = parent;
    }
}

/// Do `kept` and `more` together come down to the first `n` of `heap`, where what
/// is not there scores no higher than the root of a full heap?
pub open spec fn keeps_best(
    kept: Seq<Candidate>,
    more: Candidate,
    heap: Seq<Candidate>,
    n: int,
) -> bool {
    &&& forall|c: Candidate| #[trigger]
        heap.take(n).contains(c) ==> kept.contains(c) || c == more
    &&& forall|c: Candidate|
        kept.contains(c) || c == more ==> #[trigger] heap.take(n).contains(c) || (n == heap.len()
            && c.score <= heap[0].score)
}

/// Equal multisets have the same members, each as often.
proof fn lemma_same_members(a: Seq<Candidate>, b: Seq<Candidate>)
    requires
        a.to_multiset() == b.to_multiset(),
    ensures
        forall|c: Candidate|
            #![trigger a.contains(c)]
            #![trigger b.contains(c)]
            a.contains(c) == b.contains(c),
        a.no_duplicates() == b.no_duplicates(),
        a.len() == b.len(),
{
    assert forall|c: Candidate| #[trigger] a.contains(c) == b.contains(c) by {
        vstd::seq_lib::to_multiset_contains(a, c);
        vstd::seq_lib::to_multiset_contains(b, c);
    }
    if a.no_duplicates() {
        a.lemma_multiset_has_no_duplicates();
        b.lemma_multiset_has_no_duplicates_conv();
    }
    if b.no_duplicates() {
        b.lemma_multiset_has_no_duplicates();
        a.lemma_multiset_has_no_duplicates_conv();
    }
    vstd::seq_lib::to_multiset_len(a);
    vstd::seq_lib::to_multiset_len(b);
}

/// Keep a candidate among the best: the heap grows until it is full, and then
/// the lowest score gives way to a higher one.
#[verifier::spinoff_prover]
fn keep(heap: &mut [Candidate], size: usize, cand: Candidate) -> (r: usize)
    requires
        0 < old(heap)@.len(),
        size <= old(heap)@.len(),
        is_heap(old(heap)@, size as int),
        old(heap)@.take(size as int).no_duplicates(),
        !old(heap)@.take(size as int).contains(cand),
    ensures
        final(heap)@.len() == old(heap)@.len(),
        size <= r <= old(heap)@.len(),
        is_heap(final(heap)@, r as int),
        final(heap)@.take(r as int).no_duplicates(),
        keeps_best(old(heap)@.take(size as int), cand, final(heap)@, r as int),
        size == old(heap)@.len() ==> old(heap)@[0].score <= final(heap)@[0].score,
        size == old(heap)@.len() && final(heap)@.take(r as int).contains(cand) ==> cand.score > old(
            heap,
        )@[0].score,
        forall|i: int| r <= i < old(heap)@.len() ==> final(heap)@[i] == old(heap)@[i],
{
    let capacity: usize = heap.len();
    let ghost first = heap@;
    let ghost kept = heap@.take(size as int);
    let mut n: usize = size;
    proof {
        assert(forall|c: Candidate| kept.contains(c) ==> c.score >= first[0].score) by {
            assert forall|c: Candidate| kept.contains(c) implies c.score >= first[0].score by {
                let i = choose|i: int| 0 <= i < kept.len() && kept[i] == c;
                lemma_root_is_lowest(first, size as int, i);
            }
        }
    }
    if size == capacity {
        if cand.score <= heap[0].score {
            return size;
        }
        n = size - 1;
        heap[0] = heap[n];
        let ghost moved = heap@;
        heapify_down(heap, n);
        proof {
            lemma_without_root(first, moved, size as int);
            lemma_same_members(moved.take(n as int), heap@.take(n as int));
        }
    }
    let ghost rest = heap@.take(n as int);
    heap[n] = cand;
    n += 1;
    let ghost added = heap@;
    assert(is_heap(added, n - 1));
    heapify_up(heap, n);
    proof {
        assert(added.take(n as int) =~= rest.push(cand));
        lemma_same_members(added.take(n as int), heap@.take(n as int));
        lemma_push_members(rest, cand);
        assert(heap@.take(n as int)[0] == heap@[0]);
        assert(heap@.take(n as int).contains(heap@[0]));
    }
    n
}

/// What a pushed candidate adds.
proof fn lemma_push_members(s: Seq<Candidate>, cand: Candidate)
    requires
        s.no_duplicates(),
        !s.contains(cand),
    ensures
        s.push(cand).no_duplicates(),
        forall|c: Candidate| #[trigger] s.push(cand).contains(c) == (s.contains(c) || c == cand),
{
    let t = s.push(cand);
    assert forall|c: Candidate| #[trigger] t.contains(c) == (s.contains(c) || c == cand) by {
        if s.contains(c) {
            let i = choose|i: int| 0 <= i < s.len() && s[i] == c;
            assert(t[i] == c);
        }
        if c == cand {
            assert(t[s.len() as int] == c);
        }
        if t.contains(c) {
            let i = choose|i: int| 0 <= i < t.len() && t[i] == c;
            if i < s.len() {
                assert(s[i] == c);
            }
        }
    }
}

/// What is left when the last of `n` candidates takes the place of the first.
proof fn lemma_without_root(s: Seq<Candidate>, moved: Seq<Candidate>, n: int)
    requires
        0 < n <= s.len(),
        moved == s.update(0, s[n - 1]),
        s.take(n).no_duplicates(),
    ensures
        moved.take(n - 1).no_duplicates(),
        forall|c: Candidate| #[trigger]
            moved.take(n - 1).contains(c) == (s.take(n).contains(c) && c != s[0]),
{
    let (t, u) = (s.take(n), moved.take(n - 1));
    assert forall|i: int, j: int| 0 <= i < n && 0 <= j < n && i != j implies s[i] != s[j] by {
        assert(t[i] != t[j]);
    }
    assert forall|c: Candidate| #[trigger] u.contains(c) == (t.contains(c) && c != s[0]) by {
        if u.contains(c) {
            let i = choose|i: int| 0 <= i < u.len() && u[i] == c;
            if i == 0 {
                assert(t[n - 1] == c);
            } else {
                assert(t[i] == c);
            }
        }
        if t.contains(c) && c != s[0] {
            let i = choose|i: int| 0 <= i < t.len() && t[i] == c;
            if i == n - 1 {
                assert(u[0] == c);
            } else {
                assert(u[i] == c);
            }
        }
    }
}

/// Sort a heap of `size` candidates by descending score: the lowest goes to the
/// end, time and again.
#[verifier::spinoff_prover]
fn sort_heap(heap: &mut [Candidate], size: usize)
    requires
        size <= old(heap)@.len(),
        is_heap(old(heap)@, size as int),
    ensures
        final(heap)@.len() == old(heap)@.len(),
        is_descending(final(heap)@, 0, size as int),
        final(heap)@.take(size as int).to_multiset() == old(heap)@.take(size as int).to_multiset(),
        forall|i: int| size <= i < old(heap)@.len() ==> final(heap)@[i] == old(heap)@[i],
{
    let mut unsorted: usize = size;
    while unsorted > 1
        invariant
            unsorted <= size <= heap@.len() == old(heap)@.len(),
            is_heap(heap@, unsorted as int),
            is_descending(heap@, unsorted as int, size as int),
            forall|i: int, j: int|
                0 <= i < unsorted <= j < size ==> (#[trigger] heap@[i]).score >= (
                #[trigger] heap@[j]).score,
            heap@.take(size as int).to_multiset() == old(heap)@.take(size as int).to_multiset(),
            forall|i: int| size <= i < old(heap)@.len() ==> heap@[i] == old(heap)@[i],
        decreases unsorted,
    {
        let ghost before = heap@;
        proof {
            assert forall|i: int| 0 <= i < unsorted implies before[0].score <= (
            #[trigger] before[i]).score by {
                lemma_root_is_lowest(before, unsorted as int, i);
            }
        }
        exchange(heap, unsorted - 1, 0);
        proof {
            lemma_exchange(before, size as int, unsorted - 1, 0);
        }
        unsorted -= 1;
        let ghost moved = heap@;
        heapify_down(heap, unsorted);
        proof {
            lemma_prefix_multiset(moved, heap@, unsorted as int, size as int);
            lemma_same_members(moved.take(unsorted as int), heap@.take(unsorted as int));
            assert forall|i: int, j: int| 0 <= i < unsorted <= j < size implies (
            #[trigger] heap@[i]).score >= (#[trigger] heap@[j]).score by {
                assert(heap@.take(unsorted as int)[i] == heap@[i]);
                assert(moved.take(unsorted as int).contains(heap@[i]));
                let k = choose|k: int|
                    0 <= k < unsorted && moved.take(unsorted as int)[k] == heap@[i];
                assert(moved[k] == heap@[i]);
                assert(heap@[j] == moved[j]);
            }
        }
    }
}

/// Two sequences that differ within a prefix alone, and there in order only, have
/// the same members in every longer prefix.
proof fn lemma_prefix_multiset(a: Seq<Candidate>, b: Seq<Candidate>, k: int, n: int)
    requires
        0 <= k <= n <= a.len(),
        a.len() == b.len(),
        a.take(k).to_multiset() == b.take(k).to_multiset(),
        forall|i: int| k <= i < n ==> a[i] == b[i],
    ensures
        a.take(n).to_multiset() == b.take(n).to_multiset(),
    decreases n,
{
    if k < n {
        lemma_prefix_multiset(a, b, k, n - 1);
        assert(a.take(n) =~= a.take(n - 1).push(a[n - 1]));
        assert(b.take(n) =~= b.take(n - 1).push(b[n - 1]));
    }
}

/// Is the candidate one that the search looks at: 30 time offsets from -10, every
/// frequency offset at which all tones are within the bins, and every subdivision
/// of both?
pub open spec fn in_grid(wf: Waterfall, c: Candidate) -> bool {
    &&& c.time_sub < wf.time_osr
    &&& c.freq_sub < wf.freq_osr
    &&& -10 <= c.time_offset < 20
    &&& 0 <= c.freq_offset
    &&& c.freq_offset + wf.protocol.tones() <= wf.num_bins
}

/// Is the candidate one that the search looks at, with its score, and does that
/// reach the minimum?
pub open spec fn is_eligible(wf: Waterfall, min_score: int, c: Candidate) -> bool {
    in_grid(wf, c) && c.score == wf.sync_score(c) && c.score >= min_score
}

/// Can the search read every candidate it looks at? It can in a spectrogram that
/// has all its blocks.
pub open spec fn is_searchable(wf: Waterfall) -> bool {
    wf.complete() || forall|c: Candidate| in_grid(wf, c) ==> #[trigger] wf.sync_readable(c)
}

/// Are these the best candidates of a spectrogram, at most `slots` of them? They
/// are by descending score, and each is there once. A candidate that was good
/// enough and is not there scores no higher than the last that is, and every slot
/// is taken. One that is there had a slot when the search came to it: of those that
/// score the same, the first to come are served.
pub open spec fn are_best(wf: Waterfall, min_score: int, found: Seq<Candidate>, slots: int) -> bool {
    &&& found.len() <= slots
    &&& is_descending(found, 0, found.len() as int)
    &&& forall|i: int|
        0 <= i < found.len() ==> is_eligible(wf, min_score, #[trigger] found[i])
    &&& found.no_duplicates()
    &&& forall|c: Candidate|
        #![trigger is_eligible(wf, min_score, c)]
        is_eligible(wf, min_score, c) ==> found.contains(c) || (found.len() == slots && (slots == 0
            || c.score <= found[slots - 1].score))
    &&& forall|i: int|
        0 <= i < found.len() ==> had_a_slot(wf, min_score, #[trigger] found[i], slots)
}

/// Does the search come to one candidate before another? It goes through the time
/// subdivisions, for each of them through the frequency subdivisions, for each of
/// those through the time offsets, and last through the frequency offsets.
pub open spec fn is_before(a: Candidate, b: Candidate) -> bool {
    ||| a.time_sub < b.time_sub
    ||| a.time_sub == b.time_sub && a.freq_sub < b.freq_sub
    ||| a.time_sub == b.time_sub && a.freq_sub == b.freq_sub && a.time_offset < b.time_offset
    ||| a.time_sub == b.time_sub && a.freq_sub == b.freq_sub && a.time_offset == b.time_offset
        && a.freq_offset < b.freq_offset
}

/// Was there a slot for the candidate when the search came to it: had fewer than
/// `slots` before it that score as high?
pub open spec fn had_a_slot(wf: Waterfall, min_score: int, c: Candidate, slots: int) -> bool {
    forall|w: Seq<Candidate>| #[trigger]
        w.no_duplicates() && (forall|i: int|
            0 <= i < w.len() ==> is_eligible(wf, min_score, #[trigger] w[i]) && is_before(w[i], c)
                && w[i].score >= c.score) ==> w.len() < slots
}

/// The lesser of two numbers.
spec fn least(a: int, b: int) -> int {
    if a < b { a } else { b }
}

/// Does the search come to the candidate before it comes to this place?
spec fn comes_before(c: Candidate, ts: int, fs: int, to: int, fo: int) -> bool {
    ||| c.time_sub < ts
    ||| c.time_sub == ts && c.freq_sub < fs
    ||| c.time_sub == ts && c.freq_sub == fs && c.time_offset < to
    ||| c.time_sub == ts && c.freq_sub == fs && c.time_offset == to && c.freq_offset < fo
}

/// Are the first `n` of `heap` a heap of the best candidates up to this place?
spec fn best_so_far(
    wf: Waterfall,
    min_score: int,
    heap: Seq<Candidate>,
    n: int,
    ts: int,
    fs: int,
    to: int,
    fo: int,
) -> bool {
    &&& 0 <= n <= heap.len()
    &&& is_heap(heap, n)
    &&& heap.take(n).no_duplicates()
    &&& forall|c: Candidate| #[trigger]
        heap.take(n).contains(c) ==> is_eligible(wf, min_score, c) && comes_before(c, ts, fs, to, fo)
    &&& forall|c: Candidate|
        is_eligible(wf, min_score, c) && comes_before(c, ts, fs, to, fo)
            ==> #[trigger] heap.take(n).contains(c) || (n == heap.len() && c.score <= heap[0].score)
    &&& forall|c: Candidate| #[trigger]
        heap.take(n).contains(c) ==> had_a_slot(wf, min_score, c, heap.len() as int)
}

/// Distinct members of a sequence are no more than it has.
proof fn lemma_no_more_members(w: Seq<Candidate>, s: Seq<Candidate>)
    requires
        w.no_duplicates(),
        forall|i: int| 0 <= i < w.len() ==> s.contains(#[trigger] w[i]),
    ensures
        w.len() <= s.len(),
{
    w.unique_seq_to_set();
    s.lemma_cardinality_of_set();
    vstd::seq_lib::seq_to_set_is_finite(s);
    assert(w.to_set().subset_of(s.to_set()));
    vstd::set_lib::lemma_len_subset(w.to_set(), s.to_set());
}

/// A candidate that is kept when the search comes to it has a slot.
#[verifier::spinoff_prover]
proof fn lemma_kept_had_a_slot(
    wf: Waterfall,
    min_score: int,
    heap: Seq<Candidate>,
    n: int,
    cand: Candidate,
)
    requires
        heap.len() > 0,
        best_so_far(
            wf,
            min_score,
            heap,
            n,
            cand.time_sub as int,
            cand.freq_sub as int,
            cand.time_offset as int,
            cand.freq_offset as int,
        ),
        n == heap.len() ==> cand.score > heap[0].score,
    ensures
        had_a_slot(wf, min_score, cand, heap.len() as int),
{
    let s = heap.take(n);
    assert forall|w: Seq<Candidate>| #[trigger]
        w.no_duplicates() && (forall|i: int|
            0 <= i < w.len() ==> is_eligible(wf, min_score, #[trigger] w[i]) && is_before(w[i], cand)
                && w[i].score >= cand.score) implies w.len() < heap.len() by {
        assert forall|i: int| 0 <= i < w.len() implies s.contains(#[trigger] w[i]) by {
            assert(comes_before(
                w[i],
                cand.time_sub as int,
                cand.freq_sub as int,
                cand.time_offset as int,
                cand.freq_offset as int,
            ));
        }
        if n < heap.len() {
            lemma_no_more_members(w, s);
        } else {
            let more = w.push(heap[0]);
            assert(s[0] == heap[0]);
            assert(s.contains(heap[0]));
            assert(more.no_duplicates()) by {
                assert forall|i: int, j: int|
                    0 <= i < more.len() && 0 <= j < more.len() && i != j implies more[i] != more[j] by {
                    if i < w.len() && j < w.len() {
                        assert(w[i] != w[j]);
                    } else if i < w.len() {
                        assert(w[i].score > heap[0].score);
                    } else {
                        assert(w[j].score > heap[0].score);
                    }
                }
            }
            assert forall|i: int| 0 <= i < more.len() implies s.contains(#[trigger] more[i]) by {
                if i < w.len() {
                    assert(more[i] == w[i]);
                }
            }
            lemma_no_more_members(more, s);
        }
    }
}

/// A score depends on the place alone.
proof fn lemma_score_of_place(wf: Waterfall, a: Candidate, b: Candidate, n: nat)
    requires
        a.time_offset == b.time_offset,
        a.freq_offset == b.freq_offset,
        a.time_sub == b.time_sub,
        a.freq_sub == b.freq_sub,
    ensures
        wf.sync_sum(a, n) == wf.sync_sum(b, n),
    decreases n,
{
    if n > 0 {
        lemma_score_of_place(wf, a, b, (n - 1) as nat);
    }
}

/// Two candidates at one place have one score.
proof fn lemma_same_place(wf: Waterfall, a: Candidate, b: Candidate)
    requires
        a.time_offset == b.time_offset,
        a.freq_offset == b.freq_offset,
        a.time_sub == b.time_sub,
        a.freq_sub == b.freq_sub,
    ensures
        wf.sync_score(a) == wf.sync_score(b),
{
    lemma_score_of_place(
        wf,
        a,
        b,
        (wf.protocol.sync_groups() * wf.protocol.sync_length()) as nat,
    );
}

/// The search can read what it looks at.
pub proof fn lemma_grid_is_readable(wf: Waterfall, c: Candidate)
    requires
        is_searchable(wf),
        in_grid(wf, c),
    ensures
        wf.sync_readable(c),
{
    if wf.complete() {
        decode::lemma_complete_is_readable(wf, c);
        decode::lemma_readable_is_enough(wf, c);
    }
}

/// Look at one place: score the candidate there and keep it if it is good enough.
#[verifier::spinoff_prover]
fn visit(wf: &Waterfall, heap: &mut [Candidate], size: usize, place: Candidate, min_score: i16) -> (r:
    usize)
    requires
        is_searchable(*wf),
        in_grid(*wf, place),
        old(heap)@.len() > 0,
        best_so_far(
            *wf,
            min_score as int,
            old(heap)@,
            size as int,
            place.time_sub as int,
            place.freq_sub as int,
            place.time_offset as int,
            place.freq_offset as int,
        ),
    ensures
        final(heap)@.len() == old(heap)@.len(),
        size <= r,
        best_so_far(
            *wf,
            min_score as int,
            final(heap)@,
            r as int,
            place.time_sub as int,
            place.freq_sub as int,
            place.time_offset as int,
            place.freq_offset + 1,
        ),
        forall|i: int| r <= i < old(heap)@.len() ==> final(heap)@[i] == old(heap)@[i],
{
    proof {
        lemma_grid_is_readable(*wf, place);
    }
    let score: i32 = sync_score(wf, &place);
    let cand: Candidate = Candidate { score: score as i16, ..place };
    proof {
        lemma_same_place(*wf, cand, place);
        assert forall|c: Candidate|
            is_eligible(*wf, min_score as int, c) && comes_before(
                c,
                place.time_sub as int,
                place.freq_sub as int,
                place.time_offset as int,
                place.freq_offset + 1,
            ) implies c == cand || comes_before(
            c,
            place.time_sub as int,
            place.freq_sub as int,
            place.time_offset as int,
            place.freq_offset as int,
        ) by {
            if c.time_sub == place.time_sub && c.freq_sub == place.freq_sub && c.time_offset
                == place.time_offset && c.freq_offset == place.freq_offset {
                lemma_same_place(*wf, c, cand);
            }
        }
    }
    if cand.score < min_score {
        return size;
    }
    let ghost before = heap@;
    let r: usize = keep(heap, size, cand);
    proof {
        assert forall|c: Candidate| #[trigger] heap@.take(r as int).contains(c) implies had_a_slot(
            *wf,
            min_score as int,
            c,
            heap@.len() as int,
        ) by {
            if c == cand {
                lemma_kept_had_a_slot(*wf, min_score as int, before, size as int, cand);
            } else {
                assert(before.take(size as int).contains(c));
            }
        }
    }
    r
}

/// Search every frequency offset at one time offset and one subdivision of both.
#[verifier::spinoff_prover]
#[verifier::rlimit(40)]
fn search_row(
    wf: &Waterfall,
    heap: &mut [Candidate],
    size: usize,
    row: Candidate,
    min_score: i16,
) -> (r: usize)
    requires
        is_searchable(*wf),
        old(heap)@.len() > 0,
        row.time_sub < wf.time_osr,
        row.freq_sub < wf.freq_osr,
        -10 <= row.time_offset < 20,
        best_so_far(
            *wf,
            min_score as int,
            old(heap)@,
            size as int,
            row.time_sub as int,
            row.freq_sub as int,
            row.time_offset as int,
            0,
        ),
    ensures
        final(heap)@.len() == old(heap)@.len(),
        size <= r,
        best_so_far(
            *wf,
            min_score as int,
            final(heap)@,
            r as int,
            row.time_sub as int,
            row.freq_sub as int,
            row.time_offset + 1,
            0,
        ),
        forall|i: int| r <= i < old(heap)@.len() ==> final(heap)@[i] == old(heap)@[i],
{
    let tones: usize = wf.protocol.num_tones();
    // Past all frequency offsets that there are.
    let end: i32 = if wf.num_bins < tones {
        0
    } else if wf.num_bins - tones < i16::MAX as usize {
        (wf.num_bins - tones) as i32 + 1
    } else {
        i16::MAX as i32 + 1
    };
    let mut n: usize = size;
    let mut freq_offset: i32 = 0;
    while freq_offset < end
        invariant
            is_searchable(*wf),
            heap@.len() == old(heap)@.len() > 0,
            row.time_sub < wf.time_osr,
            row.freq_sub < wf.freq_osr,
            -10 <= row.time_offset < 20,
            0 <= freq_offset <= end <= 0x8000,
            end > 0 ==> end - 1 + wf.protocol.tones() <= wf.num_bins,
            size <= n,
            best_so_far(
                *wf,
                min_score as int,
                heap@,
                n as int,
                row.time_sub as int,
                row.freq_sub as int,
                row.time_offset as int,
                freq_offset as int,
            ),
            forall|i: int| n <= i < old(heap)@.len() ==> heap@[i] == old(heap)@[i],
        decreases end - freq_offset,
    {
        let place: Candidate = Candidate { freq_offset: freq_offset as i16, ..row };
        n = visit(wf, heap, n, place, min_score);
        freq_offset += 1;
    }
    n
}

/// Score every (time, frequency) offset and keep the best `heap.len()`.
///
/// Returns how many candidates were found; on return `heap[..n]` is sorted by
/// descending score, and what is behind it is as it was.
#[verifier::spinoff_prover]
pub fn find_candidates(wf: &Waterfall, heap: &mut [Candidate], min_score: i16) -> (r: usize)
    requires
        old(heap)@.len() > 0 ==> is_searchable(*wf),
    ensures
        final(heap)@.len() == old(heap)@.len(),
        r <= old(heap)@.len(),
        are_best(
            *wf,
            min_score as int,
            final(heap)@.take(r as int),
            old(heap)@.len() as int,
        ),
        forall|i: int| r <= i < old(heap)@.len() ==> final(heap)@[i] == old(heap)@[i],
{
    proof {
        assert(heap@.take(0) =~= Seq::<Candidate>::empty());
    }
    if heap.len() == 0 || wf.num_bins == 0 {
        return 0;
    }
    // Past all subdivisions that there are.
    let times: u16 = if wf.time_osr < 0x100 { wf.time_osr as u16 } else { 0x100 };
    let freqs: u16 = if wf.freq_osr < 0x100 { wf.freq_osr as u16 } else { 0x100 };
    let mut size: usize = 0;
    let mut time_sub: u16 = 0;
    while time_sub < times
        invariant
            is_searchable(*wf),
                heap@.len() == old(heap)@.len() > 0,
            times == least(wf.time_osr as int, 0x100),
            freqs == least(wf.freq_osr as int, 0x100),
            time_sub <= times,
            best_so_far(*wf, min_score as int, heap@, size as int, time_sub as int, 0, -10, 0),
            forall|i: int| size <= i < old(heap)@.len() ==> heap@[i] == old(heap)@[i],
        decreases times - time_sub,
    {
        let mut freq_sub: u16 = 0;
        while freq_sub < freqs
            invariant
                is_searchable(*wf),
                        heap@.len() == old(heap)@.len() > 0,
                times == least(wf.time_osr as int, 0x100),
                freqs == least(wf.freq_osr as int, 0x100),
                time_sub < times,
                freq_sub <= freqs,
                best_so_far(
                    *wf,
                    min_score as int,
                    heap@,
                    size as int,
                    time_sub as int,
                    freq_sub as int,
                    -10,
                    0,
                ),
                forall|i: int| size <= i < old(heap)@.len() ==> heap@[i] == old(heap)@[i],
            decreases freqs - freq_sub,
        {
            let mut time_offset: i16 = -10;
            while time_offset < 20
                invariant
                    is_searchable(*wf),
                                heap@.len() == old(heap)@.len() > 0,
                    times == least(wf.time_osr as int, 0x100),
                    freqs == least(wf.freq_osr as int, 0x100),
                    time_sub < times,
                    freq_sub < freqs,
                    -10 <= time_offset <= 20,
                    best_so_far(
                        *wf,
                        min_score as int,
                        heap@,
                        size as int,
                        time_sub as int,
                        freq_sub as int,
                        time_offset as int,
                        0,
                    ),
                    forall|i: int| size <= i < old(heap)@.len() ==> heap@[i] == old(heap)@[i],
                decreases 20 - time_offset,
            {
                let row: Candidate = Candidate {
                    score: 0,
                    time_offset,
                    freq_offset: 0,
                    time_sub: time_sub as u8,
                    freq_sub: freq_sub as u8,
                };
                size = search_row(wf, heap, size, row, min_score);
                time_offset += 1;
            }
            freq_sub += 1;
        }
        time_sub += 1;
    }
    let ghost kept = heap@;
    sort_heap(heap, size);
    proof {
        lemma_search_done(*wf, min_score as int, kept, heap@, size as int, times as int);
        let found = heap@.take(size as int);
        assert forall|i: int| 0 <= i < found.len() implies is_eligible(
            *wf,
            min_score as int,
            #[trigger] found[i],
        ) && had_a_slot(*wf, min_score as int, found[i], heap@.len() as int) by {
            assert(found[i] == heap@[i]);
        }
    }
    size
}

/// Sorting the heap of a search that is over gives the result.
proof fn lemma_search_done(
    wf: Waterfall,
    min_score: int,
    kept: Seq<Candidate>,
    sorted: Seq<Candidate>,
    n: int,
    times: int,
)
    requires
        times == least(wf.time_osr as int, 0x100),
        best_so_far(wf, min_score, kept, n, times, 0, -10, 0),
        sorted.len() == kept.len(),
        kept.take(n).to_multiset() == sorted.take(n).to_multiset(),
        is_descending(sorted, 0, n),
        kept.len() > 0,
    ensures
        forall|i: int|
            0 <= i < n ==> is_eligible(wf, min_score, #[trigger] sorted[i]) && had_a_slot(
                wf,
                min_score,
                sorted[i],
                sorted.len() as int,
            ),
        sorted.take(n).no_duplicates(),
        forall|c: Candidate|
            #![trigger is_eligible(wf, min_score, c)]
            is_eligible(wf, min_score, c) ==> sorted.take(n).contains(c) || (n == sorted.len() && (n
                == 0 || c.score <= sorted[n - 1].score)),
{
    let (a, b) = (kept.take(n), sorted.take(n));
    lemma_same_members(a, b);
    assert forall|i: int| 0 <= i < n implies is_eligible(wf, min_score, #[trigger] sorted[i])
        && had_a_slot(wf, min_score, sorted[i], sorted.len() as int) by {
        assert(b[i] == sorted[i]);
        assert(b.contains(sorted[i]));
        assert(a.contains(sorted[i]));
    }
    assert forall|c: Candidate|
        #![trigger is_eligible(wf, min_score, c)]
        is_eligible(wf, min_score, c) implies b.contains(c) || (n == sorted.len() && (n == 0
        || c.score <= sorted[n - 1].score)) by {
        assert(comes_before(c, times, 0, -10, 0));
        if !a.contains(c) {
            assert(n == kept.len() && c.score <= kept[0].score);
            let last = sorted[n - 1];
            assert(b[n - 1] == last);
            assert(b.contains(last));
            assert(a.contains(last));
            let i = choose|i: int| 0 <= i < n && a[i] == last;
            lemma_root_is_lowest(kept, n, i);
        }
    }
}

/// The best `max_candidates` of a spectrogram, by descending score.
pub fn best_candidates(wf: &Waterfall, max_candidates: usize, min_score: i16) -> (r: Vec<Candidate>)
    requires
        max_candidates > 0 ==> is_searchable(*wf),
    ensures
        are_best(*wf, min_score as int, r@, max_candidates as int),
{
    let mut heap: Vec<Candidate> = vec![Candidate::default(); max_candidates];
    let n: usize = find_candidates(wf, heap.as_mut_slice(), min_score);
    let ghost found = heap@;
    heap.truncate(n);
    assert(heap@ =~= found.take(n as int));
    heap
}

/// The best comes first: no candidate that is good enough scores above the first,
/// and one that scores above every other is the first.
pub proof fn law_best_comes_first(
    wf: Waterfall,
    min_score: int,
    found: Seq<Candidate>,
    slots: int,
    c: Candidate,
)
    requires
        are_best(wf, min_score, found, slots),
        slots > 0,
        is_eligible(wf, min_score, c),
    ensures
        found.len() > 0,
        found[0].score >= c.score,
        (forall|o: Candidate| #[trigger]
            is_eligible(wf, min_score, o) && o != c ==> o.score < c.score) ==> found[0] == c,
{
    if found.contains(c) {
        let i = choose|i: int| 0 <= i < found.len() && found[i] == c;
        assert(found[0].score >= found[i].score);
    } else {
        assert(found[0].score >= found[slots - 1].score);
    }
    assert(is_eligible(wf, min_score, found[0]));
}

/// A signal that stands out by all that the levels differ by scores highest: where
/// each of its sync symbols is that much louder than its neighbours, and one was
/// recorded that has a neighbour, the first of the best scores as it does.
pub proof fn law_planted_signal_scores_highest(
    wf: Waterfall,
    min_score: int,
    found: Seq<Candidate>,
    slots: int,
    c: Candidate,
    low: int,
    high: int,
)
    requires
        are_best(wf, min_score, found, slots),
        slots > 0,
        is_searchable(wf),
        is_eligible(wf, min_score, c),
        decode::levels_within(wf, low, high),
        low <= high,
        forall|m: int, k: int|
            0 <= m < wf.protocol.sync_groups() && 0 <= k < wf.protocol.sync_length() ==> (
            #[trigger] wf.sync_gain(c, m, k)).0 >= (high - low) * wf.sync_gain(c, m, k).1,
        wf.sync_sum(
            c,
            (wf.protocol.sync_groups() * wf.protocol.sync_length()) as nat,
        ).1 > 0,
    ensures
        c.score == high - low,
        found.len() > 0,
        found[0].score == c.score,
{
    decode::law_score_is_what_stands_out(wf, c, high - low);
    lemma_grid_is_readable(wf, c);
    decode::law_score_is_within_the_levels(wf, c, low, high);
    law_best_comes_first(wf, min_score, found, slots, c);
    assert(is_eligible(wf, min_score, found[0]));
    lemma_grid_is_readable(wf, found[0]);
    decode::law_score_is_within_the_levels(wf, found[0], low, high);
}

} // verus!
