//! How the numbers in a payload read, each of them.

use vstd::prelude::*;
use crate::bits;
use crate::call_laws;
use crate::call_laws::{alphanumeric, letter, letter_or_space, numeral};
use crate::callsign;
use crate::free_text;
use crate::grid;
use crate::message::Field;
use crate::standard_laws;
use crate::text;
use crate::text_laws;

verus! {

/// Do six characters fill the places of a base call?
pub open spec fn fill_places(c: Seq<u8>) -> bool {
    &&& c.len() == 6
    &&& alphanumeric(c[0]) || c[0] == 32
    &&& alphanumeric(c[1])
    &&& numeral(c[2])
    &&& letter_or_space(c[3]) && letter_or_space(c[4]) && letter_or_space(c[5])
}

/// Six places as they are shown: `3D0` and a letter behind it as `3DA0`, `Q` and a
/// letter behind it as `3X`, without the spaces around.
pub open spec fn shown(c: Seq<u8>) -> Seq<u8> {
    text::trimmed(
        if c[0] == 51 && c[1] == 68 && c[2] == 48 && c[3] != 32 {
            seq![51u8, 68, 65, 48] + c.subrange(3, 6)
        } else if c[0] == 81 && letter(c[1]) {
            seq![51u8, 88] + c.subrange(1, 6)
        } else {
            c
        },
    )
}

/// Every number of a base call reads as its six places are shown, with the suffix that
/// a flag stands for in a message of its type. What has fewer than three characters
/// does not read, and neither does a flag in a message of another type.
#[verifier::spinoff_prover]
pub proof fn law_base_numbers_read(
    c: Seq<u8>,
    ip: int,
    i3: int,
    known: Option<Seq<u8>>,
)
    requires
        fill_places(c),
    ensures
        callsign::rendered(call_laws::spaced_number(c, 2), ip, i3, known) == if shown(c).len() < 3 {
            None
        } else if ip == 0 {
            Some((shown(c), Field::Call))
        } else if i3 == 1 {
            Some((shown(c) + seq![47u8, 82], Field::Call))
        } else if i3 == 2 {
            Some((shown(c) + seq![47u8, 80], Field::Call))
        } else {
            None
        },
{
    assert(call_laws::is_spaced_base(c, 2)) by {
        assert forall|i: int| 2 < i < c.len() implies letter_or_space(#[trigger] c[i]) by {
            assert(i == 3 || i == 4 || i == 5);
        }
    }
    call_laws::lemma_spaced_places(c, c, 2);
    standard_laws::lemma_places_come_back(c);
    let n = callsign::places_value(c);
    assert(callsign::base_places(n) == c);
    assert(c.skip(3) =~= c.subrange(3, 6));
    assert(c.skip(1) =~= c.subrange(1, 6));
    assert(seq!['3' as u8, 'D' as u8, 'A' as u8, '0' as u8] =~= seq![51u8, 68, 65, 48]);
    assert(seq!['3' as u8, 'X' as u8] =~= seq![51u8, 88]);
    assert(callsign::base_text(n) == shown(c));
    assert(seq!['/' as u8, 'R' as u8] =~= seq![47u8, 82]);
    assert(seq!['/' as u8, 'P' as u8] =~= seq![47u8, 80]);
    assert(shown(c) + Seq::<u8>::empty() =~= shown(c));
}

/// The numbers behind the tokens read as `CQ` with three digits.
#[verifier::spinoff_prover]
pub proof fn law_numbered_cqs_read(
    a: int,
    b: int,
    c: int,
    ip: int,
    i3: int,
    known: Option<Seq<u8>>,
)
    requires
        0 <= a < 10,
        0 <= b < 10,
        0 <= c < 10,
    ensures
        callsign::rendered(3 + 100 * a + 10 * b + c, ip, i3, known) == Some(
            (
                seq![67u8, 81, 32, (48 + a) as u8, (48 + b) as u8, (48 + c) as u8],
                Field::TokenWithArg,
            ),
        ),
{
    let digits = seq![(48 + a) as u8, (48 + b) as u8, (48 + c) as u8];
    lemma_three_digits(a, b, c);
    assert(callsign::cq_space() + digits =~= seq![
        67u8,
        81,
        32,
        (48 + a) as u8,
        (48 + b) as u8,
        (48 + c) as u8,
    ]);
}

/// Three digits as text.
#[verifier::spinoff_prover]
proof fn lemma_three_digits(a: int, b: int, c: int)
    requires
        0 <= a < 10,
        0 <= b < 10,
        0 <= c < 10,
    ensures
        text::dd_text(100 * a + 10 * b + c, 3, false) == seq![
            (48 + a) as u8,
            (48 + b) as u8,
            (48 + c) as u8,
        ],
{
    let v = 100 * a + 10 * b + c;
    assert(v / 100 == a && (v / 10) % 10 == b && v % 10 == c);
    text::lemma_three_digits_text(v);
    let t = text::dd_digits(v, 3);
    assert(Seq::<u8>::empty() + t =~= t);
}

/// The rank of a letter from 1, zero for a space.
pub open spec fn rank_of(c: u8) -> int {
    if c == 32 { 0 } else { c - 64 }
}

/// The numbers behind those read as `CQ` with four places, without the spaces in front
/// of them.
#[verifier::spinoff_prover]
pub proof fn law_lettered_cqs_read(c: Seq<u8>, k: int, ip: int, i3: int, known: Option<Seq<u8>>)
    requires
        c.len() == 4,
        letter_or_space(c[0]) && letter_or_space(c[1]) && letter_or_space(c[2]) && letter_or_space(
            c[3],
        ),
        0 <= k <= 4,
        forall|i: int| 0 <= i < k ==> c[i] == 32,
        k < 4 ==> c[k] != 32,
    ensures
        callsign::rendered(
            1003 + ((rank_of(c[0]) * 27 + rank_of(c[1])) * 27 + rank_of(c[2])) * 27 + rank_of(c[3]),
            ip,
            i3,
            known,
        ) == Some((seq![67u8, 81, 32] + c.subrange(k, 4), Field::TokenWithArg)),
{
    let (w, x, y, z) = (rank_of(c[0]), rank_of(c[1]), rank_of(c[2]), rank_of(c[3]));
    let n = ((w * 27 + x) * 27 + y) * 27 + z;
    assert(n / 27 == (w * 27 + x) * 27 + y && n % 27 == z);
    assert(n / 729 == w * 27 + x) by {
        assert(n == (w * 27 + x) * 729 + (y * 27 + z));
    }
    assert(n / 19_683 == w) by {
        assert(n == w * 19_683 + (x * 729 + y * 27 + z));
    }
    let table = text::CharTable::LettersSpace;
    let all = seq![
        table.glyph((n / 19_683) % 27),
        table.glyph((n / 729) % 27),
        table.glyph((n / 27) % 27),
        table.glyph(n % 27),
    ];
    assert(all =~= c);
    text::lemma_trim_start_padding(c, k);
    assert(c.skip(k) =~= c.subrange(k, 4));
    assert(callsign::cq_space() =~= seq![67u8, 81, 32]);
}

/// Every number of a grid reads as two letters and two digits, behind `R` and a space if
/// it is flagged.
#[verifier::spinoff_prover]
pub proof fn law_grid_numbers_read(a: int, b: int, c: int, d: int, ir: int)
    requires
        0 <= a < 18,
        0 <= b < 18,
        0 <= c < 10,
        0 <= d < 10,
    ensures
        ({
            let t = seq![(65 + a) as u8, (65 + b) as u8, (48 + c) as u8, (48 + d) as u8];
            grid::extra_text(((a * 18 + b) * 10 + c) * 10 + d, ir) == (
                if ir > 0 {
                    seq![82u8, 32] + t
                } else {
                    t
                },
                Field::Grid,
            )
        }),
{
    let n = ((a * 18 + b) * 10 + c) * 10 + d;
    assert(n / 10 == (a * 18 + b) * 10 + c && n % 10 == d);
    assert(n / 100 == a * 18 + b) by {
        assert(n == (a * 18 + b) * 100 + (c * 10 + d));
    }
    assert(n / 1800 == a) by {
        assert(n == a * 1800 + (b * 100 + c * 10 + d));
    }
    let t = seq![(65 + a) as u8, (65 + b) as u8, (48 + c) as u8, (48 + d) as u8];
    assert(grid::grid_glyphs(n) =~= t);
    assert(Seq::<u8>::empty() + t =~= t);
    assert(seq!['R' as u8, ' ' as u8] =~= seq![82u8, 32]);
}

/// Every number of a report reads as a sign and two characters, the tens and the ones of
/// its decibels, behind an `R` if it is flagged.
#[verifier::spinoff_prover]
pub proof fn law_report_numbers_read(db: int, ir: int)
    requires
        -30 <= db <= 332,
    ensures
        ({
            let v = if db < 0 { -db } else { db };
            let sign = if db < 0 { 45u8 } else { 43u8 };
            let t = seq![sign, (48 + v / 10) as u8, (48 + v % 10) as u8];
            grid::extra_text(32_435 + db, ir) == (
                if ir > 0 {
                    seq![82u8] + t
                } else {
                    t
                },
                Field::Rst,
            )
        }),
{
    let v = if db < 0 { -db } else { db };
    let sign = if db < 0 { 45u8 } else { 43u8 };
    let t = seq![sign, (48 + v / 10) as u8, (48 + v % 10) as u8];
    reveal_with_fuel(text::pow10, 3);
    reveal_with_fuel(text::dd_digits, 4);
    assert(text::pow10(1) == 10 && text::pow10(0) == 1);
    assert(text::dd_digits(v, 2) =~= seq![(48 + v / 10) as u8, (48 + v % 10) as u8]);
    assert(text::dd_text(db, 2, true) =~= t);
    assert(Seq::<u8>::empty() + t =~= t);
    assert(seq!['R' as u8] =~= seq![82u8]);
}

/// Free text reads as the thirteen characters of the first 71 bits of a payload, without
/// the spaces around them, whatever is behind those bits.
pub proof fn law_free_text_reads(t: Seq<u8>, p: Seq<u8>)
    requires
        bits::value10(p) / 512 == text_laws::plain_number(text_laws::carried(t)),
    ensures
        free_text::free_text(p) == text::trimmed(text_laws::carried(t)),
{
    text_laws::law_free_text_is_carried(t, p);
    free_text::lemma_free_glyphs(t);
    assert(Seq::new(13, |i: int| free_text::free_glyph(t, i)) =~= text_laws::carried(t));
}

} // verus!
