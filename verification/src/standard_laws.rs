//! What comes back of a standard message.

use vstd::prelude::*;
use crate::bits;
use crate::callsign;
use crate::callsign::Layout;
use crate::grid;
use crate::message;
use crate::message::{Error, MessageType, StdMessage, MAXGRID4};
use crate::standard;
use crate::text;
use crate::text::CharTable;

verus! {

/// Does a base call come back as it was packed? Spaces at its ends are lost. Of
/// a two-character prefix, what reads as one of the two rewritten prefixes comes
/// back spelled out; and `3DA0` needs a letter behind it.
pub open spec fn base_comes_back(cs: Seq<u8>, length: int) -> bool {
    &&& text::is_trim(cs.take(length))
    &&& match callsign::layout(cs, length) {
        Layout::Swaziland => cs[4] != ' ' as u8,
        Layout::TwoPrefix => {
            &&& !(cs[0] == '3' as u8 && cs[1] == 'D' as u8 && cs[2] == '0' as u8 && length > 3
                && cs[3] != ' ' as u8)
            &&& !(cs[0] == 'Q' as u8 && text::is_alpha(cs[1]))
        },
        _ => true,
    }
}

/// Does a call come back as it was packed? An argument of `CQ` must not have a
/// space in it.
pub open spec fn call_comes_back(cs: Seq<u8>) -> bool {
    if cs == callsign::de() || cs == callsign::qrz() || cs == callsign::cq() {
        true
    } else if callsign::is_cq_with_argument(cs) {
        forall|i: int| 3 <= i < cs.len() ==> #[trigger] cs[i] != ' ' as u8
    } else {
        base_comes_back(cs, callsign::base_length(cs))
    }
}

/// Is the field a report: a sign and two digits, from -30 to +99, where zero has
/// a plus?
pub open spec fn is_report(b: Seq<u8>) -> bool {
    &&& b.len() == 3
    &&& text::has_sign(b)
    &&& text::is_digit(b[1])
    &&& text::is_digit(b[2])
    &&& b[0] == '-' as u8 ==> 0 < (b[1] - '0' as int) * 10 + (b[2] - '0' as int) <= 30
}

/// Does a third field come back as it was packed?
pub open spec fn extra_comes_back(b: Seq<u8>) -> bool {
    ||| b.len() == 0
    ||| b == grid::rrr()
    ||| b == grid::rr73()
    ||| b == grid::seventy_three()
    ||| b.len() == 4 && grid::starts_with_grid(b)
    ||| is_report(b)
    ||| b.len() == 4 && b[0] == 'R' as u8 && is_report(b.skip(1))
}

/// The places of a base call come back from their number.
pub proof fn lemma_places_come_back(c: Seq<u8>)
    requires
        c.len() == 6,
        callsign::places_fit(c),
    ensures
        0 <= callsign::places_value(c) < 262_177_560,
        callsign::base_places(callsign::places_value(c)) == c,
{
    let i0 = CharTable::AlphanumSpace.index(c[0]);
    let i1 = CharTable::Alphanum.index(c[1]);
    let i2 = CharTable::Numeric.index(c[2]);
    let i3 = CharTable::LettersSpace.index(c[3]);
    let i4 = CharTable::LettersSpace.index(c[4]);
    let i5 = CharTable::LettersSpace.index(c[5]);
    text::law_index_then_glyph(CharTable::AlphanumSpace, c[0]);
    text::law_index_then_glyph(CharTable::Alphanum, c[1]);
    text::law_index_then_glyph(CharTable::Numeric, c[2]);
    text::law_index_then_glyph(CharTable::LettersSpace, c[3]);
    text::law_index_then_glyph(CharTable::LettersSpace, c[4]);
    text::law_index_then_glyph(CharTable::LettersSpace, c[5]);
    let n = callsign::places_value(c);
    lemma_mixed_radix(i0, i1, i2, i3, i4, i5);
    assert(callsign::base_places(n) =~= c);
}

/// Digits of mixed base come back from the number they make.
#[verifier::spinoff_prover]
proof fn lemma_mixed_radix(i0: int, i1: int, i2: int, i3: int, i4: int, i5: int)
    requires
        0 <= i0 < 37,
        0 <= i1 < 36,
        0 <= i2 < 10,
        0 <= i3 < 27,
        0 <= i4 < 27,
        0 <= i5 < 27,
    ensures
        ({
            let n = ((((i0 * 36 + i1) * 10 + i2) * 27 + i3) * 27 + i4) * 27 + i5;
            &&& 0 <= n < 262_177_560
            &&& (n / 7_085_880) % 37 == i0
            &&& (n / 196_830) % 36 == i1
            &&& (n / 19_683) % 10 == i2
            &&& (n / 729) % 27 == i3
            &&& (n / 27) % 27 == i4
            &&& n % 27 == i5
        }),
{
    let n1 = i0 * 36 + i1;
    let n2 = n1 * 10 + i2;
    let n3 = n2 * 27 + i3;
    let n4 = n3 * 27 + i4;
    let n = n4 * 27 + i5;
    assert(n / 27 == n4);
    assert(n / 729 == n3) by {
        assert(n == n3 * 729 + (i4 * 27 + i5));
    }
    assert(n / 19_683 == n2) by {
        assert(n == n2 * 19_683 + (i3 * 729 + i4 * 27 + i5));
    }
    assert(n / 196_830 == n1) by {
        assert(n == n1 * 196_830 + (i2 * 19_683 + i3 * 729 + i4 * 27 + i5));
    }
    assert(n / 7_085_880 == i0) by {
        assert(n == i0 * 7_085_880 + (i1 * 196_830 + i2 * 19_683 + i3 * 729 + i4 * 27 + i5));
    }
}

/// A base call comes back from its number.
#[verifier::spinoff_prover]
proof fn lemma_base_comes_back(cs: Seq<u8>, length: int)
    requires
        length <= cs.len(),
        callsign::basecall(cs, length) is Some,
        base_comes_back(cs, length),
    ensures
        0 <= callsign::basecall(cs, length)->0 < 262_177_560,
        callsign::base_text(callsign::basecall(cs, length)->0) == cs.take(length),
{
    let c = callsign::places(cs, length);
    let base = cs.take(length);
    lemma_places_come_back(c);
    let out = callsign::spelled_out(c);
    match callsign::layout(cs, length) {
        Layout::Swaziland => {
            assert(c[3] == cs[4]);
            assert(out.subrange(0, length) =~= base);
            text::lemma_trim_around(out, 0, length);
        },
        Layout::Guinea => {
            assert(c[0] == 'Q' as u8);
            assert(c[1] == cs[2]);
            assert(out.subrange(0, length) =~= base);
            text::lemma_trim_around(out, 0, length);
        },
        Layout::TwoPrefix => {
            assert(out == c);
            assert(out.subrange(0, length) =~= base);
            text::lemma_trim_around(out, 0, length);
        },
        Layout::OnePrefix => {
            assert(c[0] == ' ' as u8);
            assert(out == c);
            assert(out.subrange(1, length + 1) =~= base);
            text::lemma_trim_around(out, 1, length + 1);
        },
        Layout::Other => {
            assert(c[2] == ' ' as u8);
        },
    }
}

/// Up to four letters come back from their number.
#[verifier::spinoff_prover]
proof fn lemma_letters_come_back(arg: Seq<u8>)
    requires
        arg.len() <= 4,
        callsign::all_upper(arg),
    ensures
        0 <= callsign::letters_value(arg) < 531_441,
        callsign::letters_text(callsign::letters_value(arg)) == arg,
{
    let k = arg.len() as int;
    assert(k > 0 ==> text::is_upper(arg[0]));
    assert(k > 1 ==> text::is_upper(arg[1]));
    assert(k > 2 ==> text::is_upper(arg[2]));
    assert(k > 3 ==> text::is_upper(arg[3]));
    let a = if k > 3 { arg[k - 4] - 'A' as int + 1 } else { 0 };
    let b = if k > 2 { arg[k - 3] - 'A' as int + 1 } else { 0 };
    let c = if k > 1 { arg[k - 2] - 'A' as int + 1 } else { 0 };
    let d = if k > 0 { arg[k - 1] - 'A' as int + 1 } else { 0 };
    let n = callsign::letters_value(arg);
    assert(n == ((a * 27 + b) * 27 + c) * 27 + d) by {
        reveal_with_fuel(callsign::letters_value, 6);
    }
    assert(n / 27 == (a * 27 + b) * 27 + c);
    assert(n / 729 == a * 27 + b) by {
        assert(n == (a * 27 + b) * 729 + (c * 27 + d));
    }
    assert(n / 19683 == a) by {
        assert(n == a * 19683 + (b * 729 + c * 27 + d));
    }
    let table = CharTable::LettersSpace;
    let all = seq![table.glyph(a), table.glyph(b), table.glyph(c), table.glyph(d)];
    text::lemma_trim_start_padding(all, 4 - k);
    assert(all.skip(4 - k) =~= arg);
}

/// Three digits come back from their number.
#[verifier::spinoff_prover]
proof fn lemma_digits_come_back(arg: Seq<u8>)
    requires
        arg.len() == 3,
        callsign::all_digits(arg),
    ensures
        0 <= text::leading_number(arg, 0) <= 999,
        text::dd_text(text::leading_number(arg, 0), 3, false) == arg,
{
    callsign::lemma_three_digits(arg);
    assert(text::is_digit(arg[0]) && text::is_digit(arg[1]) && text::is_digit(arg[2]));
    let v = text::leading_number(arg, 0);
    text::lemma_three_digits_text(v);
    let (a, b, c) = (arg[0] - '0' as int, arg[1] - '0' as int, arg[2] - '0' as int);
    assert(v == 100 * a + 10 * b + c);
    assert(v / 100 == a && (v / 10) % 10 == b && v % 10 == c);
    let t = text::dd_digits(v, 3);
    assert(t[0] == arg[0] && t[1] == arg[1] && t[2] == arg[2]);
    assert(text::dd_text(v, 3, false) =~= arg);
}

/// A call comes back from its number and its suffix flag, in a message of the
/// type that carries its suffix.
#[verifier::spinoff_prover]
pub proof fn lemma_call_comes_back(cs: Seq<u8>, i3: int, known: Option<Seq<u8>>)
    requires
        callsign::call_number(cs) is Some,
        call_comes_back(cs),
        callsign::ends_with(cs, 'P') ==> i3 == 2,
        callsign::ends_with(cs, 'R') ==> i3 == 1,
    ensures
        ({
            let (n28, ip) = callsign::call_number(cs)->0;
            let flag = if callsign::has_suffix(cs) { 1int } else { 0 };
            &&& 0 <= n28 < 0x1000_0000
            &&& callsign::rendered(n28, ip, i3, known) matches Some((t, _)) && t == cs
            &&& callsign::rendered(n28, flag, i3, known) == callsign::rendered(n28, ip, i3, known)
        }),
{
    if cs == callsign::de() || cs == callsign::qrz() || cs == callsign::cq() {
    } else if callsign::is_cq_with_argument(cs) {
        let arg = cs.skip(3);
        assert(text::capped(arg, 5) == arg);
        callsign::lemma_first_word(arg, arg.len() as int);
        assert(arg.skip(arg.len() as int).len() == 0);
        assert(arg.take(arg.len() as int) + Seq::<u8>::empty() =~= arg);
        assert(callsign::cq_argument(cs) == arg);
        assert(callsign::cq_space() + arg =~= cs) by {
            assert(cs.take(3) + cs.skip(3) =~= cs);
        }
        if arg.len() == 3 && callsign::all_digits(arg) {
            lemma_digits_come_back(arg);
        } else {
            lemma_letters_come_back(arg);
        }
    } else {
        let length = callsign::base_length(cs);
        lemma_base_comes_back(cs, length);
        let base = cs.take(length);
        assert(base.len() == length >= 3);
        if callsign::has_suffix(cs) {
            assert(base + callsign::suffix_text(1, i3)->0 =~= cs);
        } else {
            assert(base + Seq::<u8>::empty() =~= cs);
        }
    }
}

/// A report comes back from its number.
proof fn lemma_report_comes_back(b: Seq<u8>)
    requires
        is_report(b),
    ensures
        -30 <= text::dd_value(b, 3) <= 99,
        text::dd_text(text::dd_value(b, 3), 2, true) == b,
{
    let f = text::dd_field(b, 3);
    assert(f =~= seq![b[1], b[2]]);
    let v = (b[1] - '0' as int) * 10 + (b[2] - '0' as int);
    assert(text::leading_number(f, 0) == v) by {
        reveal_with_fuel(text::leading_number, 4);
        assert(f.skip(1)[0] == b[2]);
        assert(f.skip(1).skip(1).len() == 0);
    }
    text::lemma_two_digits_text(v);
    assert(text::dd_text(text::dd_value(b, 3), 2, true) =~= b);
}

/// A third field comes back from its number, which is split into a flag and 15
/// bits.
pub proof fn lemma_extra_comes_back(b: Seq<u8>)
    requires
        extra_comes_back(b),
    ensures
        0 <= grid::extra_number(b) < 0x1_0000,
        grid::extra_text(grid::extra_number(b) % 0x8000, grid::extra_number(b) / 0x8000).0 == b,
{
    let n = grid::extra_number(b);
    if b.len() == 0 {
        assert(grid::extra_text(n, 0).0 =~= b);
    } else if b == grid::rrr() || b == grid::rr73() || b == grid::seventy_three() {
    } else if b.len() == 4 && grid::starts_with_grid(b) {
        lemma_grid_comes_back(b);
    } else if is_report(b) {
        lemma_report_comes_back(b);
        assert(Seq::<u8>::empty() + b =~= b);
    } else {
        lemma_report_comes_back(b.skip(1));
        assert(seq!['R' as u8] + b.skip(1) =~= b);
    }
}

/// A grid comes back from its number.
proof fn lemma_grid_comes_back(b: Seq<u8>)
    requires
        b.len() == 4,
        grid::starts_with_grid(b),
    ensures
        0 <= grid::grid_value(b) < MAXGRID4,
        Seq::<u8>::empty() + grid::grid_glyphs(grid::grid_value(b)) == b,
{
    let (i0, i1) = (b[0] - 'A' as int, b[1] - 'A' as int);
    let (i2, i3) = (b[2] - '0' as int, b[3] - '0' as int);
    let n1 = i0 * 18 + i1;
    let n2 = n1 * 10 + i2;
    let n = grid::grid_value(b);
    assert(n == n2 * 10 + i3);
    assert(n / 10 == n2);
    assert(n / 100 == n1) by {
        assert(n == n1 * 100 + (i2 * 10 + i3));
    }
    assert(n / 1800 == i0) by {
        assert(n == i0 * 1800 + (i1 * 100 + i2 * 10 + i3));
    }
    assert(Seq::<u8>::empty() + grid::grid_glyphs(n) =~= b);
}

/// What was put into a standard message is what it decodes to, call for call and
/// field for field: for every message that can be encoded, of calls and a third
/// field that come back. The payload is of the standard kind, whatever a hash
/// table knows.
#[verifier::spinoff_prover]
pub proof fn law_standard_message_round_trips(
    to: Seq<u8>,
    de: Seq<u8>,
    extra: Seq<u8>,
    p: Seq<u8>,
    known_to: Option<Seq<u8>>,
    known_de: Option<Seq<u8>>,
    r: Result<StdMessage, Error>,
)
    requires
        standard::std_error(to, de) is None,
        bits::value10(p) == standard::std_value(to, de, extra),
        call_comes_back(to),
        call_comes_back(de),
        extra_comes_back(extra),
        standard::decodes_to(p, known_to, known_de, r),
    ensures
        message::kind(p) == MessageType::Standard,
        r matches Ok(m) && m.call_to@ == to && m.call_de@ == de && m.extra@ == extra,
{
    let i3 = standard::suffix_type(to, de);
    let (a, _) = callsign::call_number(to)->0;
    let (b, ipb) = callsign::call_number(de)->0;
    let ipa = if callsign::has_suffix(to) { 1int } else { 0 };
    let n = grid::extra_number(extra);
    lemma_call_comes_back(to, i3, known_to);
    lemma_call_comes_back(de, i3, known_de);
    lemma_extra_comes_back(extra);
    let v = bits::value10(p);
    assert(n * 0x40 == (n / 0x8000) * 0x20_0000 + (n % 0x8000) * 0x40);
    standard::lemma_fields_of_value(v, 2 * a + ipa, 2 * b + ipb, n / 0x8000, n % 0x8000, i3 * 8);
    assert(standard::to_number(p) == a && standard::to_flag(p) == ipa);
    assert(standard::de_number(p) == b && standard::de_flag(p) == ipb);
    assert(message::selector(p) == i3);
}

} // verus!
