//! What standard messages are for: what is sent as which payload, what comes back of
//! it, and the line of text that shows it.

use vstd::prelude::*;
use crate::bits;
use crate::call_laws;
use crate::call_laws::{bare, call_id, is_base, is_call, is_lettered_cq, is_numbered_cq};
use crate::call_laws::{is_one_word, is_portable, is_rover, is_sendable, is_token, letter};
use crate::call_laws::{letters_id, numeral};
use crate::callsign;
use crate::grid;
use crate::listing;
use crate::message;
use crate::message::{Error, Field, MessageType, StdMessage};
use crate::standard;
use crate::standard_laws;
use crate::text;

verus! {

/// `RRR`
pub open spec fn roger() -> Seq<u8> {
    seq![82u8, 82, 82]
}

/// `RR73`
pub open spec fn roger_73() -> Seq<u8> {
    seq![82u8, 82, 55, 51]
}

/// `73`
pub open spec fn best_regards() -> Seq<u8> {
    seq![55u8, 51]
}

/// Is this one of the three tokens of a third field?
pub open spec fn is_farewell(b: Seq<u8>) -> bool {
    b == roger() || b == roger_73() || b == best_regards()
}

/// Is this a grid: two letters up to `R` and two digits? `RR73` is none.
pub open spec fn is_locator(b: Seq<u8>) -> bool {
    &&& b.len() == 4
    &&& 65 <= b[0] <= 82 && 65 <= b[1] <= 82
    &&& numeral(b[2]) && numeral(b[3])
    &&& b != roger_73()
}

/// The decibels of a report of a sign and two digits.
pub open spec fn decibels(b: Seq<u8>) -> int {
    let v = (b[1] - 48) * 10 + (b[2] - 48);
    if b[0] == 45 { -v } else { v }
}

/// Is this a report: a sign and two digits, from -30 to +99, where zero has a plus?
pub open spec fn is_db(b: Seq<u8>) -> bool {
    &&& b.len() == 3
    &&& b[0] == 43 || b[0] == 45
    &&& numeral(b[1]) && numeral(b[2])
    &&& b[0] == 45 ==> -30 <= decibels(b) < 0
}

/// Is this a report with an `R` in front?
pub open spec fn is_rogered_db(b: Seq<u8>) -> bool {
    b.len() == 4 && b[0] == 82 && is_db(b.subrange(1, 4))
}

/// Is this a third field as it is sent: nothing, a token, a grid or a report?
pub open spec fn is_third(b: Seq<u8>) -> bool {
    b.len() == 0 || is_farewell(b) || is_locator(b) || is_db(b) || is_rogered_db(b)
}

/// The number of a third field: grids first, then nothing, the three tokens, and the
/// reports from 35 below zero; an `R` in front of a report is the bit above.
pub open spec fn third_id(b: Seq<u8>) -> int {
    if b.len() == 0 {
        32_401
    } else if b == roger() {
        32_402
    } else if b == roger_73() {
        32_403
    } else if b == best_regards() {
        32_404
    } else if is_locator(b) {
        (((b[0] - 65) * 18 + (b[1] - 65)) * 10 + (b[2] - 48)) * 10 + (b[3] - 48)
    } else if is_db(b) {
        32_435 + decibels(b)
    } else {
        32_768 + 32_435 + decibels(b.subrange(1, 4))
    }
}

/// What kind of third field it is.
pub open spec fn third_field(b: Seq<u8>) -> Field {
    if b.len() == 0 {
        Field::Empty
    } else if is_farewell(b) {
        Field::Token
    } else if is_locator(b) {
        Field::Grid
    } else {
        Field::Rst
    }
}

/// The number that a call is sent as.
pub open spec fn sent_id(cs: Seq<u8>) -> int {
    if cs == seq![68u8, 69] {
        0
    } else if cs == seq![81u8, 82, 90] {
        1
    } else if cs == seq![67u8, 81] {
        2
    } else if is_numbered_cq(cs) {
        3 + (cs[3] - 48) * 100 + (cs[4] - 48) * 10 + (cs[5] - 48)
    } else if is_lettered_cq(cs) {
        1003 + letters_id(cs)
    } else {
        call_id(cs)
    }
}

/// The flag for its suffix.
pub open spec fn sent_flag(cs: Seq<u8>) -> int {
    if is_portable(cs) || is_rover(cs) { 1 } else { 0 }
}

/// What kind of call it is.
pub open spec fn call_field(cs: Seq<u8>) -> Field {
    if is_token(cs) {
        Field::Token
    } else if is_numbered_cq(cs) || is_lettered_cq(cs) {
        Field::TokenWithArg
    } else {
        Field::Call
    }
}

/// Does a call come back as it was sent? All do but those of a two-character prefix
/// that the calls of Guinea and Swaziland are sent with: `Q` and a letter, and `3D0`
/// with a letter behind it.
pub open spec fn is_kept(cs: Seq<u8>) -> bool {
    let b = bare(cs);
    is_call(cs) && is_base(b, 2) ==> !(b[0] == 81 && letter(b[1])) && !(b[0] == 51 && b[1] == 68
        && b[2] == 48 && b.len() > 3)
}

/// A call that can be sent has its number.
#[verifier::spinoff_prover]
proof fn lemma_sent_id(cs: Seq<u8>)
    requires
        is_sendable(cs),
    ensures
        callsign::call_number(cs) == Some((sent_id(cs), sent_flag(cs))),
        callsign::ends_with(cs, 'P') == is_portable(cs),
        callsign::ends_with(cs, 'R') == is_rover(cs),
{
    call_laws::law_tokens_can_be_sent(cs);
    if is_token(cs) {
        assert(!is_portable(cs) && !is_rover(cs));
    } else if is_numbered_cq(cs) {
        assert(!is_portable(cs) && !is_rover(cs));
    } else if is_lettered_cq(cs) {
        if is_portable(cs) || is_rover(cs) {
            let i = cs.len() - 2;
            assert(cs[i] == 47);
            if i >= 3 {
                assert(letter(cs[i]));
            }
        }
    } else {
        call_laws::law_standard_calls_can_be_sent(cs);
    }
}

/// Calls that can be sent can be encoded together, except that no type of message
/// carries `/P` and `/R`.
pub proof fn law_sendable_calls_can_be_encoded(to: Seq<u8>, de: Seq<u8>)
    requires
        is_sendable(to),
        is_sendable(de),
    ensures
        standard::std_error(to, de) == if (is_portable(to) || is_portable(de)) && (is_rover(to)
            || is_rover(de)) {
            Some(Error::Suffix)
        } else {
            None::<Error>
        },
{
    lemma_sent_id(to);
    lemma_sent_id(de);
}

/// A call of one word that cannot be sent is an error, of the first call before the
/// second.
pub proof fn law_other_calls_are_errors(to: Seq<u8>, de: Seq<u8>)
    requires
        is_one_word(to),
        is_one_word(de),
    ensures
        standard::std_error(to, de) == Some(Error::Callsign1) <==> !(is_token(to) || is_call(to)),
        standard::std_error(to, de) == Some(Error::Callsign2) <==> (is_token(to) || is_call(to))
            && !(is_token(de) || is_call(de)),
{
    call_laws::law_other_calls_are_refused(to);
    call_laws::law_other_calls_are_refused(de);
}

/// A third field is sent as its number.
#[verifier::spinoff_prover]
pub proof fn law_third_fields_have_numbers(b: Seq<u8>)
    requires
        is_third(b),
    ensures
        grid::extra_number(b) == third_id(b),
{
    assert(grid::rrr() =~= roger());
    assert(grid::rr73() =~= roger_73());
    assert(grid::seventy_three() =~= best_regards());
    if b.len() > 0 && !is_farewell(b) && !is_locator(b) {
        if is_db(b) {
            lemma_report(b);
        } else {
            assert(b.skip(1) =~= b.subrange(1, 4));
            assert(b.skip(1)[0] == b[1]);
            lemma_report(b.skip(1));
        }
    }
}

/// A report is read as its decibels.
proof fn lemma_report(b: Seq<u8>)
    requires
        is_db(b),
    ensures
        text::dd_value(b, 3) == decibels(b),
        standard_laws::is_report(b),
{
    let f = text::dd_field(b, 3);
    assert(f =~= seq![b[1], b[2]]);
    reveal_with_fuel(text::leading_number, 4);
    assert(f.skip(1)[0] == b[2]);
    assert(f.skip(1).skip(1).len() == 0);
}

/// The payload of a standard message: from the top of its 77 bits, 28 bits of the
/// first call and its flag, 28 bits of the second and its flag, 16 bits of the third
/// field and three bits of type, which is 2 for `/P`.
#[verifier::spinoff_prover]
pub proof fn law_payload_of_a_standard_message(to: Seq<u8>, de: Seq<u8>, extra: Seq<u8>)
    requires
        is_sendable(to),
        is_sendable(de),
        is_third(extra),
    ensures
        standard::std_value(to, de, extra) == 8 * ((((2 * sent_id(to) + sent_flag(to))
            * 536_870_912 + (2 * sent_id(de) + sent_flag(de))) * 65_536 + third_id(extra)) * 8 + if
            is_portable(to) || is_portable(de) {
            2int
        } else {
            1
        }),
{
    lemma_sent_id(to);
    lemma_sent_id(de);
    law_third_fields_have_numbers(extra);
}

/// A call that is kept comes back.
#[verifier::spinoff_prover]
proof fn lemma_kept_call(cs: Seq<u8>)
    requires
        is_sendable(cs),
        is_kept(cs),
    ensures
        standard_laws::call_comes_back(cs),
{
    assert(callsign::de() =~= seq![68u8, 69]);
    assert(callsign::qrz() =~= seq![81u8, 82, 90]);
    assert(callsign::cq() =~= seq![67u8, 81]);
    if is_token(cs) {
    } else if is_numbered_cq(cs) || is_lettered_cq(cs) {
        assert(cs.take(3) =~= callsign::cq_space());
        assert forall|i: int| 3 <= i < cs.len() implies #[trigger] cs[i] != ' ' as u8 by {
            if is_lettered_cq(cs) {
                assert(letter(cs[i]));
            }
        }
    } else {
        let b = bare(cs);
        let n = callsign::base_length(cs);
        lemma_sent_id(cs);
        assert(n == b.len());
        assert(cs.take(n) =~= b);
        assert(forall|i: int| 0 <= i < n ==> #[trigger] b[i] == cs[i]);
        assert(b[0] == cs[0] && b[1] == cs[1] && b[2] == cs[2]);
        assert(text::is_trim(b)) by {
            if is_base(b, 1) {
                assert(letter(b[n - 1]));
                assert(call_laws::alphanumeric(b[0]));
            } else if is_base(b, 2) {
                assert(call_laws::alphanumeric(b[0]));
                if n > 3 {
                    assert(letter(b[n - 1]));
                }
            } else if call_laws::is_swaziland(b) {
                assert(letter(b[n - 1]));
            } else if n > 4 {
                assert(letter(b[n - 1]));
            }
        }
        if callsign::is_cq_with_argument(cs) {
            assert(cs.take(3)[2] == cs[2]);
            assert(cs[2] == 32);
        }
        if call_laws::is_swaziland(b) {
            assert(b[3] == cs[3] && b[4] == cs[4]);
            assert(letter(b[4]));
        } else if is_base(b, 2) {
            if n > 3 {
                assert(b[3] == cs[3]);
            }
        }
    }
}

/// A call renders as the kind that it is.
#[verifier::spinoff_prover]
proof fn lemma_call_field(cs: Seq<u8>, flag: int, i3: int, known: Option<Seq<u8>>)
    requires
        is_sendable(cs),
    ensures
        callsign::rendered(sent_id(cs), flag, i3, known) matches Some((_, f)) ==> f == call_field(cs),
{
    if is_token(cs) {
    } else if is_numbered_cq(cs) {
        assert(3 <= sent_id(cs) <= 1002);
    } else if is_lettered_cq(cs) {
        let n = cs.len() as int;
        assert(forall|i: int| 3 <= i < n ==> letter(#[trigger] cs[i]));
        assert(letter(cs[n - 1]));
        assert(n > 4 ==> letter(cs[n - 2]));
        assert(n > 5 ==> letter(cs[n - 3]));
        assert(n > 6 ==> letter(cs[n - 4]));
        assert(0 <= letters_id(cs) < 531_441);
    } else {
        lemma_id_is_past_the_hashes(cs);
    }
}

/// The number of a standard call is past those of the hashes.
#[verifier::spinoff_prover]
proof fn lemma_id_is_past_the_hashes(cs: Seq<u8>)
    requires
        is_call(cs),
    ensures
        sent_id(cs) == call_id(cs) ==> 6_257_896 <= call_id(cs),
{
    call_laws::law_standard_calls_can_be_sent(cs);
    lemma_basecall_is_not_negative(cs, callsign::base_length(cs));
}

/// No base call has a negative number.
proof fn lemma_basecall_is_not_negative(cs: Seq<u8>, length: int)
    ensures
        callsign::basecall(cs, length) matches Some(n) ==> 0 <= n,
{
    let c = callsign::places(cs, length);
    if callsign::places_fit(c) {
        text::law_index_then_glyph(text::CharTable::AlphanumSpace, c[0]);
        text::law_index_then_glyph(text::CharTable::Alphanum, c[1]);
        text::law_index_then_glyph(text::CharTable::Numeric, c[2]);
        text::law_index_then_glyph(text::CharTable::LettersSpace, c[3]);
        text::law_index_then_glyph(text::CharTable::LettersSpace, c[4]);
        text::law_index_then_glyph(text::CharTable::LettersSpace, c[5]);
    }
}

/// A third field comes back.
#[verifier::spinoff_prover]
proof fn lemma_third_comes_back(b: Seq<u8>)
    requires
        is_third(b),
    ensures
        standard_laws::extra_comes_back(b),
        grid::extra_text(third_id(b) % 0x8000, third_id(b) / 0x8000) == (b, third_field(b)),
{
    assert(grid::rrr() =~= roger());
    assert(grid::rr73() =~= roger_73());
    assert(grid::seventy_three() =~= best_regards());
    if b.len() > 0 && !is_farewell(b) && !is_locator(b) {
        if is_db(b) {
            lemma_report(b);
        } else {
            assert(b.skip(1) =~= b.subrange(1, 4));
            lemma_report(b.skip(1));
        }
    }
    standard_laws::lemma_extra_comes_back(b);
    law_third_fields_have_numbers(b);
}

/// What is sent is what is read: a standard message of calls that can be sent and are
/// kept, and of any third field, comes back call for call and field for field, each
/// of the kind that it is, whatever a hash table knows.
#[verifier::spinoff_prover]
pub proof fn law_what_is_sent_is_what_is_read(
    to: Seq<u8>,
    de: Seq<u8>,
    extra: Seq<u8>,
    p: Seq<u8>,
    known_to: Option<Seq<u8>>,
    known_de: Option<Seq<u8>>,
    r: Result<StdMessage, Error>,
)
    requires
        is_sendable(to) && is_kept(to),
        is_sendable(de) && is_kept(de),
        !((is_portable(to) || is_portable(de)) && (is_rover(to) || is_rover(de))),
        is_third(extra),
        bits::value10(p) == standard::std_value(to, de, extra),
        standard::decodes_to(p, known_to, known_de, r),
    ensures
        message::kind(p) == MessageType::Standard,
        r matches Ok(m) && m.call_to@ == to && m.call_de@ == de && m.extra@ == extra && m.fields@
            == seq![call_field(to), call_field(de), third_field(extra)],
{
    law_sendable_calls_can_be_encoded(to, de);
    lemma_kept_call(to);
    lemma_kept_call(de);
    lemma_third_comes_back(extra);
    standard_laws::law_standard_message_round_trips(to, de, extra, p, known_to, known_de, r);
    lemma_fields_of_message(to, de, extra, p);
    lemma_call_field(to, sent_flag(to), message::selector(p), known_to);
    lemma_call_field(de, sent_flag(de), message::selector(p), known_de);
}

/// The fields of the payload of a message.
#[verifier::spinoff_prover]
proof fn lemma_fields_of_message(to: Seq<u8>, de: Seq<u8>, extra: Seq<u8>, p: Seq<u8>)
    requires
        is_sendable(to) && is_kept(to),
        is_sendable(de) && is_kept(de),
        is_third(extra),
        bits::value10(p) == standard::std_value(to, de, extra),
        !((is_portable(to) || is_portable(de)) && (is_rover(to) || is_rover(de))),
    ensures
        standard::to_number(p) == sent_id(to) && standard::to_flag(p) == sent_flag(to),
        standard::de_number(p) == sent_id(de) && standard::de_flag(p) == sent_flag(de),
        standard::extra_flag(p) == third_id(extra) / 0x8000,
        standard::extra_bits(p) == third_id(extra) % 0x8000,
        message::selector(p) == standard::suffix_type(to, de),
{
    let i3 = standard::suffix_type(to, de);
    lemma_kept_call(to);
    lemma_kept_call(de);
    lemma_third_comes_back(extra);
    lemma_sent_id(to);
    lemma_sent_id(de);
    law_third_fields_have_numbers(extra);
    standard_laws::lemma_call_comes_back(to, i3, None);
    standard_laws::lemma_call_comes_back(de, i3, None);
    standard_laws::lemma_extra_comes_back(extra);
    let n = third_id(extra);
    assert(n * 0x40 == (n / 0x8000) * 0x20_0000 + (n % 0x8000) * 0x40);
    standard::lemma_fields_of_value(
        bits::value10(p),
        2 * sent_id(to) + sent_flag(to),
        2 * sent_id(de) + sent_flag(de),
        n / 0x8000,
        n % 0x8000,
        i3 * 8,
    );
}

/// A message shows as it was put together: the first call, a space and the second,
/// and behind another space the third field, of whatever kind, unless there is none.
#[verifier::spinoff_prover]
pub proof fn law_message_shows_as_it_was_sent(
    to: Seq<u8>,
    de: Seq<u8>,
    extra: Seq<u8>,
    p: Seq<u8>,
)
    requires
        is_sendable(to) && is_kept(to),
        is_sendable(de) && is_kept(de),
        !((is_portable(to) || is_portable(de)) && (is_rover(to) || is_rover(de))),
        is_third(extra),
        bits::value10(p) == standard::std_value(to, de, extra),
    ensures
        listing::message_text(p) == if extra.len() == 0 {
            to + seq![32u8] + de
        } else {
            to + seq![32u8] + de + seq![32u8] + extra
        },
{
    law_sendable_calls_can_be_encoded(to, de);
    lemma_fields_of_message(to, de, extra, p);
    lemma_kept_call(to);
    lemma_kept_call(de);
    lemma_third_comes_back(extra);
    lemma_sent_id(to);
    lemma_sent_id(de);
    let i3 = standard::suffix_type(to, de);
    standard_laws::lemma_call_comes_back(to, i3, None);
    standard_laws::lemma_call_comes_back(de, i3, None);
    assert(message::kind(p) == MessageType::Standard);
    assert(' ' as u8 == 32u8);
}

/// How the number of a call reads. A call that can be sent and is kept reads as it
/// was sent, in a message of the type that carries its suffix; a flag that the type
/// has no suffix for makes it unreadable. A hashed call reads as what it stands for,
/// if that is known, and else as `<...>`. Numbers set aside for tokens that there are
/// not are unreadable.
#[verifier::spinoff_prover]
pub proof fn law_how_calls_read(
    cs: Seq<u8>,
    n28: int,
    ip: int,
    i3: int,
    known: Option<Seq<u8>>,
)
    ensures
        is_sendable(cs) && is_kept(cs) && n28 == sent_id(cs) && ip == sent_flag(cs) && (is_portable(
            cs,
        ) ==> i3 == 2) && (is_rover(cs) ==> i3 == 1) ==> callsign::rendered(n28, ip, i3, known)
            == Some((cs, call_field(cs))),
        is_call(cs) && n28 == sent_id(cs) && n28 == call_id(cs) && ip != 0 && i3 != 1 && i3 != 2
            ==> callsign::rendered(n28, ip, i3, known) is None,
        2_063_592 <= n28 < 6_257_896 ==> callsign::rendered(n28, ip, i3, known) == Some(
            (
                match known {
                    Some(call) => call,
                    None => seq![60u8, 46, 46, 46, 62],
                },
                Field::Call,
            ),
        ),
        532_444 <= n28 < 2_063_592 ==> callsign::rendered(n28, ip, i3, known) is None,
{
    assert(callsign::unheard() =~= seq![60u8, 46, 46, 46, 62]);
    if is_sendable(cs) && is_kept(cs) && n28 == sent_id(cs) && ip == sent_flag(cs) && (is_portable(
        cs,
    ) ==> i3 == 2) && (is_rover(cs) ==> i3 == 1) {
        lemma_sent_id(cs);
        lemma_kept_call(cs);
        standard_laws::lemma_call_comes_back(cs, i3, known);
        lemma_call_field(cs, ip, i3, known);
    }
    if is_call(cs) && n28 == sent_id(cs) && n28 == call_id(cs) {
        lemma_id_is_past_the_hashes(cs);
    }
}

/// How the number of a third field reads: a grid, behind `R` and a space if it is
/// flagged; nothing; a token, flagged or not; or a report, behind an `R` if it is
/// flagged.
#[verifier::spinoff_prover]
pub proof fn law_how_third_fields_read(b: Seq<u8>, n: int, ir: int)
    requires
        is_third(b),
        !is_rogered_db(b),
        n == third_id(b),
    ensures
        ir == 0 ==> grid::extra_text(n, ir) == (b, third_field(b)),
        ir > 0 && is_locator(b) ==> grid::extra_text(n, ir) == (seq![82u8, 32] + b, Field::Grid),
        ir > 0 && is_db(b) ==> grid::extra_text(n, ir) == (seq![82u8] + b, Field::Rst),
        ir > 0 && !is_locator(b) && !is_db(b) ==> grid::extra_text(n, ir) == (b, third_field(b)),
{
    lemma_third_comes_back(b);
    assert(0 <= n < 0x8000);
    assert(n % 0x8000 == n && n / 0x8000 == 0);
    assert(Seq::<u8>::empty() + grid::grid_glyphs(n) =~= grid::grid_glyphs(n));
    let report = text::dd_text(n - 32_435, 2, true);
    assert(Seq::<u8>::empty() + report =~= report);
    assert(seq!['R' as u8, ' ' as u8] =~= seq![82u8, 32]);
    assert(seq!['R' as u8] =~= seq![82u8]);
}

/// A message whose first call is unreadable is an error of that call, and one whose
/// second is, of the second; any other is read.
pub proof fn law_unreadable_calls_are_errors(
    p: Seq<u8>,
    known_to: Option<Seq<u8>>,
    known_de: Option<Seq<u8>>,
    r: Result<StdMessage, Error>,
)
    requires
        standard::decodes_to(p, known_to, known_de, r),
    ensures
        ({
            let v = bits::value10(p);
            let i3 = (v / 8) % 8;
            let to = callsign::rendered(
                v / 4_503_599_627_370_496,
                (v / 2_251_799_813_685_248) % 2,
                i3,
                known_to,
            );
            let de = callsign::rendered((v / 8_388_608) % 268_435_456, (v / 4_194_304) % 2, i3, known_de);
            let third = grid::extra_text((v / 64) % 32_768, (v / 2_097_152) % 2);
            &&& r == Err::<StdMessage, Error>(Error::Callsign1) <==> to is None
            &&& r == Err::<StdMessage, Error>(Error::Callsign2) <==> to is Some && de is None
            &&& to is Some && de is Some <==> r is Ok
            &&& r matches Ok(m) ==> m.call_to@ == (to->0).0 && m.call_de@ == (de->0).0 && m.extra@
                == third.0 && m.fields@ == seq![(to->0).1, (de->0).1, third.1]
        }),
{
}

/// The line of a standard message: its two calls with a space between, and behind
/// another space the third field, of whatever kind, unless there is none. Where a call
/// is unreadable it says so.
#[verifier::spinoff_prover]
pub proof fn law_line_of_a_standard_message(p: Seq<u8>)
    requires
        (bits::value10(p) / 8) % 8 == 1 || (bits::value10(p) / 8) % 8 == 2,
    ensures
        ({
            let v = bits::value10(p);
            let i3 = (v / 8) % 8;
            let to = callsign::rendered(
                v / 4_503_599_627_370_496,
                (v / 2_251_799_813_685_248) % 2,
                i3,
                None,
            );
            let de = callsign::rendered((v / 8_388_608) % 268_435_456, (v / 4_194_304) % 2, i3, None);
            let third = grid::extra_text((v / 64) % 32_768, (v / 2_097_152) % 2).0;
            listing::message_text(p) == if to is None || de is None {
                seq![60u8, 117, 110, 100, 101, 99, 111, 100, 97, 98, 108, 101, 62]
            } else if third.len() == 0 {
                (to->0).0 + seq![32u8] + (de->0).0
            } else {
                (to->0).0 + seq![32u8] + (de->0).0 + seq![32u8] + third
            }
        }),
{
    reveal_strlit("undecodable");
    vstd::utf8::is_ascii_chars_encode_utf8("undecodable"@);
    assert(listing::bracketed(vstd::utf8::encode_utf8("undecodable"@)) =~= seq![
        60u8,
        117,
        110,
        100,
        101,
        99,
        111,
        100,
        97,
        98,
        108,
        101,
        62,
    ]);
    assert(' ' as u8 == 32u8);
}

/// What a hash table is asked for a hashed call is its number among the hashes, and for
/// any other call nothing.
pub proof fn law_hashes_are_looked_up<H: callsign::CallsignHash>(
    hash: H,
    n28: int,
    known: Option<message::Callsign>,
)
    requires
        callsign::may_know(hash, n28, known),
    ensures
        2_063_592 <= n28 < 6_257_896 ==> call_ensures(
            H::lookup22,
            (&hash, (n28 - 2_063_592) as u32),
            known,
        ),
        !(2_063_592 <= n28 < 6_257_896) ==> known is None,
{
}

/// A longer locator is sent as its first four characters.
pub proof fn law_longer_locators_are_cut(b: Seq<u8>)
    requires
        b.len() > 4,
        65 <= b[0] <= 82 && 65 <= b[1] <= 82,
        numeral(b[2]) && numeral(b[3]),
    ensures
        grid::extra_number(b) == (((b[0] - 65) * 18 + (b[1] - 65)) * 10 + (b[2] - 48)) * 10 + (b[3]
            - 48),
{
    assert(grid::rrr().len() == 3 && grid::rr73().len() == 4 && grid::seventy_three().len() == 2);
}

/// What is neither a token nor a locator is sent as the report that it starts with,
/// with the flag for an `R` if it has one.
pub proof fn law_anything_else_is_a_report(b: Seq<u8>)
    requires
        b.len() > 0,
        !is_farewell(b),
        !(b.len() >= 4 && 65 <= b[0] <= 82 && 65 <= b[1] <= 82 && numeral(b[2]) && numeral(b[3])),
    ensures
        b[0] != 82 ==> grid::extra_number(b) == 32_435 + text::dd_value(b, 3),
        b[0] == 82 ==> ({
            let v = 32_435 + text::dd_value(b.subrange(1, b.len() as int), 3);
            grid::extra_number(b) == if v < 32_768 { v + 32_768 } else { v }
        }),
{
    assert(grid::rrr() =~= roger());
    assert(grid::rr73() =~= roger_73());
    assert(grid::seventy_three() =~= best_regards());
    assert(b.subrange(1, b.len() as int) =~= b.skip(1));
}

} // verus!
