//! What the texts of messages are: the characters of each table, numbers in decimal,
//! free text and telemetry.

use vstd::prelude::*;
use crate::bits;
use crate::free_text;
use crate::listing;
use crate::message;
use crate::message::MessageType;
use crate::text;
use crate::text::CharTable;

verus! {

/// The digits.
pub open spec fn digits() -> Seq<u8> {
    Seq::new(10, |i: int| (48 + i) as u8)
}

/// The capital letters.
pub open spec fn letters() -> Seq<u8> {
    Seq::new(26, |i: int| (65 + i) as u8)
}

/// The characters of a table, in order.
pub open spec fn spelling(table: CharTable) -> Seq<u8> {
    match table {
        CharTable::Full => seq![32u8] + digits() + letters() + seq![43u8, 45, 46, 47, 63],
        CharTable::AlphanumSpaceSlash => seq![32u8] + digits() + letters() + seq![47u8],
        CharTable::AlphanumSpace => seq![32u8] + digits() + letters(),
        CharTable::LettersSpace => seq![32u8] + letters(),
        CharTable::Alphanum => digits() + letters(),
        CharTable::Numeric => digits(),
    }
}

/// A table has its characters in order, and no others.
#[verifier::spinoff_prover]
pub proof fn law_tables_are_spelled(table: CharTable, i: int, c: u8)
    ensures
        0 <= i < spelling(table).len() ==> table.glyph(i) == spelling(table)[i],
        spelling(table).len() <= i ==> table.glyph(i) == 95,
        table.has(c) <==> exists|j: int|
            0 <= j < spelling(table).len() && #[trigger] spelling(table)[j] == c,
        table.has(c) ==> 0 <= table.index(c) < spelling(table).len() && spelling(
            table,
        )[table.index(c)] == c,
{
    let s = spelling(table);
    assert(s.len() == table.size());
    assert forall|j: int| 0 <= j < s.len() implies table.glyph(j) == #[trigger] s[j] && table.has(
        s[j],
    ) by {
        lemma_spelled(table, j);
    }
    if table.has(c) {
        text::law_index_then_glyph(table, c);
        assert(s[table.index(c)] == c);
    }
}

/// The character at a place of a table.
#[verifier::spinoff_prover]
proof fn lemma_spelled(table: CharTable, j: int)
    requires
        0 <= j < spelling(table).len(),
    ensures
        table.glyph(j) == spelling(table)[j],
        table.has(spelling(table)[j]),
{
    match table {
        CharTable::Full => {
            assert(j >= 37 ==> j == 37 || j == 38 || j == 39 || j == 40 || j == 41);
        },
        _ => {},
    }
}

/// Trimming takes the spaces off both ends and nothing else.
pub proof fn law_trimming_takes_off_spaces(s: Seq<u8>) -> (ends: (int, int))
    ensures
        0 <= ends.0 <= ends.1 <= s.len(),
        text::trimmed(s) == s.subrange(ends.0, ends.1),
        forall|i: int| 0 <= i < ends.0 || ends.1 <= i < s.len() ==> #[trigger] s[i] == 32,
        ends.0 < ends.1 ==> s[ends.0] != 32 && s[ends.1 - 1] != 32,
{
    let a = lemma_first_other(s);
    if a == s.len() {
        assert(text::is_trim(s.subrange(a, a)));
        text::lemma_trim_around(s, a, a);
        (a, a)
    } else {
        let b = lemma_last_other(s, a);
        assert(s.subrange(a, b)[0] == s[a]);
        assert(s.subrange(a, b).last() == s[b - 1]);
        text::lemma_trim_around(s, a, b);
        (a, b)
    }
}

/// The first character that is not a space.
proof fn lemma_first_other(s: Seq<u8>) -> (a: int)
    ensures
        0 <= a <= s.len(),
        forall|i: int| 0 <= i < a ==> #[trigger] s[i] == 32,
        a < s.len() ==> s[a] != 32,
    decreases s.len(),
{
    if s.len() == 0 || s[0] != 32 {
        0
    } else {
        let rest = s.skip(1);
        let a = lemma_first_other(rest);
        assert forall|i: int| 0 <= i < a + 1 implies #[trigger] s[i] == 32 by {
            if i > 0 {
                assert(rest[i - 1] == 32);
            }
        }
        if a < rest.len() {
            assert(rest[a] == s[a + 1]);
        }
        a + 1
    }
}

/// Where the last character that is not a space ends.
proof fn lemma_last_other(s: Seq<u8>, a: int) -> (b: int)
    requires
        0 <= a < s.len(),
        s[a] != 32,
    ensures
        a < b <= s.len(),
        forall|i: int| b <= i < s.len() ==> #[trigger] s[i] == 32,
        s[b - 1] != 32,
    decreases s.len(),
{
    if s.last() != 32 {
        s.len() as int
    } else {
        let rest = s.drop_last();
        let b = lemma_last_other(rest, a);
        assert forall|i: int| b <= i < s.len() implies #[trigger] s[i] == 32 by {
            if i < rest.len() {
                assert(rest[i] == 32);
            }
        }
        assert(rest[b - 1] == s[b - 1]);
        b
    }
}

/// The number that decimal digits spell.
pub open spec fn spelled_number(s: Seq<u8>) -> int
    decreases s.len(),
{
    if s.len() == 0 {
        0
    } else {
        10 * spelled_number(s.drop_last()) + (s.last() - 48)
    }
}

/// Are all of these digits?
pub open spec fn are_digits(s: Seq<u8>) -> bool {
    forall|i: int| 0 <= i < s.len() ==> 48 <= #[trigger] s[i] <= 57
}

/// Reading goes on from what was read.
proof fn lemma_read_on(s: Seq<u8>, k: int, acc: int)
    requires
        0 <= k <= s.len(),
        are_digits(s.take(k)),
        k < s.len() ==> !(48 <= s[k] <= 57),
    ensures
        text::leading_number(s, acc) == text::leading_number(s.take(k), acc),
    decreases k,
{
    if k > 0 {
        assert(48 <= s.take(k)[0] <= 57);
        assert(s.take(k).skip(1) =~= s.skip(1).take(k - 1));
        assert forall|i: int| 0 <= i < k - 1 implies 48 <= #[trigger] s.skip(1).take(k - 1)[i]
            <= 57 by {
            assert(48 <= s.take(k)[i + 1] <= 57);
        }
        lemma_read_on(s.skip(1), k - 1, acc * 10 + (s[0] - '0' as u8));
    } else {
        assert(s.take(0).len() == 0);
    }
}

/// One more digit behind what was read.
proof fn lemma_read_one_more(s: Seq<u8>, acc: int)
    requires
        s.len() > 0,
        are_digits(s),
    ensures
        text::leading_number(s, acc) == 10 * text::leading_number(s.drop_last(), acc) + (s.last()
            - 48),
    decreases s.len(),
{
    assert(48 <= s[0] <= 57);
    if s.len() == 1 {
        assert(s.skip(1).len() == 0);
        assert(s.drop_last().len() == 0);
        reveal_with_fuel(text::leading_number, 3);
    } else {
        let rest = s.skip(1);
        assert forall|i: int| 0 <= i < rest.len() implies 48 <= #[trigger] rest[i] <= 57 by {
            assert(48 <= s[i + 1] <= 57);
        }
        lemma_read_one_more(rest, acc * 10 + (s[0] - '0' as u8));
        assert(rest.drop_last() =~= s.drop_last().skip(1));
        assert(s.drop_last()[0] == s[0]);
    }
}

/// Digits are read as the number they spell.
proof fn lemma_digits_are_read(s: Seq<u8>)
    requires
        are_digits(s),
    ensures
        text::leading_number(s, 0) == spelled_number(s),
    decreases s.len(),
{
    if s.len() > 0 {
        let rest = s.drop_last();
        assert forall|i: int| 0 <= i < rest.len() implies 48 <= #[trigger] rest[i] <= 57 by {
            assert(48 <= s[i] <= 57);
        }
        lemma_digits_are_read(rest);
        lemma_read_one_more(s, 0);
    }
}

/// A number is read as its digits spell it, up to the first character that is none
/// and within the first `len` characters, negative behind a minus. A plus may stand in
/// its place.
#[verifier::spinoff_prover]
pub proof fn law_numbers_are_read_as_spelled(s: Seq<u8>, len: int, k: int)
    requires
        0 <= len,
        ({
            let first = if s.len() > 0 && (s[0] == 43 || s[0] == 45) && len > 0 { 1int } else { 0 };
            let last = if s.len() < len { s.len() as int } else { len };
            &&& first <= k <= last
            &&& are_digits(s.subrange(first, k))
            &&& k < last ==> !(48 <= s[k] <= 57)
        }),
    ensures
        ({
            let first = if s.len() > 0 && (s[0] == 43 || s[0] == 45) && len > 0 { 1int } else { 0 };
            let v = spelled_number(s.subrange(first, k));
            text::dd_value(s, len) == if s.len() > 0 && s[0] == 45 { -v } else { v }
        }),
{
    let first = if s.len() > 0 && (s[0] == 43 || s[0] == 45) && len > 0 { 1int } else { 0 };
    let f = text::dd_field(s, len);
    assert(f.take(k - first) =~= s.subrange(first, k));
    if k - first < f.len() {
        assert(f[k - first] == s[k]);
    }
    lemma_read_on(f, k - first, 0);
    lemma_digits_are_read(s.subrange(first, k));
}

/// Ten to the power `k`.
pub open spec fn power_of_ten(k: nat) -> int
    decreases k,
{
    if k == 0 {
        1
    } else {
        10 * power_of_ten((k - 1) as nat)
    }
}

/// The digits of a number that fits them.
#[verifier::spinoff_prover]
proof fn lemma_digits_spell(v: int, width: nat)
    requires
        0 <= v < power_of_ten(width),
    ensures
        text::dd_digits(v, width).len() == width,
        are_digits(text::dd_digits(v, width)),
        spelled_number(text::dd_digits(v, width)) == v,
{
    lemma_powers(width);
    text::lemma_digits_are_read_back(v, width, 0);
    lemma_all_digits(v, width);
    lemma_digits_are_read(text::dd_digits(v, width));
    assert(0 * text::pow10(width) == 0) by (nonlinear_arith);
}

/// The powers of ten.
proof fn lemma_powers(k: nat)
    ensures
        text::pow10(k) == power_of_ten(k),
        power_of_ten(k) >= 1,
    decreases k,
{
    if k > 0 {
        lemma_powers((k - 1) as nat);
    }
}

/// A number that fits has digits only.
proof fn lemma_all_digits(v: int, width: nat)
    requires
        0 <= v < power_of_ten(width),
    ensures
        are_digits(text::dd_digits(v, width)),
    decreases width,
{
    if width > 0 {
        let unit = text::pow10((width - 1) as nat);
        lemma_powers(width);
        lemma_powers((width - 1) as nat);
        assert(0 <= v / unit <= 9) by (nonlinear_arith)
            requires
                0 <= v < 10 * unit,
                unit >= 1,
        ;
        vstd::arithmetic::div_mod::lemma_mod_bound(v, unit);
        lemma_all_digits(v % unit, (width - 1) as nat);
        let s = text::dd_digits(v, width);
        let rest = text::dd_digits(v % unit, (width - 1) as nat);
        assert forall|i: int| 0 <= i < s.len() implies 48 <= #[trigger] s[i] <= 57 by {
            if i > 0 {
                assert(s[i] == rest[i - 1]);
            }
        }
    }
}

/// A number is rendered as a sign, if it is negative or one is asked for, and exactly
/// as many digits as asked for, which spell it.
pub proof fn law_numbers_are_rendered_as_spelled(value: int, width: int, full_sign: bool)
    requires
        1 <= width,
        (if value < 0 { -value } else { value }) < power_of_ten(width as nat),
    ensures
        ({
            let t = text::dd_text(value, width, full_sign);
            let signed = value < 0 || full_sign;
            let digits = if signed { t.subrange(1, t.len() as int) } else { t };
            &&& digits.len() == width
            &&& t.len() == width + if signed { 1int } else { 0 }
            &&& signed ==> t[0] == if value < 0 { 45u8 } else { 43u8 }
            &&& are_digits(digits)
            &&& spelled_number(digits) == if value < 0 { -value } else { value }
        }),
{
    let v = if value < 0 { -value } else { value };
    let d = text::dd_digits(v, width as nat);
    lemma_digits_spell(v, width as nat);
    let t = text::dd_text(value, width, full_sign);
    if value < 0 || full_sign {
        assert(t.subrange(1, t.len() as int) =~= d);
    } else {
        assert(t =~= d);
    }
}

/// Can free text carry the character: a space, a digit, a capital letter or one of
/// `+-./?`?
pub open spec fn is_plain(c: u8) -> bool {
    c == 32 || 48 <= c <= 57 || 65 <= c <= 90 || c == 43 || c == 45 || c == 46 || c == 47 || c == 63
}

/// The rank of a character of free text.
pub open spec fn plain_rank(c: u8) -> int {
    if 48 <= c <= 57 {
        c - 47
    } else if 65 <= c <= 90 {
        c - 54
    } else if c == 43 {
        37
    } else if c == 45 {
        38
    } else if c == 46 {
        39
    } else if c == 47 {
        40
    } else if c == 63 {
        41
    } else {
        0
    }
}

/// The thirteen characters that are sent of a text: a space where it has ended, and
/// for a character that free text cannot carry.
pub open spec fn carried(t: Seq<u8>) -> Seq<u8> {
    Seq::new(13, |i: int| if i < t.len() && is_plain(t[i]) { t[i] } else { 32u8 })
}

/// Characters as a number in base 42, the first most significant.
pub open spec fn plain_number(s: Seq<u8>) -> int
    decreases s.len(),
{
    if s.len() == 0 {
        0
    } else {
        42 * plain_number(s.drop_last()) + plain_rank(s.last())
    }
}

/// The characters of a text as a number.
#[verifier::spinoff_prover]
proof fn lemma_free_value(t: Seq<u8>, n: nat)
    requires
        n <= 13,
    ensures
        free_text::free_value(t, n) == plain_number(carried(t).take(n as int)),
    decreases n,
{
    if n > 0 {
        lemma_free_value(t, (n - 1) as nat);
        let s = carried(t).take(n as int);
        assert(s.drop_last() =~= carried(t).take(n - 1));
        assert(s.last() == carried(t)[n - 1]);
        assert(free_text::free_glyph(t, n - 1) == carried(t)[n - 1]);
    } else {
        assert(carried(t).take(0).len() == 0);
    }
}

/// Free text is sent as thirteen characters in base 42, in the first 71 bits of a
/// payload that has nothing behind them, and shows as those characters without the
/// spaces around them.
#[verifier::spinoff_prover]
pub proof fn law_free_text_is_carried(t: Seq<u8>, p: Seq<u8>)
    ensures
        free_text::free_value(t, 13) == plain_number(carried(t)),
        bits::value10(p) == 512 * free_text::free_value(t, 13) ==> {
            &&& message::kind(p) == MessageType::FreeText
            &&& free_text::free_text(p) == text::trimmed(carried(t))
            &&& listing::message_text(p) == text::trimmed(carried(t))
        },
{
    lemma_free_value(t, 13);
    assert(carried(t).take(13) =~= carried(t));
    if bits::value10(p) == 512 * free_text::free_value(t, 13) {
        free_text::law_free_text_round_trips(t, p);
        assert(Seq::new(13, |i: int| free_text::free_glyph(t, i)) =~= carried(t));
    }
}

/// The type of a payload: bits 74 to 76.
pub open spec fn type_bits(p: Seq<u8>) -> int {
    (p[9] as int / 8) % 8
}

/// The sub-type of a payload: bits 71 to 73.
pub open spec fn subtype_bits(p: Seq<u8>) -> int {
    (p[8] as int % 2) * 4 + p[9] as int / 64
}

/// The kinds of message are told apart by six bits.
pub proof fn law_kinds_are_told_apart(p: Seq<u8>)
    ensures
        type_bits(p) == 0 ==> message::kind(p) == seq![
            MessageType::FreeText,
            MessageType::DxPedition,
            MessageType::EuVhf,
            MessageType::ArrlFd,
            MessageType::ArrlFd,
            MessageType::Telemetry,
            MessageType::Contesting,
            MessageType::Unknown,
        ][subtype_bits(p)],
        type_bits(p) > 0 ==> message::kind(p) == seq![
            MessageType::Standard,
            MessageType::Standard,
            MessageType::ArrlRtty,
            MessageType::NonstdCall,
            MessageType::Wwrof,
            MessageType::Unknown,
            MessageType::Unknown,
        ][type_bits(p) - 1],
        message::selector(p) == type_bits(p),
        message::subselector(p) == subtype_bits(p),
{
    lemma_low_bits(bits::value9(p), p[8] as int, p[9] as int);
}

/// The bits of the last two bytes of a number.
proof fn lemma_low_bits(high: int, b8: int, b9: int)
    requires
        0 <= b9 < 256,
        (high - b8) % 256 == 0,
    ensures
        ((high * 256 + b9) / 8) % 8 == (b9 / 8) % 8,
        ((high * 256 + b9) / 64) % 8 == (b8 % 2) * 4 + b9 / 64,
{
    assert((high * 256 + b9) / 8 == high * 32 + b9 / 8);
    assert((high * 256 + b9) / 64 == high * 4 + b9 / 64);
    assert(high % 2 == b8 % 2);
}

/// `<` and `>` around a label.
pub open spec fn angled(label: Seq<char>) -> Seq<u8> {
    seq![60u8] + label.map(|_i: int, c: char| c as u8) + seq![62u8]
}

/// A message of a kind that is not rendered shows as the label of its kind.
#[verifier::spinoff_prover]
pub proof fn law_other_kinds_are_labelled(p: Seq<u8>)
    ensures
        type_bits(p) == 0 && subtype_bits(p) == 1 ==> listing::message_text(p) == angled(
            "DXpedition"@,
        ),
        type_bits(p) == 0 && subtype_bits(p) == 2 ==> listing::message_text(p) == angled("EU VHF"@),
        type_bits(p) == 0 && 3 <= subtype_bits(p) <= 4 ==> listing::message_text(p) == angled(
            "ARRL FD"@,
        ),
        type_bits(p) == 0 && subtype_bits(p) == 6 ==> listing::message_text(p) == angled(
            "contest"@,
        ),
        type_bits(p) == 0 && subtype_bits(p) == 7 ==> listing::message_text(p) == angled(
            "unknown"@,
        ),
        type_bits(p) == 3 ==> listing::message_text(p) == angled("ARRL RTTY"@),
        type_bits(p) == 4 ==> listing::message_text(p) == angled("nonstd call"@),
        type_bits(p) == 5 ==> listing::message_text(p) == angled("WWROF"@),
        type_bits(p) >= 6 ==> listing::message_text(p) == angled("unknown"@),
{
    law_kinds_are_told_apart(p);
    reveal_strlit("DXpedition");
    reveal_strlit("EU VHF");
    reveal_strlit("ARRL FD");
    reveal_strlit("contest");
    reveal_strlit("ARRL RTTY");
    reveal_strlit("nonstd call");
    reveal_strlit("WWROF");
    reveal_strlit("unknown");
    lemma_label("DXpedition"@);
    lemma_label("EU VHF"@);
    lemma_label("ARRL FD"@);
    lemma_label("contest"@);
    lemma_label("ARRL RTTY"@);
    lemma_label("nonstd call"@);
    lemma_label("WWROF"@);
    lemma_label("unknown"@);
}

/// A label of ASCII characters between brackets.
proof fn lemma_label(label: Seq<char>)
    requires
        vstd::utf8::is_ascii_chars(label),
    ensures
        listing::bracketed(vstd::utf8::encode_utf8(label)) == angled(label),
{
    vstd::utf8::is_ascii_chars_encode_utf8(label);
    assert(vstd::utf8::encode_utf8(label) =~= label.map(|_i: int, c: char| c as u8));
    assert('<' as u8 == 60u8 && '>' as u8 == 62u8);
}

/// The number that hexadecimal digits spell.
pub open spec fn hex_number(s: Seq<u8>) -> int
    decreases s.len(),
{
    if s.len() == 0 {
        0
    } else {
        16 * hex_number(s.drop_last()) + if s.last() <= 57 { s.last() - 48 } else { s.last() - 55 }
    }
}

/// Are these hexadecimal digits, with capital letters?
pub open spec fn are_hex(s: Seq<u8>) -> bool {
    forall|i: int|
        0 <= i < s.len() ==> 48 <= #[trigger] s[i] <= 57 || 65 <= s[i] <= 70
}

/// Two more hexadecimal digits.
proof fn lemma_two_hex(s: Seq<u8>, t: Seq<u8>, b: int)
    requires
        0 <= b < 256,
        t == s + seq![message::hex_glyph(b / 16), message::hex_glyph(b % 16)],
    ensures
        hex_number(t) == 256 * hex_number(s) + b,
{
    let u = s + seq![message::hex_glyph(b / 16)];
    assert(t.drop_last() =~= u);
    assert(u.drop_last() =~= s);
    assert(u.last() == message::hex_glyph(b / 16));
    assert(t.last() == message::hex_glyph(b % 16));
    assert(hex_number(u) == 16 * hex_number(s) + b / 16);
    assert(hex_number(t) == 16 * hex_number(u) + b % 16);
}

/// Telemetry shows as the 18 hexadecimal digits of the first 71 bits of its payload.
#[verifier::spinoff_prover]
pub proof fn law_telemetry_shows_in_hexadecimal(p: Seq<u8>)
    requires
        p.len() == 10,
    ensures
        message::hex_text(p).len() == 18,
        are_hex(message::hex_text(p)),
        hex_number(message::hex_text(p)) == bits::value10(p) / 512,
        type_bits(p) == 0 && subtype_bits(p) == 5 ==> listing::message_text(p) == message::hex_text(
            p,
        ),
{
    let h = message::hex_text(p);
    let s = message::shifted(p);
    lemma_hex_of_bytes(p, 9);
    assert(h.take(18) =~= h);
    lemma_nine_bytes(p);
    law_kinds_are_told_apart(p);
}

/// The first 71 bits of a payload are nine bytes.
#[verifier::spinoff_prover]
proof fn lemma_nine_bytes(p: Seq<u8>)
    ensures
        bytes_number(message::shifted(p), 9) == bits::value10(p) / 512,
{
    let s = message::shifted(p);
    assert(bytes_number(s, 9) == bits::value9(s)) by {
        reveal_with_fuel(bytes_number, 10);
    }
    assert(2 * bits::value9(s) + p[8] % 2 == bits::value9(p));
}

/// The number that the first `n` bytes spell.
spec fn bytes_number(s: Seq<u8>, n: nat) -> int
    decreases n,
{
    if n == 0 {
        0
    } else {
        256 * bytes_number(s, (n - 1) as nat) + s[n - 1]
    }
}

/// Two hexadecimal digits for each byte.
proof fn lemma_hex_of_bytes(p: Seq<u8>, n: nat)
    requires
        n <= 9,
    ensures
        hex_number(message::hex_text(p).take(2 * n as int)) == bytes_number(message::shifted(p), n),
    decreases n,
{
    let h = message::hex_text(p);
    let s = message::shifted(p);
    if n > 0 {
        lemma_hex_of_bytes(p, (n - 1) as nat);
        let (before, b) = (h.take(2 * (n - 1)), s[n - 1] as int);
        let now = h.take(2 * n as int);
        assert(now =~= before + seq![message::hex_glyph(b / 16), message::hex_glyph(b % 16)]);
        lemma_two_hex(before, now, b);
    } else {
        assert(h.take(0).len() == 0);
    }
}

} // verus!
