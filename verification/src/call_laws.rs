//! Which calls and third fields a standard message can carry, and the numbers they
//! are sent as.

use vstd::prelude::*;
use crate::callsign;
use crate::callsign::Layout;
use crate::text;
use crate::text::CharTable;

verus! {

/// Is the character a capital letter?
pub open spec fn letter(c: u8) -> bool {
    65 <= c <= 90
}

/// Is the character a digit?
pub open spec fn numeral(c: u8) -> bool {
    48 <= c <= 57
}

/// Is the character a capital letter or a digit?
pub open spec fn alphanumeric(c: u8) -> bool {
    letter(c) || numeral(c)
}

/// The rank of a letter or digit: digits from 0, letters from 10.
pub open spec fn rank(c: u8) -> int {
    if numeral(c) { c - 48 } else { c - 55 }
}

/// The rank of the letter at a place, from 1; zero where there is none.
pub open spec fn letter_rank(s: Seq<u8>, i: int) -> int {
    if i < s.len() { s[i] - 64 } else { 0 }
}

/// Is this a standard base call with a prefix of `q` characters: letters or digits,
/// a digit, and up to three letters, three characters at least?
pub open spec fn is_base(s: Seq<u8>, q: int) -> bool {
    &&& 3 <= s.len() <= q + 4
    &&& forall|i: int| 0 <= i < q ==> alphanumeric(#[trigger] s[i])
    &&& numeral(s[q])
    &&& forall|i: int| q < i < s.len() ==> letter(#[trigger] s[i])
}

/// Is this a call from Swaziland: `3DA0` and one to three letters?
pub open spec fn is_swaziland(s: Seq<u8>) -> bool {
    &&& 5 <= s.len() <= 7
    &&& s[0] == 51 && s[1] == 68 && s[2] == 65 && s[3] == 48
    &&& forall|i: int| 4 <= i < s.len() ==> letter(#[trigger] s[i])
}

/// Is this a call from Guinea: `3X`, a letter, a digit and up to three letters?
pub open spec fn is_guinea(s: Seq<u8>) -> bool {
    &&& 4 <= s.len() <= 7
    &&& s[0] == 51 && s[1] == 88
    &&& letter(s[2])
    &&& numeral(s[3])
    &&& forall|i: int| 4 <= i < s.len() ==> letter(#[trigger] s[i])
}

/// The number of a base call with a prefix of `q` characters: six places in bases 37,
/// 36, 10, 27, 27 and 27, past the tokens and the hashes.
pub open spec fn base_number(s: Seq<u8>, q: int) -> int {
    let first = if q == 2 { rank(s[0]) + 1 } else { 0 };
    6_257_896 + ((((first * 36 + rank(s[q - 1])) * 10 + (s[q] - 48)) * 27 + letter_rank(s, q + 1))
        * 27 + letter_rank(s, q + 2)) * 27 + letter_rank(s, q + 3)
}

/// Does the call end with a slash and this letter?
pub open spec fn has_slash(cs: Seq<u8>, c: u8) -> bool {
    cs.len() >= 2 && cs[cs.len() - 2] == 47 && cs[cs.len() - 1] == c
}

/// Does the call end with `/P`?
pub open spec fn is_portable(cs: Seq<u8>) -> bool {
    has_slash(cs, 80)
}

/// Does the call end with `/R`?
pub open spec fn is_rover(cs: Seq<u8>) -> bool {
    has_slash(cs, 82)
}

/// The call without `/P` or `/R`.
pub open spec fn bare(cs: Seq<u8>) -> Seq<u8> {
    if is_portable(cs) || is_rover(cs) { cs.subrange(0, cs.len() - 2) } else { cs }
}

/// Is this a standard call, with or without `/P` or `/R`?
pub open spec fn is_call(cs: Seq<u8>) -> bool {
    let b = bare(cs);
    is_base(b, 1) || is_base(b, 2) || is_swaziland(b) || is_guinea(b)
}

/// The number of a standard call. `3DA0` is sent as `3D0`, and `3X` as `Q`.
pub open spec fn call_id(cs: Seq<u8>) -> int {
    let b = bare(cs);
    if is_swaziland(b) {
        base_number(seq![51u8, 68, 48] + b.subrange(4, b.len() as int), 2)
    } else if is_guinea(b) {
        base_number(seq![81u8] + b.subrange(2, b.len() as int), 2)
    } else if is_base(b, 2) {
        base_number(b, 2)
    } else {
        base_number(b, 1)
    }
}

/// Does the call have no space in it?
pub open spec fn is_one_word(cs: Seq<u8>) -> bool {
    forall|i: int| 0 <= i < cs.len() ==> #[trigger] cs[i] != 32
}

/// Is this `DE`, `QRZ` or `CQ`?
pub open spec fn is_token(cs: Seq<u8>) -> bool {
    cs == seq![68u8, 69] || cs == seq![81u8, 82, 90] || cs == seq![67u8, 81]
}

/// Is this `CQ`, a space and three digits?
pub open spec fn is_numbered_cq(cs: Seq<u8>) -> bool {
    &&& cs.len() == 6
    &&& cs[0] == 67 && cs[1] == 81 && cs[2] == 32
    &&& numeral(cs[3]) && numeral(cs[4]) && numeral(cs[5])
}

/// Is this `CQ`, a space and one to four letters?
pub open spec fn is_lettered_cq(cs: Seq<u8>) -> bool {
    &&& 4 <= cs.len() <= 7
    &&& cs[0] == 67 && cs[1] == 81 && cs[2] == 32
    &&& forall|i: int| 3 <= i < cs.len() ==> letter(#[trigger] cs[i])
}

/// The number of the letters of a `CQ`, in base 27.
pub open spec fn letters_id(cs: Seq<u8>) -> int {
    let n = cs.len() as int;
    let at = |i: int| if i >= 3 { cs[i] - 64 } else { 0 };
    ((at(n - 4) * 27 + at(n - 3)) * 27 + at(n - 2)) * 27 + at(n - 1)
}

/// Can the call be sent in a standard message?
pub open spec fn is_sendable(cs: Seq<u8>) -> bool {
    is_token(cs) || is_numbered_cq(cs) || is_lettered_cq(cs) || is_call(cs)
}

/// Six places have the number of their characters.
#[verifier::spinoff_prover]
proof fn lemma_places_number(c: Seq<u8>, s: Seq<u8>, q: int)
    requires
        c.len() == 6,
        q == 1 || q == 2,
        is_base(s, q),
        q == 1 ==> c[0] == 32,
        q == 2 ==> c[0] == s[0],
        c[1] == s[q - 1],
        c[2] == s[q],
        c[3] == if q + 1 < s.len() { s[q + 1] } else { 32 },
        c[4] == if q + 2 < s.len() { s[q + 2] } else { 32 },
        c[5] == if q + 3 < s.len() { s[q + 3] } else { 32 },
    ensures
        callsign::places_fit(c),
        callsign::first_base() + callsign::places_value(c) == base_number(s, q),
{
    assert(alphanumeric(s[0]) && alphanumeric(s[q - 1]));
    assert(q + 1 < s.len() ==> letter(s[q + 1]));
    assert(q + 2 < s.len() ==> letter(s[q + 2]));
    assert(q + 3 < s.len() ==> letter(s[q + 3]));
}

/// The base call of a standard call has its number.
#[verifier::spinoff_prover]
proof fn lemma_base_of_call(cs: Seq<u8>)
    requires
        is_call(cs),
    ensures
        callsign::base_length(cs) == bare(cs).len(),
        callsign::has_suffix(cs) == (is_portable(cs) || is_rover(cs)),
        callsign::basecall(cs, callsign::base_length(cs)) is Some,
        callsign::first_base() + callsign::basecall(cs, callsign::base_length(cs))->0 == call_id(cs),
{
    let b = bare(cs);
    let n = b.len() as int;
    assert(forall|i: int| 0 <= i < n ==> #[trigger] b[i] == cs[i]);
    assert(callsign::ends_with(cs, 'P') == is_portable(cs));
    assert(callsign::ends_with(cs, 'R') == is_rover(cs));
    let c = callsign::places(cs, n);
    assert(b[0] == cs[0] && b[1] == cs[1] && b[2] == cs[2]);
    if is_swaziland(b) {
        let s = seq![51u8, 68, 48] + b.subrange(4, n);
        assert(b[3] == cs[3]);
        assert(callsign::layout(cs, n) is Swaziland);
        assert(forall|i: int| 3 <= i < s.len() ==> #[trigger] s[i] == b[i + 1]);
        assert(s.len() == n - 1);
        assert(letter(b[4]));
        assert forall|i: int| 2 < i < s.len() implies letter(#[trigger] s[i]) by {
            assert(letter(b[i + 1]));
        }
        assert forall|i: int| 0 <= i < 2 implies alphanumeric(#[trigger] s[i]) by {}
        lemma_places_number(c, s, 2);
    } else if is_guinea(b) {
        let s = seq![81u8] + b.subrange(2, n);
        assert(b[3] == cs[3]);
        assert(callsign::layout(cs, n) is Guinea);
        assert(forall|i: int| 1 <= i < s.len() ==> #[trigger] s[i] == b[i + 1]);
        assert(s.len() == n - 1);
        assert forall|i: int| 2 < i < s.len() implies letter(#[trigger] s[i]) by {
            assert(letter(b[i + 1]));
        }
        assert(s[1] == b[2] && s[2] == b[3]);
        lemma_places_number(c, s, 2);
    } else if is_base(b, 2) {
        assert(callsign::layout(cs, n) is TwoPrefix);
        lemma_places_number(c, b, 2);
    } else {
        assert(letter(b[2]));
        assert(callsign::layout(cs, n) is OnePrefix);
        lemma_places_number(c, b, 1);
    }
}

/// Standard calls can be sent: one or two letters or digits, a digit and up to three
/// letters, with or without `/P` or `/R`, and the calls of Swaziland and Guinea. Each
/// is sent as its number, with a flag for the suffix.
#[verifier::spinoff_prover]
pub proof fn law_standard_calls_can_be_sent(cs: Seq<u8>)
    requires
        is_call(cs),
    ensures
        callsign::call_number(cs) == Some(
            (call_id(cs), if is_portable(cs) || is_rover(cs) { 1int } else { 0 }),
        ),
{
    lemma_base_of_call(cs);
    let b = bare(cs);
    assert(b[0] == cs[0] && b[1] == cs[1] && b[2] == cs[2]);
    if cs == callsign::qrz() {
        assert(b =~= cs);
        assert(cs[1] == 82 && cs[2] == 90);
    }
    if callsign::is_cq_with_argument(cs) {
        assert(cs.take(3)[2] == cs[2]);
        assert(cs[2] == 32);
    }
}

/// The tokens are sent as the first three numbers, `CQ` with three digits as the
/// thousand behind those, and `CQ` with letters as the numbers behind those.
#[verifier::spinoff_prover]
pub proof fn law_tokens_can_be_sent(cs: Seq<u8>)
    ensures
        cs == seq![68u8, 69] ==> callsign::call_number(cs) == Some((0int, 0int)),
        cs == seq![81u8, 82, 90] ==> callsign::call_number(cs) == Some((1int, 0int)),
        cs == seq![67u8, 81] ==> callsign::call_number(cs) == Some((2int, 0int)),
        is_numbered_cq(cs) ==> callsign::call_number(cs) == Some(
            (3 + (cs[3] - 48) * 100 + (cs[4] - 48) * 10 + (cs[5] - 48), 0int),
        ),
        is_lettered_cq(cs) ==> callsign::call_number(cs) == Some((1003 + letters_id(cs), 0int)),
{
    assert(callsign::de() =~= seq![68u8, 69]);
    assert(callsign::qrz() =~= seq![81u8, 82, 90]);
    assert(callsign::cq() =~= seq![67u8, 81]);
    if is_numbered_cq(cs) || is_lettered_cq(cs) {
        let arg = cs.skip(3);
        lemma_cq_argument(cs);
        assert(forall|i: int| 0 <= i < arg.len() ==> #[trigger] arg[i] == cs[i + 3]);
        if is_numbered_cq(cs) {
            assert(callsign::all_digits(arg));
            callsign::lemma_three_digits(arg);
        } else {
            assert forall|i: int| 0 <= i < arg.len() implies text::is_upper(#[trigger] arg[i]) by {
                assert(letter(cs[i + 3]));
            }
            assert(text::is_upper(arg[0]));
            assert(!callsign::all_digits(arg)) by {
                assert(!text::is_digit(arg[0]));
            }
            lemma_letters_id(cs);
        }
    }
}

/// What follows `CQ` and a space, where there is no other space.
proof fn lemma_cq_argument(cs: Seq<u8>)
    requires
        3 <= cs.len() <= 7,
        cs[0] == 67 && cs[1] == 81 && cs[2] == 32,
        forall|i: int| 3 <= i < cs.len() ==> #[trigger] cs[i] != 32,
    ensures
        callsign::is_cq_with_argument(cs),
        callsign::cq_argument(cs) == cs.skip(3),
        cs.len() != 2,
{
    let arg = cs.skip(3);
    assert(cs.take(3) =~= callsign::cq_space());
    assert(text::capped(arg, 5) == arg);
    assert forall|i: int| 0 <= i < arg.len() implies arg[i] != ' ' as u8 by {
        assert(cs[i + 3] != 32);
    }
    callsign::lemma_first_word(arg, arg.len() as int);
    assert(arg.skip(arg.len() as int).len() == 0);
    assert(arg.take(arg.len() as int) + Seq::<u8>::empty() =~= arg);
}

/// Letters in base 27.
#[verifier::spinoff_prover]
proof fn lemma_letters_id(cs: Seq<u8>)
    requires
        is_lettered_cq(cs),
    ensures
        callsign::letters_value(cs.skip(3)) == letters_id(cs),
{
    let arg = cs.skip(3);
    let n = cs.len() as int;
    reveal_with_fuel(callsign::letters_value, 6);
    assert(arg.last() == cs[n - 1]);
    if n > 4 {
        assert(arg.drop_last().last() == cs[n - 2]);
    }
    if n > 5 {
        assert(arg.drop_last().drop_last().last() == cs[n - 3]);
    }
    if n > 6 {
        assert(arg.drop_last().drop_last().drop_last().last() == cs[n - 4]);
    }
}

/// Six places that fit are those of a standard call, if there is no space in it.
#[verifier::spinoff_prover]
proof fn lemma_call_of_base(cs: Seq<u8>)
    requires
        is_one_word(cs),
        callsign::basecall(cs, callsign::base_length(cs)) is Some,
    ensures
        is_call(cs),
{
    let b = bare(cs);
    let n = b.len() as int;
    assert(callsign::ends_with(cs, 'P') == is_portable(cs));
    assert(callsign::ends_with(cs, 'R') == is_rover(cs));
    assert(n == callsign::base_length(cs));
    assert(forall|i: int| 0 <= i < n ==> #[trigger] b[i] == cs[i]);
    assert(forall|i: int| 0 <= i < n ==> #[trigger] b[i] != 32);
    let c = callsign::places(cs, n);
    assert(CharTable::LettersSpace.has(c[3]) && CharTable::LettersSpace.has(c[4])
        && CharTable::LettersSpace.has(c[5]));
    match callsign::layout(cs, n) {
        Layout::Swaziland => {
            assert(b[3] == cs[3]);
            assert forall|i: int| 4 <= i < n implies letter(#[trigger] b[i]) by {
                assert(c[i - 1] == b[i]);
                assert(i - 1 == 3 || i - 1 == 4 || i - 1 == 5);
            }
            assert(is_swaziland(b));
        },
        Layout::Guinea => {
            assert(c[1] == b[2]);
            if n > 3 {
                assert(c[2] == b[3]);
            }
            assert forall|i: int| 4 <= i < n implies letter(#[trigger] b[i]) by {
                assert(c[i - 1] == b[i]);
                assert(i - 1 == 3 || i - 1 == 4 || i - 1 == 5);
            }
            assert(is_guinea(b));
        },
        Layout::TwoPrefix => {
            assert(c[0] == b[0] && c[1] == b[1] && c[2] == b[2]);
            assert forall|i: int| 2 < i < n implies letter(#[trigger] b[i]) by {
                assert(c[i] == b[i]);
                assert(i == 3 || i == 4 || i == 5);
            }
            assert(is_base(b, 2));
        },
        Layout::OnePrefix => {
            assert(c[1] == b[0] && c[2] == b[1]);
            assert forall|i: int| 1 < i < n implies letter(#[trigger] b[i]) by {
                assert(c[i + 1] == b[i]);
                assert(i + 1 == 3 || i + 1 == 4 || i + 1 == 5);
            }
            assert(is_base(b, 1));
        },
        Layout::Other => {
            assert(c[2] == ' ' as u8);
        },
    }
}

/// A call of one word can be sent exactly if it is a token or a standard call.
#[verifier::spinoff_prover]
pub proof fn law_other_calls_are_refused(cs: Seq<u8>)
    requires
        is_one_word(cs),
    ensures
        callsign::call_number(cs) is Some <==> is_token(cs) || is_call(cs),
{
    law_tokens_can_be_sent(cs);
    if is_call(cs) {
        law_standard_calls_can_be_sent(cs);
    }
    assert(callsign::de() =~= seq![68u8, 69]);
    assert(callsign::qrz() =~= seq![81u8, 82, 90]);
    assert(callsign::cq() =~= seq![67u8, 81]);
    if callsign::call_number(cs) is Some && !is_token(cs) {
        if callsign::is_cq_with_argument(cs) {
            assert(cs.take(3)[2] == cs[2]);
            assert(cs[2] == 32);
        }
        lemma_call_of_base(cs);
    }
}

/// `CQ` with one word behind it can be sent exactly if that is three digits or up to
/// four letters.
#[verifier::spinoff_prover]
pub proof fn law_other_arguments_are_refused(cs: Seq<u8>)
    requires
        4 <= cs.len() <= 7,
        cs[0] == 67 && cs[1] == 81 && cs[2] == 32,
        forall|i: int| 3 <= i < cs.len() ==> #[trigger] cs[i] != 32,
    ensures
        callsign::call_number(cs) is Some <==> is_numbered_cq(cs) || is_lettered_cq(cs),
{
    law_tokens_can_be_sent(cs);
    lemma_cq_argument(cs);
    let arg = cs.skip(3);
    assert(forall|i: int| 0 <= i < arg.len() ==> #[trigger] arg[i] == cs[i + 3]);
    if callsign::call_number(cs) is Some {
        if arg.len() == 3 && callsign::all_digits(arg) {
            assert(text::is_digit(arg[0]) && text::is_digit(arg[1]) && text::is_digit(arg[2]));
            assert(is_numbered_cq(cs));
        } else {
            assert(callsign::all_upper(arg));
            assert forall|i: int| 3 <= i < cs.len() implies letter(#[trigger] cs[i]) by {
                assert(text::is_upper(arg[i - 3]));
            }
            assert(is_lettered_cq(cs));
        }
    }
}

/// The argument of a `CQ` ends at a space: what is behind it does not count.
#[verifier::spinoff_prover]
pub proof fn law_arguments_end_at_a_space(cs: Seq<u8>, k: int)
    requires
        3 <= k < cs.len() <= 7,
        cs[0] == 67 && cs[1] == 81 && cs[2] == 32,
        cs[k] == 32,
    ensures
        callsign::call_number(cs) == callsign::call_number(cs.subrange(0, k)),
{
    let short = cs.subrange(0, k);
    let (a, b) = (cs.skip(3), short.skip(3));
    assert(cs.take(3) =~= callsign::cq_space());
    assert(short.take(3) =~= callsign::cq_space());
    assert(text::capped(a, 5) == a && text::capped(b, 5) == b);
    lemma_word_before_a_space(a, k - 3);
    assert(a.take(k - 3) =~= b);
    assert(callsign::de().len() == 2 && callsign::cq().len() == 2);
    assert(callsign::qrz()[2] == 90);
}

/// A first word is the same with a space and anything behind it.
proof fn lemma_word_before_a_space(s: Seq<u8>, k: int)
    requires
        0 <= k < s.len(),
        s[k] == 32,
    ensures
        callsign::first_word(s) == callsign::first_word(s.take(k)),
    decreases k,
{
    if k == 0 {
        assert(s.take(0).len() == 0);
    } else if s[0] != 32 {
        lemma_word_before_a_space(s.skip(1), k - 1);
        assert(s.take(k).skip(1) =~= s.skip(1).take(k - 1));
        assert(s.take(k)[0] == s[0]);
    } else {
        assert(s.take(k)[0] == s[0]);
    }
}

/// A number that has only a prefix character and a digit to show is unreadable: a call
/// has three characters at least.
#[verifier::spinoff_prover]
pub proof fn law_two_characters_are_no_call(
    x: int,
    d: int,
    ip: int,
    i3: int,
    known: Option<Seq<u8>>,
)
    requires
        0 <= x < 36,
        0 <= d < 10,
    ensures
        callsign::rendered(6_257_896 + (x * 10 + d) * 19_683, ip, i3, known) is None,
{
    let n = (x * 10 + d) * 19_683;
    assert(n / 19_683 == x * 10 + d && n % 19_683 == 0);
    assert(n / 196_830 == x);
    assert(n / 7_085_880 == 0);
    assert(n / 729 == (x * 10 + d) * 27);
    assert(n / 27 == (x * 10 + d) * 729);
    let c = callsign::base_places(n);
    assert(c[0] == 32 && c[3] == 32 && c[4] == 32 && c[5] == 32);
    assert(c[1] != 32 && c[2] != 32);
    assert(callsign::spelled_out(c) == c);
    assert(c.subrange(1, 3).len() == 2);
    assert(c.subrange(1, 3)[0] == c[1] && c.subrange(1, 3).last() == c[2]);
    text::lemma_trim_around(c, 1, 3);
}

/// Is the character a capital letter or a space?
pub open spec fn letter_or_space(c: u8) -> bool {
    letter(c) || c == 32
}

/// Is this a base call with a prefix of `q` characters in which there may be spaces: for
/// the first of two prefix characters, and among the letters?
pub open spec fn is_spaced_base(s: Seq<u8>, q: int) -> bool {
    &&& 3 <= s.len() <= q + 4
    &&& q == 2 ==> alphanumeric(s[0]) || s[0] == 32
    &&& alphanumeric(s[q - 1])
    &&& numeral(s[q])
    &&& forall|i: int| q < i < s.len() ==> letter_or_space(#[trigger] s[i])
}

/// Is this a call from Swaziland in which there may be spaces among the letters?
pub open spec fn is_spaced_swaziland(s: Seq<u8>) -> bool {
    &&& 5 <= s.len() <= 7
    &&& s[0] == 51 && s[1] == 68 && s[2] == 65 && s[3] == 48
    &&& forall|i: int| 4 <= i < s.len() ==> letter_or_space(#[trigger] s[i])
}

/// Is this a call from Guinea in which there may be spaces among the letters?
pub open spec fn is_spaced_guinea(s: Seq<u8>) -> bool {
    &&& 4 <= s.len() <= 7
    &&& s[0] == 51 && s[1] == 88
    &&& letter(s[2])
    &&& numeral(s[3])
    &&& forall|i: int| 4 <= i < s.len() ==> letter_or_space(#[trigger] s[i])
}

/// The rank of a letter from 1, or zero for a space or where there is none.
pub open spec fn spaced_rank(s: Seq<u8>, i: int) -> int {
    if i < s.len() && s[i] != 32 { s[i] - 64 } else { 0 }
}

/// The number of a base call in which there may be spaces.
pub open spec fn spaced_number(s: Seq<u8>, q: int) -> int {
    let first = if q == 2 && s[0] != 32 { rank(s[0]) + 1 } else { 0 };
    6_257_896 + ((((first * 36 + rank(s[q - 1])) * 10 + (s[q] - 48)) * 27 + spaced_rank(s, q + 1))
        * 27 + spaced_rank(s, q + 2)) * 27 + spaced_rank(s, q + 3)
}

/// The number of any call that is no token, if it has one.
pub open spec fn spaced_id(cs: Seq<u8>) -> Option<int> {
    let b = bare(cs);
    if is_spaced_swaziland(b) {
        Some(spaced_number(seq![51u8, 68, 48] + b.subrange(4, b.len() as int), 2))
    } else if is_spaced_guinea(b) {
        Some(spaced_number(seq![81u8] + b.subrange(2, b.len() as int), 2))
    } else if is_spaced_base(b, 2) {
        Some(spaced_number(b, 2))
    } else if is_spaced_base(b, 1) {
        Some(spaced_number(b, 1))
    } else {
        None
    }
}

/// Six places with spaces have the number of their characters.
#[verifier::spinoff_prover]
pub proof fn lemma_spaced_places(c: Seq<u8>, s: Seq<u8>, q: int)
    requires
        c.len() == 6,
        q == 1 || q == 2,
        is_spaced_base(s, q),
        q == 1 ==> c[0] == 32,
        q == 2 ==> c[0] == s[0],
        c[1] == s[q - 1],
        c[2] == s[q],
        c[3] == if q + 1 < s.len() { s[q + 1] } else { 32 },
        c[4] == if q + 2 < s.len() { s[q + 2] } else { 32 },
        c[5] == if q + 3 < s.len() { s[q + 3] } else { 32 },
    ensures
        callsign::places_fit(c),
        callsign::first_base() + callsign::places_value(c) == spaced_number(s, q),
{
    assert(q + 1 < s.len() ==> letter_or_space(s[q + 1]));
    assert(q + 2 < s.len() ==> letter_or_space(s[q + 2]));
    assert(q + 3 < s.len() ==> letter_or_space(s[q + 3]));
}

/// The base call of any call has its number.
#[verifier::spinoff_prover]
proof fn lemma_spaced_base_of_call(cs: Seq<u8>)
    requires
        spaced_id(cs) is Some,
    ensures
        callsign::base_length(cs) == bare(cs).len(),
        callsign::basecall(cs, callsign::base_length(cs)) is Some,
        callsign::first_base() + callsign::basecall(cs, callsign::base_length(cs))->0 == spaced_id(
            cs,
        )->0,
{
    let b = bare(cs);
    let n = b.len() as int;
    assert(forall|i: int| 0 <= i < n ==> #[trigger] b[i] == cs[i]);
    assert(callsign::ends_with(cs, 'P') == is_portable(cs));
    assert(callsign::ends_with(cs, 'R') == is_rover(cs));
    let c = callsign::places(cs, n);
    assert(b[0] == cs[0] && b[1] == cs[1] && b[2] == cs[2]);
    if is_spaced_swaziland(b) {
        let s = seq![51u8, 68, 48] + b.subrange(4, n);
        assert(b[3] == cs[3]);
        assert(callsign::layout(cs, n) is Swaziland);
        assert(forall|i: int| 3 <= i < s.len() ==> #[trigger] s[i] == b[i + 1]);
        assert forall|i: int| 2 < i < s.len() implies letter_or_space(#[trigger] s[i]) by {
            assert(letter_or_space(b[i + 1]));
        }
        lemma_spaced_places(c, s, 2);
    } else if is_spaced_guinea(b) {
        let s = seq![81u8] + b.subrange(2, n);
        assert(b[3] == cs[3]);
        assert(callsign::layout(cs, n) is Guinea);
        assert(forall|i: int| 1 <= i < s.len() ==> #[trigger] s[i] == b[i + 1]);
        assert forall|i: int| 2 < i < s.len() implies letter_or_space(#[trigger] s[i]) by {
            assert(letter_or_space(b[i + 1]));
        }
        assert(s[1] == b[2] && s[2] == b[3]);
        lemma_spaced_places(c, s, 2);
    } else if is_spaced_base(b, 2) {
        assert(callsign::layout(cs, n) is TwoPrefix);
        lemma_spaced_places(c, b, 2);
    } else {
        assert(letter_or_space(b[2]));
        assert(callsign::layout(cs, n) is OnePrefix);
        lemma_spaced_places(c, b, 1);
    }
}

/// Six places that fit are those of a call.
#[verifier::spinoff_prover]
proof fn lemma_spaced_call_of_base(cs: Seq<u8>)
    requires
        callsign::basecall(cs, callsign::base_length(cs)) is Some,
    ensures
        spaced_id(cs) is Some,
{
    let b = bare(cs);
    let n = b.len() as int;
    assert(callsign::ends_with(cs, 'P') == is_portable(cs));
    assert(callsign::ends_with(cs, 'R') == is_rover(cs));
    assert(n == callsign::base_length(cs));
    assert(forall|i: int| 0 <= i < n ==> #[trigger] b[i] == cs[i]);
    let c = callsign::places(cs, n);
    assert(CharTable::LettersSpace.has(c[3]) && CharTable::LettersSpace.has(c[4])
        && CharTable::LettersSpace.has(c[5]));
    match callsign::layout(cs, n) {
        Layout::Swaziland => {
            assert(b[3] == cs[3]);
            assert forall|i: int| 4 <= i < n implies letter_or_space(#[trigger] b[i]) by {
                assert(c[i - 1] == b[i]);
                assert(i - 1 == 3 || i - 1 == 4 || i - 1 == 5);
            }
            assert(is_spaced_swaziland(b));
        },
        Layout::Guinea => {
            assert(c[1] == b[2]);
            if n > 3 {
                assert(c[2] == b[3]);
            }
            assert forall|i: int| 4 <= i < n implies letter_or_space(#[trigger] b[i]) by {
                assert(c[i - 1] == b[i]);
                assert(i - 1 == 3 || i - 1 == 4 || i - 1 == 5);
            }
            assert(is_spaced_guinea(b));
        },
        Layout::TwoPrefix => {
            assert(c[0] == b[0] && c[1] == b[1] && c[2] == b[2]);
            assert forall|i: int| 2 < i < n implies letter_or_space(#[trigger] b[i]) by {
                assert(c[i] == b[i]);
                assert(i == 3 || i == 4 || i == 5);
            }
            assert(is_spaced_base(b, 2));
        },
        Layout::OnePrefix => {
            assert(c[1] == b[0] && c[2] == b[1]);
            assert forall|i: int| 1 < i < n implies letter_or_space(#[trigger] b[i]) by {
                assert(c[i + 1] == b[i]);
                assert(i + 1 == 3 || i + 1 == 4 || i + 1 == 5);
            }
            assert(is_spaced_base(b, 1));
        },
        Layout::Other => {
            assert(c[2] == ' ' as u8);
        },
    }
}

/// Any call that is no token, and no `CQ` with an argument, has the number of its
/// characters, or none if they are not laid out as a call is.
#[verifier::spinoff_prover]
pub proof fn law_calls_have_the_numbers_of_their_characters(cs: Seq<u8>)
    requires
        !is_token(cs),
        !(3 <= cs.len() <= 7 && cs[0] == 67 && cs[1] == 81 && cs[2] == 32),
    ensures
        callsign::call_number(cs) == match spaced_id(cs) {
            Some(n) => Some((n, if is_portable(cs) || is_rover(cs) { 1int } else { 0 })),
            None => None,
        },
{
    assert(callsign::de() =~= seq![68u8, 69]);
    assert(callsign::qrz() =~= seq![81u8, 82, 90]);
    assert(callsign::cq() =~= seq![67u8, 81]);
    if callsign::is_cq_with_argument(cs) {
        assert(cs.take(3)[0] == cs[0] && cs.take(3)[1] == cs[1] && cs.take(3)[2] == cs[2]);
    }
    assert(callsign::ends_with(cs, 'P') == is_portable(cs));
    assert(callsign::ends_with(cs, 'R') == is_rover(cs));
    if spaced_id(cs) is Some {
        lemma_spaced_base_of_call(cs);
    } else if callsign::basecall(cs, callsign::base_length(cs)) is Some {
        lemma_spaced_call_of_base(cs);
    }
}

} // verus!
