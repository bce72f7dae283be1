//! Callsigns as 28-bit numbers.
//!
//! The numbers from zero up are, in turn: the tokens `DE`, `QRZ` and `CQ`;
//! `CQ` with a number of three digits; `CQ` with up to four letters; hashes of
//! nonstandard calls; and standard calls.

use vstd::prelude::*;
use crate::message::{Callsign, Field, MAX22, NTOKENS};
use crate::text;
use crate::text::{alpha, charn, dd_to_int, digit, int_to_dd, nchar, upper, CharTable};

verus! {

/// `s` in six places, with spaces behind it.
pub open spec fn padded(s: Seq<u8>) -> Seq<u8> {
    Seq::new(6, |i: int| if i < s.len() { s[i] } else { ' ' as u8 })
}

/// How a base call is laid out over the six places that are packed.
pub enum Layout {
    /// `3DA0XYZ`, packed as `3D0XYZ`.
    Swaziland,
    /// `3XA0XYZ`, packed as `QA0XYZ`.
    Guinea,
    /// A prefix of two characters.
    TwoPrefix,
    /// A prefix of one character, packed behind a space.
    OnePrefix,
    /// None of these.
    Other,
}

/// The layout of the first `length` characters of a call.
pub open spec fn layout(cs: Seq<u8>, length: int) -> Layout {
    if cs.len() >= 4 && cs[0] == '3' as u8 && cs[1] == 'D' as u8 && cs[2] == 'A' as u8 && cs[3]
        == '0' as u8 && 4 < length <= 7 {
        Layout::Swaziland
    } else if cs.len() >= 3 && cs[0] == '3' as u8 && cs[1] == 'X' as u8 && text::is_alpha(cs[2])
        && length <= 7 {
        Layout::Guinea
    } else if cs.len() >= 3 && text::is_digit(cs[2]) && length <= 6 {
        Layout::TwoPrefix
    } else if cs.len() >= 2 && text::is_digit(cs[1]) && length <= 5 {
        Layout::OnePrefix
    } else {
        Layout::Other
    }
}

/// The six places of a base call.
pub open spec fn places(cs: Seq<u8>, length: int) -> Seq<u8> {
    match layout(cs, length) {
        Layout::Swaziland => padded(
            seq!['3' as u8, 'D' as u8, '0' as u8] + cs.subrange(4, length),
        ),
        Layout::Guinea => padded(seq!['Q' as u8] + cs.subrange(2, length)),
        Layout::TwoPrefix => padded(cs.take(length)),
        Layout::OnePrefix => padded(seq![' ' as u8] + cs.take(length)),
        Layout::Other => padded(Seq::empty()),
    }
}

/// Does each place hold a character of its own alphabet?
pub open spec fn places_fit(c: Seq<u8>) -> bool {
    &&& CharTable::AlphanumSpace.has(c[0])
    &&& CharTable::Alphanum.has(c[1])
    &&& CharTable::Numeric.has(c[2])
    &&& CharTable::LettersSpace.has(c[3])
    &&& CharTable::LettersSpace.has(c[4])
    &&& CharTable::LettersSpace.has(c[5])
}

/// The number of six places, each in the base of its own alphabet.
pub open spec fn places_value(c: Seq<u8>) -> int {
    ((((CharTable::AlphanumSpace.index(c[0]) * 36 + CharTable::Alphanum.index(c[1])) * 10
        + CharTable::Numeric.index(c[2])) * 27 + CharTable::LettersSpace.index(c[3])) * 27
        + CharTable::LettersSpace.index(c[4])) * 27 + CharTable::LettersSpace.index(c[5])
}

/// The number of the base call in the first `length` characters of `cs`, if that
/// is a standard call.
pub open spec fn basecall(cs: Seq<u8>, length: int) -> Option<int> {
    if length > 2 && places_fit(places(cs, length)) {
        Some(places_value(places(cs, length)))
    } else {
        None
    }
}

/// Copy `s[from..to]` into the places from `at` on.
fn place(c6: &mut [u8; 6], at: usize, s: &[u8], from: usize, to: usize)
    requires
        from <= to <= s@.len(),
        at + (to - from) <= 6,
    ensures
        forall|i: int| 0 <= i < at ==> final(c6)@[i] == old(c6)@[i],
        forall|i: int| at <= i < at + (to - from) ==> final(c6)@[i] == s@[from + i - at],
        forall|i: int| at + (to - from) <= i < 6 ==> final(c6)@[i] == old(c6)@[i],
{
    let mut k: usize = 0;
    while k < to - from
        invariant
            from <= to <= s@.len(),
            at + (to - from) <= 6,
            k <= to - from,
            forall|i: int| 0 <= i < at ==> c6@[i] == old(c6)@[i],
            forall|i: int| at <= i < at + k ==> c6@[i] == s@[from + i - at],
            forall|i: int| at + k <= i < 6 ==> c6@[i] == old(c6)@[i],
        decreases to - from - k,
    {
        c6[at + k] = s[from + k];
        k += 1;
    }
}

/// The six places of a base call.
fn lay_out(cs: &[u8], length: usize) -> (c6: [u8; 6])
    requires
        length > 2,
        layout(cs@, length as int) is Other || length <= cs@.len(),
    ensures
        c6@ == places(cs@, length as int),
{
    let mut c6: [u8; 6] = [' ' as u8; 6];
    let n: usize = cs.len();
    if n >= 4 && cs[0] == '3' as u8 && cs[1] == 'D' as u8 && cs[2] == 'A' as u8 && cs[3]
        == '0' as u8 && length > 4 && length <= 7 {
        c6[0] = '3' as u8;
        c6[1] = 'D' as u8;
        c6[2] = '0' as u8;
        place(&mut c6, 3, cs, 4, length);
    } else if n >= 3 && cs[0] == '3' as u8 && cs[1] == 'X' as u8 && alpha(cs[2]) && length <= 7 {
        c6[0] = 'Q' as u8;
        place(&mut c6, 1, cs, 2, length);
    } else if n >= 3 && digit(cs[2]) && length <= 6 {
        place(&mut c6, 0, cs, 0, length);
    } else if n >= 2 && digit(cs[1]) && length <= 5 {
        place(&mut c6, 1, cs, 0, length);
    }
    assert(c6@ =~= places(cs@, length as int));
    c6
}

/// Pack a base callsign into its 28-bit numeric form, or `None` if it is not a
/// standard call. The two prefix work-arounds are not decoration: Swaziland and
/// Guinea calls do not fit the 1-2 char prefix / digit / 1-3 char suffix shape,
/// so the protocol rewrites them.
pub fn pack_basecall(callsign: &str, length: usize) -> (r: Option<u32>)
    requires
        length > 2 && !(layout(vstd::utf8::encode_utf8(callsign@), length as int) is Other)
            ==> length <= vstd::utf8::encode_utf8(callsign@).len(),
    ensures
        r matches Some(n) ==> basecall(vstd::utf8::encode_utf8(callsign@), length as int) == Some(
            n as int,
        ) && n < 262_177_560,
        r is None ==> basecall(vstd::utf8::encode_utf8(callsign@), length as int) is None,
{
    if length <= 2 {
        return None;
    }
    let c6: [u8; 6] = lay_out(callsign.as_bytes(), length);
    match (
        nchar(c6[0], CharTable::AlphanumSpace),
        nchar(c6[1], CharTable::Alphanum),
        nchar(c6[2], CharTable::Numeric),
        nchar(c6[3], CharTable::LettersSpace),
        nchar(c6[4], CharTable::LettersSpace),
        nchar(c6[5], CharTable::LettersSpace),
    ) {
        (Some(i0), Some(i1), Some(i2), Some(i3), Some(i4), Some(i5)) => {
            let mut n: u32 = i0 as u32;
            n = n * 36 + i1 as u32;
            n = n * 10 + i2 as u32;
            n = n * 27 + i3 as u32;
            n = n * 27 + i4 as u32;
            n = n * 27 + i5 as u32;
            Some(n)
        },
        _ => None,
    }
}

/// `s` up to its first space.
pub open spec fn first_word(s: Seq<u8>) -> Seq<u8>
    decreases s.len(),
{
    if s.len() == 0 || s[0] == ' ' as u8 {
        Seq::empty()
    } else {
        seq![s[0]] + first_word(s.skip(1))
    }
}

/// What follows `CQ `: five characters at most, up to a space.
pub open spec fn cq_argument(cs: Seq<u8>) -> Seq<u8> {
    first_word(text::capped(cs.skip(3), 5))
}

/// Are all bytes digits?
pub open spec fn all_digits(s: Seq<u8>) -> bool {
    forall|i: int| 0 <= i < s.len() ==> text::is_digit(#[trigger] s[i])
}

/// Are all bytes capitals?
pub open spec fn all_upper(s: Seq<u8>) -> bool {
    forall|i: int| 0 <= i < s.len() ==> text::is_upper(#[trigger] s[i])
}

/// Letters as digits from 1 to 26 of a number in base 27.
pub open spec fn letters_value(s: Seq<u8>) -> int
    decreases s.len(),
{
    if s.len() == 0 {
        0
    } else {
        27 * letters_value(s.drop_last()) + (s.last() - 'A' as int + 1)
    }
}

/// The number of the argument of a `CQ`: three digits as they are, up to four
/// letters behind those.
pub open spec fn cq_modifier(cs: Seq<u8>) -> Option<int> {
    let arg = cq_argument(cs);
    if arg.len() == 3 && all_digits(arg) {
        Some(text::leading_number(arg, 0))
    } else if arg.len() <= 4 && all_upper(arg) {
        Some(1000 + letters_value(arg))
    } else {
        None
    }
}

/// Twenty-seven to the power `k`.
pub open spec fn pow27(k: nat) -> int
    decreases k,
{
    if k == 0 { 1 } else { 27 * pow27((k - 1) as nat) }
}

/// A first word goes on from what was read of it without a space.
pub proof fn lemma_first_word(s: Seq<u8>, k: int)
    requires
        0 <= k <= s.len(),
        forall|i: int| 0 <= i < k ==> s[i] != ' ' as u8,
    ensures
        first_word(s) == s.take(k) + first_word(s.skip(k)),
    decreases k,
{
    if k == 0 {
        assert(s.skip(0) =~= s);
        assert(s.take(0) + first_word(s) =~= first_word(s));
    } else {
        lemma_first_word(s.skip(1), k - 1);
        assert(s.skip(1).skip(k - 1) =~= s.skip(k));
        assert(seq![s[0]] + s.skip(1).take(k - 1) =~= s.take(k));
        assert(first_word(s) =~= s.take(k) + first_word(s.skip(k)));
    }
}

/// Letters give a number of as many digits in base 27.
pub proof fn lemma_letters_value_bound(s: Seq<u8>)
    requires
        all_upper(s),
    ensures
        0 <= letters_value(s) < pow27(s.len()),
    decreases s.len(),
{
    if s.len() > 0 {
        let head = s.drop_last();
        assert forall|i: int| 0 <= i < head.len() implies text::is_upper(#[trigger] head[i]) by {
            assert(text::is_upper(s[i]));
        }
        lemma_letters_value_bound(head);
        assert(text::is_upper(s[s.len() - 1]));
    }
}

/// Three digits give a number below a thousand.
pub proof fn lemma_three_digits(s: Seq<u8>)
    requires
        s.len() == 3,
        all_digits(s),
    ensures
        text::leading_number(s, 0) == (s[0] - '0' as u8) * 100 + (s[1] - '0' as u8) * 10 + (s[2]
            - '0' as u8),
        0 <= text::leading_number(s, 0) <= 999,
{
    reveal_with_fuel(text::leading_number, 5);
    assert(text::is_digit(s[0]) && text::is_digit(s[1]) && text::is_digit(s[2]));
    assert(s.skip(1)[0] == s[1]);
    assert(s.skip(1).skip(1)[0] == s[2]);
    assert(s.skip(1).skip(1).skip(1).len() == 0);
}

/// The number of the argument of a `CQ`, or `None` if it is neither three digits
/// nor up to four letters.
#[verifier::spinoff_prover]
fn parse_cq_modifier(b: &[u8]) -> (r: Option<i32>)
    requires
        b@.len() >= 3,
    ensures
        r matches Some(m) ==> cq_modifier(b@) == Some(m as int) && 0 <= m <= 532_440,
        r is None ==> cq_modifier(b@) is None,
{
    let ghost tail = text::capped(b@.skip(3), 5);
    let mut nnum: u32 = 0;
    let mut nlet: u32 = 0;
    let mut m: i32 = 0;
    let mut i: usize = 3;
    proof {
        reveal_with_fuel(pow27, 6);
        assert(letters_value(tail.take(0)) == 0);
    }
    while i < 8 && i < b.len() && b[i] != ' ' as u8
        invariant
            3 <= i <= 8,
            b@.len() >= i,
            tail == text::capped(b@.skip(3), 5),
            forall|k: int| 0 <= k < i - 3 ==> tail[k] != ' ' as u8,
            nnum + nlet == i - 3,
            0 <= m < pow27((i - 3) as nat),
            nnum == 0 ==> all_upper(tail.take(i - 3)) && m == letters_value(tail.take(i - 3)),
            nnum > 0 ==> !all_upper(tail.take(i - 3)),
            nlet == 0 ==> all_digits(tail.take(i - 3)),
            nlet > 0 ==> !all_digits(tail.take(i - 3)),
        decreases 8 - i,
    {
        let c: u8 = b[i];
        let ghost before = tail.take(i - 3);
        let ghost after = tail.take(i - 2);
        proof {
            assert(tail[i - 3] == c);
            assert(after.drop_last() =~= before);
            assert(after.last() == c);
            assert(forall|k: int| 0 <= k < i - 3 ==> #[trigger] after[k] == before[k]);
            assert(forall|k: int| 0 <= k < i - 3 ==> #[trigger] before[k] == after[k]);
            assert(after[i - 3] == c);
            reveal_with_fuel(pow27, 6);
        }
        if digit(c) {
            nnum += 1;
        } else if upper(c) {
            nlet += 1;
            m = 27 * m + (c - 'A' as u8 + 1) as i32;
        } else {
            proof {
                lemma_first_word(tail, i - 3);
                let arg = cq_argument(b@);
                assert(tail.skip(i - 3)[0] == c);
                assert(arg[i - 3] == c);
            }
            return None;
        }
        i += 1;
    }
    let ghost arg = cq_argument(b@);
    proof {
        lemma_first_word(tail, i - 3);
        let rest = tail.skip(i - 3);
        if rest.len() > 0 {
            assert(rest[0] == b@[i as int]);
        }
        assert(first_word(rest) =~= Seq::<u8>::empty());
        assert(arg =~= tail.take(i - 3));
        reveal_with_fuel(pow27, 6);
    }
    if nnum == 3 && nlet == 0 {
        proof {
            lemma_three_digits(arg);
            assert(text::is_digit(arg[0]));
            assert(text::dd_field(b@.skip(3), 3) =~= arg);
        }
        Some(dd_to_int(vstd::slice::slice_subrange(b, 3, b.len()), 3))
    } else if nnum == 0 && nlet <= 4 {
        Some(1000 + m)
    } else {
        None
    }
}

/// `DE`
pub open spec fn de() -> Seq<u8> {
    seq!['D' as u8, 'E' as u8]
}

/// `QRZ`
pub open spec fn qrz() -> Seq<u8> {
    seq!['Q' as u8, 'R' as u8, 'Z' as u8]
}

/// `CQ`
pub open spec fn cq() -> Seq<u8> {
    seq!['C' as u8, 'Q' as u8]
}

/// `CQ` and a space, which an argument follows.
pub open spec fn cq_space() -> Seq<u8> {
    seq!['C' as u8, 'Q' as u8, ' ' as u8]
}

/// Is the call `CQ` with an argument?
pub open spec fn is_cq_with_argument(cs: Seq<u8>) -> bool {
    3 <= cs.len() < 8 && cs.take(3) == cq_space()
}

/// Does the call end with a slash and the letter `c`?
pub open spec fn ends_with(cs: Seq<u8>, c: char) -> bool {
    cs.len() >= 2 && cs[cs.len() - 2] == '/' as u8 && cs[cs.len() - 1] == c as u8
}

/// Does the call end with `/P` or `/R`?
pub open spec fn has_suffix(cs: Seq<u8>) -> bool {
    ends_with(cs, 'P') || ends_with(cs, 'R')
}

/// The length of the call without `/P` or `/R`.
pub open spec fn base_length(cs: Seq<u8>) -> int {
    if has_suffix(cs) { cs.len() - 2 } else { cs.len() as int }
}

/// The number of the first base call.
pub open spec fn first_base() -> int {
    NTOKENS + MAX22
}

/// The 28-bit number of a call and the flag for `/P` or `/R`.
pub open spec fn call_number(cs: Seq<u8>) -> Option<(int, int)> {
    if cs == de() {
        Some((0, 0))
    } else if cs == qrz() {
        Some((1, 0))
    } else if cs == cq() {
        Some((2, 0))
    } else if is_cq_with_argument(cs) {
        match cq_modifier(cs) {
            Some(m) => Some((3 + m, 0)),
            None => None,
        }
    } else {
        match basecall(cs, base_length(cs)) {
            Some(n) => Some((first_base() + n, if has_suffix(cs) { 1 } else { 0 })),
            None => None,
        }
    }
}

/// Does the call end with a slash and the letter `c`?
pub(crate) fn suffixed(cs: &[u8], c: char) -> (r: bool)
    requires
        c == 'P' || c == 'R',
    ensures
        r == ends_with(cs@, c),
{
    let n: usize = cs.len();
    n >= 2 && cs[n - 2] == '/' as u8 && cs[n - 1] == c as u8
}

/// Pack a call into its 28-bit number and a flag for a `/P` or `/R` suffix, or
/// `None` for a nonstandard call, which would need a hash.
pub fn pack28(callsign: &str) -> (r: Option<(u32, u8)>)
    ensures
        r matches Some((n28, ip)) ==> call_number(vstd::utf8::encode_utf8(callsign@)) == Some(
            (n28 as int, ip as int),
        ) && n28 < 0x1000_0000 && ip <= 1,
        r is None ==> call_number(vstd::utf8::encode_utf8(callsign@)) is None,
{
    let cs: &[u8] = callsign.as_bytes();
    let length: usize = cs.len();
    if length == 2 && cs[0] == 'D' as u8 && cs[1] == 'E' as u8 {
        assert(cs@ =~= de());
        return Some((0, 0));
    }
    if length == 3 && cs[0] == 'Q' as u8 && cs[1] == 'R' as u8 && cs[2] == 'Z' as u8 {
        assert(cs@ =~= qrz());
        return Some((1, 0));
    }
    if length == 2 && cs[0] == 'C' as u8 && cs[1] == 'Q' as u8 {
        assert(cs@ =~= cq());
        return Some((2, 0));
    }
    if length >= 3 && cs[0] == 'C' as u8 && cs[1] == 'Q' as u8 && cs[2] == ' ' as u8 && length < 8 {
        assert(cs@.take(3) =~= cq_space());
        return match parse_cq_modifier(cs) {
            Some(m) => Some(((3 + m) as u32, 0)),
            None => None,
        };
    }
    assert(!is_cq_with_argument(cs@)) by {
        if is_cq_with_argument(cs@) {
            assert(cs@.take(3)[0] == cs@[0] && cs@.take(3)[1] == cs@[1] && cs@.take(3)[2] == cs@[2]);
        }
    }
    let mut ip: u8 = 0;
    let mut length_base: usize = length;
    if suffixed(cs, 'P') || suffixed(cs, 'R') {
        ip = 1;
        length_base = length - 2;
    }
    match pack_basecall(callsign, length_base) {
        Some(n28) => Some((NTOKENS + MAX22 + n28, ip)),
        None => None,
    }
}

/// Resolves the 22-bit hashes used for nonstandard callsigns.
///
/// FT8 sends some callsigns as a hash, on the assumption the receiver has heard
/// the full call earlier in the QSO. Without a table those decode to `<...>`,
/// which is exactly what WSJT-X shows in the same situation.
pub trait CallsignHash {
    /// The call with this hash, if it has been heard.
    fn lookup22(&self, _hash: u32) -> (r: Option<Callsign>)
        default_ensures
            r is None,
    {
        None
    }

    /// Take note of a call that was heard.
    fn save(&mut self, _callsign: &str) {
    }
}

/// The do-nothing implementation: hashed calls render as `<...>`.
#[derive(Debug, Clone, Copy, Default)]
pub struct NoHash;

impl CallsignHash for NoHash {

}

/// Is the number that of a hashed call?
pub open spec fn is_hashed(n28: int) -> bool {
    NTOKENS <= n28 < first_base()
}

/// `<...>`, which stands for a hashed call that has not been heard.
pub open spec fn unheard() -> Seq<u8> {
    seq!['<' as u8, '.' as u8, '.' as u8, '.' as u8, '>' as u8]
}

/// The letters of a number in base 27, without leading spaces.
pub open spec fn letters_text(n: int) -> Seq<u8> {
    text::trim_start(
        seq![
            CharTable::LettersSpace.glyph((n / 19683) % 27),
            CharTable::LettersSpace.glyph((n / 729) % 27),
            CharTable::LettersSpace.glyph((n / 27) % 27),
            CharTable::LettersSpace.glyph(n % 27),
        ],
    )
}

/// The six places of the number of a base call.
pub open spec fn base_places(n: int) -> Seq<u8> {
    seq![
        CharTable::AlphanumSpace.glyph((n / 7_085_880) % 37),
        CharTable::Alphanum.glyph((n / 196_830) % 36),
        CharTable::Numeric.glyph((n / 19_683) % 10),
        CharTable::LettersSpace.glyph((n / 729) % 27),
        CharTable::LettersSpace.glyph((n / 27) % 27),
        CharTable::LettersSpace.glyph(n % 27),
    ]
}

/// Six places with the prefix work-arounds of packing undone.
pub open spec fn spelled_out(c: Seq<u8>) -> Seq<u8> {
    if c[0] == '3' as u8 && c[1] == 'D' as u8 && c[2] == '0' as u8 && c[3] != ' ' as u8 {
        seq!['3' as u8, 'D' as u8, 'A' as u8, '0' as u8] + c.skip(3)
    } else if c[0] == 'Q' as u8 && text::is_alpha(c[1]) {
        seq!['3' as u8, 'X' as u8] + c.skip(1)
    } else {
        c
    }
}

/// The base call of a number.
pub open spec fn base_text(n: int) -> Seq<u8> {
    text::trimmed(spelled_out(base_places(n)))
}

/// What a suffix flag stands for in a message of type `i3`.
pub open spec fn suffix_text(ip: int, i3: int) -> Option<Seq<u8>> {
    if ip == 0 {
        Some(Seq::empty())
    } else if i3 == 1 {
        Some(seq!['/' as u8, 'R' as u8])
    } else if i3 == 2 {
        Some(seq!['/' as u8, 'P' as u8])
    } else {
        None
    }
}

/// How the number of a call renders, where `known` is the call that the hash
/// stands for if it has been heard.
pub open spec fn rendered(n28: int, ip: int, i3: int, known: Option<Seq<u8>>) -> Option<
    (Seq<u8>, Field),
> {
    if n28 == 0 {
        Some((de(), Field::Token))
    } else if n28 == 1 {
        Some((qrz(), Field::Token))
    } else if n28 == 2 {
        Some((cq(), Field::Token))
    } else if n28 <= 1002 {
        Some((cq_space() + text::dd_text(n28 - 3, 3, false), Field::TokenWithArg))
    } else if n28 <= 532_443 {
        Some((cq_space() + letters_text(n28 - 1003), Field::TokenWithArg))
    } else if n28 < NTOKENS {
        None
    } else if is_hashed(n28) {
        Some((if known is Some { known->0 } else { unheard() }, Field::Call))
    } else if base_text(n28 - first_base()).len() < 3 {
        None
    } else {
        match suffix_text(ip, i3) {
            Some(suffix) => Some((base_text(n28 - first_base()) + suffix, Field::Call)),
            None => None,
        }
    }
}

/// A hashed call that has not been heard shows as `<...>`, in a message of any
/// type.
pub proof fn law_unheard_call_shows_as_placeholder(n28: int, ip: int, i3: int)
    requires
        is_hashed(n28),
    ensures
        rendered(n28, ip, i3, None) == Some((unheard(), Field::Call)),
{
}

/// The text of a call that may have been looked up.
pub open spec fn call_text(call: Option<Callsign>) -> Option<Seq<u8>> {
    match call {
        Some(c) => Some(c@),
        None => None,
    }
}

/// The letters of a `CQ` argument are at most four.
pub proof fn lemma_letters_length(n: int)
    ensures
        letters_text(n).len() <= 4,
{
    let all = seq![
        CharTable::LettersSpace.glyph((n / 19683) % 27),
        CharTable::LettersSpace.glyph((n / 729) % 27),
        CharTable::LettersSpace.glyph((n / 27) % 27),
        CharTable::LettersSpace.glyph(n % 27),
    ];
    text::lemma_trim_start_part(all);
}

/// Render the letters of a `CQ` argument.
fn push_letters(out: &mut Callsign, n: u32)
    requires
        old(out)@ == cq_space(),
        n < 531_441,
    ensures
        final(out)@ == cq_space() + letters_text(n as int),
{
    let mut aaaa: [u8; 4] = [' ' as u8; 4];
    aaaa[3] = charn((n % 27) as i32, CharTable::LettersSpace);
    aaaa[2] = charn((n / 27 % 27) as i32, CharTable::LettersSpace);
    aaaa[1] = charn((n / 27 / 27 % 27) as i32, CharTable::LettersSpace);
    aaaa[0] = charn((n / 27 / 27 / 27 % 27) as i32, CharTable::LettersSpace);
    let ghost all = aaaa@;
    proof {
        assert(text::trim_start(all) == letters_text(n as int)) by {
            assert(all =~= seq![
                CharTable::LettersSpace.glyph((n as int / 19683) % 27),
                CharTable::LettersSpace.glyph((n as int / 729) % 27),
                CharTable::LettersSpace.glyph((n as int / 27) % 27),
                CharTable::LettersSpace.glyph(n as int % 27),
            ]);
        }
        assert(all.skip(0) =~= all);
    }
    let mut start: usize = 0;
    while start < 4 && aaaa[start] == ' ' as u8
        invariant
            start <= 4,
            aaaa@ == all,
            all.len() == 4,
            text::trim_start(all) == text::trim_start(all.skip(start as int)),
        decreases 4 - start,
    {
        assert(all.skip(start as int).skip(1) =~= all.skip(start + 1));
        start += 1;
    }
    assert(text::trim_start(all) == all.skip(start as int));
    out.push_bytes(vstd::slice::slice_subrange(aaaa.as_slice(), start, 4));
    assert(all.subrange(start as int, 4) =~= all.skip(start as int));
}

/// The six places of the number of a base call.
#[verifier::spinoff_prover]
fn split_base(n: u32) -> (c: [u8; 6])
    ensures
        c@ == base_places(n as int),
        text::is_ascii(c@),
{
    let mut c: [u8; 6] = [' ' as u8; 6];
    c[5] = charn((n % 27) as i32, CharTable::LettersSpace);
    c[4] = charn((n / 27 % 27) as i32, CharTable::LettersSpace);
    c[3] = charn((n / 27 / 27 % 27) as i32, CharTable::LettersSpace);
    c[2] = charn((n / 27 / 27 / 27 % 10) as i32, CharTable::Numeric);
    c[1] = charn((n / 27 / 27 / 27 / 10 % 36) as i32, CharTable::Alphanum);
    c[0] = charn((n / 27 / 27 / 27 / 10 / 36 % 37) as i32, CharTable::AlphanumSpace);
    assert(c@ =~= base_places(n as int));
    c
}

/// Undo the prefix work-arounds applied when packing.
#[verifier::spinoff_prover]
fn spell_out(c: &[u8; 6]) -> (out: Callsign)
    requires
        text::is_ascii(c@),
    ensures
        out@ == spelled_out(c@),
        out@.len() <= 7,
        text::is_ascii(out@),
{
    let mut out: Callsign = Callsign::new();
    if c[0] == '3' as u8 && c[1] == 'D' as u8 && c[2] == '0' as u8 && c[3] != ' ' as u8 {
        let prefix: [u8; 4] = ['3' as u8, 'D' as u8, 'A' as u8, '0' as u8];
        out.push_bytes(&prefix);
        assert(out@ =~= prefix@);
        out.push_bytes(vstd::slice::slice_subrange(c.as_slice(), 3, 6));
        assert(out@ =~= prefix@ + c@.skip(3));
    } else if c[0] == 'Q' as u8 && alpha(c[1]) {
        let prefix: [u8; 2] = ['3' as u8, 'X' as u8];
        out.push_bytes(&prefix);
        assert(out@ =~= prefix@);
        out.push_bytes(vstd::slice::slice_subrange(c.as_slice(), 1, 6));
        assert(out@ =~= prefix@ + c@.skip(1));
    } else {
        out.push_bytes(c);
        assert(out@ =~= c@);
    }
    out
}

/// Render the number of a base call.
#[verifier::spinoff_prover]
fn base_call(n: u32) -> (out: Callsign)
    ensures
        out@ == base_text(n as int),
        out@.len() <= 7,
        text::is_ascii(out@),
{
    let c: [u8; 6] = split_base(n);
    let mut out: Callsign = spell_out(&c);
    proof {
        text::lemma_trimmed_part(out@);
    }
    out.trim_spaces();
    out
}

/// Render the number of a call, where `known` is the call that the hash stands
/// for if it has been heard.
#[verifier::spinoff_prover]
pub fn render28(n28: u32, ip: u8, i3: u8, known: Option<Callsign>) -> (r: Option<(Callsign, Field)>)
    ensures
        match rendered(n28 as int, ip as int, i3 as int, call_text(known)) {
            Some((t, f)) => r matches Some((c, field)) && c@ == t && field == f,
            None => r is None,
        },
        n28 >= first_base() && r is Some ==> text::is_ascii((r->0).0@),
{
    let mut out: Callsign = Callsign::new();
    if n28 < NTOKENS {
        if n28 == 0 {
            out.push_bytes(&['D' as u8, 'E' as u8]);
            assert(out@ =~= de());
            return Some((out, Field::Token));
        }
        if n28 == 1 {
            out.push_bytes(&['Q' as u8, 'R' as u8, 'Z' as u8]);
            assert(out@ =~= qrz());
            return Some((out, Field::Token));
        }
        if n28 == 2 {
            out.push_bytes(&['C' as u8, 'Q' as u8]);
            assert(out@ =~= cq());
            return Some((out, Field::Token));
        }
        out.push_bytes(&['C' as u8, 'Q' as u8, ' ' as u8]);
        assert(out@ =~= cq_space());
        if n28 <= 1002 {
            proof {
                text::lemma_three_digits_text(n28 - 3);
            }
            int_to_dd(&mut out, (n28 - 3) as i32, 3, false);
            return Some((out, Field::TokenWithArg));
        }
        if n28 <= 532_443 {
            push_letters(&mut out, n28 - 1003);
            return Some((out, Field::TokenWithArg));
        }
        return None;
    }
    if n28 - NTOKENS < MAX22 {
        return match known {
            Some(call) => Some((call, Field::Call)),
            None => {
                out.push_bytes(&['<' as u8, '.' as u8, '.' as u8, '.' as u8, '>' as u8]);
                assert(out@ =~= unheard());
                Some((out, Field::Call))
            },
        };
    }
    out = base_call(n28 - NTOKENS - MAX22);
    if out.len() < 3 {
        return None;
    }
    let ghost base = out@;
    if ip != 0 {
        if i3 == 1 {
            out.push_bytes(&['/' as u8, 'R' as u8]);
        } else if i3 == 2 {
            out.push_bytes(&['/' as u8, 'P' as u8]);
        } else {
            return None;
        }
    }
    assert(out@ =~= base + suffix_text(ip as int, i3 as int)->0);
    Some((out, Field::Call))
}

/// Can `known` be what `hash` has for the number of a call? Of a number that is
/// not hashed, nothing is looked up.
pub open spec fn may_know<H: CallsignHash>(hash: H, n28: int, known: Option<Callsign>) -> bool {
    if is_hashed(n28) {
        call_ensures(H::lookup22, (&hash, (n28 - NTOKENS) as u32), known)
    } else {
        known is None
    }
}

/// Unpack the number of a call, looking a hashed call up and saving a standard
/// one. On `None` the field is left as it is.
#[verifier::spinoff_prover]
pub fn unpack28<H: CallsignHash>(
    n28: u32,
    ip: u8,
    i3: u8,
    hash: &mut H,
    field: &mut Field,
) -> (r: Option<Callsign>)
    ensures
        exists|known: Option<Callsign>|
            {
                &&& #[trigger] may_know(*old(hash), n28 as int, known)
                &&& match rendered(n28 as int, ip as int, i3 as int, call_text(known)) {
                    Some((t, f)) => r matches Some(c) && c@ == t && *final(field) == f,
                    None => r is None && *final(field) == *old(field),
                }
            },
        n28 < first_base() || r is None ==> *final(hash) == *old(hash),
        n28 >= first_base() && r is Some ==> exists|m: &mut H, s: &str| #[trigger]
            call_ensures(H::save, (m, s), ()) && *m == *old(hash) && *final(m) == *final(hash)
                && vstd::utf8::encode_utf8(s@) == r->0@,
{
    let hashed: bool = NTOKENS <= n28 && n28 - NTOKENS < MAX22;
    let known: Option<Callsign> = if hashed {
        hash.lookup22(n28 - NTOKENS)
    } else {
        None
    };
    assert(may_know(*old(hash), n28 as int, known));
    match render28(n28, ip, i3, known) {
        Some((call, f)) => {
            if n28 >= NTOKENS + MAX22 {
                proof {
                    text::lemma_ascii_is_utf8(call@);
                }
                hash.save(call.as_str());
            }
            *field = f;
            Some(call)
        },
        None => None,
    }
}

} // verus!
