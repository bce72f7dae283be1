//! Character tables and a fixed-capacity string.
//!
//! FT8 packs text against several alphabets depending on the field. The
//! alphabets are nested: each is made of some of the groups space, digits,
//! letters and punctuation, always in that order.

use vstd::prelude::*;

verus! {

/// The alphabets FT8 packs against. Sizes: 42, 38, 37, 36, 27, 10.
#[derive(Clone, Copy, PartialEq, Eq, Debug)]
pub enum CharTable {
    /// ` 0-9A-Z+-./?`, free text.
    Full,
    /// ` 0-9A-Z/`
    AlphanumSpaceSlash,
    /// ` 0-9A-Z`
    AlphanumSpace,
    /// `0-9A-Z`
    Alphanum,
    /// ` A-Z`
    LettersSpace,
    /// `0-9`
    Numeric,
}

impl CharTable {
    /// Is the space in the table?
    pub open spec fn with_space(self) -> bool {
        !(self is Alphanum || self is Numeric)
    }

    /// Are the digits in the table?
    pub open spec fn with_digits(self) -> bool {
        !(self is LettersSpace)
    }

    /// Are the letters in the table?
    pub open spec fn with_letters(self) -> bool {
        !(self is Numeric)
    }

    /// How many characters precede the digits.
    pub open spec fn digits_at(self) -> int {
        if self.with_space() { 1 } else { 0 }
    }

    /// How many characters precede the letters.
    pub open spec fn letters_at(self) -> int {
        self.digits_at() + if self.with_digits() { 10int } else { 0 }
    }

    /// How many characters precede the punctuation.
    pub open spec fn punctuation_at(self) -> int {
        self.letters_at() + if self.with_letters() { 26int } else { 0 }
    }

    /// The number of characters in the table.
    pub open spec fn size(self) -> int {
        self.punctuation_at() + match self {
            CharTable::Full => 5int,
            CharTable::AlphanumSpaceSlash => 1,
            _ => 0,
        }
    }

    /// The first character of the first group after the space.
    pub open spec fn first_glyph(self) -> int {
        if self.with_digits() { '0' as int } else { 'A' as int }
    }

    /// Can `charn` render index `c`? Every index from zero up can be. A negative
    /// index is taken modulo 256 past the start of the first group, which has to
    /// stay within a byte.
    pub open spec fn renders(self, c: int) -> bool {
        ||| c >= 0
        ||| {
            &&& c - self.digits_at() >= i32::MIN
            &&& self.first_glyph() + (c - self.digits_at()) % 256 <= 255
        }
    }

    /// The character at index `c`: `_` past the end of the table.
    pub open spec fn glyph(self, c: int) -> u8 {
        if self.with_space() && c == 0 {
            ' ' as u8
        } else if c < 0 {
            (self.first_glyph() + (c - self.digits_at()) % 256) as u8
        } else if self.with_digits() && c < self.digits_at() + 10 {
            ('0' as int + c - self.digits_at()) as u8
        } else if self.with_letters() && c < self.letters_at() + 26 {
            ('A' as int + c - self.letters_at()) as u8
        } else if self is Full && c < 42 {
            punctuation(c - 37)
        } else if self is AlphanumSpaceSlash && c == 37 {
            '/' as u8
        } else {
            '_' as u8
        }
    }

    /// Is the character in the table?
    pub open spec fn has(self, c: u8) -> bool {
        ||| self.with_space() && c == ' ' as u8
        ||| self.with_digits() && is_digit(c)
        ||| self.with_letters() && is_upper(c)
        ||| self is Full && (c == '+' as u8 || c == '-' as u8 || c == '.' as u8 || c == '/' as u8
            || c == '?' as u8)
        ||| self is AlphanumSpaceSlash && c == '/' as u8
    }

    /// The index of a character of the table.
    pub open spec fn index(self, c: u8) -> int {
        if c == ' ' as u8 {
            0
        } else if is_digit(c) {
            self.digits_at() + c - '0' as int
        } else if is_upper(c) {
            self.letters_at() + c - 'A' as int
        } else if self is Full && c == '+' as u8 {
            37
        } else if self is Full && c == '-' as u8 {
            38
        } else if self is Full && c == '.' as u8 {
            39
        } else if self is Full && c == '/' as u8 {
            40
        } else if self is Full {
            41
        } else {
            37
        }
    }

    /// The index of a character, or nothing if the table does not have it.
    pub open spec fn find(self, c: u8) -> Option<int> {
        if self.has(c) { Some(self.index(c)) } else { None }
    }

    fn has_space(self) -> (r: bool)
        ensures
            r == self.with_space(),
    {
        !matches!(self, CharTable::Alphanum | CharTable::Numeric)
    }

    fn has_digits(self) -> (r: bool)
        ensures
            r == self.with_digits(),
    {
        !matches!(self, CharTable::LettersSpace)
    }

    fn has_letters(self) -> (r: bool)
        ensures
            r == self.with_letters(),
    {
        !matches!(self, CharTable::Numeric)
    }
}

/// The punctuation of the full table: `+-./?`.
pub open spec fn punctuation(i: int) -> u8 {
    if i == 0 {
        '+' as u8
    } else if i == 1 {
        '-' as u8
    } else if i == 2 {
        '.' as u8
    } else if i == 3 {
        '/' as u8
    } else {
        '?' as u8
    }
}

/// Is the byte an ASCII digit?
pub open spec fn is_digit(c: u8) -> bool {
    '0' as u8 <= c <= '9' as u8
}

/// Is the byte an ASCII capital?
pub open spec fn is_upper(c: u8) -> bool {
    'A' as u8 <= c <= 'Z' as u8
}

/// Is the byte an ASCII letter?
pub open spec fn is_alpha(c: u8) -> bool {
    is_upper(c) || 'a' as u8 <= c <= 'z' as u8
}

/// Is the byte an ASCII digit?
pub fn digit(c: u8) -> (r: bool)
    ensures
        r == is_digit(c),
{
    '0' as u8 <= c && c <= '9' as u8
}

/// Is the byte an ASCII capital?
pub fn upper(c: u8) -> (r: bool)
    ensures
        r == is_upper(c),
{
    'A' as u8 <= c && c <= 'Z' as u8
}

/// Is the byte an ASCII letter?
pub fn alpha(c: u8) -> (r: bool)
    ensures
        r == is_alpha(c),
{
    upper(c) || ('a' as u8 <= c && c <= 'z' as u8)
}

/// Index to character.
pub fn charn(c: i32, table: CharTable) -> (r: u8)
    requires
        table.renders(c as int),
    ensures
        r == table.glyph(c as int),
{
    let mut c: i32 = c;
    if table.has_space() {
        if c == 0 {
            return ' ' as u8;
        }
        c -= 1;
    }
    assert(c < 0 ==> (c as u8) as int == c % 256) by (bit_vector);
    if table.has_digits() {
        if c < 10 {
            return '0' as u8 + c as u8;
        }
        c -= 10;
    }
    if table.has_letters() {
        if c < 26 {
            return 'A' as u8 + c as u8;
        }
        c -= 26;
    }
    match table {
        CharTable::Full => {
            if c == 0 {
                '+' as u8
            } else if c == 1 {
                '-' as u8
            } else if c == 2 {
                '.' as u8
            } else if c == 3 {
                '/' as u8
            } else if c == 4 {
                '?' as u8
            } else {
                '_' as u8
            }
        },
        CharTable::AlphanumSpaceSlash => if c == 0 { '/' as u8 } else { '_' as u8 },
        _ => '_' as u8,
    }
}

/// Character to index, or `None` if the character is not in `table`.
pub fn nchar(c: u8, table: CharTable) -> (r: Option<i32>)
    ensures
        r matches Some(i) ==> table.has(c) && i == table.index(c),
        r is None ==> !table.has(c),
{
    let mut n: i32 = 0;
    if table.has_space() {
        if c == ' ' as u8 {
            return Some(n);
        }
        n += 1;
    }
    if table.has_digits() {
        if digit(c) {
            return Some(n + (c - '0' as u8) as i32);
        }
        n += 10;
    }
    if table.has_letters() {
        if upper(c) {
            return Some(n + (c - 'A' as u8) as i32);
        }
        n += 26;
    }
    match table {
        CharTable::Full => {
            if c == '+' as u8 {
                Some(n)
            } else if c == '-' as u8 {
                Some(n + 1)
            } else if c == '.' as u8 {
                Some(n + 2)
            } else if c == '/' as u8 {
                Some(n + 3)
            } else if c == '?' as u8 {
                Some(n + 4)
            } else {
                None
            }
        },
        CharTable::AlphanumSpaceSlash => if c == '/' as u8 { Some(n) } else { None },
        _ => None,
    }
}

/// Within a table, the character at an index is in the table and has that index.
pub proof fn law_glyph_then_index(table: CharTable, i: int)
    requires
        0 <= i < table.size(),
    ensures
        table.find(table.glyph(i)) == Some(i),
        table.glyph(i) != '_' as u8,
{
}

/// Within a table, every character is the one found at its own index.
pub proof fn law_index_then_glyph(table: CharTable, c: u8)
    requires
        table.has(c),
    ensures
        0 <= table.index(c) < table.size(),
        table.glyph(table.index(c)) == c,
{
}

/// An index past the end of a table gives `_`, which no table has.
pub proof fn law_past_the_end(table: CharTable, i: int)
    requires
        table.size() <= i,
    ensures
        table.glyph(i) == '_' as u8,
        !table.has('_' as u8),
{
}

/// The first `n` bytes of `s`, or all of them if there are fewer.
pub open spec fn capped(s: Seq<u8>, n: int) -> Seq<u8> {
    if s.len() <= n { s } else { s.take(n) }
}

/// `s` without its leading spaces.
pub open spec fn trim_start(s: Seq<u8>) -> Seq<u8>
    decreases s.len(),
{
    if s.len() > 0 && s[0] == ' ' as u8 { trim_start(s.skip(1)) } else { s }
}

/// `s` without its trailing spaces.
pub open spec fn trim_end(s: Seq<u8>) -> Seq<u8>
    decreases s.len(),
{
    if s.len() > 0 && s.last() == ' ' as u8 { trim_end(s.drop_last()) } else { s }
}

/// `s` without its leading and trailing spaces.
pub open spec fn trimmed(s: Seq<u8>) -> Seq<u8> {
    trim_end(trim_start(s))
}

/// Does `s` neither start nor end with a space?
pub open spec fn is_trim(s: Seq<u8>) -> bool {
    s.len() > 0 ==> s[0] != ' ' as u8 && s.last() != ' ' as u8
}

/// Spaces behind a text are what `trim_end` takes away.
pub proof fn lemma_trim_end_padding(s: Seq<u8>, n: int)
    requires
        0 <= n <= s.len(),
        n > 0 ==> s[n - 1] != ' ' as u8,
        forall|i: int| n <= i < s.len() ==> s[i] == ' ' as u8,
    ensures
        trim_end(s) == s.take(n),
    decreases s.len(),
{
    if n < s.len() {
        lemma_trim_end_padding(s.drop_last(), n);
        assert(s.drop_last().take(n) =~= s.take(n));
    } else {
        assert(s.take(n) =~= s);
    }
}

/// Spaces in front of a text are what `trim_start` takes away.
pub proof fn lemma_trim_start_padding(s: Seq<u8>, n: int)
    requires
        0 <= n <= s.len(),
        n < s.len() ==> s[n] != ' ' as u8,
        forall|i: int| 0 <= i < n ==> s[i] == ' ' as u8,
    ensures
        trim_start(s) == s.skip(n),
    decreases s.len(),
{
    if n > 0 {
        lemma_trim_start_padding(s.skip(1), n - 1);
        assert(s.skip(1).skip(n - 1) =~= s.skip(n));
    } else {
        assert(s.skip(n) =~= s);
    }
}

/// A text that neither starts nor ends with a space comes back from between any
/// spaces put around it.
pub proof fn lemma_trim_around(s: Seq<u8>, a: int, b: int)
    requires
        0 <= a <= b <= s.len(),
        is_trim(s.subrange(a, b)),
        forall|i: int| 0 <= i < a ==> s[i] == ' ' as u8,
        forall|i: int| b <= i < s.len() ==> s[i] == ' ' as u8,
    ensures
        trimmed(s) == s.subrange(a, b),
{
    if a < b {
        assert(s.subrange(a, b)[0] == s[a]);
        assert(s.subrange(a, b).last() == s[b - 1]);
        lemma_trim_start_padding(s, a);
        lemma_trim_end_padding(s.skip(a), b - a);
        assert(s.skip(a).take(b - a) =~= s.subrange(a, b));
    } else {
        lemma_trim_start_padding(s, s.len() as int);
        assert(s.skip(s.len() as int) =~= s.subrange(a, b));
    }
}

/// What is trimmed is a part of what was there.
pub proof fn lemma_trimmed_part(s: Seq<u8>)
    ensures
        exists|a: int, b: int| 0 <= a <= b <= s.len() && trimmed(s) == #[trigger] s.subrange(a, b),
{
    lemma_trim_start_part(s);
    let a = choose|a: int| 0 <= a <= s.len() && trim_start(s) == #[trigger] s.skip(a);
    let t = s.skip(a);
    lemma_trim_end_part(t);
    let b = choose|b: int| 0 <= b <= t.len() && trim_end(t) == #[trigger] t.take(b);
    assert(t.take(b) =~= s.subrange(a, a + b));
}

/// What is trimmed at the start leaves the end.
pub proof fn lemma_trim_start_part(s: Seq<u8>)
    ensures
        exists|a: int| 0 <= a <= s.len() && trim_start(s) == #[trigger] s.skip(a),
    decreases s.len(),
{
    if s.len() > 0 && s[0] == ' ' as u8 {
        lemma_trim_start_part(s.skip(1));
        let a = choose|a: int|
            0 <= a <= s.skip(1).len() && trim_start(s.skip(1)) == #[trigger] s.skip(1).skip(a);
        assert(s.skip(1).skip(a) =~= s.skip(a + 1));
    } else {
        assert(s.skip(0) =~= s);
    }
}

/// What is trimmed at the end leaves the start.
proof fn lemma_trim_end_part(s: Seq<u8>)
    ensures
        exists|b: int| 0 <= b <= s.len() && trim_end(s) == #[trigger] s.take(b),
    decreases s.len(),
{
    if s.len() > 0 && s.last() == ' ' as u8 {
        lemma_trim_end_part(s.drop_last());
        let b = choose|b: int|
            0 <= b <= s.drop_last().len() && trim_end(s.drop_last())
                == #[trigger] s.drop_last().take(b);
        assert(s.drop_last().take(b) =~= s.take(b));
    } else {
        assert(s.take(s.len() as int) =~= s);
    }
}

/// What is trimmed at the start does not start with a space.
proof fn lemma_trim_start_head(s: Seq<u8>)
    ensures
        trim_start(s).len() > 0 ==> trim_start(s)[0] != ' ' as u8,
    decreases s.len(),
{
    if s.len() > 0 && s[0] == ' ' as u8 {
        lemma_trim_start_head(s.skip(1));
    }
}

/// What is trimmed at the end does not end with a space, and starts as it did.
proof fn lemma_trim_end_tail(s: Seq<u8>)
    ensures
        trim_end(s).len() <= s.len(),
        trim_end(s).len() > 0 ==> trim_end(s).last() != ' ' as u8 && trim_end(s)[0] == s[0],
    decreases s.len(),
{
    if s.len() > 0 && s.last() == ' ' as u8 {
        lemma_trim_end_tail(s.drop_last());
    }
}

/// Trimming twice is trimming once: what is trimmed neither starts nor ends with a
/// space.
pub proof fn law_trimming_twice_is_trimming_once(s: Seq<u8>)
    ensures
        is_trim(trimmed(s)),
        trimmed(trimmed(s)) == trimmed(s),
{
    let t = trimmed(s);
    lemma_trim_start_head(s);
    lemma_trim_end_tail(trim_start(s));
    assert(t.subrange(0, t.len() as int) =~= t);
    lemma_trim_around(t, 0, t.len() as int);
}

/// A fixed-capacity ASCII string, so that decoded callsigns and messages need no
/// allocation. Its view is the bytes it holds.
#[derive(Clone, Copy, PartialEq, Eq, Debug)]
pub struct Str<const N: usize> {
    buf: [u8; N],
    len: usize,
}

impl<const N: usize> View for Str<N> {
    type V = Seq<u8>;

    closed spec fn view(&self) -> Seq<u8> {
        self.buf@.take(self.len as int)
    }
}

impl<const N: usize> Default for Str<N> {
    fn default() -> (s: Self)
        ensures
            s@ == Seq::<u8>::empty(),
    {
        let s = Str { buf: [0; N], len: 0 };
        assert(s@ =~= Seq::<u8>::empty());
        s
    }
}

/// Are all bytes ASCII?
pub open spec fn is_ascii(s: Seq<u8>) -> bool {
    forall|i: int| 0 <= i < s.len() ==> #[trigger] s[i] < 128
}

/// ASCII is UTF-8.
pub proof fn lemma_ascii_is_utf8(s: Seq<u8>)
    requires
        is_ascii(s),
    ensures
        vstd::utf8::valid_utf8(s),
{
    let chars = Seq::new(s.len(), |i: int| s[i] as char);
    vstd::utf8::is_ascii_chars_encode_utf8(chars);
    vstd::utf8::encode_utf8_valid_utf8(chars);
    assert(vstd::utf8::encode_utf8(chars) =~= s);
}

/// The text of a slice of UTF-8, by `core::str::from_utf8`: a string of exactly
/// those bytes, or nothing where they are not UTF-8.
#[verifier::external_body]
fn utf8_text(bytes: &[u8]) -> (r: Option<&str>)
    ensures
        r is Some <==> vstd::utf8::valid_utf8(bytes@),
        r matches Some(s) ==> vstd::utf8::encode_utf8(s@) == bytes@,
{
    core::str::from_utf8(bytes).ok()
}

impl<const N: usize> Str<N> {
    /// No more bytes than the capacity.
    #[verifier::type_invariant]
    pub closed spec fn wf(self) -> bool {
        self.len <= N
    }

    /// What a string holds fits its capacity.
    pub proof fn lemma_fits(self)
        requires
            self.wf(),
        ensures
            self@.len() <= N,
    {
    }

    /// The empty string.
    pub fn new() -> (s: Self)
        ensures
            s@ == Seq::<u8>::empty(),
    {
        Self::default()
    }

    /// Append a byte. Silently ignores anything past capacity.
    pub fn push(&mut self, c: u8)
        ensures
            final(self)@ == capped(old(self)@.push(c), N as int),
            final(self)@.len() <= N,
    {
        proof {
            use_type_invariant(&*self);
        }
        if self.len < N {
            self.buf[self.len] = c;
            self.len += 1;
            assert(self@ =~= old(self)@.push(c));
        } else {
            assert(old(self)@.push(c).take(N as int) =~= old(self)@);
        }
    }

    /// Append bytes, as far as the capacity goes.
    pub fn push_bytes(&mut self, s: &[u8])
        ensures
            final(self)@ == capped(old(self)@ + s@, N as int),
            final(self)@.len() <= N,
    {
        proof {
            use_type_invariant(&*self);
            assert(old(self)@ + s@.take(0) =~= old(self)@);
        }
        let mut i: usize = 0;
        while i < s.len()
            invariant
                i <= s@.len(),
                self@ == capped(old(self)@ + s@.take(i as int), N as int),
                self@.len() <= N,
            decreases s.len() - i,
        {
            let ghost before = old(self)@ + s@.take(i as int);
            self.push(s[i]);
            i += 1;
            proof {
                let after = old(self)@ + s@.take(i as int);
                assert(after =~= before.push(s@[i - 1]));
                assert(self@ =~= capped(after, N as int));
            }
        }
        assert(s@.take(i as int) =~= s@);
    }

    /// Append a string, byte by byte, as far as the capacity goes.
    pub fn push_str(&mut self, s: &str)
        ensures
            final(self)@ == capped(old(self)@ + vstd::utf8::encode_utf8(s@), N as int),
            final(self)@.len() <= N,
    {
        self.push_bytes(s.as_bytes());
    }

    /// The bytes held.
    pub fn as_bytes(&self) -> (r: &[u8])
        ensures
            r@ == self@,
            r@.len() <= N,
    {
        proof {
            use_type_invariant(self);
        }
        vstd::slice::slice_subrange(self.buf.as_slice(), 0, self.len)
    }

    /// The text held, or nothing if its bytes are not UTF-8, which they always
    /// are where only ASCII was pushed.
    pub fn as_str(&self) -> (r: &str)
        ensures
            vstd::utf8::valid_utf8(self@) ==> vstd::utf8::encode_utf8(r@) == self@,
            !vstd::utf8::valid_utf8(self@) ==> r@ == Seq::<char>::empty(),
    {
        match utf8_text(self.as_bytes()) {
            Some(s) => s,
            None => {
                proof {
                    reveal_strlit("");
                }
                assert(""@ =~= Seq::<char>::empty());
                ""
            },
        }
    }

    /// The number of bytes held.
    pub fn len(&self) -> (r: usize)
        ensures
            r == self@.len(),
            r <= N,
    {
        proof {
            use_type_invariant(self);
        }
        self.len
    }

    /// Is nothing held?
    pub fn is_empty(&self) -> (r: bool)
        ensures
            r == (self@.len() == 0),
    {
        proof {
            use_type_invariant(self);
        }
        self.len == 0
    }

    /// Drop leading and trailing spaces in place.
    #[verifier::spinoff_prover]
    pub fn trim_spaces(&mut self)
        ensures
            final(self)@ == trimmed(old(self)@),
    {
        proof {
            use_type_invariant(&*self);
        }
        let ghost held = self@;
        let mut start: usize = 0;
        assert(held.skip(0) =~= held);
        while start < self.len && self.buf[start] == ' ' as u8
            invariant
                start <= self.len <= N,
                held == self@,
                trim_start(held) == trim_start(held.skip(start as int)),
            decreases self.len - start,
        {
            assert(held.skip(start as int).skip(1) =~= held.skip(start + 1));
            start += 1;
        }
        let ghost body = held.skip(start as int);
        assert(trim_start(held) == body);
        let mut end: usize = self.len;
        assert(body.take(end - start) =~= body);
        while end > start && self.buf[end - 1] == ' ' as u8
            invariant
                start <= end <= self.len <= N,
                held == self@,
                body == held.skip(start as int),
                trim_end(body) == trim_end(body.take(end - start)),
            decreases end - start,
        {
            assert(body.take(end - start).drop_last() =~= body.take(end - start - 1));
            end -= 1;
        }
        let ghost kept = body.take(end - start);
        assert(trimmed(held) == kept);
        assert(kept =~= held.subrange(start as int, end as int));
        let mut i: usize = 0;
        while i < end - start
            invariant
                start <= end <= self.len <= N,
                i <= end - start,
                held.len() >= end,
                kept == held.subrange(start as int, end as int),
                forall|j: int| 0 <= j < i ==> self.buf@[j] == kept[j],
                forall|j: int| start + i <= j < end ==> self.buf@[j] == held[j],
            decreases end - start - i,
        {
            self.buf[i] = self.buf[start + i];
            i += 1;
        }
        self.len = end - start;
        assert(self@ =~= kept);
    }

    /// A string of the bytes of `s` that fit.
    pub fn from_str_lossy(s: &str) -> (r: Self)
        ensures
            r@ == capped(vstd::utf8::encode_utf8(s@), N as int),
    {
        let mut out = Self::new();
        out.push_str(s);
        assert(Seq::<u8>::empty() + vstd::utf8::encode_utf8(s@) =~= vstd::utf8::encode_utf8(s@));
        out
    }
}

impl<const N: usize> core::ops::Deref for Str<N> {
    type Target = str;

    fn deref(&self) -> (r: &str)
        ensures
            vstd::utf8::valid_utf8(self@) ==> vstd::utf8::encode_utf8(r@) == self@,
            !vstd::utf8::valid_utf8(self@) ==> r@ == Seq::<char>::empty(),
    {
        self.as_str()
    }
}

/// Ten to the power `k`.
pub open spec fn pow10(k: nat) -> int
    decreases k,
{
    if k == 0 { 1 } else { 10 * pow10((k - 1) as nat) }
}

/// The character for a digit; a digit past nine takes the character that many
/// places after `0`, modulo 256.
pub open spec fn digit_glyph(d: int) -> u8 {
    ('0' as int + d % 256) as u8
}

/// `v` in `width` decimal digits. What does not fit is left to the first digit.
pub open spec fn dd_digits(v: int, width: nat) -> Seq<u8>
    decreases width,
{
    if width == 0 {
        Seq::empty()
    } else {
        let unit = pow10((width - 1) as nat);
        seq![digit_glyph(v / unit)] + dd_digits(v % unit, (width - 1) as nat)
    }
}

/// The sign that `int_to_dd` writes.
pub open spec fn dd_sign(value: int, full_sign: bool) -> Seq<u8> {
    if value < 0 {
        seq!['-' as u8]
    } else if full_sign {
        seq!['+' as u8]
    } else {
        Seq::empty()
    }
}

/// The magnitude of an integer.
pub open spec fn magnitude(v: int) -> int {
    if v < 0 { -v } else { v }
}

/// How many digits `int_to_dd` writes: one at least.
pub open spec fn dd_width(width: int) -> nat {
    if width <= 1 { 1 } else { width as nat }
}

/// What `int_to_dd` writes.
pub open spec fn dd_text(value: int, width: int, full_sign: bool) -> Seq<u8> {
    dd_sign(value, full_sign) + dd_digits(magnitude(value), dd_width(width))
}

/// Powers of ten up to the ninth fit, and each is ten times the one before.
proof fn lemma_pow10(k: nat)
    ensures
        pow10(k) >= 1,
        k <= 9 ==> pow10(k) <= 1_000_000_000,
    decreases k,
{
    reveal_with_fuel(pow10, 10);
    if k > 0 {
        lemma_pow10((k - 1) as nat);
    }
}

/// A number below a hundred in two digits.
pub proof fn lemma_two_digits_text(v: int)
    requires
        0 <= v < 100,
    ensures
        pow10(1) == 10,
        v / pow10(1) <= 9,
        dd_digits(v, 2) == seq![('0' as int + v / 10) as u8, ('0' as int + v % 10) as u8],
{
    reveal_with_fuel(pow10, 3);
    reveal_with_fuel(dd_digits, 4);
    assert(pow10(1) == 10 && pow10(0) == 1);
    assert(v / 10 <= 9);
    assert(dd_digits(v, 2) =~= seq![('0' as int + v / 10) as u8, ('0' as int + v % 10) as u8]);
}

/// A number below a thousand in three digits.
pub proof fn lemma_three_digits_text(v: int)
    requires
        0 <= v < 1000,
    ensures
        pow10(2) == 100,
        v / pow10(2) <= 9,
        dd_digits(v, 3) == seq![
            ('0' as int + v / 100) as u8,
            ('0' as int + (v / 10) % 10) as u8,
            ('0' as int + v % 10) as u8,
        ],
{
    reveal_with_fuel(pow10, 3);
    reveal_with_fuel(dd_digits, 2);
    assert(pow10(2) == 100);
    lemma_two_digits_text(v % 100);
    assert(dd_digits(v, 3) =~= seq![
        ('0' as int + v / 100) as u8,
        ('0' as int + (v / 10) % 10) as u8,
        ('0' as int + v % 10) as u8,
    ]);
}

/// Render `value` right-aligned in `width` digits, with a sign if negative or if
/// `full_sign`.
#[verifier::spinoff_prover]
pub fn int_to_dd<const N: usize>(out: &mut Str<N>, value: i32, width: u32, full_sign: bool)
    requires
        value > i32::MIN,
        width <= 10,
        '0' as int + (magnitude(value as int) / pow10((dd_width(width as int) - 1) as nat)) % 256
            <= 255,
    ensures
        final(out)@ == capped(
            old(out)@ + dd_text(value as int, width as int, full_sign),
            N as int,
        ),
        final(out)@.len() <= N,
{
    let ghost text = dd_text(value as int, width as int, full_sign);
    let ghost sign = dd_sign(value as int, full_sign);
    proof {
        use_type_invariant(&*out);
        old(out).lemma_fits();
        assert(old(out)@ + Seq::<u8>::empty() =~= old(out)@);
        assert(forall|c: u8| #[trigger] old(out)@.push(c) =~= old(out)@ + seq![c]);
    }
    let mut rest: u32 = 0;
    if value < 0 {
        out.push('-' as u8);
        rest = (-value) as u32;
    } else {
        if full_sign {
            out.push('+' as u8);
        }
        rest = value as u32;
    }
    assert(out@ == capped(old(out)@ + sign, N as int));

    let digits: u32 = if width <= 1 { 1 } else { width };
    let mut divisor: u32 = 1;
    let mut k: u32 = 1;
    while k < digits
        invariant
            1 <= k <= digits <= 10,
            divisor == pow10((k - 1) as nat),
        decreases digits - k,
    {
        proof {
            lemma_pow10((k - 1) as nat);
            lemma_pow10(k as nat);
            assert(pow10(k as nat) == 10 * pow10((k - 1) as nat));
        }
        divisor *= 10;
        k += 1;
    }

    let ghost mut done = sign;
    assert(text == done + dd_digits(rest as int, k as nat));
    while k > 0
        invariant
            k <= digits <= 10,
            k > 0 ==> divisor == pow10((k - 1) as nat),
            k > 0 ==> '0' as int + (rest as int / divisor as int) % 256 <= 255,
            text == done + dd_digits(rest as int, k as nat),
            out@ == capped(old(out)@ + done, N as int),
            out@.len() <= N,
        decreases k,
    {
        proof {
            lemma_pow10((k - 1) as nat);
        }
        let digit: u32 = rest / divisor;
        assert(digit as u8 == digit % 256) by (bit_vector);
        let c: u8 = '0' as u8 + digit as u8;
        out.push(c);
        let ghost unit = divisor as int;
        let ghost before = rest as int;
        proof {
            vstd::arithmetic::div_mod::lemma_fundamental_div_mod(before, unit);
            assert(digit * divisor == unit * (before / unit)) by (nonlinear_arith)
                requires
                    digit as int == before / unit,
                    divisor as int == unit,
            ;
            vstd::arithmetic::div_mod::lemma_mod_bound(before, unit);
            let next = done + seq![c];
            assert(old(out)@ + next =~= (old(out)@ + done).push(c));
            assert(out@ =~= capped(old(out)@ + next, N as int));
            assert(text =~= next + dd_digits(before % unit, (k - 1) as nat));
            done = next;
        }
        rest = rest - digit * divisor;
        divisor = divisor / 10;
        k -= 1;
        proof {
            if k > 0 {
                assert(pow10(k as nat) == 10 * pow10((k - 1) as nat));
                lemma_pow10((k - 1) as nat);
                assert(rest < 10 * divisor);
                assert(rest as int / divisor as int <= 9) by (nonlinear_arith)
                    requires
                        0 <= rest < 10 * divisor,
                        divisor >= 1,
                ;
                assert(rest as int / divisor as int >= 0) by (nonlinear_arith)
                    requires
                        0 <= rest,
                        divisor >= 1,
                ;
            }
        }
    }
    assert(done + dd_digits(rest as int, 0) =~= done);
}

/// The decimal number that starts `s`, after `acc`: digits up to the first byte
/// that is none.
pub open spec fn leading_number(s: Seq<u8>, acc: int) -> int
    decreases s.len(),
{
    if s.len() > 0 && is_digit(s[0]) {
        leading_number(s.skip(1), acc * 10 + (s[0] - '0' as u8))
    } else {
        acc
    }
}

/// Does `s` start with a sign?
pub open spec fn has_sign(s: Seq<u8>) -> bool {
    s.len() > 0 && (s[0] == '-' as u8 || s[0] == '+' as u8)
}

/// What `dd_to_int` reads as digits: the first `len` bytes of `s`, past the sign.
pub open spec fn dd_field(s: Seq<u8>, len: int) -> Seq<u8> {
    let field = capped(s, len);
    if has_sign(s) && field.len() > 0 { field.skip(1) } else { field }
}

/// What `dd_to_int` returns.
pub open spec fn dd_value(s: Seq<u8>, len: int) -> int {
    let number = leading_number(dd_field(s, len), 0);
    if s.len() > 0 && s[0] == '-' as u8 { -number } else { number }
}

/// More digits never make a number smaller.
proof fn lemma_leading_number_grows(s: Seq<u8>, acc: int)
    requires
        0 <= acc,
    ensures
        acc <= leading_number(s, acc),
    decreases s.len(),
{
    if s.len() > 0 && is_digit(s[0]) {
        lemma_leading_number_grows(s.skip(1), acc * 10 + (s[0] - '0' as u8));
    }
}

/// Parse a signed integer of at most `len` characters.
pub fn dd_to_int(s: &[u8], len: usize) -> (r: i32)
    requires
        leading_number(dd_field(s@, len as int), 0) <= i32::MAX,
    ensures
        r == dd_value(s@, len as int),
{
    let negative: bool = s.len() > 0 && s[0] == '-' as u8;
    let signed: bool = negative || (s.len() > 0 && s[0] == '+' as u8);
    let end: usize = if s.len() < len { s.len() } else { len };
    let ghost field = dd_field(s@, len as int);
    let mut i: usize = if signed && end > 0 { 1 } else { 0 };
    let mut result: i32 = 0;
    assert(s@.subrange(i as int, end as int) =~= field);
    while i < end && digit(s[i])
        invariant
            i <= end <= s@.len(),
            0 <= result,
            leading_number(field, 0) == leading_number(
                s@.subrange(i as int, end as int),
                result as int,
            ),
            leading_number(field, 0) <= i32::MAX,
        decreases end - i,
    {
        let digit: i32 = (s[i] - '0' as u8) as i32;
        proof {
            let left = s@.subrange(i as int, end as int);
            assert(left.skip(1) =~= s@.subrange(i + 1, end as int));
            lemma_leading_number_grows(left.skip(1), result * 10 + digit);
        }
        result = result * 10 + digit;
        i += 1;
    }
    if negative {
        -result
    } else {
        result
    }
}

/// A number in as many digits as it fits is read back, behind what was read
/// before.
pub proof fn lemma_digits_are_read_back(v: int, width: nat, acc: int)
    requires
        0 <= v < pow10(width),
    ensures
        dd_digits(v, width).len() == width,
        width > 0 ==> is_digit(dd_digits(v, width)[0]),
        leading_number(dd_digits(v, width), acc) == acc * pow10(width) + v,
    decreases width,
{
    if width > 0 {
        let unit = pow10((width - 1) as nat);
        let (d, rest) = (v / unit, v % unit);
        lemma_pow10((width - 1) as nat);
        vstd::arithmetic::div_mod::lemma_fundamental_div_mod(v, unit);
        vstd::arithmetic::div_mod::lemma_mod_bound(v, unit);
        assert(0 <= d <= 9) by (nonlinear_arith)
            requires
                d == v / unit,
                0 <= v < 10 * unit,
                unit >= 1,
        ;
        lemma_digits_are_read_back(rest, (width - 1) as nat, acc * 10 + d);
        let digits = dd_digits(v, width);
        assert(digits.skip(1) =~= dd_digits(rest, (width - 1) as nat));
        assert(digits[0] == ('0' as int + d) as u8);
        assert((acc * 10 + d) * unit == acc * (10 * unit) + unit * d) by (nonlinear_arith);
    }
}

/// Reading undoes rendering: where a number fits its digits, `dd_to_int` gives
/// back what `int_to_dd` wrote.
pub proof fn law_rendered_number_is_read_back(value: int, width: int, full_sign: bool, len: int)
    requires
        magnitude(value) < pow10(dd_width(width)),
        dd_text(value, width, full_sign).len() <= len,
    ensures
        dd_value(dd_text(value, width, full_sign), len) == value,
{
    let text = dd_text(value, width, full_sign);
    let digits = dd_digits(magnitude(value), dd_width(width));
    lemma_digits_are_read_back(magnitude(value), dd_width(width), 0);
    if value < 0 || full_sign {
        assert(text.skip(1) =~= digits);
    } else {
        assert(text =~= digits);
    }
}

} // verus!
