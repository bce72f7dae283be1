use ft8::text::{charn, dd_to_int, int_to_dd, nchar, CharTable};
use ft8::Str;

/// charn and nchar must be exact inverses across every table, or callsigns
/// round-trip to something subtly different.
#[test]
fn char_tables_round_trip() {
    for (table, size) in [
        (CharTable::Full, 42),
        (CharTable::AlphanumSpaceSlash, 38),
        (CharTable::AlphanumSpace, 37),
        (CharTable::Alphanum, 36),
        (CharTable::LettersSpace, 27),
        (CharTable::Numeric, 10),
    ] {
        for i in 0..size {
            let c = charn(i, table);
            assert_ne!(c, b'_', "{table:?} index {i} produced no character");
            assert_eq!(
                nchar(c, table),
                Some(i),
                "{table:?} index {i} -> {}",
                c as char
            );
        }
        // One past the end must not silently alias a valid character.
        assert_eq!(
            charn(size, table),
            b'_',
            "{table:?} accepted an out-of-range index"
        );
    }
}

#[test]
fn int_to_dd_matches_ft8_conventions() {
    let mut s = Str::<8>::new();
    int_to_dd(&mut s, -7, 2, true);
    assert_eq!(&*s, "-07"); // reports are always two digits
    let mut s = Str::<8>::new();
    int_to_dd(&mut s, 12, 2, true);
    assert_eq!(&*s, "+12");
    let mut s = Str::<8>::new();
    int_to_dd(&mut s, 5, 3, false);
    assert_eq!(&*s, "005"); // CQ nnn
}

#[test]
fn dd_to_int_handles_signs() {
    assert_eq!(dd_to_int(b"-07", 3), -7);
    assert_eq!(dd_to_int(b"+12", 3), 12);
    assert_eq!(dd_to_int(b"590", 3), 590);
    assert_eq!(dd_to_int(b"7", 3), 7);
}

#[test]
fn str_trims_and_derefs() {
    let mut s = Str::<16>::from_str_lossy("  K1ABC  ");
    s.trim_spaces();
    assert_eq!(&*s, "K1ABC");
    assert_eq!(s.len(), 5);
}

#[test]
fn tables_have_their_own_characters() {
    assert_eq!(charn(0, CharTable::Full), b' ');
    assert_eq!(charn(10, CharTable::Full), b'9');
    assert_eq!(charn(11, CharTable::Full), b'A');
    assert_eq!(charn(36, CharTable::Full), b'Z');
    let punctuation: Vec<u8> = (37..42).map(|i| charn(i, CharTable::Full)).collect();
    assert_eq!(punctuation, b"+-./?");
    assert_eq!(charn(37, CharTable::AlphanumSpaceSlash), b'/');
    assert_eq!(charn(0, CharTable::Alphanum), b'0');
    assert_eq!(charn(1, CharTable::LettersSpace), b'A');
    assert_eq!(charn(9, CharTable::Numeric), b'9');
    // Below zero the first group is entered from its other side.
    assert_eq!(charn(-200, CharTable::Alphanum), b'0' + 56);
    assert_eq!(nchar(b' ', CharTable::Alphanum), None);
    assert_eq!(nchar(b'a', CharTable::Full), None);
    assert_eq!(nchar(b'/', CharTable::AlphanumSpace), None);
    assert_eq!(nchar(b'A', CharTable::Numeric), None);
}

#[test]
fn digits_that_do_not_fit_go_to_the_first() {
    let mut s = Str::<8>::new();
    int_to_dd(&mut s, 123, 2, true);
    assert_eq!(&*s, "+<3");
    let mut s = Str::<8>::new();
    int_to_dd(&mut s, -5, 0, false);
    assert_eq!(&*s, "-5");
    let mut s = Str::<12>::new();
    int_to_dd(&mut s, 1_234_567_890, 10, false);
    assert_eq!(&*s, "1234567890");
}

#[test]
fn dd_to_int_stops_at_what_is_no_digit() {
    assert_eq!(dd_to_int(b"", 3), 0);
    assert_eq!(dd_to_int(b"-", 3), 0);
    assert_eq!(dd_to_int(b"1x2", 3), 1);
    assert_eq!(dd_to_int(b"12345", 3), 123);
    assert_eq!(dd_to_int(b"-1234", 3), -12);
    assert_eq!(dd_to_int(b"-5", 0), 0);
    assert_eq!(dd_to_int(b"2147483647", 10), i32::MAX);
}

#[test]
fn str_ignores_what_is_past_its_capacity() {
    let mut s = Str::<4>::from_str_lossy("K1ABC");
    assert_eq!(&*s, "K1AB");
    s.push(b'C');
    assert_eq!(s.as_str(), "K1AB");
    assert_eq!(s.len(), 4);
    assert!(!s.is_empty());
    assert!(Str::<4>::new().is_empty());
    assert_eq!(s.as_bytes(), b"K1AB");
}

#[test]
fn str_of_spaces_trims_to_nothing() {
    let mut s = Str::<8>::from_str_lossy("   ");
    s.trim_spaces();
    assert!(s.is_empty());
    let mut s = Str::<8>::from_str_lossy(" A B ");
    s.trim_spaces();
    assert_eq!(&*s, "A B");
}

/// Bytes that are not UTF-8 have no text.
#[test]
fn str_without_text_reads_as_empty() {
    let mut s = Str::<4>::new();
    s.push(0xFF);
    assert_eq!(s.len(), 1);
    assert_eq!(s.as_str(), "");
    let cut = Str::<1>::from_str_lossy("é");
    assert_eq!(cut.as_str(), "");
    let whole = Str::<2>::from_str_lossy("é");
    assert_eq!(whole.as_str(), "é");
}

#[test]
fn trimming_twice_is_trimming_once() {
    for text in ["", " ", "  A  B ", "K1ABC", " K1ABC", "K1ABC  "] {
        let mut once = Str::<16>::from_str_lossy(text);
        once.trim_spaces();
        let mut twice = once;
        twice.trim_spaces();
        assert_eq!(twice.as_bytes(), once.as_bytes());
        assert_eq!(once.as_str(), text.trim_matches(' '));
    }
}

/// Where a number fits its digits, reading gives back what was rendered.
#[test]
fn rendered_numbers_are_read_back() {
    for (value, width) in [(0, 1), (-7, 2), (99, 2), (-99, 2), (5, 3), (999, 3), (-123_456, 6)] {
        for full_sign in [false, true] {
            let mut s = Str::<16>::new();
            int_to_dd(&mut s, value, width, full_sign);
            assert_eq!(dd_to_int(s.as_bytes(), s.len()), value);
            assert_eq!(dd_to_int(s.as_bytes(), 16), value);
        }
    }
}
