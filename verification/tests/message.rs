use ft8::callsign::{pack28, render28, unpack28};
use ft8::grid::{pack_grid, unpack_grid};
use ft8::message::{pack_basecall, Callsign, MAX22, MAXGRID4, NTOKENS};
use ft8::text::int_to_dd;
use ft8::{CallsignHash, Error, Field, Message, MessageType, NoHash, StdMessage, Str};

fn round_trip(to: &str, de: &str, extra: &str) -> StdMessage {
    let msg = Message::encode_std(to, de, extra)
        .unwrap_or_else(|e| panic!("encode {to:?} {de:?} {extra:?} failed: {e:?}"));
    assert_eq!(msg.message_type(), MessageType::Standard);
    msg.decode_std(&mut NoHash)
        .unwrap_or_else(|e| panic!("decode {to:?} {de:?} {extra:?} failed: {e:?}"))
}

/// The traffic that actually fills a band: CQ, grid exchange, reports,
/// acknowledgements, sign-off.
#[test]
fn standard_qso_round_trips() {
    for (to, de, extra) in [
        ("CQ", "K1ABC", "FN42"),
        ("CQ", "W9XYZ", "EN37"),
        ("K1ABC", "W9XYZ", "EN37"),
        ("K1ABC", "W9XYZ", "-11"),
        ("K1ABC", "W9XYZ", "R-09"),
        ("K1ABC", "W9XYZ", "RRR"),
        ("K1ABC", "W9XYZ", "RR73"),
        ("K1ABC", "W9XYZ", "73"),
        ("K1ABC", "W9XYZ", ""),
        ("DE", "K1ABC", "FN42"),
        ("QRZ", "K1ABC", "FN42"),
    ] {
        let d = round_trip(to, de, extra);
        assert_eq!(&*d.call_to, to, "call_to");
        assert_eq!(&*d.call_de, de, "call_de");
        assert_eq!(&*d.extra, extra, "extra for {to}/{de}");
    }
}

/// Grids span the whole A..R / 0..9 space; an off-by-one in the base-18/10
/// unpacking would only show at the edges.
#[test]
fn every_grid_field_round_trips() {
    for &g in &["AA00", "RR99", "FN42", "JO22", "IO91", "AR09", "RA90"] {
        let d = round_trip("CQ", "K1ABC", g);
        assert_eq!(&*d.extra, g);
    }
}

/// Reports run -30..+49 with an optional R prefix.
#[test]
fn reports_round_trip_across_their_range() {
    for db in -30..=49 {
        let mut s = Str::<8>::new();
        int_to_dd(&mut s, db, 2, true);
        let d = round_trip("K1ABC", "W9XYZ", &s);
        assert_eq!(&*d.extra, &*s, "report {db}");

        let mut r = Str::<8>::from_str_lossy("R");
        int_to_dd(&mut r, db, 2, true);
        let d = round_trip("K1ABC", "W9XYZ", &r);
        assert_eq!(&*d.extra, &*r, "report R{db}");
    }
}

/// The prefix work-arounds are the fiddliest part of callsign packing and
/// affect real countries (Swaziland, Guinea).
#[test]
fn prefix_workarounds_round_trip() {
    for call in ["3DA0XYZ", "3XA0ABC"] {
        let d = round_trip("CQ", call, "FN42");
        assert_eq!(&*d.call_de, call);
    }
}

#[test]
fn portable_and_rover_suffixes_round_trip() {
    let d = round_trip("K1ABC", "W9XYZ/R", "FN42");
    assert_eq!(&*d.call_de, "W9XYZ/R");
    let d = round_trip("K1ABC", "W9XYZ/P", "FN42");
    assert_eq!(&*d.call_de, "W9XYZ/P");
}

#[test]
fn cq_with_modifier_round_trips() {
    for cq in ["CQ 123", "CQ DX", "CQ POTA"] {
        let d = round_trip(cq, "K1ABC", "FN42");
        assert_eq!(&*d.call_to, cq);
    }
}

#[test]
fn field_types_are_reported() {
    let d = round_trip("CQ", "K1ABC", "FN42");
    assert_eq!(d.fields, [Field::Token, Field::Call, Field::Grid]);
    let d = round_trip("K1ABC", "W9XYZ", "-11");
    assert_eq!(d.fields, [Field::Call, Field::Call, Field::Rst]);
    let d = round_trip("K1ABC", "W9XYZ", "RR73");
    assert_eq!(d.fields, [Field::Call, Field::Call, Field::Token]);
}

#[test]
fn free_text_round_trips() {
    for t in ["HELLO WORLD", "TNX 73 GL", "A", "0123456789ABC"] {
        let msg = Message::encode_free(t);
        assert_eq!(msg.message_type(), MessageType::FreeText);
        assert_eq!(&*msg.decode_free(), t);
    }
}

#[test]
fn telemetry_hex_is_18_digits() {
    let msg =
        Message::from_payload([0x12, 0x34, 0x56, 0x78, 0x9A, 0xBC, 0xDE, 0xF0, 0x11, 0x2A]);
    assert_eq!(msg.telemetry_hex().len(), 18);
}

/// A hashed nonstandard call has no table behind it here, and must render
/// the same placeholder WSJT-X uses rather than inventing a callsign.
#[test]
fn hashed_callsigns_render_as_placeholder() {
    let mut fields = [Field::Unknown; 3];
    let got = unpack28(NTOKENS + 12345, 0, 1, &mut NoHash, &mut fields[0]).unwrap();
    assert_eq!(&*got, "<...>");
    assert_eq!(fields[0], Field::Call);
}

#[test]
fn telemetry_is_the_first_71_bits() {
    let msg =
        Message::from_payload([0x12, 0x34, 0x56, 0x78, 0x9A, 0xBC, 0xDE, 0xF0, 0x11, 0x2A]);
    assert_eq!(
        msg.telemetry(),
        [0x09, 0x1A, 0x2B, 0x3C, 0x4D, 0x5E, 0x6F, 0x78, 0x08]
    );
    assert_eq!(&*msg.telemetry_hex(), "091A2B3C4D5E6F7808");
}

/// The selectors are the last bits of the 77.
#[test]
fn kinds_follow_the_selectors() {
    let of = |i3: u8, n3: u8| {
        let mut p = [0u8; 10];
        p[8] = n3 >> 2;
        p[9] = ((n3 & 3) << 6) | (i3 << 3);
        let m = Message::from_payload(p);
        assert_eq!((m.i3(), m.n3()), (i3, n3));
        m.message_type()
    };
    let sub: Vec<MessageType> = (0..8).map(|n3| of(0, n3)).collect();
    assert_eq!(
        sub,
        [
            MessageType::FreeText,
            MessageType::DxPedition,
            MessageType::EuVhf,
            MessageType::ArrlFd,
            MessageType::ArrlFd,
            MessageType::Telemetry,
            MessageType::Contesting,
            MessageType::Unknown,
        ]
    );
    let kinds: Vec<MessageType> = (1..8).map(|i3| of(i3, 3)).collect();
    assert_eq!(
        kinds,
        [
            MessageType::Standard,
            MessageType::Standard,
            MessageType::ArrlRtty,
            MessageType::NonstdCall,
            MessageType::Wwrof,
            MessageType::Unknown,
            MessageType::Unknown,
        ]
    );
}

#[test]
fn free_text_carries_its_own_alphabet() {
    // Thirteen characters at most, a space for what cannot be carried, and no
    // spaces at the ends.
    let back = |t: &str| Message::encode_free(t).decode_free().as_str().to_string();
    assert_eq!(back("ABCDEFGHIJKLMNOP"), "ABCDEFGHIJKLM");
    assert_eq!(back("a+b-c./?"), "+ - ./?");
    assert_eq!(back("  X  "), "X");
    assert_eq!(back(""), "");
    assert_eq!(back("?????????????"), "?????????????");
}

#[test]
fn calls_have_their_numbers() {
    assert_eq!(pack28("DE"), Some((0, 0)));
    assert_eq!(pack28("QRZ"), Some((1, 0)));
    assert_eq!(pack28("CQ"), Some((2, 0)));
    assert_eq!(pack28("CQ 000"), Some((3, 0)));
    assert_eq!(pack28("CQ 999"), Some((1002, 0)));
    assert_eq!(pack28("CQ A"), Some((1004, 0)));
    assert_eq!(pack28("CQ ZZZZ"), Some((532_443, 0)));
    assert_eq!(pack28("CQ 12"), None);
    assert_eq!(pack28("CQ A1"), None);
    assert_eq!(pack28("CQ A/B"), None);
    let k1abc = pack_basecall("K1ABC", 5).unwrap();
    // Space, K, 1, A, B, C in bases 37, 36, 10, 27, 27, 27.
    assert_eq!(k1abc, (((20 * 10 + 1) * 27 + 1) * 27 + 2) * 27 + 3);
    assert_eq!(pack28("K1ABC"), Some((NTOKENS + MAX22 + k1abc, 0)));
    assert_eq!(pack28("K1ABC/P"), Some((NTOKENS + MAX22 + k1abc, 1)));
    assert_eq!(pack28("K1ABC/R"), Some((NTOKENS + MAX22 + k1abc, 1)));
    assert_eq!(pack28("YW18FIFA"), None);
    assert_eq!(pack28("k1abc"), None);
    assert_eq!(pack_basecall("K1", 2), None);
    assert_eq!(pack_basecall("KKKKK", 5), None);
}

#[test]
fn numbers_render_as_calls() {
    let of = |n28: u32, ip: u8, i3: u8| {
        render28(n28, ip, i3, None).map(|(c, f)| (c.as_str().to_string(), f))
    };
    let some = |t: &str, f: Field| Some((t.to_string(), f));
    assert_eq!(of(0, 0, 1), some("DE", Field::Token));
    assert_eq!(of(1, 0, 1), some("QRZ", Field::Token));
    assert_eq!(of(2, 0, 1), some("CQ", Field::Token));
    assert_eq!(of(3, 0, 1), some("CQ 000", Field::TokenWithArg));
    assert_eq!(of(1002, 0, 1), some("CQ 999", Field::TokenWithArg));
    assert_eq!(of(1003, 0, 1), some("CQ ", Field::TokenWithArg));
    assert_eq!(of(1004, 0, 1), some("CQ A", Field::TokenWithArg));
    assert_eq!(of(532_443, 0, 1), some("CQ ZZZZ", Field::TokenWithArg));
    assert_eq!(of(532_444, 0, 1), None);
    assert_eq!(of(NTOKENS - 1, 0, 1), None);
    assert_eq!(of(NTOKENS, 0, 1), some("<...>", Field::Call));
    // Less than three characters are no call: " 00   ".
    assert_eq!(of(NTOKENS + MAX22, 0, 1), None);
    let (k1abc, _) = pack28("K1ABC").unwrap();
    assert_eq!(of(k1abc, 0, 7), some("K1ABC", Field::Call));
    assert_eq!(of(k1abc, 1, 1), some("K1ABC/R", Field::Call));
    assert_eq!(of(k1abc, 1, 2), some("K1ABC/P", Field::Call));
    assert_eq!(of(k1abc, 1, 3), None);
}

/// What reads as a rewritten prefix comes back spelled out.
#[test]
fn rewritten_prefixes_come_back_spelled_out() {
    assert_eq!(&*round_trip("CQ", "3D0XYZ", "").call_de, "3DA0XYZ");
    assert_eq!(&*round_trip("CQ", "QA0ABC", "").call_de, "3XA0ABC");
    assert_eq!(&*round_trip("CQ", "3D0", "").call_de, "3D0");
    assert_eq!(&*round_trip("CQ", "Q10ABC", "").call_de, "Q10ABC");
}

#[test]
fn calls_that_cannot_be_sent_are_refused() {
    let refused = |to: &str, de: &str| Message::encode_std(to, de, "").err();
    assert_eq!(refused("YW18FIFA", "K1ABC"), Some(Error::Callsign1));
    assert_eq!(refused("", "K1ABC"), Some(Error::Callsign1));
    assert_eq!(refused("CQ", "YW18FIFA"), Some(Error::Callsign2));
    assert_eq!(refused("K1ABC/P", "W9XYZ/R"), Some(Error::Suffix));
    assert_eq!(refused("K1ABC/R", "W9XYZ/P"), Some(Error::Suffix));
    assert_eq!(refused("K1ABC/P", "W9XYZ/P"), None);
    // The first reason is the one given.
    assert_eq!(refused("YW18FIFA/P", "YW18FIFA/R"), Some(Error::Callsign1));
}

#[test]
fn payloads_that_hold_no_call_are_refused() {
    let refused = |p: [u8; 10]| {
        Message::from_payload(p)
            .decode_std(&mut NoHash)
            .err()
    };
    // The number 532_444 is no call.
    let (mut to, mut de) = ([0u8; 10], [0u8; 10]);
    let n: u128 = 532_444;
    let first = (n << 52).to_be_bytes();
    let second = (n << 23).to_be_bytes();
    to.copy_from_slice(&first[6..]);
    de.copy_from_slice(&second[6..]);
    assert_eq!(refused(to), Some(Error::Callsign1));
    assert_eq!(refused(de), Some(Error::Callsign2));
}

#[test]
fn a_payload_has_its_fields_in_order() {
    let msg = Message::encode_std("CQ", "K1ABC", "FN42").unwrap();
    let (n, _) = pack28("K1ABC").unwrap();
    let grid: u128 = pack_grid("FN42").into();
    let value = ((2u128 * 2) << 51) + ((2 * n as u128) << 22) + (grid << 6) + 8;
    assert_eq!(msg.payload[..], value.to_be_bytes()[6..]);
}

#[test]
fn third_fields_have_their_numbers() {
    assert_eq!(pack_grid(""), MAXGRID4 + 1);
    assert_eq!(pack_grid("RRR"), MAXGRID4 + 2);
    assert_eq!(pack_grid("RR73"), MAXGRID4 + 3);
    assert_eq!(pack_grid("73"), MAXGRID4 + 4);
    assert_eq!(pack_grid("AA00"), 0);
    assert_eq!(pack_grid("RR99"), MAXGRID4 - 1);
    assert_eq!(pack_grid("FN42XX"), pack_grid("FN42"));
    assert_eq!(pack_grid("-30"), MAXGRID4 + 5);
    assert_eq!(pack_grid("+00"), MAXGRID4 + 35);
    assert_eq!(pack_grid("R+05"), 0x8000 + MAXGRID4 + 40);
    assert_eq!(pack_grid("-31"), MAXGRID4 + 4);
    assert_eq!(pack_grid("XYZ"), MAXGRID4 + 35);
    assert_eq!(pack_grid("999"), MAXGRID4 + 35 + 999);
}

#[test]
fn third_fields_render() {
    let of = |n: u16, ir: u8| {
        let mut f = Field::Unknown;
        let e = unpack_grid(n, ir, &mut f).unwrap();
        (e.as_str().to_string(), f)
    };
    assert_eq!(of(0, 0), ("AA00".to_string(), Field::Grid));
    assert_eq!(of(0, 1), ("R AA00".to_string(), Field::Grid));
    assert_eq!(of(MAXGRID4 - 1, 0), ("RR99".to_string(), Field::Grid));
    assert_eq!(of(MAXGRID4 + 1, 0), (String::new(), Field::Empty));
    assert_eq!(of(MAXGRID4 + 2, 1), ("RRR".to_string(), Field::Token));
    assert_eq!(of(MAXGRID4 + 3, 0), ("RR73".to_string(), Field::Token));
    assert_eq!(of(MAXGRID4 + 4, 0), ("73".to_string(), Field::Token));
    assert_eq!(of(MAXGRID4 + 5, 0), ("-30".to_string(), Field::Rst));
    assert_eq!(of(MAXGRID4 + 35, 1), ("R+00".to_string(), Field::Rst));
    assert_eq!(of(32_767, 0), ("+Q2".to_string(), Field::Rst));
}

/// A hash table that knows one call and writes down what it is told.
struct Heard {
    hash: u32,
    call: &'static str,
    saved: Vec<String>,
}

impl CallsignHash for Heard {
    fn lookup22(&self, hash: u32) -> Option<Callsign> {
        if hash == self.hash {
            Some(Callsign::from_str_lossy(self.call))
        } else {
            None
        }
    }

    fn save(&mut self, callsign: &str) {
        self.saved.push(callsign.to_string());
    }
}

#[test]
fn a_hash_table_is_asked_and_told() {
    let mut heard = Heard {
        hash: 77,
        call: "<YW18FIFA>",
        saved: Vec::new(),
    };
    // A hashed call to 77, from K1ABC.
    let (n, _) = pack28("K1ABC").unwrap();
    let hashed: u128 = (NTOKENS + 77).into();
    let value = (hashed << 52) + ((n as u128) << 23) + ((MAXGRID4 as u128 + 1) << 6) + 8;
    let mut p = [0u8; 10];
    p.copy_from_slice(&value.to_be_bytes()[6..]);
    let d = Message::from_payload(p).decode_std(&mut heard).unwrap();
    assert_eq!(&*d.call_to, "<YW18FIFA>");
    assert_eq!(&*d.call_de, "K1ABC");
    assert_eq!(d.fields, [Field::Call, Field::Call, Field::Empty]);
    assert_eq!(heard.saved, ["K1ABC"]);

    let both = Message::encode_std("K1ABC/P", "W9XYZ", "").unwrap();
    both.decode_std(&mut heard).unwrap();
    assert_eq!(heard.saved, ["K1ABC", "K1ABC/P", "W9XYZ"]);
    let cq = Message::encode_std("CQ", "K1ABC", "").unwrap();
    cq.decode_std(&mut heard).unwrap();
    assert_eq!(heard.saved.len(), 4);
}
