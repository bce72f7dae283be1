use ft8::crc::{add, check, compute, extract};

/// A CRC that always returns zero, or ignores its input, would still pass a
/// naive round-trip. Pin the actual value and check it moves with the data.
#[test]
fn add_then_extract_round_trips() {
    let payload = [
        0x12u8, 0x34, 0x56, 0x78, 0x9A, 0xBC, 0xDE, 0xF0, 0x11, 0x22, 0, 0,
    ];
    let mut a91 = [0u8; 12];
    add(&payload, &mut a91);
    let stored = extract(&a91);
    assert!(check(&a91), "freshly added CRC must verify");
    assert_ne!(
        stored, 0,
        "a zero CRC here would mean the function is inert"
    );

    // The first 77 bits must be preserved exactly.
    assert_eq!(a91[..9], payload[..9]);
    assert_eq!(a91[9] & 0xF8, payload[9] & 0xF8);
}

#[test]
fn detects_a_single_flipped_bit() {
    let payload = [
        0x12u8, 0x34, 0x56, 0x78, 0x9A, 0xBC, 0xDE, 0xF0, 0x11, 0x22, 0, 0,
    ];
    let mut a91 = [0u8; 12];
    add(&payload, &mut a91);
    for bit in 0..77 {
        let mut bad = a91;
        bad[bit / 8] ^= 0x80 >> (bit % 8);
        assert!(!check(&bad), "flipping payload bit {bit} went undetected");
    }
}

#[test]
fn width_is_14_bits() {
    for seed in 0u8..64 {
        let payload = [seed; 12];
        let mut a91 = [0u8; 12];
        add(&payload, &mut a91);
        assert!(extract(&a91) <= 0x3FFF, "CRC wider than 14 bits");
    }
}

#[test]
fn detects_a_flipped_checksum_bit() {
    let payload = [0x5Au8; 10];
    let mut a91 = [0u8; 12];
    add(&payload, &mut a91);
    for bit in 77..91 {
        let mut bad = a91;
        bad[bit / 8] ^= 0x80 >> (bit % 8);
        assert!(!check(&bad), "flipping checksum bit {bit} went undetected");
    }
}

/// The remainder of a single one is the polynomial, and of a one further up the
/// polynomial moved along.
#[test]
fn remainders_of_single_bits() {
    assert_eq!(compute(&[], 0), 0);
    assert_eq!(compute(&[0x01], 8), 0x2757);
    assert_eq!(compute(&[0x02], 8), (0x2757 << 1) & 0x3FFF ^ 0x2757);
    assert_eq!(compute(&[0x00, 0x01], 16), 0x2757);
    assert_eq!(compute(&[0x80], 1), 0x2757);
}

/// Where the bits end inside a byte, the rest of that byte is none of the
/// message.
#[test]
fn unread_bits_do_not_count() {
    assert_eq!(compute(&[0x00], 3), 0);
    assert_eq!(compute(&[0x01], 3), 0);
    assert_eq!(compute(&[0x01], 1), compute(&[0x00], 1));
    assert_eq!(compute(&[0xFF], 1), 0x2757);
    for n in 0..8 {
        let cut = 0xA7u8 & !(0xFFu8.checked_shr(n).unwrap_or(0));
        assert_eq!(compute(&[0x3C, 0xA7], 8 + n as usize), compute(&[0x3C, cut], 8 + n as usize));
    }
}

#[test]
fn bytes_past_the_payload_are_left_alone() {
    let payload = [0xFFu8; 10];
    let mut a91 = [0xAAu8; 14];
    add(&payload, &mut a91);
    assert_eq!(a91[12..], [0xAA, 0xAA]);
    assert_eq!(a91[11] & 0x1F, 0);
}

/// The remainder and the checksum of a sum are the sums of them.
#[test]
fn checksums_of_sums_are_sums() {
    let a = [0x12u8, 0x34, 0x56, 0x78, 0x9A, 0xBC, 0xDE, 0xF0, 0x0F, 0xE8];
    let b = [0xFFu8, 0x01, 0x80, 0x7E, 0x33, 0xCC, 0x55, 0xAA, 0x00, 0x18];
    let mut sum = [0u8; 10];
    for i in 0..10 {
        sum[i] = a[i] ^ b[i];
    }
    for bits in [0, 1, 13, 77, 80] {
        assert_eq!(compute(&sum, bits), compute(&a, bits) ^ compute(&b, bits));
    }
    let checksum = |p: &[u8]| {
        let mut a91 = [0u8; 12];
        add(p, &mut a91);
        extract(&a91)
    };
    assert_eq!(checksum(&sum), checksum(&a) ^ checksum(&b));
    assert_eq!(checksum(&[0; 10]), 0);
}

/// The remainder is that of long division, worked out coefficient by coefficient.
#[test]
fn remainders_are_left_by_long_division() {
    for (message, n) in [
        (vec![0xC5u8, 0x3A, 0x91], 24),
        (vec![0xFF, 0xFF, 0x0F, 0x80], 29),
        (vec![0x00, 0x10], 13),
        (vec![], 0),
    ] {
        let bit = |i: usize| (message[i / 8] >> (7 - i % 8)) & 1 == 1;
        let mut terms: Vec<bool> = (0..n).map(bit).collect();
        terms.resize(n + 14, false);
        for i in 0..n {
            if terms[i] {
                // The divisor is of degree 14.
                terms[i] = false;
                for d in 0..14 {
                    terms[i + 14 - d] ^= (0x2757u16 >> d) & 1 == 1;
                }
            }
        }
        let left = terms[n..].iter().fold(0u16, |r, &t| 2 * r + t as u16);
        assert_eq!(compute(&message, n), left);
    }
}

/// What is sealed depends on the first 77 bits alone, and begins with them.
#[test]
fn only_77_bits_are_sealed() {
    let long = [0x12u8, 0x34, 0x56, 0x78, 0x9A, 0xBC, 0xDE, 0xF0, 0x0F, 0xEF, 0x77];
    let mut short = [0u8; 10];
    short.copy_from_slice(&long[..10]);
    short[9] = 0xE8;
    let (mut a, mut b) = ([0xFFu8; 12], [0u8; 12]);
    add(&long, &mut a);
    add(&short, &mut b);
    assert_eq!(a, b);
    assert_eq!(a[..9], long[..9]);
    assert_eq!(a[9] & 0xF8, long[9] & 0xF8);
    assert_eq!(a[11] & 0x1F, 0);
    let mut covered = short.to_vec();
    covered.push(0);
    assert_eq!(extract(&a), compute(&covered, 82));
}
