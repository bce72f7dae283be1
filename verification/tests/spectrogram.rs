use ft8::candidates::best_candidates;
use ft8::constants::{FT4_COSTAS_PATTERN, FT4_GRAY_MAP, FT8_COSTAS_PATTERN, FT8_GRAY_MAP, LDPC_N};
use ft8::decode::{
    decode_candidate, extract_likelihood, find_candidates, ft4_tones, ft8_tones, sync_score,
    Candidate, DecodeStatus, Waterfall,
};
use ft8::listing::list_decodes;
use ft8::monitor::slide;
use ft8::snr::{is_measurable, snr_levels};
use ft8::{crc, ldpc, Decode, Message, Monitor, MonitorConfig, Protocol};

fn at(time_offset: i16, freq_offset: i16) -> Candidate {
    Candidate {
        score: 0,
        time_offset,
        freq_offset,
        time_sub: 0,
        freq_sub: 0,
    }
}

fn waterfall(mag: &[u8], num_blocks: usize, num_bins: usize, protocol: Protocol) -> Waterfall<'_> {
    Waterfall {
        mag,
        num_blocks,
        num_bins,
        time_osr: 1,
        freq_osr: 1,
        protocol,
    }
}

/// Tones as loud cells of a spectrogram that is otherwise at one level.
fn painted(tones: &[u8], num_bins: usize, bin: usize, floor: u8, loud: u8) -> Vec<u8> {
    let mut mag = vec![floor; tones.len() * num_bins];
    for (block, &t) in tones.iter().enumerate() {
        mag[block * num_bins + bin + t as usize] = loud;
    }
    mag
}

#[test]
fn ft8_tones_have_sync_groups_and_gray_coded_data() {
    let msg = Message::encode_std("CQ", "K1ABC", "FN42").unwrap();
    let tones = ft8_tones(&msg.payload);
    for start in [0, 36, 72] {
        assert_eq!(tones[start..start + 7], FT8_COSTAS_PATTERN);
    }
    let mut a91 = [0u8; 12];
    crc::add(&msg.payload, &mut a91);
    let cw = ldpc::encode(&a91);
    for k in 0..58 {
        let v = cw[3 * k] * 4 + cw[3 * k + 1] * 2 + cw[3 * k + 2];
        let symbol = if k < 29 { k + 7 } else { k + 14 };
        assert_eq!(tones[symbol], FT8_GRAY_MAP[v as usize]);
    }
}

#[test]
fn ft4_tones_have_ramps_and_four_sync_groups() {
    let msg = Message::encode_std("CQ", "K1ABC", "FN42").unwrap();
    let tones = ft4_tones(&msg.payload);
    assert_eq!((tones[0], tones[104]), (0, 0));
    for (m, start) in [1, 34, 67, 100].into_iter().enumerate() {
        assert_eq!(tones[start..start + 4], FT4_COSTAS_PATTERN[m]);
    }
    let mut scrambled = msg.payload;
    for (p, x) in scrambled.iter_mut().zip(ft8::constants::FT4_XOR_SEQUENCE) {
        *p ^= x;
    }
    let mut a91 = [0u8; 12];
    crc::add(&scrambled, &mut a91);
    let cw = ldpc::encode(&a91);
    for (k, symbol) in [(0, 5), (28, 33), (29, 38), (57, 66), (58, 71), (86, 99)] {
        let v = cw[2 * k] * 2 + cw[2 * k + 1];
        assert_eq!(tones[symbol], FT4_GRAY_MAP[v as usize]);
    }
}

/// On a flat floor every comparison of a sync tone is the same difference.
#[test]
fn a_lone_signal_scores_its_height() {
    let msg = Message::encode_std("CQ", "K1ABC", "FN42").unwrap();
    let mag = painted(&ft8_tones(&msg.payload), 16, 3, 100, 150);
    let wf = waterfall(&mag, 79, 16, Protocol::Ft8);
    assert_eq!(sync_score(&wf, &at(0, 3)), 50);
    assert_eq!(wf.block_stride(), 16);
    // A level spectrogram stands out nowhere, and beyond it there is nothing.
    let flat = vec![9u8; 79 * 16];
    let wf = waterfall(&flat, 79, 16, Protocol::Ft8);
    assert_eq!(sync_score(&wf, &at(5, 0)), 0);
    let none = waterfall(&flat, 0, 16, Protocol::Ft8);
    assert_eq!(sync_score(&none, &at(0, 0)), 0);
}

/// A mean that is not whole is rounded toward zero, from either side.
#[test]
fn scores_are_rounded_toward_zero() {
    // One block: the first sync tone, 3, against its two neighbours.
    let mut mag = vec![10u8; 8];
    mag[3] = 13;
    mag[4] = 12;
    let wf = waterfall(&mag, 1, 8, Protocol::Ft8);
    assert_eq!(FT8_COSTAS_PATTERN[0], 3);
    assert_eq!(sync_score(&wf, &at(0, 0)), 2); // (3 + 1) / 2
    mag[3] = 9;
    let wf = waterfall(&mag, 1, 8, Protocol::Ft8);
    assert_eq!(sync_score(&wf, &at(0, 0)), -2); // (-1 - 3) / 2
    mag[4] = 11;
    let wf = waterfall(&mag, 1, 8, Protocol::Ft8);
    assert_eq!(sync_score(&wf, &at(0, 0)), -1); // (-1 - 2) / 2
}

#[test]
fn an_empty_heap_or_no_bins_find_nothing() {
    let mag = vec![0u8; 79 * 16];
    let wf = waterfall(&mag, 79, 16, Protocol::Ft8);
    assert_eq!(find_candidates(&wf, &mut [], -300), 0);
    let none = waterfall(&mag, 79, 0, Protocol::Ft8);
    let mut heap = [Candidate::default(); 3];
    assert_eq!(find_candidates(&none, &mut heap, -300), 0);
    let narrow = waterfall(&mag, 79, 7, Protocol::Ft8);
    assert_eq!(find_candidates(&narrow, &mut heap, -300), 0);
    assert_eq!(heap, [Candidate::default(); 3]);
}

/// The search looks at thirty times, every frequency and every subdivision, each
/// once; what it does not need of the heap it leaves alone.
#[test]
fn every_place_is_looked_at_once() {
    let mut mag = vec![0u8; 90 * 2 * 3 * 9];
    let mut s = 1u32;
    for m in mag.iter_mut() {
        s = s.wrapping_mul(1664525).wrapping_add(1013904223);
        *m = (s >> 24) as u8;
    }
    let wf = Waterfall {
        mag: &mag,
        num_blocks: 90,
        num_bins: 9,
        time_osr: 2,
        freq_osr: 3,
        protocol: Protocol::Ft8,
    };
    let marker = Candidate {
        score: 77,
        ..Candidate::default()
    };
    let places = 30 * 2 * 2 * 3;
    let mut heap = vec![marker; places + 1];
    let n = find_candidates(&wf, &mut heap, i16::MIN);
    assert_eq!(n, places);
    assert_eq!(heap[places], marker);
    let mut seen: Vec<(i16, i16, u8, u8)> = heap[..n]
        .iter()
        .map(|c| (c.time_offset, c.freq_offset, c.time_sub, c.freq_sub))
        .collect();
    seen.sort();
    seen.dedup();
    assert_eq!(seen.len(), places);
    for c in &heap[..n] {
        assert_eq!(c.score as i32, sync_score(&wf, c));
    }
    // A smaller heap keeps the best of them.
    let best = best_candidates(&wf, 25, i16::MIN);
    let scores: Vec<i16> = best.iter().map(|c| c.score).collect();
    let expected: Vec<i16> = heap[..25].iter().map(|c| c.score).collect();
    assert_eq!(scores, expected);
    // A minimum cuts the list off.
    let min = heap[10].score;
    let above = best_candidates(&wf, 1000, min);
    assert_eq!(above.len(), heap[..n].iter().filter(|c| c.score >= min).count());
    assert!(best_candidates(&wf, 0, 0).is_empty());
}

#[test]
fn soft_bits_are_differences_of_the_loudest() {
    // One data symbol, number 7, at levels 0, 10, 20 and so on by tone.
    let mut mag = vec![0u8; 8 * 8];
    for t in 0..8 {
        mag[7 * 8 + t] = 10 * t as u8;
    }
    let wf = waterfall(&mag, 8, 8, Protocol::Ft8);
    let soft = extract_likelihood(&wf, &at(0, 0));
    let level = |v: usize| 10 * FT8_GRAY_MAP[v] as i32;
    let max = |vs: [usize; 4]| vs.into_iter().map(level).max().unwrap();
    assert_eq!(soft[0], max([4, 5, 6, 7]) - max([0, 1, 2, 3]));
    assert_eq!(soft[1], max([2, 3, 6, 7]) - max([0, 1, 4, 5]));
    assert_eq!(soft[2], max([1, 3, 5, 7]) - max([0, 2, 4, 6]));
    // What was not recorded carries no information.
    assert!(soft[3..].iter().all(|&s| s == 0));
}

/// A clear transmission gives back its codeword bit for bit, in either protocol.
#[test]
fn clear_transmissions_give_back_their_bits() {
    let msg = Message::encode_std("K1ABC", "W9XYZ", "R-09").unwrap();
    let mag8 = painted(&ft8_tones(&msg.payload), 20, 6, 90, 91);
    let mag4 = painted(&ft4_tones(&msg.payload), 20, 6, 90, 91);
    for wf in [
        waterfall(&mag8, 79, 20, Protocol::Ft8),
        waterfall(&mag4, 105, 20, Protocol::Ft4),
    ] {
        let soft = extract_likelihood(&wf, &at(0, 6));
        let mut hard = [0u8; LDPC_N];
        for (h, s) in hard.iter_mut().zip(soft) {
            assert_ne!(s, 0);
            *h = (s > 0) as u8;
        }
        assert_eq!(ldpc::check(&hard), 0);
        let (decoded, status) = decode_candidate(wf.protocol, &hard, 0);
        let got = decoded.unwrap();
        assert_eq!(got.payload[..9], msg.payload[..9]);
        assert_eq!(got.payload[9] >> 3, msg.payload[9] >> 3);
        assert_eq!(status.crc_extracted, status.crc_calculated);
        assert_ne!(status.crc_extracted, 0);
    }
}

#[test]
fn decode_attempts_report_how_they_went() {
    let msg = Message::encode_std("CQ", "K1ABC", "FN42").unwrap();
    let mut a91 = [0u8; 12];
    crc::add(&msg.payload, &mut a91);
    let cw = ldpc::encode(&a91);
    let (none, status) = decode_candidate(Protocol::Ft8, &cw, 4);
    assert!(none.is_none());
    let failed = DecodeStatus {
        ldpc_errors: 4,
        ..DecodeStatus::default()
    };
    assert_eq!(status, failed);
    // A valid codeword of a payload whose checksum is wrong.
    a91[0] ^= 0x80;
    let (none, status) = decode_candidate(Protocol::Ft8, &ldpc::encode(&a91), 0);
    assert!(none.is_none());
    assert_ne!(status.crc_extracted, status.crc_calculated);
    let (some, _) = decode_candidate(Protocol::Ft8, &cw, 0);
    assert_eq!(some.unwrap(), msg);
}

#[test]
fn readable_candidates_have_all_their_cells() {
    let mag = vec![0u8; 79 * 16];
    let wf = waterfall(&mag, 79, 16, Protocol::Ft8);
    assert!(wf.is_readable(&at(0, 0)));
    assert!(wf.is_readable(&at(0, 8)));
    assert!(!wf.is_readable(&at(0, 9)));
    assert!(!wf.is_readable(&at(0, -1)));
    assert!(wf.is_readable(&at(-1, -1)) == false);
    assert!(wf.is_readable(&at(79, 32000)));
    let huge = Waterfall {
        num_bins: usize::MAX,
        time_osr: 2,
        ..wf
    };
    assert!(!huge.is_readable(&at(0, 0)));
}

#[test]
fn snr_levels_are_the_tones_and_the_median_beside_them() {
    let msg = Message::encode_std("CQ", "K1ABC", "FN42").unwrap();
    let mut mag = painted(&ft8_tones(&msg.payload), 60, 26, 100, 180);
    // The guard is left out, and a neighbour does not move the median.
    for block in 0..79 {
        for off in [-4i32, -3, -2, -1, 8, 9, 10, 11] {
            mag[(block * 60 + 26) + off as usize] = 250;
        }
        mag[block * 60 + 5] = 240;
    }
    let wf = waterfall(&mag, 79, 60, Protocol::Ft8);
    let levels = snr_levels(&wf, &at(0, 26), &msg.payload).unwrap();
    assert_eq!(levels.signal, vec![180; 79]);
    assert_eq!(levels.noise, 100);
    // Nothing recorded, or nothing beside the signal, is no estimate.
    let gone = waterfall(&mag, 0, 60, Protocol::Ft8);
    assert!(snr_levels(&gone, &at(0, 26), &msg.payload).is_none());
    let narrow = painted(&ft8_tones(&msg.payload), 8, 0, 100, 180);
    let wf = waterfall(&narrow, 79, 8, Protocol::Ft8);
    assert!(snr_levels(&wf, &at(0, 0), &msg.payload).is_none());
}

/// The median is the lowest level that half of the cells do not exceed.
#[test]
fn the_noise_floor_is_a_low_median() {
    // One block: noise bins 12 to 31 above tone 0 at levels 1 to 20.
    let mut mag = vec![0u8; 40];
    for i in 0..20 {
        mag[12 + i] = 1 + i as u8;
    }
    let wf = waterfall(&mag, 1, 40, Protocol::Ft8);
    let levels = snr_levels(&wf, &at(0, 0), &[0; 10]).unwrap();
    assert_eq!(levels.noise, 10);
    assert_eq!(levels.signal.len(), 1);
}

/// A word without parity errors is the codeword of its own payload, and what is
/// recovered from it is sent as that word.
#[test]
fn valid_words_are_codewords() {
    let word = |seed: u8| {
        let mut payload = [seed; 10];
        payload[3] = 0x5A;
        payload[9] &= 0xF8;
        let mut a91 = [0u8; 12];
        crc::add(&payload, &mut a91);
        (payload, a91, ldpc::encode(&a91))
    };
    let (a, sealed, cw_a) = word(0x31);
    let (_, _, cw_b) = word(0xC4);
    // The sum of two codewords is valid, and so it is a codeword too.
    let mut sum = [0u8; LDPC_N];
    for n in 0..LDPC_N {
        sum[n] = cw_a[n] ^ cw_b[n];
    }
    assert_eq!(ldpc::check(&sum), 0);
    let mut packed = [0u8; 12];
    for n in 0..91 {
        packed[n / 8] |= sum[n] << (7 - n % 8);
    }
    assert_eq!(ldpc::encode(&packed), sum);
    // A payload with its checksum is what adding the checksum makes of it.
    let mut again = [0u8; 12];
    crc::add(&sealed[..10], &mut again);
    assert_eq!(again, sealed);
    let (got, _) = decode_candidate(Protocol::Ft8, &cw_a, 0);
    assert_eq!(got.unwrap().payload, a);
}

/// Cells are found by block, time subdivision, frequency subdivision and bin.
#[test]
fn cells_are_laid_out_by_block_time_and_frequency() {
    // 9 blocks of 2 by 2 rows of 10 bins; only one row holds a signal.
    let mut mag = vec![50u8; 9 * 2 * 2 * 10];
    for (k, &t) in FT8_COSTAS_PATTERN.iter().enumerate() {
        let row = ((k + 2) * 2 + 1) * 2;
        mag[row * 10 + 1 + t as usize] = 90;
    }
    let wf = Waterfall {
        mag: &mag,
        num_blocks: 9,
        num_bins: 10,
        time_osr: 2,
        freq_osr: 2,
        protocol: Protocol::Ft8,
    };
    let place = Candidate {
        time_sub: 1,
        freq_sub: 0,
        ..at(2, 1)
    };
    assert_eq!(sync_score(&wf, &place), 40);
    let beside = Candidate {
        freq_sub: 1,
        ..place
    };
    assert_eq!(sync_score(&wf, &beside), 0);
    let best = best_candidates(&wf, 20, 40);
    assert!(best.contains(&Candidate { score: 40, ..place }));
}

#[test]
fn layouts_that_cannot_be_are_told_apart() {
    assert!(small().is_valid());
    assert!(!MonitorConfig { time_osr: 0, ..small() }.is_valid());
    assert!(!MonitorConfig { min_bin: 5, ..small() }.is_valid());
    assert!(MonitorConfig { min_bin: 4, ..small() }.is_valid());
    let half = usize::MAX / 2 + 1;
    assert!(!MonitorConfig { block_size: half, ..small() }.is_valid());
    assert!(!MonitorConfig { max_blocks: half, ..small() }.is_valid());
    assert!(!MonitorConfig { max_bin: half, ..small() }.is_valid());
    assert!(!MonitorConfig { time_osr: half, max_blocks: 0, ..small() }.is_valid());
}

/// The search takes every frequency offset and every subdivision that a candidate
/// can hold.
#[test]
fn the_search_goes_as_far_as_candidates_do() {
    let mut mag = vec![50u8; 0x9000];
    mag[0x7FFF + 3] = 90;
    let wf = waterfall(&mag, 1, 0x9000, Protocol::Ft8);
    let best = best_candidates(&wf, 64, 40);
    assert!(best.contains(&Candidate { score: 40, ..at(0, 0x7FFF) }));

    let mut mag = vec![50u8; 257 * 8];
    mag[255 * 8 + 3] = 90;
    let wf = Waterfall {
        time_osr: 257,
        ..waterfall(&mag, 1, 8, Protocol::Ft8)
    };
    let best = best_candidates(&wf, 64, 40);
    let last = Candidate { score: 40, time_sub: 255, ..at(0, 0) };
    assert!(best.contains(&last));
    assert!(best_candidates(&waterfall(&mag, 1, 7, Protocol::Ft8), 5, 0).is_empty());
    assert!(best_candidates(&waterfall(&mag, 1, 0, Protocol::Ft8), 5, 0).is_empty());
}

#[test]
fn noise_windows_are_counted_in_16_bits() {
    let mag = vec![0u8; 79 * 16];
    let wf = waterfall(&mag, 79, 16, Protocol::Ft8);
    assert!(is_measurable(&wf, &at(0, 8)));
    assert!(is_measurable(&wf, &at(0, 9)));
    assert!(is_measurable(&wf, &at(0, 32_736)));
    assert!(!is_measurable(&wf, &at(0, 32_737)));
    assert!(is_measurable(&wf, &at(0, -32_744)));
    assert!(!is_measurable(&wf, &at(0, -32_745)));
    // Where nothing was recorded there is nothing to count.
    assert!(is_measurable(&wf, &at(79, 32_737)));
    assert!(snr_levels(&wf, &at(79, 32_737), &[0; 10]).is_none());
    let huge = Waterfall {
        num_bins: usize::MAX,
        time_osr: 2,
        ..wf
    };
    assert!(!is_measurable(&huge, &at(0, 0)));
}

/// Tones painted one bin below a spectrogram's first: the cells are there for
/// every symbol but the first one's lowest tone.
#[test]
fn candidates_may_hang_over_the_edge() {
    let msg = Message::encode_std("CQ", "K1ABC", "FN42").unwrap();
    let mut mag = vec![50u8; 79 * 16];
    for (block, &t) in ft8_tones(&msg.payload).iter().enumerate() {
        mag[block * 16 + t as usize - 1] = 90;
    }
    let wf = waterfall(&mag, 79, 16, Protocol::Ft8);
    let below = at(0, -1);
    assert!(!wf.is_readable(&below));
    assert!(wf.is_data_readable(&below));
    assert_eq!(sync_score(&wf, &below), 40);
    let mut a91 = [0u8; 12];
    crc::add(&msg.payload, &mut a91);
    let soft = extract_likelihood(&wf, &below);
    for (s, bit) in soft.iter().zip(ldpc::encode(&a91)) {
        assert_eq!(*s, if bit == 1 { 40 } else { -40 });
    }
    assert!(!wf.is_data_readable(&at(0, 1000)));
    assert!(!wf.is_data_readable(&at(-8, -32)));
    // Cells that are missing are not measured.
    let cut = waterfall(&mag[..40 * 16], 79, 16, Protocol::Ft8);
    assert!(!cut.is_data_readable(&below));
    let levels = snr_levels(&cut, &below, &msg.payload).unwrap();
    assert_eq!(levels.signal, vec![90; 40]);
    assert_eq!(levels.noise, 50);
}

/// What was not sent, and the guard beside the tones, is not measured.
#[test]
fn unsent_tones_and_the_guard_do_not_count() {
    for protocol in [Protocol::Ft8, Protocol::Ft4] {
        let payload = Message::encode_std("CQ", "K1ABC", "FN42").unwrap().payload;
        let (tones, last) = match protocol {
            Protocol::Ft8 => (ft8_tones(&payload).to_vec(), 7),
            Protocol::Ft4 => (ft4_tones(&payload).to_vec(), 3),
        };
        let mut plain = painted(&tones, 60, 26, 100, 180);
        for (i, m) in plain.iter_mut().enumerate() {
            *m += (i % 7) as u8;
        }
        let mut smeared = plain.clone();
        for (block, &t) in tones.iter().enumerate() {
            for bin in 22..=26 + last + 4 {
                if bin != 26 + t as usize {
                    smeared[block * 60 + bin] = (block + 3 * bin) as u8;
                }
            }
        }
        let levels = |mag: &[u8]| {
            snr_levels(&waterfall(mag, tones.len(), 60, protocol), &at(0, 26), &payload).unwrap()
        };
        let (a, b) = (levels(&plain), levels(&smeared));
        assert_eq!((a.signal, a.noise), (b.signal, b.noise));
        assert_eq!(a.noise, 103);
    }
}

/// A floor that is raised everywhere leaves the score as it was.
#[test]
fn raised_floor_keeps_the_score() {
    let mag: Vec<u8> = (0..79 * 16).map(|i: usize| (i * i % 97) as u8).collect();
    let raised: Vec<u8> = mag.iter().map(|m| m + 60).collect();
    for c in [at(0, 0), at(-3, 5), at(7, 8), at(0, -1)] {
        let (a, b) = (
            sync_score(&waterfall(&mag, 79, 16, Protocol::Ft8), &c),
            sync_score(&waterfall(&raised, 79, 16, Protocol::Ft8), &c),
        );
        assert_eq!(a, b);
    }
    let spread = painted(&ft8_tones(&[0x50; 10]), 16, 2, 60, 85);
    assert_eq!(sync_score(&waterfall(&spread, 79, 16, Protocol::Ft8), &at(0, 2)), 25);
}

/// What is transmitted clearly is decoded from the first hard decision.
#[test]
fn clear_transmissions_decode_at_once() {
    for protocol in [Protocol::Ft8, Protocol::Ft4] {
        for seed in [0x01u8, 0x5A, 0xFF] {
            let mut payload = [seed; 10];
            payload[4] = 0x3C;
            payload[9] &= 0xF8;
            let tones = match protocol {
                Protocol::Ft8 => ft8_tones(&payload).to_vec(),
                Protocol::Ft4 => ft4_tones(&payload).to_vec(),
            };
            let mag = painted(&tones, 12, 3, 80, 81);
            let wf = waterfall(&mag, tones.len(), 12, protocol);
            assert!(wf.is_data_readable(&at(0, 3)));
            let mut hard = [0u8; LDPC_N];
            for (h, s) in hard.iter_mut().zip(extract_likelihood(&wf, &at(0, 3))) {
                *h = (s > 0) as u8;
            }
            let mut decoder = ldpc::BpDecoder::new(1);
            decoder.offer(&hard);
            assert!(!decoder.is_running());
            let (plain, errors) = decoder.outcome();
            let (message, status) = decode_candidate(protocol, &plain, errors);
            assert_eq!(message.unwrap().payload, payload);
            assert_eq!(status.ldpc_errors, 0);
        }
    }
}

fn decode_of(payload: [u8; 10]) -> Decode {
    Decode {
        message: Message::from_payload(payload),
        candidate: Candidate::default(),
        status: DecodeStatus::default(),
    }
}

#[test]
fn decodes_read_as_in_a_decode_list() {
    let line = |m: Message| decode_of(m.payload).text().as_str().to_string();
    let std = |to: &str, de: &str, e: &str| line(Message::encode_std(to, de, e).unwrap());
    assert_eq!(std("CQ", "K1ABC", "FN42"), "CQ K1ABC FN42");
    assert_eq!(std("CQ POTA", "3DA0XYZ/P", "R-09"), "CQ POTA 3DA0XYZ/P R-09");
    assert_eq!(std("K1ABC", "W9XYZ", ""), "K1ABC W9XYZ");
    assert_eq!(line(Message::encode_free("TNX 73 GL")), "TNX 73 GL");
    let kind = |i3: u8, n3: u8| {
        let mut p = [0xFFu8; 10];
        p[8] = 0xFE | (n3 >> 2);
        p[9] = ((n3 & 3) << 6) | (i3 << 3);
        decode_of(p).text().as_str().to_string()
    };
    assert_eq!(kind(0, 1), "<DXpedition>");
    assert_eq!(kind(0, 2), "<EU VHF>");
    assert_eq!(kind(0, 3), "<ARRL FD>");
    assert_eq!(kind(0, 4), "<ARRL FD>");
    assert_eq!(kind(0, 5), "7FFFFFFFFFFFFFFFFF");
    assert_eq!(kind(0, 6), "<contest>");
    assert_eq!(kind(0, 7), "<unknown>");
    assert_eq!(kind(3, 0), "<ARRL RTTY>");
    assert_eq!(kind(4, 0), "<nonstd call>");
    assert_eq!(kind(5, 0), "<WWROF>");
    assert_eq!(kind(6, 0), "<unknown>");
    // The number 532_444 is no call.
    let mut p = [0u8; 10];
    p.copy_from_slice(&((532_444u128 << 52) + 8).to_be_bytes()[6..]);
    assert_eq!(decode_of(p).text().as_str(), "<undecodable>");
}

/// Each payload is listed once, with the first candidate it came from.
#[test]
fn repeated_payloads_are_listed_once() {
    let word = |to: &str| {
        let m = Message::encode_std(to, "K1ABC", "FN42").unwrap();
        let mut a91 = [0u8; 12];
        crc::add(&m.payload, &mut a91);
        (m, ldpc::encode(&a91))
    };
    let (a, cw_a) = word("CQ");
    let (b, cw_b) = word("W9XYZ");
    let found: Vec<Candidate> = (0..5).map(|i| at(i, 0)).collect();
    let outcomes = [(cw_b, 3), (cw_a, 0), (cw_a, 0), (cw_b, 0), (cw_a, 0)];
    let list = list_decodes(Protocol::Ft8, &found, &outcomes);
    let got: Vec<(Message, i16)> = list
        .iter()
        .map(|d| (d.message, d.candidate.time_offset))
        .collect();
    assert_eq!(got, [(a, 1), (b, 3)]);
    assert!(list_decodes(Protocol::Ft8, &[], &[]).is_empty());
}

fn small() -> MonitorConfig {
    MonitorConfig {
        block_size: 6,
        min_bin: 1,
        max_bin: 4,
        max_blocks: 2,
        protocol: Protocol::Ft8,
        time_osr: 2,
        freq_osr: 2,
    }
}

#[test]
fn blocks_are_stored_by_time_and_frequency() {
    let mut mon = Monitor::new(small());
    assert_eq!(mon.block_size(), 6);
    assert!(!mon.is_full());
    let levels: Vec<i32> = (0..24).collect();
    mon.process(5, &levels);
    assert_eq!(mon.num_blocks(), 0);
    mon.process(6, &levels);
    assert_eq!(mon.num_blocks(), 1);
    let wf = mon.waterfall();
    assert_eq!(wf.block_stride(), 12);
    assert_eq!(
        wf.mag[..12],
        [2, 4, 6, 3, 5, 7, 14, 16, 18, 15, 17, 19]
    );
    assert_eq!(wf.mag[12..], [0; 12]);
    // Levels are kept within a byte.
    let extremes: Vec<i32> = (0..24).map(|i| if i % 4 < 2 { -5 } else { 1000 }).collect();
    mon.process(6, &extremes);
    assert!(mon.is_full());
    assert_eq!(
        mon.waterfall().mag[12..],
        [255, 0, 255, 255, 0, 255, 255, 0, 255, 255, 0, 255]
    );
    // A full slot takes no more, until a new one is started.
    let before = mon.waterfall().mag.to_vec();
    mon.process(6, &levels);
    assert_eq!(mon.num_blocks(), 2);
    assert_eq!(mon.waterfall().mag, before);
    mon.reset();
    assert_eq!(mon.num_blocks(), 0);
    assert_eq!(mon.waterfall().num_bins, 3);
}

#[test]
fn windows_slide_by_what_comes_in() {
    let mut w = [1, 2, 3, 4, 5];
    slide(&mut w, &[6, 7]);
    assert_eq!(w, [3, 4, 5, 6, 7]);
    slide(&mut w, &[]);
    assert_eq!(w, [3, 4, 5, 6, 7]);
    slide(&mut w, &[9, 9, 9, 9, 8]);
    assert_eq!(w, [9, 9, 9, 9, 8]);
}

/// A signal that stands out by all that the levels differ by scores highest.
#[test]
fn planted_signals_score_highest() {
    let msg = Message::encode_std("CQ", "K1ABC", "FN42").unwrap();
    for protocol in [Protocol::Ft8, Protocol::Ft4] {
        let tones = match protocol {
            Protocol::Ft8 => ft8_tones(&msg.payload).to_vec(),
            Protocol::Ft4 => ft4_tones(&msg.payload).to_vec(),
        };
        let mag = painted(&tones, 20, 5, 100, 160);
        let wf = waterfall(&mag, tones.len(), 20, protocol);
        let best = best_candidates(&wf, 3, 1);
        assert_eq!(best[0], Candidate { score: 60, ..at(0, 5) });
        assert!(best.iter().all(|c| c.score <= 60));
    }
}

/// The decodes of a search have each payload once, the highest score first.
#[test]
fn slots_are_listed_by_score() {
    let msg = Message::encode_std("CQ", "K1ABC", "FN42").unwrap();
    let tones = ft8_tones(&msg.payload);
    let mag = painted(&tones, 20, 5, 100, 160);
    let wf = waterfall(&mag, 79, 20, Protocol::Ft8);
    let found = best_candidates(&wf, 8, 1);
    let mut a91 = [0u8; 12];
    crc::add(&msg.payload, &mut a91);
    let mut other = [0u8; 12];
    crc::add(&[0x60; 10], &mut other);
    let words = [ldpc::encode(&a91), ldpc::encode(&other)];
    let outcomes: Vec<([u8; LDPC_N], usize)> =
        (0..found.len()).map(|i| (words[i % 3 % 2], usize::from(i == 1))).collect();
    let list = list_decodes(Protocol::Ft8, &found, &outcomes);
    assert_eq!(list.len(), 2);
    assert_eq!(list[0].candidate, found[0]);
    assert_eq!(list[1].candidate, found[4]);
    assert!(list[0].candidate.score >= list[1].candidate.score);
    assert_ne!(list[0].message, list[1].message);
}
