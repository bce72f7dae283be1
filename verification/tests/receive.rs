use ft8::constants::{
    FT8_COSTAS_PATTERN, FT8_GRAY_MAP, FT8_ND, LDPC_K_BYTES, LDPC_M, LDPC_MN, LDPC_N, LDPC_NM,
    LDPC_NUM_ROWS,
};
use ft8::decode::{
    best_candidates, decode_candidate, extract_likelihood, find_candidates, ft4_tones, ft8_tones, Candidate,
    DecodeStatus, Waterfall,
};
use ft8::ldpc::BpDecoder;
use ft8::message::PAYLOAD_BYTES;
use ft8::monitor::slide;
use ft8::snr::snr_levels;
use ft8::{crc, ldpc, Decode, Message, Monitor, MonitorConfig, NoHash, Protocol};
use rustfft::num_complex::Complex;
use rustfft::FftPlanner;

const SAMPLE_RATE: f32 = 12000.0;
const SYMBOL_PERIOD: f32 = 0.160;

fn fast_tanh(x: f32) -> f32 {
    if x < -4.97 {
        return -1.0;
    }
    if x > 4.97 {
        return 1.0;
    }
    let x2 = x * x;
    let a = x * (945.0 + x2 * (105.0 + x2));
    let b = 945.0 + x2 * (420.0 + x2 * 15.0);
    a / b
}

fn fast_atanh(x: f32) -> f32 {
    let x2 = x * x;
    let a = x * (945.0 + x2 * (-735.0 + x2 * 64.0));
    let b = 945.0 + x2 * (-1050.0 + x2 * 225.0);
    a / b
}

fn bp_decode(codeword: &[f32; LDPC_N], max_iters: usize) -> ([u8; LDPC_N], usize) {
    let mut tov = [[0.0f32; 3]; LDPC_N];
    let mut toc = [[0.0f32; 7]; LDPC_M];
    let mut decoder = BpDecoder::new(max_iters);
    while decoder.is_running() {
        let mut plain = [0u8; LDPC_N];
        for n in 0..LDPC_N {
            plain[n] = ((codeword[n] + tov[n][0] + tov[n][1] + tov[n][2]) > 0.0) as u8;
        }
        decoder.offer(&plain);
        for m in 0..LDPC_M {
            for n_idx in 0..LDPC_NUM_ROWS[m] as usize {
                let n = LDPC_NM[m][n_idx] as usize - 1;
                let mut tnm = codeword[n];
                for m_idx in 0..3 {
                    if LDPC_MN[n][m_idx] as usize - 1 != m {
                        tnm += tov[n][m_idx];
                    }
                }
                toc[m][n_idx] = fast_tanh(-tnm / 2.0);
            }
        }
        for n in 0..LDPC_N {
            for m_idx in 0..3 {
                let m = LDPC_MN[n][m_idx] as usize - 1;
                let mut tmn = 1.0f32;
                for n_idx in 0..LDPC_NUM_ROWS[m] as usize {
                    if LDPC_NM[m][n_idx] as usize - 1 != n {
                        tmn *= toc[m][n_idx];
                    }
                }
                tov[n][m_idx] = -2.0 * fast_atanh(tmn);
            }
        }
    }
    decoder.outcome()
}

/// Correct the soft bits of a candidate.
fn correct(wf: &Waterfall, c: &Candidate, max_iters: usize) -> ([u8; LDPC_N], usize) {
    assert!(wf.is_data_readable(c));
    let soft = extract_likelihood(wf, c);
    let mut log174 = [0.0f32; LDPC_N];
    for (l, &s) in log174.iter_mut().zip(soft.iter()) {
        *l = s as f32 * 0.5;
    }
    let (mut sum, mut sum2) = (0.0f32, 0.0f32);
    for &v in log174.iter() {
        sum += v;
        sum2 += v * v;
    }
    let inv_n = 1.0 / LDPC_N as f32;
    let variance = (sum2 - sum * sum * inv_n) * inv_n;
    if variance > 0.0 {
        let norm = (24.0 / variance).sqrt();
        for v in log174.iter_mut() {
            *v *= norm;
        }
    }
    bp_decode(&log174, max_iters)
}

fn decode_at(wf: &Waterfall, c: &Candidate, max_iters: usize) -> (Option<Message>, DecodeStatus) {
    let (plain, errors) = correct(wf, c, max_iters);
    decode_candidate(wf.protocol, &plain, errors)
}

/// Render symbols as a waterfall, with the transmitted tone loud and everything
/// else at a floor. `offset_bin` places the signal away from bin zero so the sync
/// search has to actually find it.
fn synth_waterfall(tones: &[u8; 79], num_bins: usize, offset_bin: usize, snr: u8) -> Vec<u8> {
    let mut mag = vec![100u8; 79 * num_bins]; // ~-70 dB floor
    for (block, &t) in tones.iter().enumerate() {
        mag[block * num_bins + offset_bin + t as usize] = 100u8.saturating_add(snr);
    }
    mag
}

fn ft8_waterfall(mag: &[u8], num_blocks: usize, num_bins: usize) -> Waterfall<'_> {
    Waterfall {
        mag,
        num_blocks,
        num_bins,
        time_osr: 1,
        freq_osr: 1,
        protocol: Protocol::Ft8,
    }
}

/// The whole receive chain below the FFT: find the signal in time and
/// frequency, pull soft bits out, correct them, check the CRC, unpack.
#[test]
fn finds_and_decodes_a_synthetic_signal() {
    let msg = Message::encode_std("CQ", "K1ABC", "FN42").unwrap();
    let tones = ft8_tones(&msg.payload);
    let num_bins = 40;
    let offset_bin = 11;
    let mag = synth_waterfall(&tones, num_bins, offset_bin, 60);
    let wf = ft8_waterfall(&mag, 79, num_bins);

    let mut heap = [Candidate::default(); 20];
    let n = find_candidates(&wf, &mut heap, 10);
    assert!(n > 0, "sync search found nothing");

    // The best candidate must be the signal we planted.
    assert_eq!(heap[0].freq_offset as usize, offset_bin, "wrong frequency");
    assert_eq!(heap[0].time_offset, 0, "wrong time");

    let (decoded, status) = decode_at(&wf, &heap[0], 30);
    let decoded = decoded.unwrap_or_else(|| panic!("decode failed: {status:?}"));
    assert_eq!(status.ldpc_errors, 0);
    assert_eq!(status.crc_extracted, status.crc_calculated);

    let std_msg = decoded.decode_std(&mut NoHash).unwrap();
    assert_eq!(&*std_msg.call_to, "CQ");
    assert_eq!(&*std_msg.call_de, "K1ABC");
    assert_eq!(&*std_msg.extra, "FN42");
}

/// Candidates come back strongest first, since callers decode in that order and
/// stop when they run out of budget.
#[test]
fn candidates_are_sorted_by_descending_score() {
    let msg = Message::encode_std("CQ", "W9XYZ", "EN37").unwrap();
    let tones = ft8_tones(&msg.payload);
    let mag = synth_waterfall(&tones, 40, 5, 60);
    let wf = ft8_waterfall(&mag, 79, 40);
    let mut heap = [Candidate::default(); 16];
    let n = find_candidates(&wf, &mut heap, 0);
    assert!(n > 1);
    for w in heap[..n].windows(2) {
        assert!(
            w[0].score >= w[1].score,
            "heap not sorted: {:?}",
            &heap[..n]
        );
    }
}

/// Pure noise must not produce a message. A decoder that "finds" signals in
/// noise is worse than one that finds nothing.
#[test]
fn noise_decodes_to_nothing() {
    let mut mag = vec![0u8; 79 * 40];
    let mut s = 987654321u64;
    for m in mag.iter_mut() {
        s = s
            .wrapping_mul(6364136223846793005)
            .wrapping_add(1442695040888963407);
        *m = (s >> 56) as u8;
    }
    let wf = ft8_waterfall(&mag, 79, 40);
    let mut heap = [Candidate::default(); 20];
    let n = find_candidates(&wf, &mut heap, 0);
    for cand in &heap[..n] {
        assert!(decode_at(&wf, cand, 20).0.is_none(), "decoded noise");
    }
}

/// A signal starting late still decodes: the search covers -10..+20 symbol
/// offsets, which is what absorbs clock error between stations.
#[test]
fn finds_a_time_shifted_signal() {
    let msg = Message::encode_std("K1ABC", "W9XYZ", "-11").unwrap();
    let tones = ft8_tones(&msg.payload);
    let num_bins = 32;
    let shift = 3usize;
    // Pad the front so the message starts `shift` symbols in.
    let mut mag = vec![100u8; (79 + shift) * num_bins];
    for (block, &t) in tones.iter().enumerate() {
        mag[(block + shift) * num_bins + 7 + t as usize] = 160;
    }
    let wf = ft8_waterfall(&mag, 79 + shift, num_bins);
    let mut heap = [Candidate::default(); 20];
    let n = find_candidates(&wf, &mut heap, 10);
    assert!(n > 0);
    assert_eq!(heap[0].time_offset as usize, shift);
    let (decoded, status) = decode_at(&wf, &heap[0], 30);
    let decoded = decoded.unwrap_or_else(|| panic!("decode failed: {status:?}"));
    let m = decoded.decode_std(&mut NoHash).unwrap();
    assert_eq!(&*m.extra, "-11");
}

/// The layers have to line up: a message packed at the top must survive
/// CRC, LDPC encoding, a noisy channel, and come back out identical.
/// Each piece is tested alone; this is the one that catches a seam.
#[test]
fn message_survives_crc_ldpc_and_bit_errors() {
    let msg = Message::encode_std("CQ", "K1ABC", "FN42").unwrap();

    let mut a91 = [0u8; 12];
    crc::add(&msg.payload, &mut a91);
    assert!(crc::check(&a91));

    let codeword = ldpc::encode(&a91);
    assert_eq!(ldpc::check(&codeword), 0);

    let mut llr = [0.0f32; LDPC_N];
    for i in 0..LDPC_N {
        llr[i] = if codeword[i] == 1 { 4.0 } else { -4.0 };
    }
    for k in 0..6 {
        llr[k * 23 % LDPC_N] *= -1.0;
    }

    let (plain, errors) = bp_decode(&llr, 30);
    assert_eq!(errors, 0, "LDPC failed to correct 6 bit errors");

    let mut recovered = [0u8; 12];
    for (i, &bit) in plain.iter().take(91).enumerate() {
        recovered[i / 8] |= bit << (7 - (i % 8));
    }
    assert!(
        crc::check(&recovered),
        "recovered payload failed its own CRC"
    );

    let mut payload = [0u8; PAYLOAD_BYTES];
    payload.copy_from_slice(&recovered[..PAYLOAD_BYTES]);
    let out = Message::from_payload(payload)
        .decode_std(&mut NoHash)
        .unwrap();
    assert_eq!(&*out.call_to, "CQ");
    assert_eq!(&*out.call_de, "K1ABC");
    assert_eq!(&*out.extra, "FN42");
}

/// Analyse audio symbol by symbol.
fn analyse(audio: &[f32], cfg: MonitorConfig) -> Monitor {
    let nfft = cfg.block_size * cfg.freq_osr;
    let subblock = cfg.block_size / cfg.time_osr;
    let window: Vec<f32> = (0..nfft)
        .map(|i| {
            let x = (core::f32::consts::PI * i as f32 / nfft as f32).sin();
            2.0 / nfft as f32 * x * x
        })
        .collect();
    let fft = FftPlanner::<f32>::new().plan_fft_forward(nfft);
    let mut last_frame = vec![0.0f32; nfft];
    let mut mon = Monitor::new(cfg);
    for frame in audio.chunks(mon.block_size()) {
        if mon.is_full() || frame.len() != mon.block_size() {
            mon.process(frame.len(), &[]);
            continue;
        }
        let mut levels = Vec::new();
        for part in frame.chunks(subblock) {
            slide(&mut last_frame, part);
            let mut scratch: Vec<Complex<f32>> = window
                .iter()
                .zip(&last_frame)
                .map(|(w, s)| Complex::new(w * s, 0.0))
                .collect();
            fft.process(&mut scratch);
            for c in &scratch {
                let mag2 = c.re * c.re + c.im * c.im;
                let db = 10.0 * (1e-12 + mag2).log10();
                levels.push((2.0 * db + 240.0) as i32);
            }
        }
        mon.process(frame.len(), &levels);
    }
    mon
}

fn decode_slot(mon: &Monitor, max: usize, min_score: i16, max_iters: usize) -> Vec<Decode> {
    let wf = mon.waterfall();
    let found = best_candidates(&wf, max, min_score);
    let outcomes: Vec<([u8; LDPC_N], usize)> =
        found.iter().map(|c| correct(&wf, c, max_iters)).collect();
    mon.decode_all(&found, &outcomes)
}

/// Synthesise the audio a real transmitter would send: 79 tones, each one
/// symbol long, at 6.25 Hz spacing, phase-continuous.
fn synth_audio(payload: &[u8; 10], base_hz: f32, sample_rate: f32, noise: f32) -> Vec<f32> {
    let mut a91 = [0u8; LDPC_K_BYTES];
    crc::add(payload, &mut a91);
    let codeword = ldpc::encode(&a91);

    let mut tones = [0u8; 79];
    for (i, &t) in FT8_COSTAS_PATTERN.iter().enumerate() {
        tones[i] = t;
        tones[36 + i] = t;
        tones[72 + i] = t;
    }
    for k in 0..FT8_ND {
        let bits = (codeword[3 * k] << 2) | (codeword[3 * k + 1] << 1) | codeword[3 * k + 2];
        tones[k + if k < 29 { 7 } else { 14 }] = FT8_GRAY_MAP[bits as usize];
    }

    let spacing = 1.0 / SYMBOL_PERIOD; // 6.25 Hz
    let block = (sample_rate * SYMBOL_PERIOD) as usize;
    let mut out = Vec::with_capacity(79 * block);
    let mut phase = 0.0f32;
    let mut rng = 0x2545F491_4F6CDD1Du64;
    for &t in tones.iter() {
        let f = base_hz + t as f32 * spacing;
        let dphi = 2.0 * core::f32::consts::PI * f / sample_rate;
        for _ in 0..block {
            rng = rng.wrapping_mul(6364136223846793005).wrapping_add(1);
            let n = ((rng >> 40) as i32 as f32 / 8_388_608.0 - 1.0) * noise;
            out.push(phase.sin() + n);
            phase += dphi;
            if phase > core::f32::consts::TAU {
                phase -= core::f32::consts::TAU;
            }
        }
    }
    out
}

fn freq_hz(d: &Decode) -> f32 {
    let c = &d.candidate;
    (32.0 + c.freq_offset as f32 + c.freq_sub as f32 / 2.0) / SYMBOL_PERIOD
}

fn time_sec(d: &Decode) -> f32 {
    let c = &d.candidate;
    (c.time_offset as f32 + c.time_sub as f32 / 2.0) * SYMBOL_PERIOD
}

/// The estimate in dB over 2500 Hz, from the levels of a decoded message.
fn snr_db(mon: &Monitor, d: &Decode) -> f32 {
    let wf = mon.waterfall();
    let Some(levels) = snr_levels(&wf, &d.candidate, &d.message.payload) else {
        return f32::NAN;
    };
    let power = |v: u8| 10f64.powf((v as f32 * 0.5 - 120.0) as f64 / 10.0);
    let sig: f64 = levels.signal.iter().map(|&v| power(v)).sum();
    let n_mean = power(levels.noise);
    let s_mean = sig / levels.signal.len() as f64;
    let signal = (s_mean - n_mean).max(n_mean * 1e-4);
    let bw_correction = 10.0 * ((1.0 / SYMBOL_PERIOD) / 2500.0).log10();
    let snr = 10.0 * (signal / n_mean).log10() + bw_correction as f64;
    (snr as f32).clamp(-30.0, 40.0)
}

/// The whole chain, from a waveform: FFT, sync search, soft bits, LDPC,
/// CRC, message. This is the test that would catch a wrong window, a wrong
/// FFT size, or a bin-indexing error, none of which the synthetic
/// waterfall tests can see.
#[test]
fn decodes_a_synthesised_transmission() {
    let msg = Message::encode_std("CQ", "K1ABC", "FN42").unwrap();
    let audio = synth_audio(&msg.payload, 1000.0, SAMPLE_RATE, 0.0);

    let mon = analyse(&audio, MonitorConfig::default());
    assert!(
        mon.num_blocks() >= 79,
        "only got {} blocks",
        mon.num_blocks()
    );

    let decodes = decode_slot(&mon, 30, 10, 30);
    assert_eq!(
        decodes.len(),
        1,
        "expected exactly one decode, got {decodes:?}"
    );

    let d = &decodes[0];
    let m = d.message.decode_std(&mut NoHash).unwrap();
    assert_eq!(&*m.call_to, "CQ");
    assert_eq!(&*m.call_de, "K1ABC");
    assert_eq!(&*m.extra, "FN42");
    assert_eq!(&*d.text(), "CQ K1ABC FN42");
    // Frequency should land within a bin of where we put it.
    assert!((freq_hz(d) - 1000.0).abs() < 7.0, "freq {} Hz", freq_hz(d));
    assert!(time_sec(d).abs() < 0.2, "time {} s", time_sec(d));
}

/// Two stations at once, which is the normal state of an FT8 slot and the
/// thing a single-channel demodulator could not do.
#[test]
fn decodes_two_overlapping_signals() {
    let a = Message::encode_std("CQ", "K1ABC", "FN42").unwrap();
    let b = Message::encode_std("CQ", "W9XYZ", "EN37").unwrap();
    let sig_a = synth_audio(&a.payload, 800.0, SAMPLE_RATE, 0.0);
    let sig_b = synth_audio(&b.payload, 1500.0, SAMPLE_RATE, 0.0);
    let mixed: Vec<f32> = sig_a.iter().zip(&sig_b).map(|(x, y)| x + y).collect();

    let mon = analyse(&mixed, MonitorConfig::default());
    let decodes = decode_slot(&mon, 40, 10, 30);
    assert_eq!(decodes.len(), 2, "got {decodes:?}");

    let mut calls: Vec<_> = decodes
        .iter()
        .map(|d| {
            d.message
                .decode_std(&mut NoHash)
                .unwrap()
                .call_de
                .as_str()
                .to_string()
        })
        .collect();
    calls.sort();
    assert_eq!(calls, ["K1ABC", "W9XYZ"]);
}

/// Survives noise well above the signal, since FT8's whole point is decoding
/// below the noise floor.
#[test]
fn decodes_under_noise() {
    let msg = Message::encode_std("K1ABC", "W9XYZ", "-15").unwrap();
    let audio = synth_audio(&msg.payload, 1200.0, SAMPLE_RATE, 3.0);

    let mon = analyse(&audio, MonitorConfig::default());
    let decodes = decode_slot(&mon, 40, 10, 40);
    assert!(!decodes.is_empty(), "nothing decoded under noise");
    let m = decodes[0].message.decode_std(&mut NoHash).unwrap();
    assert_eq!(&*m.extra, "-15");
}

/// SNR has to track reality, not just produce a number: more noise must
/// read as lower SNR, monotonically, and the values must land in the range
/// an operator recognises (WSJT-X spans about -24..+15 dB).
#[test]
fn snr_falls_as_noise_rises() {
    let msg = Message::encode_std("CQ", "K1ABC", "FN42").unwrap();
    let mut snrs = Vec::new();
    for noise in [0.05f32, 0.3, 1.0, 3.0] {
        let audio = synth_audio(&msg.payload, 1200.0, SAMPLE_RATE, noise);
        let mon = analyse(&audio, MonitorConfig::default());
        let d = decode_slot(&mon, 40, 10, 40);
        assert!(!d.is_empty(), "no decode at noise {noise}");
        snrs.push(snr_db(&mon, &d[0]));
    }
    for w in snrs.windows(2) {
        assert!(w[0] > w[1], "SNR did not fall with added noise: {snrs:?}");
    }
    // The noisiest case is a genuinely weak signal; it should read like one.
    assert!(
        snrs[3] < snrs[0] - 10.0,
        "SNR barely moved across 36 dB of noise: {snrs:?}"
    );
    assert!(
        snrs.iter().all(|s| (-30.0..40.0).contains(s)),
        "implausible SNR: {snrs:?}"
    );
}

/// Silence must produce nothing at all.
#[test]
fn silence_decodes_to_nothing() {
    let silence = vec![0.0f32; 93 * 1920];
    let mon = analyse(&silence, MonitorConfig::default());
    assert_eq!(mon.num_blocks(), 93);
    assert!(decode_slot(&mon, 30, 10, 20).is_empty());
}

/// A short frame would shift every symbol after it, so it is refused
/// rather than padded.
#[test]
fn rejects_a_short_frame() {
    let mon = analyse(&[0.0; 100], MonitorConfig::default());
    assert_eq!(mon.num_blocks(), 0);
}

/// FT4 goes the same way, with its own tones, timing and scrambling.
#[test]
fn decodes_an_ft4_transmission() {
    let msg = Message::encode_std("CQ", "K1ABC", "FN42").unwrap();
    let period = 0.048f32;
    let block = 576usize;
    let mut audio = Vec::new();
    let mut phase = 0.0f32;
    for t in ft4_tones(&msg.payload) {
        let f = 1500.0 + t as f32 / period;
        for _ in 0..block {
            audio.push(phase.sin());
            phase += core::f32::consts::TAU * f / SAMPLE_RATE;
            if phase > core::f32::consts::TAU {
                phase -= core::f32::consts::TAU;
            }
        }
    }
    let setup = MonitorConfig {
        block_size: block,
        min_bin: 9,
        max_bin: 145,
        max_blocks: 156,
        protocol: Protocol::Ft4,
        time_osr: 2,
        freq_osr: 2,
    };
    let mon = analyse(&audio, setup);
    let lines: Vec<String> = decode_slot(&mon, 40, 10, 40)
        .iter()
        .map(|d| d.text().as_str().to_string())
        .collect();
    assert_eq!(lines, ["CQ K1ABC FN42"]);
}
