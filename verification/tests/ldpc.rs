use ft8::constants::{
    LDPC_K_BYTES, LDPC_M, LDPC_MN, LDPC_N, LDPC_NM, LDPC_NUM_ROWS,
};
use ft8::ldpc::{check, encode, BpDecoder};

fn fast_tanh(x: f32) -> f32 {
    if x < -4.97 {
        return -1.0;
    }
    if x > 4.97 {
        return 1.0;
    }
    let x2 = x * x;
    let a = x * (945.0 + x2 * (105.0 + x2));
    let b = 945.0 + x2 * (420.0 + x2 * 15.0);
    a / b
}

fn fast_atanh(x: f32) -> f32 {
    let x2 = x * x;
    let a = x * (945.0 + x2 * (-735.0 + x2 * 64.0));
    let b = 945.0 + x2 * (-1050.0 + x2 * 225.0);
    a / b
}

/// Belief propagation around the decisions of the library.
fn bp_decode(codeword: &[f32; LDPC_N], max_iters: usize) -> ([u8; LDPC_N], usize) {
    let mut tov = [[0.0f32; 3]; LDPC_N];
    let mut toc = [[0.0f32; 7]; LDPC_M];
    let mut decoder = BpDecoder::new(max_iters);
    while decoder.is_running() {
        let mut plain = [0u8; LDPC_N];
        for n in 0..LDPC_N {
            plain[n] = ((codeword[n] + tov[n][0] + tov[n][1] + tov[n][2]) > 0.0) as u8;
        }
        decoder.offer(&plain);
        for m in 0..LDPC_M {
            for n_idx in 0..LDPC_NUM_ROWS[m] as usize {
                let n = LDPC_NM[m][n_idx] as usize - 1;
                let mut tnm = codeword[n];
                for m_idx in 0..3 {
                    if LDPC_MN[n][m_idx] as usize - 1 != m {
                        tnm += tov[n][m_idx];
                    }
                }
                toc[m][n_idx] = fast_tanh(-tnm / 2.0);
            }
        }
        for n in 0..LDPC_N {
            for m_idx in 0..3 {
                let m = LDPC_MN[n][m_idx] as usize - 1;
                let mut tmn = 1.0f32;
                for n_idx in 0..LDPC_NUM_ROWS[m] as usize {
                    if LDPC_NM[m][n_idx] as usize - 1 != n {
                        tmn *= toc[m][n_idx];
                    }
                }
                tov[n][m_idx] = -2.0 * fast_atanh(tmn);
            }
        }
    }
    decoder.outcome()
}

/// Deterministic pseudo-random payloads, so that a failure reproduces exactly.
fn payload(seed: u64) -> [u8; LDPC_K_BYTES] {
    let mut s = seed
        .wrapping_mul(6364136223846793005)
        .wrapping_add(1442695040888963407);
    let mut m = [0u8; LDPC_K_BYTES];
    for b in m.iter_mut() {
        s = s
            .wrapping_mul(6364136223846793005)
            .wrapping_add(1442695040888963407);
        *b = (s >> 33) as u8;
    }
    m[11] &= 0xE0; // 91 bits used of 96; keep the pad clear
    m
}

/// The tables and the encoder have to agree before anything else can be
/// trusted: an encoded word must satisfy every parity check by construction.
#[test]
fn encoded_words_are_valid_codewords() {
    for seed in 0..64 {
        let cw = encode(&payload(seed));
        assert_eq!(check(&cw), 0, "seed {seed} encoded to an invalid codeword");
    }
}

/// Soft-decision input with no noise: the decoder must return exactly the
/// bits that went in.
#[test]
fn decodes_a_clean_codeword() {
    for seed in 0..32 {
        let cw = encode(&payload(seed));
        let mut llr = [0.0f32; LDPC_N];
        for i in 0..LDPC_N {
            llr[i] = if cw[i] == 1 { 4.0 } else { -4.0 };
        }
        let (plain, errors) = bp_decode(&llr, 20);
        assert_eq!(errors, 0, "seed {seed} failed to converge");
        assert_eq!(plain, cw, "seed {seed} decoded to the wrong codeword");
    }
}

/// The point of the code. LDPC(174,91) should shrug off a handful of
/// flipped bits; if the Nm/Mn tables were transposed or off by one this is
/// what would catch it, since clean decoding alone would still pass.
#[test]
fn corrects_flipped_bits() {
    let mut recovered = 0;
    for seed in 0..32 {
        let cw = encode(&payload(seed));
        let mut llr = [0.0f32; LDPC_N];
        for i in 0..LDPC_N {
            llr[i] = if cw[i] == 1 { 4.0 } else { -4.0 };
        }
        // Flip 6 bits, spread across the word.
        for k in 0..6 {
            let i = (seed as usize * 7 + k * 29) % LDPC_N;
            llr[i] = -llr[i];
        }
        let (plain, errors) = bp_decode(&llr, 30);
        if errors == 0 && plain == cw {
            recovered += 1;
        }
    }
    assert!(
        recovered >= 30,
        "only {recovered}/32 recovered from 6 bit errors"
    );
}

/// Noise with no signal must not produce a confident answer.
#[test]
fn rejects_garbage() {
    let mut llr = [0.0f32; LDPC_N];
    let mut s = 12345u64;
    for v in llr.iter_mut() {
        s = s.wrapping_mul(6364136223846793005).wrapping_add(1);
        *v = ((s >> 40) as i32 as f32 % 200.0) / 100.0 - 1.0;
    }
    let (_, errors) = bp_decode(&llr, 30);
    assert!(errors > 0, "random LLRs decoded to a valid codeword");
}

/// The rows of the check matrix are padded with zeros, and the two tables are
/// each other's transpose.
#[test]
fn tables_describe_one_matrix() {
    for m in 0..LDPC_M {
        for i in 0..7 {
            let n = LDPC_NM[m][i] as usize;
            if i < LDPC_NUM_ROWS[m] as usize {
                assert!(LDPC_MN[n - 1].iter().any(|&c| c as usize == m + 1));
            } else {
                assert_eq!(n, 0);
            }
        }
    }
    let listed: usize = LDPC_NUM_ROWS.iter().map(|&r| r as usize).sum();
    assert_eq!(listed, 3 * LDPC_N);
}

/// A flipped bit fails exactly the three checks that list it.
#[test]
fn one_wrong_bit_fails_three_checks() {
    let cw = encode(&payload(7));
    for n in 0..LDPC_N {
        let mut bad = cw;
        bad[n] ^= 1;
        assert_eq!(check(&bad), 3);
    }
}

#[test]
fn zero_encodes_to_zero() {
    let cw = encode(&[0; LDPC_K_BYTES]);
    assert_eq!(cw, [0u8; LDPC_N]);
    assert_eq!(check(&cw), 0);
}

/// The code is linear: a sum of payloads encodes to the sum of their codewords.
#[test]
fn sums_encode_to_sums() {
    let (a, b) = (payload(11), payload(29));
    let mut sum = [0u8; LDPC_K_BYTES];
    for i in 0..LDPC_K_BYTES {
        sum[i] = a[i] ^ b[i];
    }
    let (x, y, z) = (encode(&a), encode(&b), encode(&sum));
    for n in 0..LDPC_N {
        assert_eq!(z[n], x[n] ^ y[n]);
        assert!(z[n] <= 1);
    }
}

/// The first 91 bits of a codeword are the payload.
#[test]
fn codewords_begin_with_the_payload() {
    let m = payload(3);
    let cw = encode(&m);
    for i in 0..91 {
        assert_eq!(cw[i], (m[i / 8] >> (7 - i % 8)) & 1);
    }
}

/// All-zeros satisfies every check but ends the decode without an answer.
#[test]
fn converging_to_zero_is_no_answer() {
    let mut d = BpDecoder::new(5);
    assert!(d.is_running());
    d.offer(&[0; LDPC_N]);
    assert!(!d.is_running());
    assert_eq!(d.outcome().1, LDPC_M);
}

#[test]
fn the_decoder_keeps_the_fewest_errors() {
    let cw = encode(&payload(1));
    let (mut one, mut many) = (cw, cw);
    one[5] ^= 1;
    for n in 0..40 {
        many[n] ^= 1;
    }
    let mut d = BpDecoder::new(3);
    d.offer(&one);
    assert_eq!(d.outcome(), (one, 3));
    assert!(d.is_running());
    d.offer(&many);
    assert_eq!(d.outcome(), (many, 3));
    assert!(d.is_running());
    d.offer(&cw);
    assert!(!d.is_running());
    assert_eq!(d.outcome(), (cw, 0));
    assert!(!BpDecoder::new(0).is_running());
}

/// No errors are counted exactly for a valid word that is not zero.
#[test]
fn zero_errors_is_success() {
    let cw = encode(&payload(2));
    let mut near = cw;
    near[90] ^= 1;
    let zero = [0u8; LDPC_N];
    for course in [
        vec![],
        vec![zero],
        vec![near],
        vec![cw],
        vec![near, cw],
        vec![near, zero],
        vec![near, near, near],
    ] {
        for max_iters in 0..4 {
            let mut d = BpDecoder::new(max_iters);
            let mut fewest = LDPC_M;
            let mut word = zero;
            for hard in &course {
                if d.is_running() {
                    d.offer(hard);
                    word = *hard;
                    if *hard != zero {
                        fewest = fewest.min(check(hard));
                    }
                }
            }
            let (plain, errors) = d.outcome();
            assert_eq!((plain, errors), (word, fewest));
            assert_eq!(errors == 0, check(&plain) == 0 && plain != zero);
            assert!(plain.iter().all(|&b| b <= 1));
        }
    }
    assert_eq!(BpDecoder::new(0).outcome(), (zero, LDPC_M));
}
