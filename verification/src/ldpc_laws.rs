//! What holds of the LDPC(174,91) code as a whole: its two check tables are
//! transposes of each other, its generator produces words that satisfy every
//! check, and one wrong bit fails three of them.

use vstd::prelude::*;
use crate::bits;
use crate::constants::{
    LDPC_K, LDPC_M, LDPC_MN, LDPC_N, LDPC_NM, LDPC_NUM_ROWS,
};
use crate::ldpc;

verus! {

/// Is parity check `m` listed for codeword bit `n`?
pub open spec fn bit_lists_check(n: int, m: int) -> bool {
    LDPC_MN[n][0] == m + 1 || LDPC_MN[n][1] == m + 1 || LDPC_MN[n][2] == m + 1
}

/// Is codeword bit `n` listed for parity check `m`?
pub open spec fn check_lists_bit(m: int, n: int) -> bool {
    exists|i: int| 0 <= i < LDPC_NUM_ROWS[m] && (#[trigger] LDPC_NM[m][i]) == n + 1
}

/// The check listed in column `j` for codeword bit `n` lists that bit.
#[verifier::spinoff_prover]
proof fn lemma_check_lists_back(n: int, j: int) -> (i: int)
    requires
        0 <= n < LDPC_N,
        0 <= j < 3,
    ensures
        1 <= LDPC_MN[n][j] <= LDPC_M,
        0 <= i < LDPC_NUM_ROWS[LDPC_MN[n][j] - 1],
        LDPC_NM[LDPC_MN[n][j] - 1][i] == n + 1,
{
    let m = LDPC_MN[n][j] - 1;
    if LDPC_NM[m][0] == n + 1 {
        0
    } else if LDPC_NM[m][1] == n + 1 {
        1
    } else if LDPC_NM[m][2] == n + 1 {
        2
    } else if LDPC_NM[m][3] == n + 1 {
        3
    } else if LDPC_NM[m][4] == n + 1 {
        4
    } else if LDPC_NM[m][5] == n + 1 {
        5
    } else {
        6
    }
}

/// The codeword bit in column `i` of a check lists that check.
#[verifier::spinoff_prover]
proof fn lemma_bit_lists_back(m: int, i: int)
    requires
        0 <= m < LDPC_M,
        0 <= i < LDPC_NUM_ROWS[m],
    ensures
        bit_lists_check(LDPC_NM[m][i] - 1, m),
{
}

/// The two tables describe the same matrix: a check lists a bit exactly where the
/// bit lists the check.
#[verifier::spinoff_prover]
pub proof fn law_tables_are_transposes(m: int, n: int)
    requires
        0 <= m < LDPC_M,
        0 <= n < LDPC_N,
    ensures
        check_lists_bit(m, n) <==> bit_lists_check(n, m),
{
    if check_lists_bit(m, n) {
        let i = choose|i: int| 0 <= i < LDPC_NUM_ROWS[m] && (#[trigger] LDPC_NM[m][i]) == n + 1;
        lemma_bit_lists_back(m, i);
    }
    if bit_lists_check(n, m) {
        let j = if LDPC_MN[n][0] == m + 1 {
            0int
        } else if LDPC_MN[n][1] == m + 1 {
            1
        } else {
            2
        };
        let i = lemma_check_lists_back(n, j);
        assert(LDPC_NM[m][i] == n + 1);
    }
}

/// The generator rows as 96-bit numbers.
const ROW_WORDS: [u128; 83] = [
    0x8329CE11_BF31EAF5_09F27FC0,
    0x761C264E_25C25933_54931320,
    0xDC265902_FB277C64_10A1BDC0,
    0x1B3F4178_58CD2DD3_3EC7F620,
    0x09FDA4FE_E04195FD_034783A0,
    0x077CCCC1_1B8873ED_5C3D48A0,
    0x29B62AFE_3CA036F4_FE1A9DA0,
    0x6054FAF5_F35D96D3_B0C8C3E0,
    0xE20798E4_310EED27_884AE900,
    0x775C9C08_E80E26DD_AE563180,
    0xB0B81102_8C2BF997_213487C0,
    0x18A0C923_1FC60ADF_5C5EA320,
    0x76471E83_02A0721E_01B12B80,
    0xFFBCCB80_CA8341FA_FB47B2E0,
    0x66A72A15_8F9325A2_BF671700,
    0xC4243689_FE85B1C5_1363A180,
    0x0DFF7394_14D1A1B3_4B1C2700,
    0x15B48830_636C8B99_894972E0,
    0x29A89C0D_3DE81D66_5489B0E0,
    0x4F126F37_FA51CBE6_1BD6B940,
    0x99C47239_D0D97D3C_84E09400,
    0x1919B751_19765621_BB4F1E80,
    0x09DB12D7_31FAEE0B_86DF6B80,
    0x488FC33D_F43FBDEE_A4EAFB40,
    0x827423EE_40B675F7_56EB5FE0,
    0xABE197C4_84CB7475_7144A9A0,
    0x2B500E4B_C0EC5A6D_2BDBDD00,
    0xC474AA53_D7021876_16693600,
    0x8EBA1A13_DB3390BD_6718CEC0,
    0x75384467_3A27782C_C42012E0,
    0x06FF83A1_45C37035_A5C12680,
    0x3B374178_58CC2DD3_3EC3F620,
    0x9A4A5A28_EE17CA9C_324842C0,
    0xBC29F465_309C977E_89610A40,
    0x2663AE6D_DF8B5CE2_BB294880,
    0x46F231EF_E457034C_18144180,
    0x3FB2CE85_ABE9B0C7_2E06FBE0,
    0xDE87481F_282C1539_71A0A2E0,
    0xFCD7CCF2_3C69FA99_BBA14120,
    0xF0261447_E9490CA8_E474CEC0,
    0x44101158_18196F95_CDD70120,
    0x088FC31D_F4BFBDE2_A4EAFB40,
    0xB8FEF1B6_307729FB_0A078C00,
    0x5AFEA7AC_CCB77BBC_9D99A900,
    0x49A7016A_C653F65E_CDC90760,
    0x1944D085_BE4E7DA8_D6CC7D00,
    0x251F62AD_C4032F0E_E7140020,
    0x56471F87_02A0721E_00B12B80,
    0x2B8E4923_F2DD51E2_D537FA00,
    0x6B550A40_A66F4755_DE95C260,
    0xA18AD28D_4E27FE92_A4F6C840,
    0x10C2E586_388CB82A_3D807580,
    0xEF34A418_17EE0213_3DB2EB00,
    0x7E9C0C54_325A9C15_836E0000,
    0x3693E572_D1FDE4CD_F079E860,
    0xBFB2CEC5_ABE1B0C7_2E07FBE0,
    0x7EE18230_C583CCCC_57D4B080,
    0xA066CB2F_EDAFC9F5_26641260,
    0xBB23725A_BC47CC5F_4CC4CD20,
    0xDED9DBA3_BEE40C59_B5609B40,
    0xD9A7016A_C653E6DE_CDC90360,
    0x9AD46AED_5F707F28_0AB5FC40,
    0xE5921C77_82258731_6D7D3C20,
    0x4F14DA82_42A8B86D_CA733520,
    0x8B8B507A_D467D444_1DF770E0,
    0x22831C9C_F1169467_AD04B680,
    0x213B838F_E2AE54C3_8EE71800,
    0x5D926B6D_D71F0851_81A4E120,
    0x66AB79D4_B29EE6E6_9509E560,
    0x95814868_2D748A38_DD68BAA0,
    0xB8CE020C_F069C32A_723AB140,
    0xF4331D6D_461607E9_57527460,
    0x6DA23BA4_24B95961_33CF9C80,
    0xA636BCBC_7B30C5FB_EAE67FE0,
    0x5CB0D86A_07DF654A_9089A200,
    0xF11F1068_48780FC9_ECDD80A0,
    0x1FBB5364_FB8D2C9D_730D5BA0,
    0xFCB86BC7_0A50C9D0_2A5D0340,
    0xA5344330_29EAC15F_322E34C0,
    0xC989D9C7_C3D3B8C5_5D751300,
    0x7BB38B2F_0186D466_43AE9620,
    0x2644EBAD_EB44B946_7D1F42C0,
    0x608CC857_594BFBB5_5D696000,
];

/// The payload bits that codeword bit `n` sums, as a 96-bit number.
spec fn word(n: int) -> u128 {
    if n < LDPC_K {
        1u128 << ((95 - n) as u128)
    } else {
        ROW_WORDS[n - LDPC_K]
    }
}

/// Bit `i` of a 96-bit number.
spec fn word_bit(w: u128, i: int) -> bool {
    (w >> ((95 - i) as u128)) & 1 == 1
}

/// The modulo-2 sum of the words of the first `k` codeword bits in check `m`.
spec fn word_sum(m: int, k: nat) -> u128
    decreases k,
{
    if k == 0 {
        0
    } else {
        word_sum(m, (k - 1) as nat) ^ word(LDPC_NM[m][k - 1] - 1)
    }
}

/// In how many of the first `n` bit positions both the message and the word have
/// a one.
spec fn selected(message: Seq<u8>, w: u128, n: nat) -> nat
    decreases n,
{
    if n == 0 {
        0
    } else {
        selected(message, w, (n - 1) as nat) + if bits::bit_at(message, n - 1) && word_bit(
            w,
            n - 1,
        ) {
            1nat
        } else {
            0
        }
    }
}

/// The words of the codeword bits in each check cancel.
#[verifier::spinoff_prover]
proof fn lemma_words_cancel()
    by (bit_vector)
    ensures
        0u128 ^ (1u128 << 92u128) ^ (1u128 << 65u128) ^ (1u128 << 37u128) ^ (1u128 << 5u128)
            ^ 0x8329CE11_BF31EAF5_09F27FC0u128 ^ 0x09FDA4FE_E04195FD_034783A0u128
            ^ 0x9AD46AED_5F707F28_0AB5FC40u128 == 0,
        0u128 ^ (1u128 << 91u128) ^ (1u128 << 64u128) ^ (1u128 << 36u128)
            ^ 0x761C264E_25C25933_54931320u128 ^ 0x488FC33D_F43FBDEE_A4EAFB40u128
            ^ 0x3693E572_D1FDE4CD_F079E860u128 == 0,
        0u128 ^ (1u128 << 90u128) ^ (1u128 << 72u128) ^ (1u128 << 35u128)
            ^ 0xDC265902_FB277C64_10A1BDC0u128 ^ 0x06FF83A1_45C37035_A5C12680u128
            ^ 0xDED9DBA3_BEE40C59_B5609B40u128 == 0,
        0u128 ^ (1u128 << 89u128) ^ (1u128 << 63u128) ^ (1u128 << 34u128)
            ^ 0x1B3F4178_58CD2DD3_3EC7F620u128 ^ 0x09FDA4FE_E04195FD_034783A0u128
            ^ 0x10C2E586_388CB82A_3D807580u128 == 0,
        0u128 ^ (1u128 << 88u128) ^ (1u128 << 71u128) ^ (1u128 << 33u128) ^ (1u128 << 13u128)
            ^ 0x761C264E_25C25933_54931320u128 ^ 0x09FDA4FE_E04195FD_034783A0u128
            ^ 0x7EE18230_C583CCCC_57D4B080u128 == 0,
        0u128 ^ (1u128 << 90u128) ^ (1u128 << 64u128) ^ (1u128 << 32u128)
            ^ 0x077CCCC1_1B8873ED_5C3D48A0u128 ^ 0x2663AE6D_DF8B5CE2_BB294880u128
            ^ 0x251F62AD_C4032F0E_E7140020u128 == 0,
        0u128 ^ (1u128 << 91u128) ^ (1u128 << 62u128) ^ (1u128 << 31u128) ^ (1u128 << 18u128)
            ^ 0x29B62AFE_3CA036F4_FE1A9DA0u128 ^ 0xC4243689_FE85B1C5_1363A180u128
            ^ 0xE5921C77_82258731_6D7D3C20u128 == 0,
        0u128 ^ (1u128 << 87u128) ^ (1u128 << 61u128) ^ (1u128 << 30u128)
            ^ 0x6054FAF5_F35D96D3_B0C8C3E0u128 ^ 0x56471F87_02A0721E_00B12B80u128
            ^ 0x3693E572_D1FDE4CD_F079E860u128 == 0,
        0u128 ^ (1u128 << 86u128) ^ (1u128 << 60u128) ^ (1u128 << 29u128)
            ^ 0xE20798E4_310EED27_884AE900u128 ^ 0xC4243689_FE85B1C5_1363A180u128
            ^ 0x2663AE6D_DF8B5CE2_BB294880u128 == 0,
        0u128 ^ (1u128 << 85u128) ^ (1u128 << 59u128) ^ (1u128 << 29u128) ^ (1u128 << 9u128)
            ^ 0x775C9C08_E80E26DD_AE563180u128 ^ 0x56471F87_02A0721E_00B12B80u128
            ^ 0x213B838F_E2AE54C3_8EE71800u128 == 0,
        0u128 ^ (1u128 << 84u128) ^ (1u128 << 58u128) ^ (1u128 << 28u128)
            ^ 0xB0B81102_8C2BF997_213487C0u128 ^ 0xFFBCCB80_CA8341FA_FB47B2E0u128
            ^ 0x4F14DA82_42A8B86D_CA733520u128 == 0,
        0u128 ^ (1u128 << 83u128) ^ (1u128 << 57u128) ^ (1u128 << 27u128)
            ^ 0x18A0C923_1FC60ADF_5C5EA320u128 ^ 0xA066CB2F_EDAFC9F5_26641260u128
            ^ 0xB8CE020C_F069C32A_723AB140u128 == 0,
        0u128 ^ (1u128 << 88u128) ^ (1u128 << 56u128) ^ (1u128 << 26u128) ^ (1u128 << 14u128)
            ^ 0x76471E83_02A0721E_01B12B80u128 ^ 0x09DB12D7_31FAEE0B_86DF6B80u128
            ^ 0x7E9C0C54_325A9C15_836E0000u128 == 0,
        0u128 ^ (1u128 << 82u128) ^ (1u128 << 55u128) ^ (1u128 << 25u128) ^ (1u128 << 8u128)
            ^ 0xB0B81102_8C2BF997_213487C0u128 ^ 0x3B374178_58CC2DD3_3EC3F620u128
            ^ 0x8B8B507A_D467D444_1DF770E0u128 == 0,
        0u128 ^ (1u128 << 81u128) ^ (1u128 << 54u128) ^ (1u128 << 37u128)
            ^ 0x66A72A15_8F9325A2_BF671700u128 ^ 0x3B374178_58CC2DD3_3EC3F620u128
            ^ 0x5D926B6D_D71F0851_81A4E120u128 == 0,
        0u128 ^ (1u128 << 95u128) ^ (1u128 << 63u128) ^ (1u128 << 24u128)
            ^ 0x66A72A15_8F9325A2_BF671700u128 ^ 0xC4243689_FE85B1C5_1363A180u128
            ^ 0x22831C9C_F1169467_AD04B680u128 == 0,
        0u128 ^ (1u128 << 80u128) ^ (1u128 << 53u128) ^ (1u128 << 23u128)
            ^ 0x0DFF7394_14D1A1B3_4B1C2700u128 ^ 0x6B550A40_A66F4755_DE95C260u128
            ^ 0x66AB79D4_B29EE6E6_9509E560u128 == 0,
        0u128 ^ (1u128 << 79u128) ^ (1u128 << 59u128) ^ (1u128 << 22u128) ^ (1u128 << 15u128)
            ^ 0x15B48830_636C8B99_894972E0u128 ^ 0xF0261447_E9490CA8_E474CEC0u128
            ^ 0xE5921C77_82258731_6D7D3C20u128 == 0,
        0u128 ^ (1u128 << 85u128) ^ (1u128 << 52u128) ^ (1u128 << 21u128)
            ^ 0x29A89C0D_3DE81D66_5489B0E0u128 ^ 0x75384467_3A27782C_C42012E0u128
            ^ 0x5CB0D86A_07DF654A_9089A200u128 == 0,
        0u128 ^ (1u128 << 51u128) ^ (1u128 << 41u128) ^ (1u128 << 32u128)
            ^ 0x4F126F37_FA51CBE6_1BD6B940u128 ^ 0xFCD7CCF2_3C69FA99_BBA14120u128
            ^ 0x95814868_2D748A38_DD68BAA0u128 ^ 0x2644EBAD_EB44B946_7D1F42C0u128 == 0,
        0u128 ^ (1u128 << 88u128) ^ (1u128 << 50u128) ^ (1u128 << 25u128)
            ^ 0x99C47239_D0D97D3C_84E09400u128 ^ 0xC474AA53_D7021876_16693600u128
            ^ 0x5CB0D86A_07DF654A_9089A200u128 == 0,
        0u128 ^ (1u128 << 78u128) ^ (1u128 << 60u128) ^ (1u128 << 20u128) ^ (1u128 << 7u128)
            ^ 0x1919B751_19765621_BB4F1E80u128 ^ 0x09DB12D7_31FAEE0B_86DF6B80u128
            ^ 0x10C2E586_388CB82A_3D807580u128 == 0,
        0u128 ^ (1u128 << 77u128) ^ (1u128 << 58u128) ^ (1u128 << 19u128)
            ^ 0x76471E83_02A0721E_01B12B80u128 ^ 0x827423EE_40B675F7_56EB5FE0u128
            ^ 0xF4331D6D_461607E9_57527460u128 == 0,
        0u128 ^ (1u128 << 76u128) ^ (1u128 << 49u128) ^ (1u128 << 26u128)
            ^ 0x8329CE11_BF31EAF5_09F27FC0u128 ^ 0x251F62AD_C4032F0E_E7140020u128
            ^ 0xA636BCBC_7B30C5FB_EAE67FE0u128 == 0,
        0u128 ^ (1u128 << 94u128) ^ (1u128 << 48u128) ^ (1u128 << 22u128)
            ^ 0x1919B751_19765621_BB4F1E80u128 ^ 0x3FB2CE85_ABE9B0C7_2E06FBE0u128
            ^ 0x66AB79D4_B29EE6E6_9509E560u128 == 0,
        0u128 ^ (1u128 << 75u128) ^ (1u128 << 51u128) ^ (1u128 << 18u128) ^ (1u128 << 13u128)
            ^ 0xABE197C4_84CB7475_7144A9A0u128 ^ 0x75384467_3A27782C_C42012E0u128
            ^ 0xDED9DBA3_BEE40C59_B5609B40u128 == 0,
        0u128 ^ (1u128 << 74u128) ^ (1u128 << 49u128) ^ (1u128 << 38u128)
            ^ 0x2B500E4B_C0EC5A6D_2BDBDD00u128 ^ 0x46F231EF_E457034C_18144180u128
            ^ 0x6DA23BA4_24B95961_33CF9C80u128 == 0,
        0u128 ^ (1u128 << 80u128) ^ (1u128 << 57u128) ^ (1u128 << 34u128)
            ^ 0x99C47239_D0D97D3C_84E09400u128 ^ 0xB8FEF1B6_307729FB_0A078C00u128
            ^ 0x213B838F_E2AE54C3_8EE71800u128 == 0,
        0u128 ^ (1u128 << 73u128) ^ (1u128 << 53u128) ^ (1u128 << 17u128)
            ^ 0x8EBA1A13_DB3390BD_6718CEC0u128 ^ 0xF0261447_E9490CA8_E474CEC0u128
            ^ 0x7E9C0C54_325A9C15_836E0000u128 == 0,
        0u128 ^ (1u128 << 77u128) ^ (1u128 << 61u128) ^ (1u128 << 37u128) ^ (1u128 << 23u128)
            ^ 0x29A89C0D_3DE81D66_5489B0E0u128 ^ 0xBC29F465_309C977E_89610A40u128
            ^ 0x95814868_2D748A38_DD68BAA0u128 == 0,
        0u128 ^ (1u128 << 76u128) ^ (1u128 << 60u128) ^ (1u128 << 33u128)
            ^ 0xDC265902_FB277C64_10A1BDC0u128 ^ 0x49A7016A_C653F65E_CDC90760u128
            ^ 0x95814868_2D748A38_DD68BAA0u128 == 0,
        0u128 ^ (1u128 << 82u128) ^ (1u128 << 65u128) ^ (1u128 << 17u128)
            ^ 0x29B62AFE_3CA036F4_FE1A9DA0u128 ^ 0x44101158_18196F95_CDD70120u128
            ^ 0x6DA23BA4_24B95961_33CF9C80u128 == 0,
        0u128 ^ (1u128 << 93u128) ^ (1u128 << 52u128) ^ (1u128 << 16u128)
            ^ 0x9A4A5A28_EE17CA9C_324842C0u128 ^ 0x46F231EF_E457034C_18144180u128
            ^ 0xFCB86BC7_0A50C9D0_2A5D0340u128 == 0,
        0u128 ^ (1u128 << 77u128) ^ (1u128 << 50u128) ^ (1u128 << 15u128)
            ^ 0xABE197C4_84CB7475_7144A9A0u128 ^ 0x5AFEA7AC_CCB77BBC_9D99A900u128
            ^ 0xF11F1068_48780FC9_ECDD80A0u128 == 0,
        0u128 ^ (1u128 << 89u128) ^ (1u128 << 47u128) ^ (1u128 << 38u128) ^ (1u128 << 6u128)
            ^ 0xE20798E4_310EED27_884AE900u128 ^ 0xFFBCCB80_CA8341FA_FB47B2E0u128
            ^ 0x1FBB5364_FB8D2C9D_730D5BA0u128 == 0,
        0u128 ^ (1u128 << 84u128) ^ (1u128 << 46u128) ^ (1u128 << 35u128)
            ^ 0x2B500E4B_C0EC5A6D_2BDBDD00u128 ^ 0xC474AA53_D7021876_16693600u128
            ^ 0xEF34A418_17EE0213_3DB2EB00u128 == 0,
        0u128 ^ (1u128 << 83u128) ^ (1u128 << 45u128) ^ (1u128 << 32u128)
            ^ 0x09DB12D7_31FAEE0B_86DF6B80u128 ^ 0x2B500E4B_C0EC5A6D_2BDBDD00u128
            ^ 0x22831C9C_F1169467_AD04B680u128 == 0,
        0u128 ^ (1u128 << 72u128) ^ (1u128 << 44u128) ^ (1u128 << 20u128)
            ^ 0xDE87481F_282C1539_71A0A2E0u128 ^ 0x7EE18230_C583CCCC_57D4B080u128
            ^ 0xA066CB2F_EDAFC9F5_26641260u128 == 0,
        0u128 ^ (1u128 << 71u128) ^ (1u128 << 43u128) ^ (1u128 << 27u128) ^ (1u128 << 6u128)
            ^ 0x775C9C08_E80E26DD_AE563180u128 ^ 0xFCD7CCF2_3C69FA99_BBA14120u128
            ^ 0x8B8B507A_D467D444_1DF770E0u128 == 0,
        0u128 ^ (1u128 << 76u128) ^ (1u128 << 50u128) ^ (1u128 << 31u128) ^ (1u128 << 16u128)
            ^ 0x8EBA1A13_DB3390BD_6718CEC0u128 ^ 0x2B8E4923_F2DD51E2_D537FA00u128
            ^ 0xA5344330_29EAC15F_322E34C0u128 == 0,
        0u128 ^ (1u128 << 75u128) ^ (1u128 << 42u128) ^ (1u128 << 19u128)
            ^ 0xE20798E4_310EED27_884AE900u128 ^ 0x2B8E4923_F2DD51E2_D537FA00u128
            ^ 0xC989D9C7_C3D3B8C5_5D751300u128 == 0,
        0u128 ^ (1u128 << 61u128) ^ (1u128 << 14u128) ^ 0x088FC31D_F4BFBDE2_A4EAFB40u128
            ^ 0xA18AD28D_4E27FE92_A4F6C840u128 ^ 0xC989D9C7_C3D3B8C5_5D751300u128
            ^ 0x608CC857_594BFBB5_5D696000u128 == 0,
        0u128 ^ (1u128 << 82u128) ^ (1u128 << 66u128) ^ (1u128 << 13u128)
            ^ 0x1919B751_19765621_BB4F1E80u128 ^ 0xBC29F465_309C977E_89610A40u128
            ^ 0xA5344330_29EAC15F_322E34C0u128 == 0,
        0u128 ^ (1u128 << 92u128) ^ (1u128 << 67u128) ^ (1u128 << 28u128)
            ^ 0x8EBA1A13_DB3390BD_6718CEC0u128 ^ 0xB8FEF1B6_307729FB_0A078C00u128
            ^ 0x2644EBAD_EB44B946_7D1F42C0u128 == 0,
        0u128 ^ (1u128 << 95u128) ^ (1u128 << 92u128) ^ (1u128 << 44u128) ^ (1u128 << 39u128)
            ^ (1u128 << 10u128) ^ 0x49A7016A_C653F65E_CDC90760u128
            ^ 0xD9A7016A_C653E6DE_CDC90360u128 == 0,
        0u128 ^ (1u128 << 70u128) ^ (1u128 << 45u128) ^ (1u128 << 40u128) ^ (1u128 << 5u128)
            ^ 0x06FF83A1_45C37035_A5C12680u128 ^ 0x1944D085_BE4E7DA8_D6CC7D00u128
            ^ 0x1FBB5364_FB8D2C9D_730D5BA0u128 == 0,
        0u128 ^ (1u128 << 44u128) ^ (1u128 << 12u128) ^ 0x29A89C0D_3DE81D66_5489B0E0u128
            ^ 0x488FC33D_F43FBDEE_A4EAFB40u128 ^ 0x7E9C0C54_325A9C15_836E0000u128
            ^ 0x1FBB5364_FB8D2C9D_730D5BA0u128 == 0,
        0u128 ^ (1u128 << 89u128) ^ (1u128 << 46u128) ^ (1u128 << 15u128)
            ^ 0x6054FAF5_F35D96D3_B0C8C3E0u128 ^ 0x44101158_18196F95_CDD70120u128
            ^ 0x2644EBAD_EB44B946_7D1F42C0u128 == 0,
        0u128 ^ (1u128 << 73u128) ^ (1u128 << 41u128) ^ (1u128 << 29u128)
            ^ 0x1B3F4178_58CD2DD3_3EC7F620u128 ^ 0x7BB38B2F_0186D466_43AE9620u128
            ^ 0x608CC857_594BFBB5_5D696000u128 == 0,
        0u128 ^ (1u128 << 70u128) ^ (1u128 << 55u128) ^ (1u128 << 19u128)
            ^ 0x15B48830_636C8B99_894972E0u128 ^ 0x6B550A40_A66F4755_DE95C260u128
            ^ 0x7EE18230_C583CCCC_57D4B080u128 == 0,
        0u128 ^ (1u128 << 94u128) ^ (1u128 << 69u128) ^ (1u128 << 55u128) ^ (1u128 << 35u128)
            ^ (1u128 << 34u128) ^ 0x488FC33D_F43FBDEE_A4EAFB40u128
            ^ 0x088FC31D_F4BFBDE2_A4EAFB40u128 == 0,
        0u128 ^ (1u128 << 69u128) ^ (1u128 << 56u128) ^ (1u128 << 40u128)
            ^ 0x9A4A5A28_EE17CA9C_324842C0u128 ^ 0xBC29F465_309C977E_89610A40u128
            ^ 0x2663AE6D_DF8B5CE2_BB294880u128 == 0,
        0u128 ^ (1u128 << 78u128) ^ (1u128 << 47u128) ^ (1u128 << 41u128)
            ^ 0x9A4A5A28_EE17CA9C_324842C0u128 ^ 0x6B550A40_A66F4755_DE95C260u128
            ^ 0xF11F1068_48780FC9_ECDD80A0u128 == 0,
        0u128 ^ (1u128 << 90u128) ^ (1u128 << 63u128) ^ (1u128 << 11u128)
            ^ 0x0DFF7394_14D1A1B3_4B1C2700u128 ^ 0x827423EE_40B675F7_56EB5FE0u128
            ^ 0x8B8B507A_D467D444_1DF770E0u128 == 0,
        0u128 ^ (1u128 << 68u128) ^ (1u128 << 48u128) ^ (1u128 << 26u128) ^ (1u128 << 11u128)
            ^ 0xFFBCCB80_CA8341FA_FB47B2E0u128 ^ 0xDE87481F_282C1539_71A0A2E0u128
            ^ 0x213B838F_E2AE54C3_8EE71800u128 == 0,
        0u128 ^ (1u128 << 87u128) ^ (1u128 << 42u128) ^ (1u128 << 33u128)
            ^ 0xF0261447_E9490CA8_E474CEC0u128 ^ 0xBFB2CEC5_ABE1B0C7_2E07FBE0u128
            ^ 0x4F14DA82_42A8B86D_CA733520u128 == 0,
        0u128 ^ (1u128 << 74u128) ^ (1u128 << 43u128) ^ (1u128 << 28u128)
            ^ 0x15B48830_636C8B99_894972E0u128 ^ 0x75384467_3A27782C_C42012E0u128
            ^ 0x608CC857_594BFBB5_5D696000u128 == 0,
        0u128 ^ (1u128 << 93u128) ^ (1u128 << 83u128) ^ (1u128 << 48u128) ^ (1u128 << 18u128)
            ^ 0x1B3F4178_58CD2DD3_3EC7F620u128 ^ 0x3B374178_58CC2DD3_3EC3F620u128 == 0,
        0u128 ^ (1u128 << 65u128) ^ (1u128 << 27u128) ^ 0x088FC31D_F4BFBDE2_A4EAFB40u128
            ^ 0xBB23725A_BC47CC5F_4CC4CD20u128 ^ 0x4F14DA82_42A8B86D_CA733520u128
            ^ 0xFCB86BC7_0A50C9D0_2A5D0340u128 == 0,
        0u128 ^ (1u128 << 84u128) ^ (1u128 << 53u128) ^ (1u128 << 30u128) ^ (1u128 << 7u128)
            ^ 0x077CCCC1_1B8873ED_5C3D48A0u128 ^ 0x5AFEA7AC_CCB77BBC_9D99A900u128
            ^ 0x5D926B6D_D71F0851_81A4E120u128 == 0,
        0u128 ^ (1u128 << 91u128) ^ (1u128 << 57u128) ^ (1u128 << 21u128)
            ^ 0xB0B81102_8C2BF997_213487C0u128 ^ 0x49A7016A_C653F65E_CDC90760u128
            ^ 0xF11F1068_48780FC9_ECDD80A0u128 == 0,
        0u128 ^ (1u128 << 94u128) ^ (1u128 << 42u128) ^ (1u128 << 10u128)
            ^ 0x775C9C08_E80E26DD_AE563180u128 ^ 0x5AFEA7AC_CCB77BBC_9D99A900u128
            ^ 0x6DA23BA4_24B95961_33CF9C80u128 == 0,
        0u128 ^ (1u128 << 81u128) ^ (1u128 << 40u128) ^ (1u128 << 9u128)
            ^ 0x0DFF7394_14D1A1B3_4B1C2700u128 ^ 0xC474AA53_D7021876_16693600u128
            ^ 0xC989D9C7_C3D3B8C5_5D751300u128 == 0,
        0u128 ^ (1u128 << 86u128) ^ (1u128 << 52u128) ^ (1u128 << 14u128) ^ (1u128 << 5u128)
            ^ 0x4F126F37_FA51CBE6_1BD6B940u128 ^ 0xEF34A418_17EE0213_3DB2EB00u128
            ^ 0xA066CB2F_EDAFC9F5_26641260u128 == 0,
        0u128 ^ (1u128 << 73u128) ^ (1u128 << 62u128) ^ (1u128 << 25u128)
            ^ 0xDC265902_FB277C64_10A1BDC0u128 ^ 0x46F231EF_E457034C_18144180u128
            ^ 0x9AD46AED_5F707F28_0AB5FC40u128 == 0,
        0u128 ^ (1u128 << 85u128) ^ (1u128 << 47u128) ^ (1u128 << 8u128)
            ^ 0x8329CE11_BF31EAF5_09F27FC0u128 ^ 0xA18AD28D_4E27FE92_A4F6C840u128
            ^ 0x22831C9C_F1169467_AD04B680u128 == 0,
        0u128 ^ (1u128 << 67u128) ^ (1u128 << 62u128) ^ (1u128 << 9u128)
            ^ 0x077CCCC1_1B8873ED_5C3D48A0u128 ^ 0xBFB2CEC5_ABE1B0C7_2E07FBE0u128
            ^ 0xB8CE020C_F069C32A_723AB140u128 == 0,
        0u128 ^ (1u128 << 66u128) ^ (1u128 << 46u128) ^ (1u128 << 36u128) ^ (1u128 << 10u128)
            ^ 0x1944D085_BE4E7DA8_D6CC7D00u128 ^ 0xA18AD28D_4E27FE92_A4F6C840u128
            ^ 0xB8CE020C_F069C32A_723AB140u128 == 0,
        0u128 ^ (1u128 << 86u128) ^ (1u128 << 43u128) ^ (1u128 << 30u128) ^ (1u128 << 12u128)
            ^ 0x99C47239_D0D97D3C_84E09400u128 ^ 0x3FB2CE85_ABE9B0C7_2E06FBE0u128
            ^ 0xA636BCBC_7B30C5FB_EAE67FE0u128 == 0,
        0u128 ^ (1u128 << 74u128) ^ (1u128 << 39u128) ^ (1u128 << 11u128)
            ^ 0x761C264E_25C25933_54931320u128 ^ 0x2B8E4923_F2DD51E2_D537FA00u128
            ^ 0x5D926B6D_D71F0851_81A4E120u128 == 0,
        0u128 ^ (1u128 << 68u128) ^ (1u128 << 64u128) ^ (1u128 << 24u128)
            ^ 0x18A0C923_1FC60ADF_5C5EA320u128 ^ 0x44101158_18196F95_CDD70120u128
            ^ 0x5CB0D86A_07DF654A_9089A200u128 == 0,
        0u128 ^ (1u128 << 68u128) ^ (1u128 << 67u128) ^ (1u128 << 12u128) ^ (1u128 << 8u128)
            ^ 0xABE197C4_84CB7475_7144A9A0u128 ^ 0x10C2E586_388CB82A_3D807580u128
            ^ 0xBB23725A_BC47CC5F_4CC4CD20u128 == 0,
        0u128 ^ (1u128 << 95u128) ^ (1u128 << 70u128) ^ (1u128 << 51u128) ^ (1u128 << 16u128)
            ^ 0x3FB2CE85_ABE9B0C7_2E06FBE0u128 ^ 0xBFB2CEC5_ABE1B0C7_2E07FBE0u128 == 0,
        0u128 ^ (1u128 << 79u128) ^ (1u128 << 69u128) ^ (1u128 << 7u128)
            ^ 0x18A0C923_1FC60ADF_5C5EA320u128 ^ 0x827423EE_40B675F7_56EB5FE0u128
            ^ 0x9AD46AED_5F707F28_0AB5FC40u128 == 0,
        0u128 ^ (1u128 << 45u128) ^ (1u128 << 39u128) ^ 0x29B62AFE_3CA036F4_FE1A9DA0u128
            ^ 0xF4331D6D_461607E9_57527460u128 ^ 0xA636BCBC_7B30C5FB_EAE67FE0u128
            ^ 0x7BB38B2F_0186D466_43AE9620u128 == 0,
        0u128 ^ (1u128 << 75u128) ^ (1u128 << 59u128) ^ (1u128 << 23u128)
            ^ 0x251F62AD_C4032F0E_E7140020u128 ^ 0xD9A7016A_C653E6DE_CDC90360u128
            ^ 0xFCB86BC7_0A50C9D0_2A5D0340u128 == 0,
        0u128 ^ (1u128 << 80u128) ^ (1u128 << 49u128) ^ (1u128 << 20u128)
            ^ 0xFCD7CCF2_3C69FA99_BBA14120u128 ^ 0x1944D085_BE4E7DA8_D6CC7D00u128
            ^ 0xE5921C77_82258731_6D7D3C20u128 == 0,
        0u128 ^ (1u128 << 93u128) ^ (1u128 << 72u128) ^ (1u128 << 66u128) ^ (1u128 << 24u128)
            ^ 0x76471E83_02A0721E_01B12B80u128 ^ 0x56471F87_02A0721E_00B12B80u128 == 0,
        0u128 ^ (1u128 << 87u128) ^ (1u128 << 56u128) ^ (1u128 << 6u128)
            ^ 0x66A72A15_8F9325A2_BF671700u128 ^ 0xB8FEF1B6_307729FB_0A078C00u128
            ^ 0xDED9DBA3_BEE40C59_B5609B40u128 == 0,
        0u128 ^ (1u128 << 81u128) ^ (1u128 << 38u128) ^ (1u128 << 36u128) ^ (1u128 << 22u128)
            ^ 0x4F126F37_FA51CBE6_1BD6B940u128 ^ 0xBB23725A_BC47CC5F_4CC4CD20u128
            ^ 0xF4331D6D_461607E9_57527460u128 == 0,
        0u128 ^ (1u128 << 78u128) ^ (1u128 << 54u128) ^ (1u128 << 17u128)
            ^ 0xEF34A418_17EE0213_3DB2EB00u128 ^ 0x3693E572_D1FDE4CD_F079E860u128
            ^ 0xD9A7016A_C653E6DE_CDC90360u128 == 0,
        0u128 ^ (1u128 << 71u128) ^ (1u128 << 58u128) ^ (1u128 << 31u128)
            ^ 0x6054FAF5_F35D96D3_B0C8C3E0u128 ^ 0x06FF83A1_45C37035_A5C12680u128
            ^ 0x66AB79D4_B29EE6E6_9509E560u128 == 0,
        0u128 ^ (1u128 << 79u128) ^ (1u128 << 54u128) ^ (1u128 << 21u128)
            ^ 0xDE87481F_282C1539_71A0A2E0u128 ^ 0xA5344330_29EAC15F_322E34C0u128
            ^ 0x7BB38B2F_0186D466_43AE9620u128 == 0,
{
}

/// The words of the codeword bits in check `m` cancel.
#[verifier::spinoff_prover]
proof fn lemma_check_cancels(m: int)
    requires
        0 <= m < LDPC_M,
    ensures
        word_sum(m, LDPC_NUM_ROWS[m] as nat) == 0,
{
    lemma_words_cancel();
    reveal_with_fuel(word_sum, 8);
}

/// Each row word is the number that its generator row spells.
#[verifier::spinoff_prover]
proof fn lemma_row_word(i: int)
    requires
        0 <= i < LDPC_M,
    ensures
        bits::value12(ldpc::generator_row(i)) == ROW_WORDS[i],
        ldpc::generator_row(i).len() == 12,
{
    reveal(ldpc::generator_row);
}

/// Bit `i` of twelve bytes is bit `i` of the number they spell.
#[verifier::spinoff_prover]
proof fn lemma_bit_of_value(s: Seq<u8>, w: u128, i: int)
    requires
        s.len() == 12,
        bits::value12(s) == w,
        0 <= i < 96,
    ensures
        bits::bit_at(s, i) == word_bit(w, i),
{
    let (b0, b1, b2, b3, b4, b5) = (s[0], s[1], s[2], s[3], s[4], s[5]);
    let (b6, b7, b8, b9, b10, b11) = (s[6], s[7], s[8], s[9], s[10], s[11]);
    assert(w >> 88 == b0 && (w >> 80) & 0xFF == b1 && (w >> 72) & 0xFF == b2 && (w >> 64) & 0xFF
        == b3 && (w >> 56) & 0xFF == b4 && (w >> 48) & 0xFF == b5 && (w >> 40) & 0xFF == b6 && (w
        >> 32) & 0xFF == b7 && (w >> 24) & 0xFF == b8 && (w >> 16) & 0xFF == b9 && (w >> 8) & 0xFF
        == b10 && w & 0xFF == b11) by (bit_vector)
        requires
            w == ((((((((((b0 * 256 + b1) * 256 + b2) * 256 + b3) * 256 + b4) * 256 + b5) * 256
                + b6) * 256 + b7) * 256 + b8) * 256 + b9) * 256 + b10) * 256 + b11,
    ;
    let b = s[i / 8];
    let x = (88 - 8 * (i / 8)) as u128;
    let y = (7 - i % 8) as u8;
    assert((w >> x) & 0xFF == b) by {
        assert(w & 0xFF == (w >> 0) & 0xFF && (w >> 88) & 0xFF == b0) by (bit_vector)
            requires
                w >> 88 == b0,
        ;
    }
    let z = (95 - i) as u128;
    assert(((b >> y) & 1 == 1) == ((w >> z) & 1 == 1)) by (bit_vector)
        requires
            (w >> x) & 0xFF == b,
            x <= 88,
            y < 8,
            z == x + y,
    ;
}

/// What a sum of two words selects, modulo 2, is the sum of what each selects.
#[verifier::spinoff_prover]
proof fn lemma_selected_is_linear(message: Seq<u8>, a: u128, b: u128, n: nat)
    requires
        n <= 96,
    ensures
        selected(message, a ^ b, n) % 2 == (selected(message, a, n) + selected(message, b, n)) % 2,
    decreases n,
{
    if n > 0 {
        lemma_selected_is_linear(message, a, b, (n - 1) as nat);
        let z = (95 - (n - 1)) as u128;
        assert((((a ^ b) >> z) & 1 == 1) == (((a >> z) & 1 == 1) != ((b >> z) & 1 == 1)))
            by (bit_vector);
    }
}

/// Nothing is selected by the zero word.
#[verifier::spinoff_prover]
proof fn lemma_zero_selects_nothing(message: Seq<u8>, n: nat)
    requires
        n <= 96,
    ensures
        selected(message, 0, n) == 0,
    decreases n,
{
    if n > 0 {
        lemma_zero_selects_nothing(message, (n - 1) as nat);
        let z = (95 - (n - 1)) as u128;
        assert((0u128 >> z) & 1 == 0) by (bit_vector);
    }
}

/// The word of a payload bit selects that bit alone.
#[verifier::spinoff_prover]
proof fn lemma_unit_selects(message: Seq<u8>, k: int, n: nat)
    requires
        0 <= k < LDPC_K,
        n <= 96,
    ensures
        selected(message, word(k), n) == if k < n && bits::bit_at(message, k) {
            1nat
        } else {
            0
        },
    decreases n,
{
    if n > 0 {
        lemma_unit_selects(message, k, (n - 1) as nat);
        let x = (95 - k) as u128;
        let z = (95 - (n - 1)) as u128;
        assert((((1u128 << x) >> z) & 1 == 1) == (x == z)) by (bit_vector)
            requires
                x < 96,
                z < 96,
        ;
    }
}

/// A generator row and its word select the same bits.
#[verifier::spinoff_prover]
proof fn lemma_row_selects(message: Seq<u8>, i: int, n: nat)
    requires
        0 <= i < LDPC_M,
        n <= 96,
    ensures
        selected(message, ROW_WORDS[i], n) == ldpc::overlap(message, ldpc::generator_row(i), n),
    decreases n,
{
    if n > 0 {
        lemma_row_selects(message, i, (n - 1) as nat);
        lemma_row_word(i);
        lemma_bit_of_value(ldpc::generator_row(i), ROW_WORDS[i], n - 1);
    }
}

/// A codeword bit is the sum modulo 2 of the payload bits that its word selects.
#[verifier::spinoff_prover]
proof fn lemma_code_bit(message: Seq<u8>, n: int)
    requires
        0 <= n < LDPC_N,
    ensures
        ldpc::code_bit(message, n) == selected(message, word(n), 96) % 2,
{
    if n < LDPC_K {
        lemma_unit_selects(message, n, 96);
    } else {
        lemma_row_selects(message, n - LDPC_K, 96);
    }
}

/// The sum of a check over a codeword is what the sum of its words selects.
#[verifier::spinoff_prover]
proof fn lemma_check_sum(message: Seq<u8>, m: int, k: nat)
    requires
        0 <= m < LDPC_M,
        k <= LDPC_NUM_ROWS[m],
    ensures
        ldpc::check_sum(ldpc::codeword(message), m, k) == selected(message, word_sum(m, k), 96) % 2,
    decreases k,
{
    if k == 0 {
        lemma_zero_selects_nothing(message, 96);
    } else {
        lemma_check_sum(message, m, (k - 1) as nat);
        ldpc::law_rows_are_padded(m);
        let n = LDPC_NM[m][k - 1] - 1;
        lemma_code_bit(message, n);
        lemma_selected_is_linear(message, word_sum(m, (k - 1) as nat), word(n), 96);
        let x = ldpc::check_sum(ldpc::codeword(message), m, (k - 1) as nat);
        let y = ldpc::code_bit(message, n);
        bits::lemma_add_bits(x, y);
    }
}

/// No check fails among the first `m` of an encoded payload.
#[verifier::spinoff_prover]
proof fn lemma_no_failures(message: Seq<u8>, m: nat)
    requires
        m <= LDPC_M,
    ensures
        ldpc::failures(ldpc::codeword(message), m) == 0,
    decreases m,
{
    if m > 0 {
        lemma_no_failures(message, (m - 1) as nat);
        lemma_check_sum(message, m - 1, LDPC_NUM_ROWS[m - 1] as nat);
        lemma_check_cancels(m - 1);
        reveal(ldpc::satisfies);
        lemma_zero_selects_nothing(message, 96);
    }
}

/// Every encoded payload is a valid codeword: it satisfies all 83 parity checks.
pub proof fn law_encoded_is_valid(message: Seq<u8>)
    ensures
        ldpc::failures(ldpc::codeword(message), LDPC_M as nat) == 0,
{
    lemma_no_failures(message, LDPC_M as nat);
}

/// A row of the check matrix lists its bits in ascending order.
#[verifier::spinoff_prover]
proof fn lemma_rows_ascend(m: int, i: int)
    requires
        0 <= m < LDPC_M,
        0 <= i,
        i + 1 < LDPC_NUM_ROWS[m],
    ensures
        LDPC_NM[m][i] < LDPC_NM[m][i + 1],
{
}

/// What is listed before another bit of a row is below it.
#[verifier::spinoff_prover]
proof fn lemma_rows_ascend_all(m: int, i: int, j: int)
    requires
        0 <= m < LDPC_M,
        0 <= i < j < LDPC_NUM_ROWS[m],
    ensures
        LDPC_NM[m][i] < LDPC_NM[m][j],
    decreases j,
{
    lemma_rows_ascend(m, j - 1);
    if i < j - 1 {
        lemma_rows_ascend_all(m, i, j - 1);
    }
}

/// A codeword bit is listed for three different checks.
#[verifier::spinoff_prover]
proof fn lemma_three_checks(n: int)
    requires
        0 <= n < LDPC_N,
    ensures
        LDPC_MN[n][0] != LDPC_MN[n][1],
        LDPC_MN[n][0] != LDPC_MN[n][2],
        LDPC_MN[n][1] != LDPC_MN[n][2],
        1 <= LDPC_MN[n][0] <= LDPC_M,
        1 <= LDPC_MN[n][1] <= LDPC_M,
        1 <= LDPC_MN[n][2] <= LDPC_M,
{
}

/// Is codeword bit `n` among the first `k` of check `m`?
spec fn lists_early(m: int, n: int, k: nat) -> bool {
    exists|i: int| 0 <= i < k && (#[trigger] LDPC_NM[m][i]) == n + 1
}

/// A word with bit `n` the other way round.
pub open spec fn with_wrong_bit(word: Seq<u8>, n: int) -> Seq<u8> {
    word.update(n, word[n] ^ 1)
}

/// Sums do not depend on the order of what is added.
#[verifier::spinoff_prover]
proof fn lemma_add_any_order(s: u8, x: u8, f: u8)
    ensures
        (s ^ f) ^ x == (s ^ x) ^ f,
        s ^ (x ^ f) == (s ^ x) ^ f,
        s ^ 0 == s,
{
    assert((s ^ f) ^ x == (s ^ x) ^ f && s ^ (x ^ f) == (s ^ x) ^ f && s ^ 0 == s) by (bit_vector);
}

/// A wrong bit turns the sum of a check that has come to it.
#[verifier::spinoff_prover]
proof fn lemma_wrong_bit_turns_sum(word: Seq<u8>, m: int, n: int, k: nat)
    requires
        word.len() == LDPC_N,
        0 <= m < LDPC_M,
        0 <= n < LDPC_N,
        k <= LDPC_NUM_ROWS[m],
    ensures
        ldpc::check_sum(with_wrong_bit(word, n), m, k) == ldpc::check_sum(word, m, k) ^ (
        if lists_early(m, n, k) {
            1u8
        } else {
            0
        }),
    decreases k,
{
    if k == 0 {
        lemma_add_any_order(0, 0, 0);
    } else {
        lemma_wrong_bit_turns_sum(word, m, n, (k - 1) as nat);
        ldpc::law_rows_are_padded(m);
        let e = LDPC_NM[m][k - 1] - 1;
        let s = ldpc::check_sum(word, m, (k - 1) as nat);
        let early: u8 = if lists_early(m, n, (k - 1) as nat) { 1 } else { 0 };
        lemma_add_any_order(s, word[e], early);
        lemma_add_any_order(s, word[e], 1);
        lemma_add_any_order(s, word[e], 0);
        lemma_add_any_order(s ^ word[e], 0, 0);
        lemma_add_any_order(s, 0, 0);
        if e == n {
            if lists_early(m, n, (k - 1) as nat) {
                let i = choose|i: int| 0 <= i < k - 1 && (#[trigger] LDPC_NM[m][i]) == n + 1;
                lemma_rows_ascend_all(m, i, k - 1);
            }
            assert(LDPC_NM[m][k - 1] == n + 1);
            assert(lists_early(m, n, k));
        } else {
            assert(with_wrong_bit(word, n)[e] == word[e]);
            if lists_early(m, n, (k - 1) as nat) {
                let i = choose|i: int| 0 <= i < k - 1 && (#[trigger] LDPC_NM[m][i]) == n + 1;
                assert(LDPC_NM[m][i] == n + 1);
                assert(lists_early(m, n, k));
            } else if lists_early(m, n, k) {
                let i = choose|i: int| 0 <= i < k && (#[trigger] LDPC_NM[m][i]) == n + 1;
                assert(i == k - 1);
            }
        }
    }
}

/// A check that was satisfied fails with a wrong bit exactly if it lists that bit.
#[verifier::spinoff_prover]
proof fn lemma_wrong_bit_fails_check(word: Seq<u8>, m: int, n: int)
    requires
        word.len() == LDPC_N,
        ldpc::satisfies(word, m),
        0 <= m < LDPC_M,
        0 <= n < LDPC_N,
    ensures
        ldpc::satisfies(with_wrong_bit(word, n), m) <==> !bit_lists_check(n, m),
{
    reveal(ldpc::satisfies);
    let rows = LDPC_NUM_ROWS[m] as nat;
    lemma_wrong_bit_turns_sum(word, m, n, rows);
    law_tables_are_transposes(m, n);
    assert(lists_early(m, n, rows) == check_lists_bit(m, n));
    bits::lemma_add_bits(0, 1);
    bits::lemma_add_bits(0, 0);
}

/// How many of the first `m` checks list codeword bit `n`.
spec fn checks_before(n: int, m: nat) -> nat {
    let one = |j: int| if LDPC_MN[n][j] <= m { 1nat } else { 0 };
    one(0) + one(1) + one(2)
}

/// The checks that fail with a wrong bit are those that list it.
#[verifier::spinoff_prover]
proof fn lemma_wrong_bit_failures(word: Seq<u8>, n: int, m: nat)
    requires
        word.len() == LDPC_N,
        0 <= n < LDPC_N,
        m <= LDPC_M,
        ldpc::failures(word, m) == 0,
    ensures
        ldpc::failures(with_wrong_bit(word, n), m) == checks_before(n, m),
    decreases m,
{
    lemma_three_checks(n);
    if m > 0 {
        lemma_wrong_bit_failures(word, n, (m - 1) as nat);
        lemma_wrong_bit_fails_check(word, m - 1, n);
    }
}

/// Every codeword bit takes part in exactly three checks: a valid word with one
/// wrong bit fails three of them.
pub proof fn law_wrong_bit_fails_three_checks(word: Seq<u8>, n: int)
    requires
        word.len() == LDPC_N,
        ldpc::failures(word, LDPC_M as nat) == 0,
        0 <= n < LDPC_N,
    ensures
        ldpc::failures(with_wrong_bit(word, n), LDPC_M as nat) == 3,
{
    lemma_wrong_bit_failures(word, n, LDPC_M as nat);
    lemma_three_checks(n);
}

/// An encoded payload fails no check, and with any one bit wrong it fails three.
pub proof fn law_encoded_with_wrong_bit(message: Seq<u8>, n: int)
    requires
        0 <= n < LDPC_N,
    ensures
        ldpc::failures(ldpc::codeword(message), LDPC_M as nat) == 0,
        ldpc::failures(with_wrong_bit(ldpc::codeword(message), n), LDPC_M as nat) == 3,
{
    law_encoded_is_valid(message);
    law_wrong_bit_fails_three_checks(ldpc::codeword(message), n);
}

} // verus!
