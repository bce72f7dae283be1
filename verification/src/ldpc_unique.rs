//! The LDPC(174,91) code is systematic: a word that satisfies every check is
//! determined by its payload bits.

use vstd::prelude::*;
use crate::bits;
use crate::constants::{LDPC_K, LDPC_M, LDPC_N, LDPC_NM, LDPC_NUM_ROWS};
use crate::crc;
use crate::decode::Protocol;
use crate::ldpc;
use crate::ldpc_laws;
use crate::recover;
use crate::tones;

verus! {

/// The sum of two words, bit by bit.
spec fn added(a: Seq<u8>, b: Seq<u8>) -> Seq<u8> {
    Seq::new(LDPC_N as nat, |n: int| a[n] ^ b[n])
}

/// Parity bits that satisfy every check over payload bits of zero are zero.
#[verifier::spinoff_prover]
proof fn lemma_only_zero(
    b91: u8,
    b92: u8,
    b93: u8,
    b94: u8,
    b95: u8,
    b96: u8,
    b97: u8,
    b98: u8,
    b99: u8,
    b100: u8,
    b101: u8,
    b102: u8,
    b103: u8,
    b104: u8,
    b105: u8,
    b106: u8,
    b107: u8,
    b108: u8,
    b109: u8,
    b110: u8,
    b111: u8,
    b112: u8,
    b113: u8,
    b114: u8,
    b115: u8,
    b116: u8,
    b117: u8,
    b118: u8,
    b119: u8,
    b120: u8,
    b121: u8,
    b122: u8,
    b123: u8,
    b124: u8,
    b125: u8,
    b126: u8,
    b127: u8,
    b128: u8,
    b129: u8,
    b130: u8,
    b131: u8,
    b132: u8,
    b133: u8,
    b134: u8,
    b135: u8,
    b136: u8,
    b137: u8,
    b138: u8,
    b139: u8,
    b140: u8,
    b141: u8,
    b142: u8,
    b143: u8,
    b144: u8,
    b145: u8,
    b146: u8,
    b147: u8,
    b148: u8,
    b149: u8,
    b150: u8,
    b151: u8,
    b152: u8,
    b153: u8,
    b154: u8,
    b155: u8,
    b156: u8,
    b157: u8,
    b158: u8,
    b159: u8,
    b160: u8,
    b161: u8,
    b162: u8,
    b163: u8,
    b164: u8,
    b165: u8,
    b166: u8,
    b167: u8,
    b168: u8,
    b169: u8,
    b170: u8,
    b171: u8,
    b172: u8,
    b173: u8,
)
    by (bit_vector)
    requires
        b91 <= 1,
        b92 <= 1,
        b93 <= 1,
        b94 <= 1,
        b95 <= 1,
        b96 <= 1,
        b97 <= 1,
        b98 <= 1,
        b99 <= 1,
        b100 <= 1,
        b101 <= 1,
        b102 <= 1,
        b103 <= 1,
        b104 <= 1,
        b105 <= 1,
        b106 <= 1,
        b107 <= 1,
        b108 <= 1,
        b109 <= 1,
        b110 <= 1,
        b111 <= 1,
        b112 <= 1,
        b113 <= 1,
        b114 <= 1,
        b115 <= 1,
        b116 <= 1,
        b117 <= 1,
        b118 <= 1,
        b119 <= 1,
        b120 <= 1,
        b121 <= 1,
        b122 <= 1,
        b123 <= 1,
        b124 <= 1,
        b125 <= 1,
        b126 <= 1,
        b127 <= 1,
        b128 <= 1,
        b129 <= 1,
        b130 <= 1,
        b131 <= 1,
        b132 <= 1,
        b133 <= 1,
        b134 <= 1,
        b135 <= 1,
        b136 <= 1,
        b137 <= 1,
        b138 <= 1,
        b139 <= 1,
        b140 <= 1,
        b141 <= 1,
        b142 <= 1,
        b143 <= 1,
        b144 <= 1,
        b145 <= 1,
        b146 <= 1,
        b147 <= 1,
        b148 <= 1,
        b149 <= 1,
        b150 <= 1,
        b151 <= 1,
        b152 <= 1,
        b153 <= 1,
        b154 <= 1,
        b155 <= 1,
        b156 <= 1,
        b157 <= 1,
        b158 <= 1,
        b159 <= 1,
        b160 <= 1,
        b161 <= 1,
        b162 <= 1,
        b163 <= 1,
        b164 <= 1,
        b165 <= 1,
        b166 <= 1,
        b167 <= 1,
        b168 <= 1,
        b169 <= 1,
        b170 <= 1,
        b171 <= 1,
        b172 <= 1,
        b173 <= 1,
        (b91 ^ b95) ^ b152 == 0,
        (b92 ^ b114) ^ b145 == 0,
        (b93 ^ b121) ^ b150 == 0,
        (b94 ^ b95) ^ b142 == 0,
        (b92 ^ b95) ^ b147 == 0,
        (b96 ^ b125) ^ b137 == 0,
        (b97 ^ b106) ^ b153 == 0,
        (b98 ^ b138) ^ b145 == 0,
        (b99 ^ b106) ^ b125 == 0,
        (b100 ^ b138) ^ b157 == 0,
        (b101 ^ b104) ^ b154 == 0,
        (b102 ^ b148) ^ b161 == 0,
        (b103 ^ b113) ^ b144 == 0,
        (b101 ^ b122) ^ b155 == 0,
        (b105 ^ b122) ^ b158 == 0,
        (b105 ^ b106) ^ b156 == 0,
        (b107 ^ b140) ^ b159 == 0,
        (b108 ^ b130) ^ b153 == 0,
        (b109 ^ b120) ^ b165 == 0,
        ((b110 ^ b129) ^ b160) ^ b172 == 0,
        (b111 ^ b118) ^ b165 == 0,
        (b112 ^ b113) ^ b142 == 0,
        (b103 ^ b115) ^ b162 == 0,
        (b91 ^ b137) ^ b164 == 0,
        (b112 ^ b127) ^ b159 == 0,
        (b116 ^ b120) ^ b150 == 0,
        (b117 ^ b126) ^ b163 == 0,
        (b111 ^ b133) ^ b157 == 0,
        (b119 ^ b130) ^ b144 == 0,
        (b109 ^ b124) ^ b160 == 0,
        (b93 ^ b135) ^ b160 == 0,
        (b97 ^ b131) ^ b163 == 0,
        (b123 ^ b126) ^ b168 == 0,
        (b116 ^ b134) ^ b166 == 0,
        (b99 ^ b104) ^ b167 == 0,
        (b117 ^ b118) ^ b143 == 0,
        (b113 ^ b117) ^ b156 == 0,
        (b128 ^ b147) ^ b148 == 0,
        (b100 ^ b129) ^ b155 == 0,
        (b119 ^ b139) ^ b169 == 0,
        (b99 ^ b139) ^ b170 == 0,
        ((b132 ^ b141) ^ b170) ^ b173 == 0,
        (b112 ^ b124) ^ b169 == 0,
        (b119 ^ b133) ^ b172 == 0,
        b135 ^ b151 == 0,
        (b121 ^ b136) ^ b167 == 0,
        ((b109 ^ b114) ^ b144) ^ b167 == 0,
        (b98 ^ b131) ^ b172 == 0,
        (b94 ^ b171) ^ b173 == 0,
        (b108 ^ b140) ^ b147 == 0,
        b114 ^ b132 == 0,
        (b123 ^ b124) ^ b125 == 0,
        (b123 ^ b140) ^ b166 == 0,
        (b107 ^ b115) ^ b155 == 0,
        (b104 ^ b128) ^ b157 == 0,
        (b130 ^ b146) ^ b154 == 0,
        (b108 ^ b120) ^ b173 == 0,
        b94 ^ b122 == 0,
        ((b132 ^ b149) ^ b154) ^ b168 == 0,
        (b96 ^ b134) ^ b158 == 0,
        (b101 ^ b135) ^ b166 == 0,
        (b100 ^ b134) ^ b163 == 0,
        (b107 ^ b118) ^ b170 == 0,
        (b110 ^ b143) ^ b148 == 0,
        (b93 ^ b126) ^ b152 == 0,
        (b91 ^ b141) ^ b156 == 0,
        (b96 ^ b146) ^ b161 == 0,
        (b136 ^ b141) ^ b161 == 0,
        (b111 ^ b127) ^ b164 == 0,
        (b92 ^ b139) ^ b158 == 0,
        (b102 ^ b131) ^ b165 == 0,
        (b116 ^ b142) ^ b149 == 0,
        b127 ^ b146 == 0,
        (b102 ^ b115) ^ b152 == 0,
        ((b97 ^ b162) ^ b164) ^ b171 == 0,
        (b137 ^ b151) ^ b168 == 0,
        (b129 ^ b136) ^ b153 == 0,
        b103 ^ b138 == 0,
        (b105 ^ b133) ^ b150 == 0,
        (b110 ^ b149) ^ b162 == 0,
        (b143 ^ b145) ^ b151 == 0,
        (b98 ^ b121) ^ b159 == 0,
        (b128 ^ b169) ^ b171 == 0,
    ensures
        b91 == 0,
        b92 == 0,
        b93 == 0,
        b94 == 0,
        b95 == 0,
        b96 == 0,
        b97 == 0,
        b98 == 0,
        b99 == 0,
        b100 == 0,
        b101 == 0,
        b102 == 0,
        b103 == 0,
        b104 == 0,
        b105 == 0,
        b106 == 0,
        b107 == 0,
        b108 == 0,
        b109 == 0,
        b110 == 0,
        b111 == 0,
        b112 == 0,
        b113 == 0,
        b114 == 0,
        b115 == 0,
        b116 == 0,
        b117 == 0,
        b118 == 0,
        b119 == 0,
        b120 == 0,
        b121 == 0,
        b122 == 0,
        b123 == 0,
        b124 == 0,
        b125 == 0,
        b126 == 0,
        b127 == 0,
        b128 == 0,
        b129 == 0,
        b130 == 0,
        b131 == 0,
        b132 == 0,
        b133 == 0,
        b134 == 0,
        b135 == 0,
        b136 == 0,
        b137 == 0,
        b138 == 0,
        b139 == 0,
        b140 == 0,
        b141 == 0,
        b142 == 0,
        b143 == 0,
        b144 == 0,
        b145 == 0,
        b146 == 0,
        b147 == 0,
        b148 == 0,
        b149 == 0,
        b150 == 0,
        b151 == 0,
        b152 == 0,
        b153 == 0,
        b154 == 0,
        b155 == 0,
        b156 == 0,
        b157 == 0,
        b158 == 0,
        b159 == 0,
        b160 == 0,
        b161 == 0,
        b162 == 0,
        b163 == 0,
        b164 == 0,
        b165 == 0,
        b166 == 0,
        b167 == 0,
        b168 == 0,
        b169 == 0,
        b170 == 0,
        b171 == 0,
        b172 == 0,
        b173 == 0,
{
}

/// The first `k` bits of check `m` sum to zero where they are payload bits and
/// those are zero.
proof fn lemma_payload_vanishes(d: Seq<u8>, m: int, k: nat)
    requires
        0 <= m < LDPC_M,
        k <= LDPC_NUM_ROWS[m],
        forall|n: int| 0 <= n < LDPC_K ==> d[n] == 0,
        forall|i: int|
            #![trigger LDPC_NM[m][i]]
            0 <= i < k ==> 1 <= LDPC_NM[m][i] <= LDPC_K,
    ensures
        ldpc::check_sum(d, m, k) == 0,
    decreases k,
{
    if k > 0 {
        lemma_payload_vanishes(d, m, (k - 1) as nat);
        bits::lemma_xor_zero();
        assert(1 <= LDPC_NM[m][k - 1] <= LDPC_K);
    }
}

/// Checks 0 to 11 over payload bits of zero.
#[verifier::spinoff_prover]
proof fn lemma_checks_0_to_11(d: Seq<u8>)
    requires
        forall|n: int| 0 <= n < LDPC_K ==> d[n] == 0,
        forall|m: int| 0 <= m < LDPC_M ==> #[trigger] ldpc::satisfies(d, m),
    ensures
        (d[91] ^ d[95]) ^ d[152] == 0,
        (d[92] ^ d[114]) ^ d[145] == 0,
        (d[93] ^ d[121]) ^ d[150] == 0,
        (d[94] ^ d[95]) ^ d[142] == 0,
        (d[92] ^ d[95]) ^ d[147] == 0,
        (d[96] ^ d[125]) ^ d[137] == 0,
        (d[97] ^ d[106]) ^ d[153] == 0,
        (d[98] ^ d[138]) ^ d[145] == 0,
        (d[99] ^ d[106]) ^ d[125] == 0,
        (d[100] ^ d[138]) ^ d[157] == 0,
        (d[101] ^ d[104]) ^ d[154] == 0,
        (d[102] ^ d[148]) ^ d[161] == 0,
{
    reveal(ldpc::satisfies);
    bits::lemma_xor_zero();
    assert((d[91] ^ d[95]) ^ d[152] == 0) by {
        assert(ldpc::satisfies(d, 0));
        lemma_payload_vanishes(d, 0, 4);
        reveal_with_fuel(ldpc::check_sum, 6);
    }
    assert((d[92] ^ d[114]) ^ d[145] == 0) by {
        assert(ldpc::satisfies(d, 1));
        lemma_payload_vanishes(d, 1, 3);
        reveal_with_fuel(ldpc::check_sum, 6);
    }
    assert((d[93] ^ d[121]) ^ d[150] == 0) by {
        assert(ldpc::satisfies(d, 2));
        lemma_payload_vanishes(d, 2, 3);
        reveal_with_fuel(ldpc::check_sum, 6);
    }
    assert((d[94] ^ d[95]) ^ d[142] == 0) by {
        assert(ldpc::satisfies(d, 3));
        lemma_payload_vanishes(d, 3, 3);
        reveal_with_fuel(ldpc::check_sum, 6);
    }
    assert((d[92] ^ d[95]) ^ d[147] == 0) by {
        assert(ldpc::satisfies(d, 4));
        lemma_payload_vanishes(d, 4, 4);
        reveal_with_fuel(ldpc::check_sum, 6);
    }
    assert((d[96] ^ d[125]) ^ d[137] == 0) by {
        assert(ldpc::satisfies(d, 5));
        lemma_payload_vanishes(d, 5, 3);
        reveal_with_fuel(ldpc::check_sum, 6);
    }
    assert((d[97] ^ d[106]) ^ d[153] == 0) by {
        assert(ldpc::satisfies(d, 6));
        lemma_payload_vanishes(d, 6, 4);
        reveal_with_fuel(ldpc::check_sum, 6);
    }
    assert((d[98] ^ d[138]) ^ d[145] == 0) by {
        assert(ldpc::satisfies(d, 7));
        lemma_payload_vanishes(d, 7, 3);
        reveal_with_fuel(ldpc::check_sum, 6);
    }
    assert((d[99] ^ d[106]) ^ d[125] == 0) by {
        assert(ldpc::satisfies(d, 8));
        lemma_payload_vanishes(d, 8, 3);
        reveal_with_fuel(ldpc::check_sum, 6);
    }
    assert((d[100] ^ d[138]) ^ d[157] == 0) by {
        assert(ldpc::satisfies(d, 9));
        lemma_payload_vanishes(d, 9, 4);
        reveal_with_fuel(ldpc::check_sum, 6);
    }
    assert((d[101] ^ d[104]) ^ d[154] == 0) by {
        assert(ldpc::satisfies(d, 10));
        lemma_payload_vanishes(d, 10, 3);
        reveal_with_fuel(ldpc::check_sum, 6);
    }
    assert((d[102] ^ d[148]) ^ d[161] == 0) by {
        assert(ldpc::satisfies(d, 11));
        lemma_payload_vanishes(d, 11, 3);
        reveal_with_fuel(ldpc::check_sum, 6);
    }
}

/// Checks 12 to 23 over payload bits of zero.
#[verifier::spinoff_prover]
proof fn lemma_checks_12_to_23(d: Seq<u8>)
    requires
        forall|n: int| 0 <= n < LDPC_K ==> d[n] == 0,
        forall|m: int| 0 <= m < LDPC_M ==> #[trigger] ldpc::satisfies(d, m),
    ensures
        (d[103] ^ d[113]) ^ d[144] == 0,
        (d[101] ^ d[122]) ^ d[155] == 0,
        (d[105] ^ d[122]) ^ d[158] == 0,
        (d[105] ^ d[106]) ^ d[156] == 0,
        (d[107] ^ d[140]) ^ d[159] == 0,
        (d[108] ^ d[130]) ^ d[153] == 0,
        (d[109] ^ d[120]) ^ d[165] == 0,
        ((d[110] ^ d[129]) ^ d[160]) ^ d[172] == 0,
        (d[111] ^ d[118]) ^ d[165] == 0,
        (d[112] ^ d[113]) ^ d[142] == 0,
        (d[103] ^ d[115]) ^ d[162] == 0,
        (d[91] ^ d[137]) ^ d[164] == 0,
{
    reveal(ldpc::satisfies);
    bits::lemma_xor_zero();
    assert((d[103] ^ d[113]) ^ d[144] == 0) by {
        assert(ldpc::satisfies(d, 12));
        lemma_payload_vanishes(d, 12, 4);
        reveal_with_fuel(ldpc::check_sum, 6);
    }
    assert((d[101] ^ d[122]) ^ d[155] == 0) by {
        assert(ldpc::satisfies(d, 13));
        lemma_payload_vanishes(d, 13, 4);
        reveal_with_fuel(ldpc::check_sum, 6);
    }
    assert((d[105] ^ d[122]) ^ d[158] == 0) by {
        assert(ldpc::satisfies(d, 14));
        lemma_payload_vanishes(d, 14, 3);
        reveal_with_fuel(ldpc::check_sum, 6);
    }
    assert((d[105] ^ d[106]) ^ d[156] == 0) by {
        assert(ldpc::satisfies(d, 15));
        lemma_payload_vanishes(d, 15, 3);
        reveal_with_fuel(ldpc::check_sum, 6);
    }
    assert((d[107] ^ d[140]) ^ d[159] == 0) by {
        assert(ldpc::satisfies(d, 16));
        lemma_payload_vanishes(d, 16, 3);
        reveal_with_fuel(ldpc::check_sum, 6);
    }
    assert((d[108] ^ d[130]) ^ d[153] == 0) by {
        assert(ldpc::satisfies(d, 17));
        lemma_payload_vanishes(d, 17, 4);
        reveal_with_fuel(ldpc::check_sum, 6);
    }
    assert((d[109] ^ d[120]) ^ d[165] == 0) by {
        assert(ldpc::satisfies(d, 18));
        lemma_payload_vanishes(d, 18, 3);
        reveal_with_fuel(ldpc::check_sum, 6);
    }
    assert(((d[110] ^ d[129]) ^ d[160]) ^ d[172] == 0) by {
        assert(ldpc::satisfies(d, 19));
        lemma_payload_vanishes(d, 19, 3);
        reveal_with_fuel(ldpc::check_sum, 6);
    }
    assert((d[111] ^ d[118]) ^ d[165] == 0) by {
        assert(ldpc::satisfies(d, 20));
        lemma_payload_vanishes(d, 20, 3);
        reveal_with_fuel(ldpc::check_sum, 6);
    }
    assert((d[112] ^ d[113]) ^ d[142] == 0) by {
        assert(ldpc::satisfies(d, 21));
        lemma_payload_vanishes(d, 21, 4);
        reveal_with_fuel(ldpc::check_sum, 6);
    }
    assert((d[103] ^ d[115]) ^ d[162] == 0) by {
        assert(ldpc::satisfies(d, 22));
        lemma_payload_vanishes(d, 22, 3);
        reveal_with_fuel(ldpc::check_sum, 6);
    }
    assert((d[91] ^ d[137]) ^ d[164] == 0) by {
        assert(ldpc::satisfies(d, 23));
        lemma_payload_vanishes(d, 23, 3);
        reveal_with_fuel(ldpc::check_sum, 6);
    }
}

/// Checks 24 to 35 over payload bits of zero.
#[verifier::spinoff_prover]
proof fn lemma_checks_24_to_35(d: Seq<u8>)
    requires
        forall|n: int| 0 <= n < LDPC_K ==> d[n] == 0,
        forall|m: int| 0 <= m < LDPC_M ==> #[trigger] ldpc::satisfies(d, m),
    ensures
        (d[112] ^ d[127]) ^ d[159] == 0,
        (d[116] ^ d[120]) ^ d[150] == 0,
        (d[117] ^ d[126]) ^ d[163] == 0,
        (d[111] ^ d[133]) ^ d[157] == 0,
        (d[119] ^ d[130]) ^ d[144] == 0,
        (d[109] ^ d[124]) ^ d[160] == 0,
        (d[93] ^ d[135]) ^ d[160] == 0,
        (d[97] ^ d[131]) ^ d[163] == 0,
        (d[123] ^ d[126]) ^ d[168] == 0,
        (d[116] ^ d[134]) ^ d[166] == 0,
        (d[99] ^ d[104]) ^ d[167] == 0,
        (d[117] ^ d[118]) ^ d[143] == 0,
{
    reveal(ldpc::satisfies);
    bits::lemma_xor_zero();
    assert((d[112] ^ d[127]) ^ d[159] == 0) by {
        assert(ldpc::satisfies(d, 24));
        lemma_payload_vanishes(d, 24, 3);
        reveal_with_fuel(ldpc::check_sum, 6);
    }
    assert((d[116] ^ d[120]) ^ d[150] == 0) by {
        assert(ldpc::satisfies(d, 25));
        lemma_payload_vanishes(d, 25, 4);
        reveal_with_fuel(ldpc::check_sum, 6);
    }
    assert((d[117] ^ d[126]) ^ d[163] == 0) by {
        assert(ldpc::satisfies(d, 26));
        lemma_payload_vanishes(d, 26, 3);
        reveal_with_fuel(ldpc::check_sum, 6);
    }
    assert((d[111] ^ d[133]) ^ d[157] == 0) by {
        assert(ldpc::satisfies(d, 27));
        lemma_payload_vanishes(d, 27, 3);
        reveal_with_fuel(ldpc::check_sum, 6);
    }
    assert((d[119] ^ d[130]) ^ d[144] == 0) by {
        assert(ldpc::satisfies(d, 28));
        lemma_payload_vanishes(d, 28, 3);
        reveal_with_fuel(ldpc::check_sum, 6);
    }
    assert((d[109] ^ d[124]) ^ d[160] == 0) by {
        assert(ldpc::satisfies(d, 29));
        lemma_payload_vanishes(d, 29, 4);
        reveal_with_fuel(ldpc::check_sum, 6);
    }
    assert((d[93] ^ d[135]) ^ d[160] == 0) by {
        assert(ldpc::satisfies(d, 30));
        lemma_payload_vanishes(d, 30, 3);
        reveal_with_fuel(ldpc::check_sum, 6);
    }
    assert((d[97] ^ d[131]) ^ d[163] == 0) by {
        assert(ldpc::satisfies(d, 31));
        lemma_payload_vanishes(d, 31, 3);
        reveal_with_fuel(ldpc::check_sum, 6);
    }
    assert((d[123] ^ d[126]) ^ d[168] == 0) by {
        assert(ldpc::satisfies(d, 32));
        lemma_payload_vanishes(d, 32, 3);
        reveal_with_fuel(ldpc::check_sum, 6);
    }
    assert((d[116] ^ d[134]) ^ d[166] == 0) by {
        assert(ldpc::satisfies(d, 33));
        lemma_payload_vanishes(d, 33, 3);
        reveal_with_fuel(ldpc::check_sum, 6);
    }
    assert((d[99] ^ d[104]) ^ d[167] == 0) by {
        assert(ldpc::satisfies(d, 34));
        lemma_payload_vanishes(d, 34, 4);
        reveal_with_fuel(ldpc::check_sum, 6);
    }
    assert((d[117] ^ d[118]) ^ d[143] == 0) by {
        assert(ldpc::satisfies(d, 35));
        lemma_payload_vanishes(d, 35, 3);
        reveal_with_fuel(ldpc::check_sum, 6);
    }
}

/// Checks 36 to 47 over payload bits of zero.
#[verifier::spinoff_prover]
proof fn lemma_checks_36_to_47(d: Seq<u8>)
    requires
        forall|n: int| 0 <= n < LDPC_K ==> d[n] == 0,
        forall|m: int| 0 <= m < LDPC_M ==> #[trigger] ldpc::satisfies(d, m),
    ensures
        (d[113] ^ d[117]) ^ d[156] == 0,
        (d[128] ^ d[147]) ^ d[148] == 0,
        (d[100] ^ d[129]) ^ d[155] == 0,
        (d[119] ^ d[139]) ^ d[169] == 0,
        (d[99] ^ d[139]) ^ d[170] == 0,
        ((d[132] ^ d[141]) ^ d[170]) ^ d[173] == 0,
        (d[112] ^ d[124]) ^ d[169] == 0,
        (d[119] ^ d[133]) ^ d[172] == 0,
        d[135] ^ d[151] == 0,
        (d[121] ^ d[136]) ^ d[167] == 0,
        ((d[109] ^ d[114]) ^ d[144]) ^ d[167] == 0,
        (d[98] ^ d[131]) ^ d[172] == 0,
{
    reveal(ldpc::satisfies);
    bits::lemma_xor_zero();
    assert((d[113] ^ d[117]) ^ d[156] == 0) by {
        assert(ldpc::satisfies(d, 36));
        lemma_payload_vanishes(d, 36, 3);
        reveal_with_fuel(ldpc::check_sum, 6);
    }
    assert((d[128] ^ d[147]) ^ d[148] == 0) by {
        assert(ldpc::satisfies(d, 37));
        lemma_payload_vanishes(d, 37, 3);
        reveal_with_fuel(ldpc::check_sum, 6);
    }
    assert((d[100] ^ d[129]) ^ d[155] == 0) by {
        assert(ldpc::satisfies(d, 38));
        lemma_payload_vanishes(d, 38, 4);
        reveal_with_fuel(ldpc::check_sum, 6);
    }
    assert((d[119] ^ d[139]) ^ d[169] == 0) by {
        assert(ldpc::satisfies(d, 39));
        lemma_payload_vanishes(d, 39, 4);
        reveal_with_fuel(ldpc::check_sum, 6);
    }
    assert((d[99] ^ d[139]) ^ d[170] == 0) by {
        assert(ldpc::satisfies(d, 40));
        lemma_payload_vanishes(d, 40, 3);
        reveal_with_fuel(ldpc::check_sum, 6);
    }
    assert(((d[132] ^ d[141]) ^ d[170]) ^ d[173] == 0) by {
        assert(ldpc::satisfies(d, 41));
        lemma_payload_vanishes(d, 41, 2);
        reveal_with_fuel(ldpc::check_sum, 6);
    }
    assert((d[112] ^ d[124]) ^ d[169] == 0) by {
        assert(ldpc::satisfies(d, 42));
        lemma_payload_vanishes(d, 42, 3);
        reveal_with_fuel(ldpc::check_sum, 6);
    }
    assert((d[119] ^ d[133]) ^ d[172] == 0) by {
        assert(ldpc::satisfies(d, 43));
        lemma_payload_vanishes(d, 43, 3);
        reveal_with_fuel(ldpc::check_sum, 6);
    }
    assert(d[135] ^ d[151] == 0) by {
        assert(ldpc::satisfies(d, 44));
        lemma_payload_vanishes(d, 44, 5);
        reveal_with_fuel(ldpc::check_sum, 6);
    }
    assert((d[121] ^ d[136]) ^ d[167] == 0) by {
        assert(ldpc::satisfies(d, 45));
        lemma_payload_vanishes(d, 45, 4);
        reveal_with_fuel(ldpc::check_sum, 6);
    }
    assert(((d[109] ^ d[114]) ^ d[144]) ^ d[167] == 0) by {
        assert(ldpc::satisfies(d, 46));
        lemma_payload_vanishes(d, 46, 2);
        reveal_with_fuel(ldpc::check_sum, 6);
    }
    assert((d[98] ^ d[131]) ^ d[172] == 0) by {
        assert(ldpc::satisfies(d, 47));
        lemma_payload_vanishes(d, 47, 3);
        reveal_with_fuel(ldpc::check_sum, 6);
    }
}

/// Checks 48 to 59 over payload bits of zero.
#[verifier::spinoff_prover]
proof fn lemma_checks_48_to_59(d: Seq<u8>)
    requires
        forall|n: int| 0 <= n < LDPC_K ==> d[n] == 0,
        forall|m: int| 0 <= m < LDPC_M ==> #[trigger] ldpc::satisfies(d, m),
    ensures
        (d[94] ^ d[171]) ^ d[173] == 0,
        (d[108] ^ d[140]) ^ d[147] == 0,
        d[114] ^ d[132] == 0,
        (d[123] ^ d[124]) ^ d[125] == 0,
        (d[123] ^ d[140]) ^ d[166] == 0,
        (d[107] ^ d[115]) ^ d[155] == 0,
        (d[104] ^ d[128]) ^ d[157] == 0,
        (d[130] ^ d[146]) ^ d[154] == 0,
        (d[108] ^ d[120]) ^ d[173] == 0,
        d[94] ^ d[122] == 0,
        ((d[132] ^ d[149]) ^ d[154]) ^ d[168] == 0,
        (d[96] ^ d[134]) ^ d[158] == 0,
{
    reveal(ldpc::satisfies);
    bits::lemma_xor_zero();
    assert((d[94] ^ d[171]) ^ d[173] == 0) by {
        assert(ldpc::satisfies(d, 48));
        lemma_payload_vanishes(d, 48, 3);
        reveal_with_fuel(ldpc::check_sum, 6);
    }
    assert((d[108] ^ d[140]) ^ d[147] == 0) by {
        assert(ldpc::satisfies(d, 49));
        lemma_payload_vanishes(d, 49, 3);
        reveal_with_fuel(ldpc::check_sum, 6);
    }
    assert(d[114] ^ d[132] == 0) by {
        assert(ldpc::satisfies(d, 50));
        lemma_payload_vanishes(d, 50, 5);
        reveal_with_fuel(ldpc::check_sum, 6);
    }
    assert((d[123] ^ d[124]) ^ d[125] == 0) by {
        assert(ldpc::satisfies(d, 51));
        lemma_payload_vanishes(d, 51, 3);
        reveal_with_fuel(ldpc::check_sum, 6);
    }
    assert((d[123] ^ d[140]) ^ d[166] == 0) by {
        assert(ldpc::satisfies(d, 52));
        lemma_payload_vanishes(d, 52, 3);
        reveal_with_fuel(ldpc::check_sum, 6);
    }
    assert((d[107] ^ d[115]) ^ d[155] == 0) by {
        assert(ldpc::satisfies(d, 53));
        lemma_payload_vanishes(d, 53, 3);
        reveal_with_fuel(ldpc::check_sum, 6);
    }
    assert((d[104] ^ d[128]) ^ d[157] == 0) by {
        assert(ldpc::satisfies(d, 54));
        lemma_payload_vanishes(d, 54, 4);
        reveal_with_fuel(ldpc::check_sum, 6);
    }
    assert((d[130] ^ d[146]) ^ d[154] == 0) by {
        assert(ldpc::satisfies(d, 55));
        lemma_payload_vanishes(d, 55, 3);
        reveal_with_fuel(ldpc::check_sum, 6);
    }
    assert((d[108] ^ d[120]) ^ d[173] == 0) by {
        assert(ldpc::satisfies(d, 56));
        lemma_payload_vanishes(d, 56, 3);
        reveal_with_fuel(ldpc::check_sum, 6);
    }
    assert(d[94] ^ d[122] == 0) by {
        assert(ldpc::satisfies(d, 57));
        lemma_payload_vanishes(d, 57, 4);
        reveal_with_fuel(ldpc::check_sum, 6);
    }
    assert(((d[132] ^ d[149]) ^ d[154]) ^ d[168] == 0) by {
        assert(ldpc::satisfies(d, 58));
        lemma_payload_vanishes(d, 58, 2);
        reveal_with_fuel(ldpc::check_sum, 6);
    }
    assert((d[96] ^ d[134]) ^ d[158] == 0) by {
        assert(ldpc::satisfies(d, 59));
        lemma_payload_vanishes(d, 59, 4);
        reveal_with_fuel(ldpc::check_sum, 6);
    }
}

/// Checks 60 to 71 over payload bits of zero.
#[verifier::spinoff_prover]
proof fn lemma_checks_60_to_71(d: Seq<u8>)
    requires
        forall|n: int| 0 <= n < LDPC_K ==> d[n] == 0,
        forall|m: int| 0 <= m < LDPC_M ==> #[trigger] ldpc::satisfies(d, m),
    ensures
        (d[101] ^ d[135]) ^ d[166] == 0,
        (d[100] ^ d[134]) ^ d[163] == 0,
        (d[107] ^ d[118]) ^ d[170] == 0,
        (d[110] ^ d[143]) ^ d[148] == 0,
        (d[93] ^ d[126]) ^ d[152] == 0,
        (d[91] ^ d[141]) ^ d[156] == 0,
        (d[96] ^ d[146]) ^ d[161] == 0,
        (d[136] ^ d[141]) ^ d[161] == 0,
        (d[111] ^ d[127]) ^ d[164] == 0,
        (d[92] ^ d[139]) ^ d[158] == 0,
        (d[102] ^ d[131]) ^ d[165] == 0,
        (d[116] ^ d[142]) ^ d[149] == 0,
{
    reveal(ldpc::satisfies);
    bits::lemma_xor_zero();
    assert((d[101] ^ d[135]) ^ d[166] == 0) by {
        assert(ldpc::satisfies(d, 60));
        lemma_payload_vanishes(d, 60, 3);
        reveal_with_fuel(ldpc::check_sum, 6);
    }
    assert((d[100] ^ d[134]) ^ d[163] == 0) by {
        assert(ldpc::satisfies(d, 61));
        lemma_payload_vanishes(d, 61, 3);
        reveal_with_fuel(ldpc::check_sum, 6);
    }
    assert((d[107] ^ d[118]) ^ d[170] == 0) by {
        assert(ldpc::satisfies(d, 62));
        lemma_payload_vanishes(d, 62, 3);
        reveal_with_fuel(ldpc::check_sum, 6);
    }
    assert((d[110] ^ d[143]) ^ d[148] == 0) by {
        assert(ldpc::satisfies(d, 63));
        lemma_payload_vanishes(d, 63, 4);
        reveal_with_fuel(ldpc::check_sum, 6);
    }
    assert((d[93] ^ d[126]) ^ d[152] == 0) by {
        assert(ldpc::satisfies(d, 64));
        lemma_payload_vanishes(d, 64, 3);
        reveal_with_fuel(ldpc::check_sum, 6);
    }
    assert((d[91] ^ d[141]) ^ d[156] == 0) by {
        assert(ldpc::satisfies(d, 65));
        lemma_payload_vanishes(d, 65, 3);
        reveal_with_fuel(ldpc::check_sum, 6);
    }
    assert((d[96] ^ d[146]) ^ d[161] == 0) by {
        assert(ldpc::satisfies(d, 66));
        lemma_payload_vanishes(d, 66, 3);
        reveal_with_fuel(ldpc::check_sum, 6);
    }
    assert((d[136] ^ d[141]) ^ d[161] == 0) by {
        assert(ldpc::satisfies(d, 67));
        lemma_payload_vanishes(d, 67, 4);
        reveal_with_fuel(ldpc::check_sum, 6);
    }
    assert((d[111] ^ d[127]) ^ d[164] == 0) by {
        assert(ldpc::satisfies(d, 68));
        lemma_payload_vanishes(d, 68, 4);
        reveal_with_fuel(ldpc::check_sum, 6);
    }
    assert((d[92] ^ d[139]) ^ d[158] == 0) by {
        assert(ldpc::satisfies(d, 69));
        lemma_payload_vanishes(d, 69, 3);
        reveal_with_fuel(ldpc::check_sum, 6);
    }
    assert((d[102] ^ d[131]) ^ d[165] == 0) by {
        assert(ldpc::satisfies(d, 70));
        lemma_payload_vanishes(d, 70, 3);
        reveal_with_fuel(ldpc::check_sum, 6);
    }
    assert((d[116] ^ d[142]) ^ d[149] == 0) by {
        assert(ldpc::satisfies(d, 71));
        lemma_payload_vanishes(d, 71, 4);
        reveal_with_fuel(ldpc::check_sum, 6);
    }
}

/// Checks 72 to 82 over payload bits of zero.
#[verifier::spinoff_prover]
proof fn lemma_checks_72_to_82(d: Seq<u8>)
    requires
        forall|n: int| 0 <= n < LDPC_K ==> d[n] == 0,
        forall|m: int| 0 <= m < LDPC_M ==> #[trigger] ldpc::satisfies(d, m),
    ensures
        d[127] ^ d[146] == 0,
        (d[102] ^ d[115]) ^ d[152] == 0,
        ((d[97] ^ d[162]) ^ d[164]) ^ d[171] == 0,
        (d[137] ^ d[151]) ^ d[168] == 0,
        (d[129] ^ d[136]) ^ d[153] == 0,
        d[103] ^ d[138] == 0,
        (d[105] ^ d[133]) ^ d[150] == 0,
        (d[110] ^ d[149]) ^ d[162] == 0,
        (d[143] ^ d[145]) ^ d[151] == 0,
        (d[98] ^ d[121]) ^ d[159] == 0,
        (d[128] ^ d[169]) ^ d[171] == 0,
{
    reveal(ldpc::satisfies);
    bits::lemma_xor_zero();
    assert(d[127] ^ d[146] == 0) by {
        assert(ldpc::satisfies(d, 72));
        lemma_payload_vanishes(d, 72, 4);
        reveal_with_fuel(ldpc::check_sum, 6);
    }
    assert((d[102] ^ d[115]) ^ d[152] == 0) by {
        assert(ldpc::satisfies(d, 73));
        lemma_payload_vanishes(d, 73, 3);
        reveal_with_fuel(ldpc::check_sum, 6);
    }
    assert(((d[97] ^ d[162]) ^ d[164]) ^ d[171] == 0) by {
        assert(ldpc::satisfies(d, 74));
        lemma_payload_vanishes(d, 74, 2);
        reveal_with_fuel(ldpc::check_sum, 6);
    }
    assert((d[137] ^ d[151]) ^ d[168] == 0) by {
        assert(ldpc::satisfies(d, 75));
        lemma_payload_vanishes(d, 75, 3);
        reveal_with_fuel(ldpc::check_sum, 6);
    }
    assert((d[129] ^ d[136]) ^ d[153] == 0) by {
        assert(ldpc::satisfies(d, 76));
        lemma_payload_vanishes(d, 76, 3);
        reveal_with_fuel(ldpc::check_sum, 6);
    }
    assert(d[103] ^ d[138] == 0) by {
        assert(ldpc::satisfies(d, 77));
        lemma_payload_vanishes(d, 77, 4);
        reveal_with_fuel(ldpc::check_sum, 6);
    }
    assert((d[105] ^ d[133]) ^ d[150] == 0) by {
        assert(ldpc::satisfies(d, 78));
        lemma_payload_vanishes(d, 78, 3);
        reveal_with_fuel(ldpc::check_sum, 6);
    }
    assert((d[110] ^ d[149]) ^ d[162] == 0) by {
        assert(ldpc::satisfies(d, 79));
        lemma_payload_vanishes(d, 79, 4);
        reveal_with_fuel(ldpc::check_sum, 6);
    }
    assert((d[143] ^ d[145]) ^ d[151] == 0) by {
        assert(ldpc::satisfies(d, 80));
        lemma_payload_vanishes(d, 80, 3);
        reveal_with_fuel(ldpc::check_sum, 6);
    }
    assert((d[98] ^ d[121]) ^ d[159] == 0) by {
        assert(ldpc::satisfies(d, 81));
        lemma_payload_vanishes(d, 81, 3);
        reveal_with_fuel(ldpc::check_sum, 6);
    }
    assert((d[128] ^ d[169]) ^ d[171] == 0) by {
        assert(ldpc::satisfies(d, 82));
        lemma_payload_vanishes(d, 82, 3);
        reveal_with_fuel(ldpc::check_sum, 6);
    }
}

/// A word of zeros and ones that satisfies every check and has payload bits of
/// zero is zero.
#[verifier::spinoff_prover]
proof fn lemma_zero_payload(d: Seq<u8>)
    requires
        d.len() == LDPC_N,
        ldpc::is_binary(d),
        forall|n: int| 0 <= n < LDPC_K ==> d[n] == 0,
        forall|m: int| 0 <= m < LDPC_M ==> #[trigger] ldpc::satisfies(d, m),
    ensures
        forall|n: int| 0 <= n < LDPC_N ==> d[n] == 0,
{
    lemma_checks_0_to_11(d);
    lemma_checks_12_to_23(d);
    lemma_checks_24_to_35(d);
    lemma_checks_36_to_47(d);
    lemma_checks_48_to_59(d);
    lemma_checks_60_to_71(d);
    lemma_checks_72_to_82(d);
    lemma_only_zero(
        d[91],
        d[92],
        d[93],
        d[94],
        d[95],
        d[96],
        d[97],
        d[98],
        d[99],
        d[100],
        d[101],
        d[102],
        d[103],
        d[104],
        d[105],
        d[106],
        d[107],
        d[108],
        d[109],
        d[110],
        d[111],
        d[112],
        d[113],
        d[114],
        d[115],
        d[116],
        d[117],
        d[118],
        d[119],
        d[120],
        d[121],
        d[122],
        d[123],
        d[124],
        d[125],
        d[126],
        d[127],
        d[128],
        d[129],
        d[130],
        d[131],
        d[132],
        d[133],
        d[134],
        d[135],
        d[136],
        d[137],
        d[138],
        d[139],
        d[140],
        d[141],
        d[142],
        d[143],
        d[144],
        d[145],
        d[146],
        d[147],
        d[148],
        d[149],
        d[150],
        d[151],
        d[152],
        d[153],
        d[154],
        d[155],
        d[156],
        d[157],
        d[158],
        d[159],
        d[160],
        d[161],
        d[162],
        d[163],
        d[164],
        d[165],
        d[166],
        d[167],
        d[168],
        d[169],
        d[170],
        d[171],
        d[172],
        d[173],
    );
}

/// A check over the sum of two words is the sum of the checks.
proof fn lemma_checks_add(a: Seq<u8>, b: Seq<u8>, m: int, k: nat)
    requires
        0 <= m < LDPC_M,
        k <= LDPC_NUM_ROWS[m],
    ensures
        ldpc::check_sum(added(a, b), m, k) == ldpc::check_sum(a, m, k) ^ ldpc::check_sum(b, m, k),
    decreases k,
{
    if k == 0 {
        bits::lemma_xor_zero();
    } else {
        lemma_checks_add(a, b, m, (k - 1) as nat);
        ldpc::law_rows_are_padded(m);
        let n = LDPC_NM[m][k - 1] - 1;
        let (s, t) = (
            ldpc::check_sum(a, m, (k - 1) as nat),
            ldpc::check_sum(b, m, (k - 1) as nat),
        );
        let (x, y) = (a[n], b[n]);
        assert((s ^ t) ^ (x ^ y) == (s ^ x) ^ (t ^ y)) by (bit_vector);
    }
}

/// A word without failures satisfies every check.
proof fn lemma_no_failure(word: Seq<u8>, m: nat, i: int)
    requires
        0 <= i < m,
        ldpc::failures(word, m) == 0,
    ensures
        ldpc::satisfies(word, i),
    decreases m,
{
    if i < m - 1 {
        lemma_no_failure(word, (m - 1) as nat, i);
    }
}

/// A word of zeros and ones that satisfies every check is the codeword for its
/// own payload bits: no two valid words have the same.
pub proof fn law_valid_word_is_a_codeword(word: Seq<u8>)
    requires
        word.len() == LDPC_N,
        ldpc::is_binary(word),
        ldpc::failures(word, LDPC_M as nat) == 0,
    ensures
        word == ldpc::codeword(recover::packed(word)),
{
    let a91 = recover::packed(word);
    let code = ldpc::codeword(a91);
    let d = added(word, code);
    recover::lemma_packed_bits(word);
    ldpc_laws::law_encoded_is_valid(a91);
    assert forall|n: int| 0 <= n < LDPC_N implies #[trigger] d[n] <= 1 && (d[n] == 0 <==> word[n]
        == code[n]) by {
        ldpc::law_codeword_bits(a91, n);
        bits::lemma_add_bits(word[n], code[n]);
    }
    assert forall|m: int| 0 <= m < LDPC_M implies #[trigger] ldpc::satisfies(d, m) by {
        lemma_no_failure(word, LDPC_M as nat, m);
        lemma_no_failure(code, LDPC_M as nat, m);
        reveal(ldpc::satisfies);
        lemma_checks_add(word, code, m, LDPC_NUM_ROWS[m] as nat);
        bits::lemma_xor_zero();
    }
    assert forall|n: int| 0 <= n < LDPC_K implies d[n] == 0 by {
        assert(code[n] == ldpc::code_bit(a91, n));
        assert(d[n] == 0 <==> word[n] == code[n]);
    }
    lemma_zero_payload(d);
    assert forall|n: int| 0 <= n < LDPC_N implies word[n] == code[n] by {
        assert(d[n] == 0);
    }
    assert(word =~= code);
}

/// What a decode returns is what was sent, symbol for symbol: a word without
/// parity errors from which a payload is recovered is the word that this payload
/// is sent as.
pub proof fn law_recovered_payload_was_sent(protocol: Protocol, word: Seq<u8>)
    requires
        word.len() == LDPC_N,
        ldpc::is_binary(word),
        ldpc::failures(word, LDPC_M as nat) == 0,
        recover::recovered(protocol, word) is Some,
    ensures
        protocol.sent(recover::recovered(protocol, word)->0) == word,
{
    let a91 = recover::packed(word);
    let kept = crc::covered(a91).take(10);
    law_valid_word_is_a_codeword(word);
    tones::law_scrambling_undoes_itself(protocol, kept);
    recover::lemma_packed_bits(word);
    crc::law_verified_is_sealed(a91);
    let payload = protocol.scrambled(kept);
    assert(recover::recovered(protocol, word) == Some(payload));
    assert(protocol.scrambled(payload) == kept);
    assert(crc::sealed(kept) == a91);
}

} // verus!
