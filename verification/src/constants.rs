//! Protocol parameters: the CRC polynomial, the sync patterns, the symbol maps
//! and the LDPC(174,91) matrices.

use vstd::prelude::*;

verus! {

/// Bits in the checksum.
pub const CRC_WIDTH: u16 = 14;

/// The checksum polynomial, without its leading term.
pub const CRC_POLYNOMIAL: u16 = 0x2757;

/// Bits in a codeword.
pub const LDPC_N: usize = 174;

/// Payload bits in a codeword: 77 of message and 14 of checksum.
pub const LDPC_K: usize = 91;

/// Parity checks.
pub const LDPC_M: usize = 83;

/// Bytes that hold the payload bits of a codeword.
pub const LDPC_K_BYTES: usize = 12;

/// FT8 data symbols.
pub const FT8_ND: usize = 58;

/// FT8 channel symbols.
pub const FT8_NN: usize = 79;

/// Symbols in an FT8 sync group.
pub const FT8_LENGTH_SYNC: usize = 7;

/// FT8 sync groups.
pub const FT8_NUM_SYNC: usize = 3;

/// Symbols from the start of one FT8 sync group to the start of the next.
pub const FT8_SYNC_OFFSET: usize = 36;

/// FT4 data symbols.
pub const FT4_ND: usize = 87;

/// FT4 channel symbols.
pub const FT4_NN: usize = 105;

/// Symbols in an FT4 sync group.
pub const FT4_LENGTH_SYNC: usize = 4;

/// FT4 sync groups.
pub const FT4_NUM_SYNC: usize = 4;

/// Symbols from the start of one FT4 sync group to the start of the next.
pub const FT4_SYNC_OFFSET: usize = 33;

/// The tones of an FT8 sync group.
pub const FT8_COSTAS_PATTERN: [u8; 7] = [3, 1, 4, 0, 6, 5, 2];

/// The tones of the four FT4 sync groups.
pub const FT4_COSTAS_PATTERN: [[u8; 4]; 4] = [
    [0, 1, 3, 2],
    [1, 0, 2, 3],
    [2, 3, 1, 0],
    [3, 2, 0, 1],
];

/// The FT8 tone for each value of three code bits.
pub const FT8_GRAY_MAP: [u8; 8] = [0, 1, 3, 2, 5, 6, 4, 7];

/// The FT4 tone for each value of two code bits.
pub const FT4_GRAY_MAP: [u8; 4] = [0, 1, 3, 2];

/// What an FT4 payload is scrambled with before its checksum is computed.
pub const FT4_XOR_SEQUENCE: [u8; 10] = [
    0x4A, 0x5E, 0x89, 0xB4, 0xB0, 0x8A, 0x79, 0x55, 0xBE, 0x28,
];

/// The generator matrix: row `i` selects the payload bits (most significant bit
/// first) whose sum is parity bit `i`.
pub const LDPC_GENERATOR: [[u8; 12]; 83] = [
    [0x83, 0x29, 0xCE, 0x11, 0xBF, 0x31, 0xEA, 0xF5, 0x09, 0xF2, 0x7F, 0xC0],
    [0x76, 0x1C, 0x26, 0x4E, 0x25, 0xC2, 0x59, 0x33, 0x54, 0x93, 0x13, 0x20],
    [0xDC, 0x26, 0x59, 0x02, 0xFB, 0x27, 0x7C, 0x64, 0x10, 0xA1, 0xBD, 0xC0],
    [0x1B, 0x3F, 0x41, 0x78, 0x58, 0xCD, 0x2D, 0xD3, 0x3E, 0xC7, 0xF6, 0x20],
    [0x09, 0xFD, 0xA4, 0xFE, 0xE0, 0x41, 0x95, 0xFD, 0x03, 0x47, 0x83, 0xA0],
    [0x07, 0x7C, 0xCC, 0xC1, 0x1B, 0x88, 0x73, 0xED, 0x5C, 0x3D, 0x48, 0xA0],
    [0x29, 0xB6, 0x2A, 0xFE, 0x3C, 0xA0, 0x36, 0xF4, 0xFE, 0x1A, 0x9D, 0xA0],
    [0x60, 0x54, 0xFA, 0xF5, 0xF3, 0x5D, 0x96, 0xD3, 0xB0, 0xC8, 0xC3, 0xE0],
    [0xE2, 0x07, 0x98, 0xE4, 0x31, 0x0E, 0xED, 0x27, 0x88, 0x4A, 0xE9, 0x00],
    [0x77, 0x5C, 0x9C, 0x08, 0xE8, 0x0E, 0x26, 0xDD, 0xAE, 0x56, 0x31, 0x80],
    [0xB0, 0xB8, 0x11, 0x02, 0x8C, 0x2B, 0xF9, 0x97, 0x21, 0x34, 0x87, 0xC0],
    [0x18, 0xA0, 0xC9, 0x23, 0x1F, 0xC6, 0x0A, 0xDF, 0x5C, 0x5E, 0xA3, 0x20],
    [0x76, 0x47, 0x1E, 0x83, 0x02, 0xA0, 0x72, 0x1E, 0x01, 0xB1, 0x2B, 0x80],
    [0xFF, 0xBC, 0xCB, 0x80, 0xCA, 0x83, 0x41, 0xFA, 0xFB, 0x47, 0xB2, 0xE0],
    [0x66, 0xA7, 0x2A, 0x15, 0x8F, 0x93, 0x25, 0xA2, 0xBF, 0x67, 0x17, 0x00],
    [0xC4, 0x24, 0x36, 0x89, 0xFE, 0x85, 0xB1, 0xC5, 0x13, 0x63, 0xA1, 0x80],
    [0x0D, 0xFF, 0x73, 0x94, 0x14, 0xD1, 0xA1, 0xB3, 0x4B, 0x1C, 0x27, 0x00],
    [0x15, 0xB4, 0x88, 0x30, 0x63, 0x6C, 0x8B, 0x99, 0x89, 0x49, 0x72, 0xE0],
    [0x29, 0xA8, 0x9C, 0x0D, 0x3D, 0xE8, 0x1D, 0x66, 0x54, 0x89, 0xB0, 0xE0],
    [0x4F, 0x12, 0x6F, 0x37, 0xFA, 0x51, 0xCB, 0xE6, 0x1B, 0xD6, 0xB9, 0x40],
    [0x99, 0xC4, 0x72, 0x39, 0xD0, 0xD9, 0x7D, 0x3C, 0x84, 0xE0, 0x94, 0x00],
    [0x19, 0x19, 0xB7, 0x51, 0x19, 0x76, 0x56, 0x21, 0xBB, 0x4F, 0x1E, 0x80],
    [0x09, 0xDB, 0x12, 0xD7, 0x31, 0xFA, 0xEE, 0x0B, 0x86, 0xDF, 0x6B, 0x80],
    [0x48, 0x8F, 0xC3, 0x3D, 0xF4, 0x3F, 0xBD, 0xEE, 0xA4, 0xEA, 0xFB, 0x40],
    [0x82, 0x74, 0x23, 0xEE, 0x40, 0xB6, 0x75, 0xF7, 0x56, 0xEB, 0x5F, 0xE0],
    [0xAB, 0xE1, 0x97, 0xC4, 0x84, 0xCB, 0x74, 0x75, 0x71, 0x44, 0xA9, 0xA0],
    [0x2B, 0x50, 0x0E, 0x4B, 0xC0, 0xEC, 0x5A, 0x6D, 0x2B, 0xDB, 0xDD, 0x00],
    [0xC4, 0x74, 0xAA, 0x53, 0xD7, 0x02, 0x18, 0x76, 0x16, 0x69, 0x36, 0x00],
    [0x8E, 0xBA, 0x1A, 0x13, 0xDB, 0x33, 0x90, 0xBD, 0x67, 0x18, 0xCE, 0xC0],
    [0x75, 0x38, 0x44, 0x67, 0x3A, 0x27, 0x78, 0x2C, 0xC4, 0x20, 0x12, 0xE0],
    [0x06, 0xFF, 0x83, 0xA1, 0x45, 0xC3, 0x70, 0x35, 0xA5, 0xC1, 0x26, 0x80],
    [0x3B, 0x37, 0x41, 0x78, 0x58, 0xCC, 0x2D, 0xD3, 0x3E, 0xC3, 0xF6, 0x20],
    [0x9A, 0x4A, 0x5A, 0x28, 0xEE, 0x17, 0xCA, 0x9C, 0x32, 0x48, 0x42, 0xC0],
    [0xBC, 0x29, 0xF4, 0x65, 0x30, 0x9C, 0x97, 0x7E, 0x89, 0x61, 0x0A, 0x40],
    [0x26, 0x63, 0xAE, 0x6D, 0xDF, 0x8B, 0x5C, 0xE2, 0xBB, 0x29, 0x48, 0x80],
    [0x46, 0xF2, 0x31, 0xEF, 0xE4, 0x57, 0x03, 0x4C, 0x18, 0x14, 0x41, 0x80],
    [0x3F, 0xB2, 0xCE, 0x85, 0xAB, 0xE9, 0xB0, 0xC7, 0x2E, 0x06, 0xFB, 0xE0],
    [0xDE, 0x87, 0x48, 0x1F, 0x28, 0x2C, 0x15, 0x39, 0x71, 0xA0, 0xA2, 0xE0],
    [0xFC, 0xD7, 0xCC, 0xF2, 0x3C, 0x69, 0xFA, 0x99, 0xBB, 0xA1, 0x41, 0x20],
    [0xF0, 0x26, 0x14, 0x47, 0xE9, 0x49, 0x0C, 0xA8, 0xE4, 0x74, 0xCE, 0xC0],
    [0x44, 0x10, 0x11, 0x58, 0x18, 0x19, 0x6F, 0x95, 0xCD, 0xD7, 0x01, 0x20],
    [0x08, 0x8F, 0xC3, 0x1D, 0xF4, 0xBF, 0xBD, 0xE2, 0xA4, 0xEA, 0xFB, 0x40],
    [0xB8, 0xFE, 0xF1, 0xB6, 0x30, 0x77, 0x29, 0xFB, 0x0A, 0x07, 0x8C, 0x00],
    [0x5A, 0xFE, 0xA7, 0xAC, 0xCC, 0xB7, 0x7B, 0xBC, 0x9D, 0x99, 0xA9, 0x00],
    [0x49, 0xA7, 0x01, 0x6A, 0xC6, 0x53, 0xF6, 0x5E, 0xCD, 0xC9, 0x07, 0x60],
    [0x19, 0x44, 0xD0, 0x85, 0xBE, 0x4E, 0x7D, 0xA8, 0xD6, 0xCC, 0x7D, 0x00],
    [0x25, 0x1F, 0x62, 0xAD, 0xC4, 0x03, 0x2F, 0x0E, 0xE7, 0x14, 0x00, 0x20],
    [0x56, 0x47, 0x1F, 0x87, 0x02, 0xA0, 0x72, 0x1E, 0x00, 0xB1, 0x2B, 0x80],
    [0x2B, 0x8E, 0x49, 0x23, 0xF2, 0xDD, 0x51, 0xE2, 0xD5, 0x37, 0xFA, 0x00],
    [0x6B, 0x55, 0x0A, 0x40, 0xA6, 0x6F, 0x47, 0x55, 0xDE, 0x95, 0xC2, 0x60],
    [0xA1, 0x8A, 0xD2, 0x8D, 0x4E, 0x27, 0xFE, 0x92, 0xA4, 0xF6, 0xC8, 0x40],
    [0x10, 0xC2, 0xE5, 0x86, 0x38, 0x8C, 0xB8, 0x2A, 0x3D, 0x80, 0x75, 0x80],
    [0xEF, 0x34, 0xA4, 0x18, 0x17, 0xEE, 0x02, 0x13, 0x3D, 0xB2, 0xEB, 0x00],
    [0x7E, 0x9C, 0x0C, 0x54, 0x32, 0x5A, 0x9C, 0x15, 0x83, 0x6E, 0x00, 0x00],
    [0x36, 0x93, 0xE5, 0x72, 0xD1, 0xFD, 0xE4, 0xCD, 0xF0, 0x79, 0xE8, 0x60],
    [0xBF, 0xB2, 0xCE, 0xC5, 0xAB, 0xE1, 0xB0, 0xC7, 0x2E, 0x07, 0xFB, 0xE0],
    [0x7E, 0xE1, 0x82, 0x30, 0xC5, 0x83, 0xCC, 0xCC, 0x57, 0xD4, 0xB0, 0x80],
    [0xA0, 0x66, 0xCB, 0x2F, 0xED, 0xAF, 0xC9, 0xF5, 0x26, 0x64, 0x12, 0x60],
    [0xBB, 0x23, 0x72, 0x5A, 0xBC, 0x47, 0xCC, 0x5F, 0x4C, 0xC4, 0xCD, 0x20],
    [0xDE, 0xD9, 0xDB, 0xA3, 0xBE, 0xE4, 0x0C, 0x59, 0xB5, 0x60, 0x9B, 0x40],
    [0xD9, 0xA7, 0x01, 0x6A, 0xC6, 0x53, 0xE6, 0xDE, 0xCD, 0xC9, 0x03, 0x60],
    [0x9A, 0xD4, 0x6A, 0xED, 0x5F, 0x70, 0x7F, 0x28, 0x0A, 0xB5, 0xFC, 0x40],
    [0xE5, 0x92, 0x1C, 0x77, 0x82, 0x25, 0x87, 0x31, 0x6D, 0x7D, 0x3C, 0x20],
    [0x4F, 0x14, 0xDA, 0x82, 0x42, 0xA8, 0xB8, 0x6D, 0xCA, 0x73, 0x35, 0x20],
    [0x8B, 0x8B, 0x50, 0x7A, 0xD4, 0x67, 0xD4, 0x44, 0x1D, 0xF7, 0x70, 0xE0],
    [0x22, 0x83, 0x1C, 0x9C, 0xF1, 0x16, 0x94, 0x67, 0xAD, 0x04, 0xB6, 0x80],
    [0x21, 0x3B, 0x83, 0x8F, 0xE2, 0xAE, 0x54, 0xC3, 0x8E, 0xE7, 0x18, 0x00],
    [0x5D, 0x92, 0x6B, 0x6D, 0xD7, 0x1F, 0x08, 0x51, 0x81, 0xA4, 0xE1, 0x20],
    [0x66, 0xAB, 0x79, 0xD4, 0xB2, 0x9E, 0xE6, 0xE6, 0x95, 0x09, 0xE5, 0x60],
    [0x95, 0x81, 0x48, 0x68, 0x2D, 0x74, 0x8A, 0x38, 0xDD, 0x68, 0xBA, 0xA0],
    [0xB8, 0xCE, 0x02, 0x0C, 0xF0, 0x69, 0xC3, 0x2A, 0x72, 0x3A, 0xB1, 0x40],
    [0xF4, 0x33, 0x1D, 0x6D, 0x46, 0x16, 0x07, 0xE9, 0x57, 0x52, 0x74, 0x60],
    [0x6D, 0xA2, 0x3B, 0xA4, 0x24, 0xB9, 0x59, 0x61, 0x33, 0xCF, 0x9C, 0x80],
    [0xA6, 0x36, 0xBC, 0xBC, 0x7B, 0x30, 0xC5, 0xFB, 0xEA, 0xE6, 0x7F, 0xE0],
    [0x5C, 0xB0, 0xD8, 0x6A, 0x07, 0xDF, 0x65, 0x4A, 0x90, 0x89, 0xA2, 0x00],
    [0xF1, 0x1F, 0x10, 0x68, 0x48, 0x78, 0x0F, 0xC9, 0xEC, 0xDD, 0x80, 0xA0],
    [0x1F, 0xBB, 0x53, 0x64, 0xFB, 0x8D, 0x2C, 0x9D, 0x73, 0x0D, 0x5B, 0xA0],
    [0xFC, 0xB8, 0x6B, 0xC7, 0x0A, 0x50, 0xC9, 0xD0, 0x2A, 0x5D, 0x03, 0x40],
    [0xA5, 0x34, 0x43, 0x30, 0x29, 0xEA, 0xC1, 0x5F, 0x32, 0x2E, 0x34, 0xC0],
    [0xC9, 0x89, 0xD9, 0xC7, 0xC3, 0xD3, 0xB8, 0xC5, 0x5D, 0x75, 0x13, 0x00],
    [0x7B, 0xB3, 0x8B, 0x2F, 0x01, 0x86, 0xD4, 0x66, 0x43, 0xAE, 0x96, 0x20],
    [0x26, 0x44, 0xEB, 0xAD, 0xEB, 0x44, 0xB9, 0x46, 0x7D, 0x1F, 0x42, 0xC0],
    [0x60, 0x8C, 0xC8, 0x57, 0x59, 0x4B, 0xFB, 0xB5, 0x5D, 0x69, 0x60, 0x00],
];

/// The codeword bits that each parity check sums, numbered from 1; a check of
/// six bits is padded with a zero.
pub const LDPC_NM: [[u8; 7]; 83] = [
    [4, 31, 59, 91, 92, 96, 153],
    [5, 32, 60, 93, 115, 146, 0],
    [6, 24, 61, 94, 122, 151, 0],
    [7, 33, 62, 95, 96, 143, 0],
    [8, 25, 63, 83, 93, 96, 148],
    [6, 32, 64, 97, 126, 138, 0],
    [5, 34, 65, 78, 98, 107, 154],
    [9, 35, 66, 99, 139, 146, 0],
    [10, 36, 67, 100, 107, 126, 0],
    [11, 37, 67, 87, 101, 139, 158],
    [12, 38, 68, 102, 105, 155, 0],
    [13, 39, 69, 103, 149, 162, 0],
    [8, 40, 70, 82, 104, 114, 145],
    [14, 41, 71, 88, 102, 123, 156],
    [15, 42, 59, 106, 123, 159, 0],
    [1, 33, 72, 106, 107, 157, 0],
    [16, 43, 73, 108, 141, 160, 0],
    [17, 37, 74, 81, 109, 131, 154],
    [11, 44, 75, 110, 121, 166, 0],
    [45, 55, 64, 111, 130, 161, 173],
    [8, 46, 71, 112, 119, 166, 0],
    [18, 36, 76, 89, 113, 114, 143],
    [19, 38, 77, 104, 116, 163, 0],
    [20, 47, 70, 92, 138, 165, 0],
    [2, 48, 74, 113, 128, 160, 0],
    [21, 45, 78, 83, 117, 121, 151],
    [22, 47, 58, 118, 127, 164, 0],
    [16, 39, 62, 112, 134, 158, 0],
    [23, 43, 79, 120, 131, 145, 0],
    [19, 35, 59, 73, 110, 125, 161],
    [20, 36, 63, 94, 136, 161, 0],
    [14, 31, 79, 98, 132, 164, 0],
    [3, 44, 80, 124, 127, 169, 0],
    [19, 46, 81, 117, 135, 167, 0],
    [7, 49, 58, 90, 100, 105, 168],
    [12, 50, 61, 118, 119, 144, 0],
    [13, 51, 64, 114, 118, 157, 0],
    [24, 52, 76, 129, 148, 149, 0],
    [25, 53, 69, 90, 101, 130, 156],
    [20, 46, 65, 80, 120, 140, 170],
    [21, 54, 77, 100, 140, 171, 0],
    [35, 82, 133, 142, 171, 174, 0],
    [14, 30, 83, 113, 125, 170, 0],
    [4, 29, 68, 120, 134, 173, 0],
    [1, 4, 52, 57, 86, 136, 152],
    [26, 51, 56, 91, 122, 137, 168],
    [52, 84, 110, 115, 145, 168, 0],
    [7, 50, 81, 99, 132, 173, 0],
    [23, 55, 67, 95, 172, 174, 0],
    [26, 41, 77, 109, 141, 148, 0],
    [2, 27, 41, 61, 62, 115, 133],
    [27, 40, 56, 124, 125, 126, 0],
    [18, 49, 55, 124, 141, 167, 0],
    [6, 33, 85, 108, 116, 156, 0],
    [28, 48, 70, 85, 105, 129, 158],
    [9, 54, 63, 131, 147, 155, 0],
    [22, 53, 68, 109, 121, 174, 0],
    [3, 13, 48, 78, 95, 123, 0],
    [31, 69, 133, 150, 155, 169, 0],
    [12, 43, 66, 89, 97, 135, 159],
    [5, 39, 75, 102, 136, 167, 0],
    [2, 54, 86, 101, 135, 164, 0],
    [15, 56, 87, 108, 119, 171, 0],
    [10, 44, 82, 91, 111, 144, 149],
    [23, 34, 71, 94, 127, 153, 0],
    [11, 49, 88, 92, 142, 157, 0],
    [29, 34, 87, 97, 147, 162, 0],
    [30, 50, 60, 86, 137, 142, 162],
    [10, 53, 66, 84, 112, 128, 165],
    [22, 57, 85, 93, 140, 159, 0],
    [28, 32, 72, 103, 132, 166, 0],
    [28, 29, 84, 88, 117, 143, 150],
    [1, 26, 45, 80, 128, 147, 0],
    [17, 27, 89, 103, 116, 153, 0],
    [51, 57, 98, 163, 165, 172, 0],
    [21, 37, 73, 138, 152, 169, 0],
    [16, 47, 76, 130, 137, 154, 0],
    [3, 24, 30, 72, 104, 139, 0],
    [9, 40, 90, 106, 134, 151, 0],
    [15, 58, 60, 74, 111, 150, 163],
    [18, 42, 79, 144, 146, 152, 0],
    [25, 38, 65, 99, 122, 160, 0],
    [17, 42, 75, 129, 170, 172, 0],
];

/// The three parity checks that each codeword bit takes part in, numbered
/// from 1.
pub const LDPC_MN: [[u8; 3]; 174] = [
    [16, 45, 73],
    [25, 51, 62],
    [33, 58, 78],
    [1, 44, 45],
    [2, 7, 61],
    [3, 6, 54],
    [4, 35, 48],
    [5, 13, 21],
    [8, 56, 79],
    [9, 64, 69],
    [10, 19, 66],
    [11, 36, 60],
    [12, 37, 58],
    [14, 32, 43],
    [15, 63, 80],
    [17, 28, 77],
    [18, 74, 83],
    [22, 53, 81],
    [23, 30, 34],
    [24, 31, 40],
    [26, 41, 76],
    [27, 57, 70],
    [29, 49, 65],
    [3, 38, 78],
    [5, 39, 82],
    [46, 50, 73],
    [51, 52, 74],
    [55, 71, 72],
    [44, 67, 72],
    [43, 68, 78],
    [1, 32, 59],
    [2, 6, 71],
    [4, 16, 54],
    [7, 65, 67],
    [8, 30, 42],
    [9, 22, 31],
    [10, 18, 76],
    [11, 23, 82],
    [12, 28, 61],
    [13, 52, 79],
    [14, 50, 51],
    [15, 81, 83],
    [17, 29, 60],
    [19, 33, 64],
    [20, 26, 73],
    [21, 34, 40],
    [24, 27, 77],
    [25, 55, 58],
    [35, 53, 66],
    [36, 48, 68],
    [37, 46, 75],
    [38, 45, 47],
    [39, 57, 69],
    [41, 56, 62],
    [20, 49, 53],
    [46, 52, 63],
    [45, 70, 75],
    [27, 35, 80],
    [1, 15, 30],
    [2, 68, 80],
    [3, 36, 51],
    [4, 28, 51],
    [5, 31, 56],
    [6, 20, 37],
    [7, 40, 82],
    [8, 60, 69],
    [9, 10, 49],
    [11, 44, 57],
    [12, 39, 59],
    [13, 24, 55],
    [14, 21, 65],
    [16, 71, 78],
    [17, 30, 76],
    [18, 25, 80],
    [19, 61, 83],
    [22, 38, 77],
    [23, 41, 50],
    [7, 26, 58],
    [29, 32, 81],
    [33, 40, 73],
    [18, 34, 48],
    [13, 42, 64],
    [5, 26, 43],
    [47, 69, 72],
    [54, 55, 70],
    [45, 62, 68],
    [10, 63, 67],
    [14, 66, 72],
    [22, 60, 74],
    [35, 39, 79],
    [1, 46, 64],
    [1, 24, 66],
    [2, 5, 70],
    [3, 31, 65],
    [4, 49, 58],
    [1, 4, 5],
    [6, 60, 67],
    [7, 32, 75],
    [8, 48, 82],
    [9, 35, 41],
    [10, 39, 62],
    [11, 14, 61],
    [12, 71, 74],
    [13, 23, 78],
    [11, 35, 55],
    [15, 16, 79],
    [7, 9, 16],
    [17, 54, 63],
    [18, 50, 57],
    [19, 30, 47],
    [20, 64, 80],
    [21, 28, 69],
    [22, 25, 43],
    [13, 22, 37],
    [2, 47, 51],
    [23, 54, 74],
    [26, 34, 72],
    [27, 36, 37],
    [21, 36, 63],
    [29, 40, 44],
    [19, 26, 57],
    [3, 46, 82],
    [14, 15, 58],
    [33, 52, 53],
    [30, 43, 52],
    [6, 9, 52],
    [27, 33, 65],
    [25, 69, 73],
    [38, 55, 83],
    [20, 39, 77],
    [18, 29, 56],
    [32, 48, 71],
    [42, 51, 59],
    [28, 44, 79],
    [34, 60, 62],
    [31, 45, 61],
    [46, 68, 77],
    [6, 24, 76],
    [8, 10, 78],
    [40, 41, 70],
    [17, 50, 53],
    [42, 66, 68],
    [4, 22, 72],
    [36, 64, 81],
    [13, 29, 47],
    [2, 8, 81],
    [56, 67, 73],
    [5, 38, 50],
    [12, 38, 64],
    [59, 72, 80],
    [3, 26, 79],
    [45, 76, 81],
    [1, 65, 74],
    [7, 18, 77],
    [11, 56, 59],
    [14, 39, 54],
    [16, 37, 66],
    [10, 28, 55],
    [15, 60, 70],
    [17, 25, 82],
    [20, 30, 31],
    [12, 67, 68],
    [23, 75, 80],
    [27, 32, 62],
    [24, 69, 75],
    [19, 21, 71],
    [34, 53, 61],
    [35, 46, 47],
    [33, 59, 76],
    [40, 43, 83],
    [41, 42, 63],
    [49, 75, 83],
    [20, 44, 48],
    [42, 49, 57],
];

/// How many codeword bits each parity check sums.
pub const LDPC_NUM_ROWS: [u8; 83] = [
    7, 6, 6, 6, 7, 6, 7, 6, 6, 7, 6, 6, 7, 7, 6, 6, 6, 7, 6, 7,
    6, 7, 6, 6, 6, 7, 6, 6, 6, 7, 6, 6, 6, 6, 7, 6, 6, 6, 7, 7,
    6, 6, 6, 6, 7, 7, 6, 6, 6, 6, 7, 6, 6, 6, 7, 6, 6, 6, 6, 7,
    6, 6, 6, 7, 6, 6, 6, 7, 7, 6, 6, 7, 6, 6, 6, 6, 6, 6, 6, 7,
    6, 6, 6,
];

} // verus!
