//! The 77-bit FTx message payload: type dispatch, callsign and grid packing.
//!
//! Rendered here: type 1/2 (standard: CQ, grid exchanges, reports,
//! RRR/RR73/73), type 0.0 (free text) and type 0.5 (telemetry). The contest and
//! nonstandard-callsign types (0.1 to 0.4, 0.6, 3, 4, 5) are identified only.

use vstd::prelude::*;
use crate::bits;
use crate::text::Str;

pub use crate::callsign::{pack_basecall, CallsignHash, NoHash};

verus! {

/// Bytes holding the 77-bit payload.
pub const PAYLOAD_BYTES: usize = 10;

/// How many 22-bit hashes there are.
pub const MAX22: u32 = 4_194_304;

/// How many of the 28-bit call numbers are set aside for tokens.
pub const NTOKENS: u32 = 2_063_592;

/// How many four-character grids there are.
pub const MAXGRID4: u16 = 32_400;

/// A callsign as rendered: up to 11 characters, plus `/P` or `/R`, plus the
/// angle brackets a hash-recovered call is shown in.
pub type Callsign = Str<16>;

/// The third field: a grid, a report, `RRR`/`RR73`/`73`, or nothing.
pub type Extra = Str<8>;

/// The kinds of message.
#[derive(Clone, Copy, PartialEq, Eq, Structural, Debug)]
pub enum MessageType {
    FreeText,
    DxPedition,
    EuVhf,
    ArrlFd,
    Telemetry,
    Contesting,
    Standard,
    ArrlRtty,
    NonstdCall,
    Wwrof,
    Unknown,
}

/// What a rendered field turned out to be, enough for a UI to colour a callsign
/// differently from a report, or to make a decode clickable.
#[derive(Clone, Copy, PartialEq, Eq, Structural, Debug, Default)]
pub enum Field {
    #[default]
    Unknown,
    /// Nothing was sent.
    Empty,
    /// `RRR`, `RR73`, `73`, `DE`, `QRZ`, `CQ`
    Token,
    /// `CQ nnn`, `CQ ABCD`
    TokenWithArg,
    Call,
    Grid,
    Rst,
}

/// Why a message could not be packed or rendered.
#[derive(Clone, Copy, PartialEq, Eq, Structural, Debug)]
pub enum Error {
    Callsign1,
    Callsign2,
    Suffix,
    Grid,
    /// The message is well-formed but of a type this crate does not render yet.
    UnsupportedType(MessageType),
}

/// A decoded standard message: `call_to`, `call_de` and the third field.
#[derive(Clone, Copy, Debug)]
pub struct StdMessage {
    pub call_to: Callsign,
    pub call_de: Callsign,
    pub extra: Extra,
    pub fields: [Field; 3],
}

/// The 77-bit payload.
#[derive(Clone, Copy, PartialEq, Eq, Debug, Default)]
pub struct Message {
    pub payload: [u8; PAYLOAD_BYTES],
}

/// The type selector of a payload: bits 74 to 76.
pub open spec fn selector(p: Seq<u8>) -> int {
    (bits::value10(p) / 8) % 8
}

/// The sub-type selector of a payload: bits 71 to 73.
pub open spec fn subselector(p: Seq<u8>) -> int {
    (bits::value10(p) / 64) % 8
}

/// The kind of message that a payload holds.
pub open spec fn kind(p: Seq<u8>) -> MessageType {
    let (i3, n3) = (selector(p), subselector(p));
    if i3 == 0 {
        if n3 == 0 {
            MessageType::FreeText
        } else if n3 == 1 {
            MessageType::DxPedition
        } else if n3 == 2 {
            MessageType::EuVhf
        } else if n3 == 3 || n3 == 4 {
            MessageType::ArrlFd
        } else if n3 == 5 {
            MessageType::Telemetry
        } else if n3 == 6 {
            MessageType::Contesting
        } else {
            MessageType::Unknown
        }
    } else if i3 == 1 || i3 == 2 {
        MessageType::Standard
    } else if i3 == 3 {
        MessageType::ArrlRtty
    } else if i3 == 4 {
        MessageType::NonstdCall
    } else if i3 == 5 {
        MessageType::Wwrof
    } else {
        MessageType::Unknown
    }
}

/// The first 71 bits of a payload, right-aligned into 9 bytes: each byte takes
/// the bottom bit of the one before it.
pub open spec fn shifted(p: Seq<u8>) -> Seq<u8> {
    Seq::new(
        9,
        |k: int| ((if k > 0 { (p[k - 1] % 2) * 128int } else { 0 }) + p[k] / 2) as u8,
    )
}

/// A hexadecimal digit.
pub open spec fn hex_glyph(n: int) -> u8 {
    if n < 10 { ('0' as int + n) as u8 } else { ('A' as int + n - 10) as u8 }
}

/// The telemetry digits of a payload, two for each byte.
pub open spec fn hex_text(p: Seq<u8>) -> Seq<u8> {
    Seq::new(
        18,
        |i: int|
            {
                let b = shifted(p)[i / 2];
                hex_glyph(if i % 2 == 0 { b as int / 16 } else { b as int % 16 })
            },
    )
}

impl Message {
    /// A message from its payload.
    pub fn from_payload(payload: [u8; PAYLOAD_BYTES]) -> (r: Self)
        ensures
            r.payload == payload,
    {
        Message { payload }
    }

    /// Message type selector, bits 74..76.
    pub fn i3(&self) -> (r: u8)
        ensures
            r == selector(self.payload@),
    {
        let b: u8 = self.payload[9];
        assert((b >> 3) & 0x07 == (b / 8) % 8) by (bit_vector);
        (b >> 3) & 0x07
    }

    /// Sub-type selector for `i3 == 0`, bits 71..73.
    pub fn n3(&self) -> (r: u8)
        ensures
            r == subselector(self.payload@),
    {
        let (a, b): (u8, u8) = (self.payload[8], self.payload[9]);
        assert(((a << 2) & 0x04) | ((b >> 6) & 0x03) == (a % 2) * 4 + b / 64) by (bit_vector);
        ((a << 2) & 0x04) | ((b >> 6) & 0x03)
    }

    /// The kind of message, as far as the payload tells.
    pub fn message_type(&self) -> (r: MessageType)
        ensures
            r == kind(self.payload@),
    {
        match self.i3() {
            0 => match self.n3() {
                0 => MessageType::FreeText,
                1 => MessageType::DxPedition,
                2 => MessageType::EuVhf,
                3 => MessageType::ArrlFd,
                4 => MessageType::ArrlFd,
                5 => MessageType::Telemetry,
                6 => MessageType::Contesting,
                _ => MessageType::Unknown,
            },
            1 => MessageType::Standard,
            2 => MessageType::Standard,
            3 => MessageType::ArrlRtty,
            4 => MessageType::NonstdCall,
            5 => MessageType::Wwrof,
            _ => MessageType::Unknown,
        }
    }

    /// The 71 payload bits, right-aligned into 9 bytes. Shared by free text and
    /// telemetry, which are the same bits read two different ways.
    #[verifier::spinoff_prover]
    pub fn telemetry(&self) -> (r: [u8; 9])
        ensures
            r@ == shifted(self.payload@),
            bits::value9(r@) == bits::value10(self.payload@) / 512,
    {
        let mut out: [u8; 9] = [0; 9];
        let mut carry: u8 = 0;
        let mut k: usize = 0;
        while k < 9
            invariant
                k <= 9,
                carry == if k > 0 { self.payload@[k - 1] % 2 } else { 0 },
                forall|j: int| 0 <= j < k ==> out@[j] == shifted(self.payload@)[j],
            decreases 9 - k,
        {
            let p: u8 = self.payload[k];
            assert((carry << 7) | (p >> 1) == carry * 128 + p / 2 && p & 0x01 == p % 2)
                by (bit_vector)
                requires
                    carry <= 1,
            ;
            out[k] = (carry << 7) | (p >> 1);
            carry = p & 0x01;
            k += 1;
        }
        proof {
            assert(out@ =~= shifted(self.payload@));
            let p = self.payload@;
            assert(2 * bits::value9(out@) + p[8] % 2 == bits::value9(p));
        }
        out
    }

    /// The telemetry payload in hexadecimal.
    pub fn telemetry_hex(&self) -> (r: Str<19>)
        ensures
            r@ == hex_text(self.payload@),
    {
        let b71: [u8; 9] = self.telemetry();
        let mut out: Str<19> = Str::new();
        let mut k: usize = 0;
        while k < 9
            invariant
                k <= 9,
                b71@ == shifted(self.payload@),
                out@ =~= hex_text(self.payload@).take(2 * k),
            decreases 9 - k,
        {
            let b: u8 = b71[k];
            assert(b >> 4 == b / 16 && b & 0x0F == b % 16) by (bit_vector);
            out.push(hex_digit(b >> 4));
            out.push(hex_digit(b & 0x0F));
            k += 1;
        }
        assert(out@ =~= hex_text(self.payload@));
        out
    }
}

/// The hexadecimal digit of a nibble.
fn hex_digit(n: u8) -> (r: u8)
    requires
        n < 16,
    ensures
        r == hex_glyph(n as int),
{
    if n < 10 {
        '0' as u8 + n
    } else {
        'A' as u8 + (n - 10)
    }
}

} // verus!
