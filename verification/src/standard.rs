//! Type 1/2 standard messages: two calls, a third field and the type.
//!
//! From the top of the 80 bits: 28 bits of a call and a flag for its suffix,
//! twice; a flag and 15 bits for the third field; three bits of type; three
//! bits that stay clear.

use vstd::prelude::*;
use crate::bits;
use crate::callsign;
use crate::callsign::{pack28, suffixed, unpack28, CallsignHash};
use crate::grid;
use crate::grid::{pack_grid, unpack_grid};
use crate::message;
use crate::message::{Callsign, Error, Extra, Field, Message, StdMessage, PAYLOAD_BYTES};

verus! {

/// The type that carries the suffixes of both calls: 2 for `/P`, else 1.
pub open spec fn suffix_type(to: Seq<u8>, de: Seq<u8>) -> int {
    if callsign::ends_with(to, 'P') || callsign::ends_with(de, 'P') { 2 } else { 1 }
}

/// Does one call end with `/P` and the other with `/R`? No type carries both.
pub open spec fn suffixes_clash(to: Seq<u8>, de: Seq<u8>) -> bool {
    &&& callsign::ends_with(to, 'P') || callsign::ends_with(de, 'P')
    &&& callsign::ends_with(to, 'R') || callsign::ends_with(de, 'R')
}

/// Why two calls cannot be sent in a standard message, if they cannot.
pub open spec fn std_error(to: Seq<u8>, de: Seq<u8>) -> Option<Error> {
    if callsign::call_number(to) is None {
        Some(Error::Callsign1)
    } else if callsign::call_number(de) is None {
        Some(Error::Callsign2)
    } else if suffixes_clash(to, de) {
        Some(Error::Suffix)
    } else {
        None
    }
}

/// The payload of a standard message as a number.
pub open spec fn std_value(to: Seq<u8>, de: Seq<u8>, extra: Seq<u8>) -> int {
    let (a, _) = callsign::call_number(to)->0;
    let (b, ipb) = callsign::call_number(de)->0;
    let ipa = if callsign::has_suffix(to) { 1int } else { 0 };
    (2 * a + ipa) * 0x8_0000_0000_0000 + (2 * b + ipb) * 0x40_0000 + grid::extra_number(extra)
        * 0x40 + suffix_type(to, de) * 8
}

/// The number of the call that a payload is addressed to.
pub open spec fn to_number(p: Seq<u8>) -> int {
    bits::value10(p) / 0x10_0000_0000_0000
}

/// The suffix flag of that call.
pub open spec fn to_flag(p: Seq<u8>) -> int {
    (bits::value10(p) / 0x8_0000_0000_0000) % 2
}

/// The number of the call that a payload comes from.
pub open spec fn de_number(p: Seq<u8>) -> int {
    (bits::value10(p) / 0x80_0000) % 0x1000_0000
}

/// The suffix flag of that call.
pub open spec fn de_flag(p: Seq<u8>) -> int {
    (bits::value10(p) / 0x40_0000) % 2
}

/// The flag for a leading `R` in the third field.
pub open spec fn extra_flag(p: Seq<u8>) -> int {
    (bits::value10(p) / 0x20_0000) % 2
}

/// The number of the third field.
pub open spec fn extra_bits(p: Seq<u8>) -> int {
    (bits::value10(p) / 0x40) % 0x8000
}

/// How the call that a payload is addressed to renders.
pub open spec fn to_rendered(p: Seq<u8>, known: Option<Seq<u8>>) -> Option<(Seq<u8>, Field)> {
    callsign::rendered(to_number(p), to_flag(p), message::selector(p), known)
}

/// How the call that a payload comes from renders.
pub open spec fn de_rendered(p: Seq<u8>, known: Option<Seq<u8>>) -> Option<(Seq<u8>, Field)> {
    callsign::rendered(de_number(p), de_flag(p), message::selector(p), known)
}

/// Is `r` what a payload decodes to, where the two `known` are the calls that its
/// hashes stand for?
pub open spec fn decodes_to(
    p: Seq<u8>,
    known_to: Option<Seq<u8>>,
    known_de: Option<Seq<u8>>,
    r: Result<StdMessage, Error>,
) -> bool {
    match (to_rendered(p, known_to), de_rendered(p, known_de)) {
        (None, _) => r == Err::<StdMessage, Error>(Error::Callsign1),
        (Some(_), None) => r == Err::<StdMessage, Error>(Error::Callsign2),
        (Some((to, to_field)), Some((de, de_field))) => {
            let (extra, extra_field) = grid::extra_text(extra_bits(p), extra_flag(p));
            &&& r matches Ok(m)
            &&& m.call_to@ == to
            &&& m.call_de@ == de
            &&& m.extra@ == extra
            &&& m.fields@ == seq![to_field, de_field, extra_field]
        },
    }
}

/// A number of 29 bits put together again from three bytes and five bits.
proof fn lemma_split_high(n: int)
    requires
        0 <= n,
    ensures
        (((n / 0x20_0000) * 256 + (n / 0x2000) % 256) * 256 + (n / 0x20) % 256) * 32 + n % 32 == n,
{
}

/// A number of 29 bits put together again from three bits, three bytes and two
/// bits.
proof fn lemma_split_low(n: int)
    requires
        0 <= n,
    ensures
        ((((n / 0x400_0000) * 256 + (n / 0x4_0000) % 256) * 256 + (n / 0x400) % 256) * 256 + (n / 4)
            % 256) * 4 + n % 4 == n,
{
}

/// The three fields of a standard message packed into bytes.
#[verifier::spinoff_prover]
fn pack_fields(n29a: u32, n29b: u32, igrid4: u16, i3: u8) -> (payload: [u8; PAYLOAD_BYTES])
    requires
        n29a < 0x2000_0000,
        n29b < 0x2000_0000,
        i3 < 8,
    ensures
        bits::value10(payload@) == n29a * 0x8_0000_0000_0000 + n29b * 0x40_0000 + igrid4 * 0x40 + i3
            * 8,
{
    assert({
        &&& (n29a >> 21) as u8 == n29a / 0x20_0000
        &&& (n29a >> 13) as u8 == (n29a / 0x2000) % 256
        &&& (n29a >> 5) as u8 == (n29a / 0x20) % 256
        &&& ((n29a << 3) as u8) | ((n29b >> 26) as u8) == (n29a % 0x20) * 8 + n29b / 0x400_0000
        &&& (n29b >> 18) as u8 == (n29b / 0x4_0000) % 256
        &&& (n29b >> 10) as u8 == (n29b / 0x400) % 256
        &&& (n29b >> 2) as u8 == (n29b / 4) % 256
        &&& ((n29b << 6) as u8) | ((igrid4 >> 10) as u8) == (n29b % 4) * 64 + igrid4 / 1024
        &&& (igrid4 >> 2) as u8 == (igrid4 / 4) % 256
        &&& ((igrid4 << 6) as u8) | (i3 << 3) == (igrid4 % 4) * 64 + i3 * 8
    }) by (bit_vector)
        requires
            n29a < 0x2000_0000,
            n29b < 0x2000_0000,
            i3 < 8,
    ;
    let mut payload: [u8; PAYLOAD_BYTES] = [0; PAYLOAD_BYTES];
    payload[0] = (n29a >> 21) as u8;
    payload[1] = (n29a >> 13) as u8;
    payload[2] = (n29a >> 5) as u8;
    payload[3] = ((n29a << 3) as u8) | ((n29b >> 26) as u8);
    payload[4] = (n29b >> 18) as u8;
    payload[5] = (n29b >> 10) as u8;
    payload[6] = (n29b >> 2) as u8;
    payload[7] = ((n29b << 6) as u8) | ((igrid4 >> 10) as u8);
    payload[8] = (igrid4 >> 2) as u8;
    payload[9] = ((igrid4 << 6) as u8) | (i3 << 3);
    proof {
        let p = payload@;
        lemma_split_high(n29a as int);
        lemma_split_low(n29b as int);
        assert(bits::value10(p) == (((p[0] * 256 + p[1]) * 256 + p[2]) * 32 + n29a % 32)
            * 0x8_0000_0000_0000 + (((((n29b / 0x400_0000) * 256 + p[4]) * 256 + p[5]) * 256 + p[6])
            * 4 + n29b % 4) * 0x40_0000 + (((igrid4 / 1024) * 256 + p[8]) * 4 + igrid4 % 4) * 0x40
            + i3 * 8);
        assert(((igrid4 / 1024) * 256 + (igrid4 / 4) % 256) * 4 + igrid4 % 4 == igrid4);
    }
    payload
}

/// The fields of a payload: both calls with their flags, and the third field with
/// its own.
struct Fields {
    n28a: u32,
    ipa: u8,
    n28b: u32,
    ipb: u8,
    ir: u8,
    igrid4: u16,
}

/// Fields side by side are found again by division.
#[verifier::spinoff_prover]
pub proof fn lemma_fields_of_value(v: int, n29a: int, n29b: int, ir: int, igrid4: int, low: int)
    requires
        v == n29a * 0x8_0000_0000_0000 + n29b * 0x40_0000 + ir * 0x20_0000 + igrid4 * 0x40 + low,
        0 <= n29a,
        0 <= n29b < 0x2000_0000,
        0 <= ir < 2,
        0 <= igrid4 < 0x8000,
        0 <= low < 64,
    ensures
        v / 0x10_0000_0000_0000 == n29a / 2,
        (v / 0x8_0000_0000_0000) % 2 == n29a % 2,
        (v / 0x80_0000) % 0x1000_0000 == n29b / 2,
        (v / 0x40_0000) % 2 == n29b % 2,
        (v / 0x20_0000) % 2 == ir,
        (v / 0x40) % 0x8000 == igrid4,
        (v / 8) % 8 == low / 8,
{
    let calls = n29a * 0x2000_0000 + n29b;
    let extra = (calls * 2 + ir) * 0x8000 + igrid4;
    lemma_quotient(v, 0x40, extra, low);
    lemma_quotient(v, 8, extra * 8 + low / 8, low % 8);
    lemma_quotient(extra * 8 + low / 8, 8, extra, low / 8);
    lemma_quotient(extra, 0x8000, calls * 2 + ir, igrid4);
    lemma_quotient(v, 0x20_0000, calls * 2 + ir, igrid4 * 0x40 + low);
    lemma_quotient(v, 0x40_0000, calls, ir * 0x20_0000 + igrid4 * 0x40 + low);
    let flag_b = n29b % 2;
    lemma_quotient(
        v,
        0x80_0000,
        n29a * 0x1000_0000 + n29b / 2,
        flag_b * 0x40_0000 + ir * 0x20_0000 + igrid4 * 0x40 + low,
    );
    lemma_quotient(n29a * 0x1000_0000 + n29b / 2, 0x1000_0000, n29a, n29b / 2);
    lemma_quotient(
        v,
        0x8_0000_0000_0000,
        n29a,
        n29b * 0x40_0000 + ir * 0x20_0000 + igrid4 * 0x40 + low,
    );
    let flag_a = n29a % 2;
    lemma_quotient(
        v,
        0x10_0000_0000_0000,
        n29a / 2,
        flag_a * 0x8_0000_0000_0000 + n29b * 0x40_0000 + ir * 0x20_0000 + igrid4 * 0x40 + low,
    );
}

/// Quotient and remainder are what their sum is made of.
proof fn lemma_quotient(x: int, d: int, q: int, r: int)
    requires
        d > 0,
        x == q * d + r,
        0 <= r < d,
    ensures
        x / d == q,
        x % d == r,
{
    vstd::arithmetic::div_mod::lemma_fundamental_div_mod_converse(x, d, q, r);
}

/// Read the fields of a payload.
#[verifier::spinoff_prover]
fn unpack_fields(p: &[u8; PAYLOAD_BYTES]) -> (f: Fields)
    ensures
        f.n28a == to_number(p@),
        f.ipa == to_flag(p@),
        f.n28b == de_number(p@),
        f.ipb == de_flag(p@),
        f.ir == extra_flag(p@),
        f.igrid4 == extra_bits(p@),
{
    let (p0, p1, p2, p3, p4): (u8, u8, u8, u8, u8) = (p[0], p[1], p[2], p[3], p[4]);
    let (p5, p6, p7, p8, p9): (u8, u8, u8, u8, u8) = (p[5], p[6], p[7], p[8], p[9]);
    let n29a: u32 = ((p0 as u32) << 21) | ((p1 as u32) << 13) | ((p2 as u32) << 5) | (p3 as u32
        >> 3);
    let n29b: u32 = ((p3 as u32 & 0x07) << 26) | ((p4 as u32) << 18) | ((p5 as u32) << 10) | ((
    p6 as u32) << 2) | (p7 as u32 >> 6);
    let ir: u8 = (p7 & 0x20) >> 5;
    let igrid4: u16 = ((p7 as u16 & 0x1F) << 10) | ((p8 as u16) << 2) | (p9 as u16 >> 6);
    assert({
        &&& n29a == p0 * 0x20_0000 + p1 * 0x2000 + p2 * 0x20 + p3 / 8
        &&& n29b == (p3 % 8) * 0x400_0000 + p4 * 0x4_0000 + p5 * 0x400 + p6 * 4 + p7 / 64
        &&& ir == (p7 / 32) % 2
        &&& igrid4 == (p7 % 32) * 1024 + p8 * 4 + p9 / 64
        &&& n29a >> 1 == n29a / 2
        &&& n29a & 1 == n29a % 2
        &&& n29b >> 1 == n29b / 2
        &&& n29b & 1 == n29b % 2
    }) by (bit_vector)
        requires
            n29a == ((p0 as u32) << 21) | ((p1 as u32) << 13) | ((p2 as u32) << 5) | (p3 as u32
                >> 3),
            n29b == ((p3 as u32 & 0x07) << 26) | ((p4 as u32) << 18) | ((p5 as u32) << 10) | ((
            p6 as u32) << 2) | (p7 as u32 >> 6),
            ir == (p7 & 0x20) >> 5,
            igrid4 == ((p7 as u16 & 0x1F) << 10) | ((p8 as u16) << 2) | (p9 as u16 >> 6),
    ;
    proof {
        let v = bits::value10(p@);
        let low = (p7 % 64) * 0x1_0000 + p8 * 0x100 + p9;
        assert(v == n29a * 0x8_0000_0000_0000 + n29b * 0x40_0000 + low);
        assert(low == ir * 0x20_0000 + igrid4 * 0x40 + p9 % 64);
        lemma_fields_of_value(
            v,
            n29a as int,
            n29b as int,
            ir as int,
            igrid4 as int,
            p9 as int % 64,
        );
    }
    Fields {
        n28a: n29a >> 1,
        ipa: (n29a & 1) as u8,
        n28b: n29b >> 1,
        ipb: (n29b & 1) as u8,
        ir,
        igrid4,
    }
}

impl Message {
    /// Decode a type 1/2 standard message. Hashed calls are looked up in `hash`,
    /// and standard calls are saved there, the one addressed first.
    #[verifier::spinoff_prover]
    pub fn decode_std<H: CallsignHash>(&self, hash: &mut H) -> (r: Result<StdMessage, Error>)
        ensures
            to_rendered(self.payload@, None) is None ==> r == Err::<StdMessage, Error>(
                Error::Callsign1,
            ) && *final(hash) == *old(hash),
            to_rendered(self.payload@, None) is Some ==> exists|
                known_to: Option<Callsign>,
                known_de: Option<Callsign>,
                between: H,
            |
                {
                    &&& #[trigger] callsign::may_know(*old(hash), to_number(self.payload@), known_to)
                    &&& #[trigger] callsign::may_know(between, de_number(self.payload@), known_de)
                    &&& decodes_to(
                        self.payload@,
                        callsign::call_text(known_to),
                        callsign::call_text(known_de),
                        r,
                    )
                    &&& if to_number(self.payload@) < callsign::first_base() {
                        between == *old(hash)
                    } else {
                        exists|m: &mut H, s: &str| #[trigger]
                            call_ensures(H::save, (m, s), ()) && *m == *old(hash) && *final(m)
                                == between && vstd::utf8::encode_utf8(s@) == (to_rendered(
                                self.payload@,
                                None,
                            )->0).0
                    }
                    &&& if de_number(self.payload@) < callsign::first_base() || r is Err {
                        *final(hash) == between
                    } else {
                        exists|m: &mut H, s: &str| #[trigger]
                            call_ensures(H::save, (m, s), ()) && *m == between && *final(m)
                                == *final(hash) && vstd::utf8::encode_utf8(s@) == (de_rendered(
                                self.payload@,
                                None,
                            )->0).0
                    }
                },
    {
        let f: Fields = unpack_fields(&self.payload);
        let i3: u8 = self.i3();
        let (mut to_field, mut de_field, mut extra_field): (Field, Field, Field) = (
            Field::Unknown,
            Field::Unknown,
            Field::Unknown,
        );
        let ghost (a, ipa, t) = (f.n28a as int, f.ipa as int, i3 as int);
        let ghost before = *hash;
        let call_to: Callsign = match unpack28(f.n28a, f.ipa, i3, hash, &mut to_field) {
            Some(call) => call,
            None => {
                return Err(Error::Callsign1);
            },
        };
        let ghost known_to = choose|known: Option<Callsign>| #[trigger]
            callsign::may_know(before, a, known) && callsign::rendered(
                a,
                ipa,
                t,
                callsign::call_text(known),
            ) == Some((call_to@, to_field));
        let call_de: Callsign = match unpack28(f.n28b, f.ipb, i3, hash, &mut de_field) {
            Some(call) => call,
            None => {
                return Err(Error::Callsign2);
            },
        };
        let extra: Extra = match unpack_grid(f.igrid4, f.ir, &mut extra_field) {
            Some(extra) => extra,
            None => {
                return Err(Error::Grid);
            },
        };
        Ok(StdMessage { call_to, call_de, extra, fields: [to_field, de_field, extra_field] })
    }

    /// Encode a type 1/2 standard message. A call that is not standard, and a
    /// `/P` beside a `/R`, are refused.
    #[verifier::spinoff_prover]
    pub fn encode_std(call_to: &str, call_de: &str, extra: &str) -> (r: Result<Self, Error>)
        ensures
            match std_error(
                vstd::utf8::encode_utf8(call_to@),
                vstd::utf8::encode_utf8(call_de@),
            ) {
                Some(e) => r == Err::<Self, Error>(e),
                None => r matches Ok(m) && bits::value10(m.payload@) == std_value(
                    vstd::utf8::encode_utf8(call_to@),
                    vstd::utf8::encode_utf8(call_de@),
                    vstd::utf8::encode_utf8(extra@),
                ),
            },
    {
        let (n28a, ipa): (u32, u8) = match pack28(call_to) {
            Some(call) => call,
            None => {
                return Err(Error::Callsign1);
            },
        };
        let (n28b, ipb): (u32, u8) = match pack28(call_de) {
            Some(call) => call,
            None => {
                return Err(Error::Callsign2);
            },
        };
        let (to, de): (&[u8], &[u8]) = (call_to.as_bytes(), call_de.as_bytes());
        let mut i3: u8 = 1;
        if suffixed(to, 'P') || suffixed(de, 'P') {
            i3 = 2;
            if suffixed(to, 'R') || suffixed(de, 'R') {
                return Err(Error::Suffix);
            }
        }
        let igrid4: u16 = pack_grid(extra);
        let flag: u8 = if suffixed(to, 'R') || suffixed(to, 'P') { 1 } else { ipa };
        let n29a: u32 = n28a * 2 + flag as u32;
        let n29b: u32 = n28b * 2 + ipb as u32;
        Ok(Message { payload: pack_fields(n29a, n29b, igrid4, i3) })
    }
}

} // verus!
