//! The decode list of a slot: what was received, each message once, as text.

use vstd::prelude::*;
use crate::callsign;
use crate::callsign::NoHash;
use crate::candidates;
use crate::constants::LDPC_N;
use crate::crc;
use crate::decode::{Candidate, Protocol, Waterfall};
use crate::free_text;
use crate::grid;
use crate::message;
use crate::message::{Message, MessageType, PAYLOAD_BYTES};
use crate::recover;
use crate::recover::{decode_candidate, DecodeStatus};
use crate::standard;
use crate::text;
use crate::text::Str;

verus! {

/// One decoded transmission.
#[derive(Clone, Copy, Debug)]
pub struct Decode {
    pub message: Message,
    /// Where the signal was found, and its sync strength.
    pub candidate: Candidate,
    pub status: DecodeStatus,
}

/// A label in angle brackets.
pub open spec fn bracketed(label: Seq<u8>) -> Seq<u8> {
    seq!['<' as u8] + label + seq!['>' as u8]
}

/// The label of a kind of message that is not rendered as text.
pub open spec fn kind_label(kind: MessageType) -> Seq<u8> {
    match kind {
        MessageType::DxPedition => vstd::utf8::encode_utf8("DXpedition"@),
        MessageType::EuVhf => vstd::utf8::encode_utf8("EU VHF"@),
        MessageType::ArrlFd => vstd::utf8::encode_utf8("ARRL FD"@),
        MessageType::Contesting => vstd::utf8::encode_utf8("contest"@),
        MessageType::ArrlRtty => vstd::utf8::encode_utf8("ARRL RTTY"@),
        MessageType::NonstdCall => vstd::utf8::encode_utf8("nonstd call"@),
        MessageType::Wwrof => vstd::utf8::encode_utf8("WWROF"@),
        _ => vstd::utf8::encode_utf8("unknown"@),
    }
}

/// A standard message as text: its fields with a space between, where the third
/// may be missing. No hashed call is known.
pub open spec fn standard_text(p: Seq<u8>) -> Seq<u8> {
    match (standard::to_rendered(p, None), standard::de_rendered(p, None)) {
        (Some((to, _)), Some((de, _))) => {
            let (extra, _) = grid::extra_text(standard::extra_bits(p), standard::extra_flag(p));
            let calls = to + seq![' ' as u8] + de;
            if extra.len() == 0 { calls } else { calls + seq![' ' as u8] + extra }
        },
        _ => bracketed(vstd::utf8::encode_utf8("undecodable"@)),
    }
}

/// A message as it is seen in a decode list.
pub open spec fn message_text(p: Seq<u8>) -> Seq<u8> {
    match message::kind(p) {
        MessageType::Standard => standard_text(p),
        MessageType::FreeText => free_text::free_text(p),
        MessageType::Telemetry => message::hex_text(p),
        kind => bracketed(kind_label(kind)),
    }
}

/// A message of a kind that is not rendered shows as a label in angle brackets.
pub proof fn law_other_kinds_show_as_labels(p: Seq<u8>)
    requires
        !(message::kind(p) is Standard),
        !(message::kind(p) is FreeText),
        !(message::kind(p) is Telemetry),
    ensures
        message_text(p).len() > 2,
        message_text(p)[0] == '<' as u8,
        message_text(p).last() == '>' as u8,
{
    lemma_label_lengths();
}

/// A call that was not looked up has at most nine characters.
proof fn lemma_call_length(n28: int, ip: int, i3: int)
    requires
        0 <= n28,
    ensures
        callsign::rendered(n28, ip, i3, None) matches Some((t, _)) ==> t.len() <= 9,
{
    if 2 < n28 <= 1002 {
        text::lemma_three_digits_text(n28 - 3);
    } else if 1002 < n28 <= 532_443 {
        callsign::lemma_letters_length(n28 - 1003);
    } else if n28 >= callsign::first_base() {
        text::lemma_trimmed_part(
            callsign::spelled_out(callsign::base_places(n28 - callsign::first_base())),
        );
    }
}

/// A third field has at most six characters.
proof fn lemma_extra_length(p: Seq<u8>)
    ensures
        grid::extra_text(standard::extra_bits(p), standard::extra_flag(p)).0.len() <= 6,
{
    let v = text::magnitude(standard::extra_bits(p) - message::MAXGRID4 - 35);
    reveal_with_fuel(text::dd_digits, 4);
    assert(text::dd_digits(v, 2).len() == 2);
}

/// No label is empty or has more than eleven bytes.
proof fn lemma_label_lengths()
    ensures
        0 < vstd::utf8::encode_utf8("DXpedition"@).len() <= 11,
        0 < vstd::utf8::encode_utf8("EU VHF"@).len() <= 11,
        0 < vstd::utf8::encode_utf8("ARRL FD"@).len() <= 11,
        0 < vstd::utf8::encode_utf8("contest"@).len() <= 11,
        0 < vstd::utf8::encode_utf8("ARRL RTTY"@).len() <= 11,
        0 < vstd::utf8::encode_utf8("nonstd call"@).len() <= 11,
        0 < vstd::utf8::encode_utf8("WWROF"@).len() <= 11,
        0 < vstd::utf8::encode_utf8("unknown"@).len() <= 11,
        0 < vstd::utf8::encode_utf8("undecodable"@).len() <= 11,
{
    reveal_strlit("DXpedition");
    reveal_strlit("EU VHF");
    reveal_strlit("ARRL FD");
    reveal_strlit("contest");
    reveal_strlit("ARRL RTTY");
    reveal_strlit("nonstd call");
    reveal_strlit("WWROF");
    reveal_strlit("unknown");
    reveal_strlit("undecodable");
    vstd::utf8::is_ascii_chars_encode_utf8("DXpedition"@);
    vstd::utf8::is_ascii_chars_encode_utf8("EU VHF"@);
    vstd::utf8::is_ascii_chars_encode_utf8("ARRL FD"@);
    vstd::utf8::is_ascii_chars_encode_utf8("contest"@);
    vstd::utf8::is_ascii_chars_encode_utf8("ARRL RTTY"@);
    vstd::utf8::is_ascii_chars_encode_utf8("nonstd call"@);
    vstd::utf8::is_ascii_chars_encode_utf8("WWROF"@);
    vstd::utf8::is_ascii_chars_encode_utf8("unknown"@);
    vstd::utf8::is_ascii_chars_encode_utf8("undecodable"@);
}

/// The label of a kind of message that is not rendered as text.
fn label_of(kind: MessageType) -> (r: &'static str)
    ensures
        vstd::utf8::encode_utf8(r@) == kind_label(kind),
{
    match kind {
        MessageType::DxPedition => "DXpedition",
        MessageType::EuVhf => "EU VHF",
        MessageType::ArrlFd => "ARRL FD",
        MessageType::Contesting => "contest",
        MessageType::ArrlRtty => "ARRL RTTY",
        MessageType::NonstdCall => "nonstd call",
        MessageType::Wwrof => "WWROF",
        _ => "unknown",
    }
}

impl Decode {
    /// The message as you would see it in a decode list, e.g. `CQ K1ABC FN42`.
    ///
    /// Message types that are not rendered come back as `<type>`, visible as
    /// "something was here" rather than silently dropped, which is what makes a
    /// missing decode debuggable.
    #[verifier::spinoff_prover]
    pub fn text(&self) -> (r: Str<40>)
        ensures
            r@ == message_text(self.message.payload@),
    {
        let ghost p = self.message.payload@;
        let mut out: Str<40> = Str::new();
        match self.message.message_type() {
            MessageType::Standard => {
                out = standard_line(&self.message);
            },
            MessageType::FreeText => {
                out.push_bytes(self.message.decode_free().as_bytes());
                assert(out@ =~= free_text::free_text(p));
            },
            MessageType::Telemetry => {
                out.push_bytes(self.message.telemetry_hex().as_bytes());
                assert(out@ =~= message::hex_text(p));
            },
            kind => {
                proof {
                    lemma_label_lengths();
                }
                out.push('<' as u8);
                out.push_str(label_of(kind));
                out.push('>' as u8);
                assert(out@ =~= bracketed(kind_label(kind)));
            },
        }
        out
    }
}

/// A standard message as text.
#[verifier::spinoff_prover]
fn standard_line(m: &Message) -> (out: Str<40>)
    ensures
        out@ == standard_text(m.payload@),
{
    let ghost p = m.payload@;
    proof {
        lemma_call_length(standard::to_number(p), standard::to_flag(p), message::selector(p));
        lemma_call_length(standard::de_number(p), standard::de_flag(p), message::selector(p));
        lemma_extra_length(p);
        lemma_label_lengths();
    }
    let mut out: Str<40> = Str::new();
    match m.decode_std(&mut NoHash) {
        Ok(d) => {
            out.push_bytes(d.call_to.as_bytes());
            out.push(' ' as u8);
            out.push_bytes(d.call_de.as_bytes());
            assert(out@ =~= d.call_to@ + seq![' ' as u8] + d.call_de@);
            if !d.extra.is_empty() {
                let ghost calls = out@;
                out.push(' ' as u8);
                out.push_bytes(d.extra.as_bytes());
                assert(out@ =~= calls + seq![' ' as u8] + d.extra@);
            }
        },
        Err(_) => {
            out.push('<' as u8);
            out.push_str("undecodable");
            out.push('>' as u8);
            assert(out@ =~= bracketed(vstd::utf8::encode_utf8("undecodable"@)));
        },
    }
    out
}

/// The status of a corrected codeword with this many parity errors left.
pub open spec fn status_of(plain: Seq<u8>, errors: usize) -> DecodeStatus {
    if errors > 0 {
        DecodeStatus { ldpc_errors: errors, crc_extracted: 0, crc_calculated: 0 }
    } else {
        DecodeStatus {
            ldpc_errors: 0,
            crc_extracted: crc::stored(recover::packed(plain)),
            crc_calculated: crc::checksum(recover::packed(plain)),
        }
    }
}

/// The payload of a corrected codeword, if no parity error is left and its
/// checksum is right.
pub open spec fn payload_of(protocol: Protocol, plain: Seq<u8>, errors: usize) -> Option<Seq<u8>> {
    if errors > 0 { None } else { recover::recovered(protocol, plain) }
}

/// The payloads of the candidates, where there are any.
pub open spec fn payloads(protocol: Protocol, outcomes: Seq<([u8; LDPC_N], usize)>) -> Seq<
    Option<Seq<u8>>,
> {
    Seq::new(
        outcomes.len(),
        |k: int| payload_of(protocol, outcomes[k].0@, outcomes[k].1),
    )
}

/// Is candidate `k` the first with its payload?
pub open spec fn is_first(payloads: Seq<Option<Seq<u8>>>, k: int) -> bool {
    payloads[k] is Some && forall|j: int| 0 <= j < k ==> #[trigger] payloads[j] != payloads[k]
}

/// Which of the first `n` candidates are listed: those that are the first with
/// their payload.
pub open spec fn listed(payloads: Seq<Option<Seq<u8>>>, n: nat) -> Seq<int>
    decreases n,
{
    if n == 0 {
        Seq::empty()
    } else {
        let before = listed(payloads, (n - 1) as nat);
        if is_first(payloads, n - 1) { before.push(n - 1) } else { before }
    }
}

/// Are two payloads the same?
fn same_payload(a: &[u8; PAYLOAD_BYTES], b: &[u8; PAYLOAD_BYTES]) -> (r: bool)
    ensures
        r == (a@ == b@),
{
    let mut i: usize = 0;
    while i < PAYLOAD_BYTES
        invariant
            i <= PAYLOAD_BYTES,
            forall|j: int| 0 <= j < i ==> a@[j] == b@[j],
        decreases PAYLOAD_BYTES - i,
    {
        if a[i] != b[i] {
            return false;
        }
        i += 1;
    }
    assert(a@ =~= b@);
    true
}

/// Is each decode that of the candidate with its index in `list`?
pub open spec fn is_list(
    decodes: Seq<Decode>,
    protocol: Protocol,
    found: Seq<Candidate>,
    outcomes: Seq<([u8; LDPC_N], usize)>,
    list: Seq<int>,
) -> bool {
    &&& decodes.len() == list.len()
    &&& forall|i: int|
        #![trigger decodes[i]]
        #![trigger list[i]]
        0 <= i < list.len() ==> {
            &&& decodes[i].candidate == found[list[i]]
            &&& payloads(protocol, outcomes)[list[i]] == Some(decodes[i].message.payload@)
            &&& decodes[i].status == status_of(outcomes[list[i]].0@, outcomes[list[i]].1)
        }
}

/// Does the list have this payload already?
fn has_payload(out: &Vec<Decode>, payload: &[u8; PAYLOAD_BYTES]) -> (r: bool)
    ensures
        r == exists|i: int|
            0 <= i < out@.len() && (#[trigger] out@[i]).message.payload@ == payload@,
{
    let mut i: usize = 0;
    while i < out.len()
        invariant
            i <= out@.len(),
            forall|j: int| 0 <= j < i ==> (#[trigger] out@[j]).message.payload@ != payload@,
        decreases out@.len() - i,
    {
        if same_payload(&out[i].message.payload, payload) {
            return true;
        }
        i += 1;
    }
    false
}

/// List every message that the corrected codewords of the candidates hold.
///
/// Adjacent candidates routinely resolve to the same transmission, so results are
/// de-duplicated by payload, otherwise one strong station appears half a dozen
/// times. `outcomes` has a codeword and its parity errors for each candidate.
#[verifier::spinoff_prover]
#[verifier::rlimit(40)]
pub fn list_decodes(
    protocol: Protocol,
    found: &[Candidate],
    outcomes: &[([u8; LDPC_N], usize)],
) -> (out: Vec<Decode>)
    requires
        found@.len() == outcomes@.len(),
    ensures
        is_list(
            out@,
            protocol,
            found@,
            outcomes@,
            listed(payloads(protocol, outcomes@), found@.len()),
        ),
{
    let ghost all = payloads(protocol, outcomes@);
    let mut out: Vec<Decode> = Vec::new();
    let mut n: usize = 0;
    while n < found.len()
        invariant
            n <= found@.len() == outcomes@.len(),
            all == payloads(protocol, outcomes@),
            is_list(out@, protocol, found@, outcomes@, listed(all, n as nat)),
        decreases found@.len() - n,
    {
        let ghost list = listed(all, n as nat);
        let (message, status): (Option<Message>, DecodeStatus) = attempt(protocol, &outcomes[n]);
        assert(sent_payload(message) == all[n as int]);
        if let Some(message) = message {
            let known: bool = has_payload(&out, &message.payload);
            proof {
                let sent = Seq::new(out@.len(), |i: int| out@[i].message.payload@);
                assert forall|i: int| 0 <= i < list.len() implies all[#[trigger] list[i]] == Some(
                    sent[i],
                ) by {
                    assert(out@[i].message.payload@ == sent[i]);
                }
                lemma_first_is_new(all, n as int, sent);
                assert(known == exists|i: int|
                    0 <= i < sent.len() && #[trigger] sent[i] == message.payload@) by {
                    if known {
                        let i = choose|i: int|
                            0 <= i < out@.len() && (#[trigger] out@[i]).message.payload@
                                == message.payload@;
                        assert(sent[i] == message.payload@);
                    } else {
                        assert forall|i: int| 0 <= i < sent.len() implies #[trigger] sent[i]
                            != message.payload@ by {
                            assert(out@[i].message.payload@ == sent[i]);
                        }
                    }
                }
            }
            if !known {
                out.push(Decode { message, candidate: found[n], status });
            }
        }
        n += 1;
    }
    out
}

/// The payload of a message that may be missing.
spec fn sent_payload(m: Option<Message>) -> Option<Seq<u8>> {
    match m {
        Some(m) => Some(m.payload@),
        None => None,
    }
}

/// Turn a corrected codeword into a message, if it is one.
fn attempt(protocol: Protocol, outcome: &([u8; LDPC_N], usize)) -> (r: (
    Option<Message>,
    DecodeStatus,
))
    ensures
        sent_payload(r.0) == payload_of(protocol, outcome.0@, outcome.1),
        r.1 == status_of(outcome.0@, outcome.1),
{
    decode_candidate(protocol, &outcome.0, outcome.1)
}

/// A candidate is the first with its payload exactly where that is not among the
/// payloads listed before.
proof fn lemma_first_is_new(all: Seq<Option<Seq<u8>>>, n: int, sent: Seq<Seq<u8>>)
    requires
        0 <= n,
        all[n] is Some,
        sent.len() == listed(all, n as nat).len(),
        forall|i: int| 0 <= i < sent.len() ==> all[#[trigger] listed(all, n as nat)[i]] == Some(
            sent[i],
        ),
    ensures
        is_first(all, n) == !exists|i: int| 0 <= i < sent.len() && #[trigger] sent[i] == all[n]->0,
{
    let list = listed(all, n as nat);
    lemma_listed_members(all, n as nat);
    if exists|i: int| 0 <= i < sent.len() && #[trigger] sent[i] == all[n]->0 {
        let i = choose|i: int| 0 <= i < sent.len() && #[trigger] sent[i] == all[n]->0;
        assert(all[list[i]] == all[n]);
    } else {
        assert forall|j: int| 0 <= j < n implies #[trigger] all[j] != all[n] by {
            if all[j] == all[n] {
                law_every_payload_is_listed(all, n as nat, j);
                let i = choose|i: int|
                    0 <= i < list.len() && (#[trigger] list[i]) <= j && all[list[i]] == all[j];
                assert(sent[i] == all[n]->0);
            }
        }
    }
}

/// Candidates are listed in their order, and with a payload.
proof fn lemma_listed_members(payloads: Seq<Option<Seq<u8>>>, n: nat)
    ensures
        forall|i: int|
            0 <= i < listed(payloads, n).len() ==> 0 <= (#[trigger] listed(payloads, n)[i]) < n
                && is_first(payloads, listed(payloads, n)[i]),
        forall|i: int, j: int|
            0 <= i < j < listed(payloads, n).len() ==> (#[trigger] listed(payloads, n)[i]) < (
            #[trigger] listed(payloads, n)[j]),
    decreases n,
{
    if n > 0 {
        let before = listed(payloads, (n - 1) as nat);
        let list = listed(payloads, n);
        lemma_listed_members(payloads, (n - 1) as nat);
        assert forall|i: int| 0 <= i < list.len() implies 0 <= (#[trigger] list[i]) < n && is_first(
            payloads,
            list[i],
        ) by {
            if i < before.len() {
                assert(list[i] == before[i]);
            }
        }
        assert forall|i: int, j: int| 0 <= i < j < list.len() implies (#[trigger] list[i]) < (
        #[trigger] list[j]) by {
            assert(list[i] == before[i]);
            if j < before.len() {
                assert(list[j] == before[j]);
            }
        }
    }
}

/// No payload is listed twice, and candidates are listed in their order.
pub proof fn law_payloads_are_listed_once(
    payloads: Seq<Option<Seq<u8>>>,
    n: nat,
    i: int,
    j: int,
)
    requires
        0 <= i < j < listed(payloads, n).len(),
    ensures
        listed(payloads, n)[i] < listed(payloads, n)[j],
        payloads[listed(payloads, n)[i]] != payloads[listed(payloads, n)[j]],
{
    lemma_listed_members(payloads, n);
    let (a, b) = (listed(payloads, n)[i], listed(payloads, n)[j]);
    assert(is_first(payloads, b));
    assert(payloads[a] != payloads[b]);
}

/// Every payload that is recovered is listed, with the first candidate that it was
/// recovered from: of candidates by descending score, one that scores no lower.
pub proof fn law_every_payload_is_listed(payloads: Seq<Option<Seq<u8>>>, n: nat, k: int)
    requires
        0 <= k < n,
        payloads[k] is Some,
    ensures
        exists|i: int|
            0 <= i < listed(payloads, n).len() && (#[trigger] listed(payloads, n)[i]) <= k
                && payloads[listed(payloads, n)[i]] == payloads[k],
    decreases n, k,
{
    let list = listed(payloads, n);
    if !is_first(payloads, k) {
        let j = choose|j: int| 0 <= j < k && #[trigger] payloads[j] == payloads[k];
        law_every_payload_is_listed(payloads, n, j);
        let i = choose|i: int|
            0 <= i < list.len() && (#[trigger] list[i]) <= j && payloads[list[i]] == payloads[j];
        assert(list[i] <= k);
    } else if k < n - 1 {
        let before = listed(payloads, (n - 1) as nat);
        law_every_payload_is_listed(payloads, (n - 1) as nat, k);
        let i = choose|i: int|
            0 <= i < before.len() && (#[trigger] before[i]) <= k && payloads[before[i]]
                == payloads[k];
        assert(list[i] == before[i]);
    } else {
        assert(list[list.len() - 1] == k);
    }
}

/// Is a decode that of candidate `k`, the first with its payload?
pub open spec fn is_of(
    decode: Decode,
    found: Seq<Candidate>,
    payloads: Seq<Option<Seq<u8>>>,
    k: int,
) -> bool {
    &&& 0 <= k < found.len()
    &&& is_first(payloads, k)
    &&& decode.candidate == found[k]
    &&& payloads[k] == Some(decode.message.payload@)
}

/// The decodes of a search: each payload is there once, by descending score and
/// none below the minimum, there are no more of them than candidates were asked
/// for, and each payload that was recovered is there with the first candidate that
/// it was recovered from.
#[verifier::spinoff_prover]
pub proof fn law_slot_is_listed(
    wf: Waterfall,
    min_score: int,
    slots: int,
    found: Seq<Candidate>,
    outcomes: Seq<([u8; LDPC_N], usize)>,
    decodes: Seq<Decode>,
)
    requires
        candidates::are_best(wf, min_score, found, slots),
        found.len() == outcomes.len(),
        is_list(
            decodes,
            wf.protocol,
            found,
            outcomes,
            listed(payloads(wf.protocol, outcomes), found.len()),
        ),
    ensures
        decodes.len() <= found.len() <= slots,
        forall|i: int, j: int|
            0 <= i < j < decodes.len() ==> (#[trigger] decodes[i]).message.payload@ != (
            #[trigger] decodes[j]).message.payload@ && decodes[i].candidate.score
                >= decodes[j].candidate.score,
        forall|i: int|
            0 <= i < decodes.len() ==> (#[trigger] decodes[i]).candidate.score >= min_score,
        forall|k: int|
            0 <= k < found.len() && (#[trigger] payloads(wf.protocol, outcomes)[k]) is Some
                ==> exists|i: int|
                0 <= i < decodes.len() && Some((#[trigger] decodes[i]).message.payload@) == payloads(
                    wf.protocol,
                    outcomes,
                )[k] && decodes[i].candidate.score >= found[k].score,
        forall|i: int|
            #![trigger decodes[i]]
            0 <= i < decodes.len() ==> is_of(
                decodes[i],
                found,
                payloads(wf.protocol, outcomes),
                listed(payloads(wf.protocol, outcomes), found.len())[i],
            ),
{
    let all = payloads(wf.protocol, outcomes);
    let n = found.len();
    let list = listed(all, n);
    lemma_listed_members(all, n);
    lemma_listed_length(all, n);
    assert forall|i: int| 0 <= i < decodes.len() implies (
    #[trigger] decodes[i]).candidate.score >= min_score by {
        assert(decodes[i].candidate == found[list[i]]);
        assert(candidates::is_eligible(wf, min_score, found[list[i]]));
    }
    assert forall|i: int, j: int| 0 <= i < j < decodes.len() implies (
    #[trigger] decodes[i]).message.payload@ != (#[trigger] decodes[j]).message.payload@
        && decodes[i].candidate.score >= decodes[j].candidate.score by {
        law_payloads_are_listed_once(all, n, i, j);
        assert(found[list[i]].score >= found[list[j]].score);
    }
    assert forall|k: int| 0 <= k < n && (#[trigger] all[k]) is Some implies exists|i: int|
        0 <= i < decodes.len() && Some((#[trigger] decodes[i]).message.payload@) == all[k]
            && decodes[i].candidate.score >= found[k].score by {
        law_every_payload_is_listed(all, n, k);
        let i = choose|i: int|
            0 <= i < list.len() && (#[trigger] list[i]) <= k && all[list[i]] == all[k];
        assert(Some(decodes[i].message.payload@) == all[k]);
        assert(found[list[i]].score >= found[k].score);
    }
    assert forall|i: int|
        #![trigger decodes[i]]
        0 <= i < decodes.len() implies is_of(decodes[i], found, all, list[i]) by {
        assert(is_first(all, list[i]));
    }
}

/// No more candidates are listed than there are.
proof fn lemma_listed_length(payloads: Seq<Option<Seq<u8>>>, n: nat)
    ensures
        listed(payloads, n).len() <= n,
    decreases n,
{
    if n > 0 {
        lemma_listed_length(payloads, (n - 1) as nat);
    }
}

/// What was received is listed: a payload whose word came out of the decoder without
/// an error is in the list, with the first of its candidates, and what came out with
/// errors is not.
#[verifier::spinoff_prover]
pub proof fn law_received_payloads_are_listed(
    protocol: Protocol,
    found: Seq<Candidate>,
    outcomes: Seq<([u8; LDPC_N], usize)>,
    decodes: Seq<Decode>,
    payload: Seq<u8>,
    k: int,
)
    requires
        found.len() == outcomes.len(),
        is_list(
            decodes,
            protocol,
            found,
            outcomes,
            listed(payloads(protocol, outcomes), found.len()),
        ),
        payload.len() == 10,
        payload[9] % 8 == 0,
        0 <= k < found.len(),
        outcomes[k].1 == 0,
        outcomes[k].0@ == protocol.sent(payload),
        forall|j: int|
            #![trigger outcomes[j]]
            0 <= j < k ==> outcomes[j].1 > 0 || recover::recovered(protocol, outcomes[j].0@) != Some(
                payload,
            ),
    ensures
        exists|i: int|
            0 <= i < decodes.len() && (#[trigger] decodes[i]).message.payload@ == payload
                && decodes[i].candidate == found[k] && decodes[i].status.ldpc_errors == 0
                && decodes[i].status.crc_extracted == crc::checksum(protocol.scrambled(payload))
                && decodes[i].status.crc_calculated == crc::checksum(protocol.scrambled(payload)),
        forall|i: int|
            #![trigger decodes[i]]
            0 <= i < decodes.len() ==> decodes[i].status.ldpc_errors == 0,
{
    lemma_sent_is_recovered(protocol, payload, outcomes[k].0@);
    lemma_recovered_is_listed(protocol, found, outcomes, decodes, payload, k);
    lemma_listed_without_errors(protocol, found, outcomes, decodes);
}

/// A payload that is recovered is listed with the first of its candidates.
#[verifier::spinoff_prover]
proof fn lemma_recovered_is_listed(
    protocol: Protocol,
    found: Seq<Candidate>,
    outcomes: Seq<([u8; LDPC_N], usize)>,
    decodes: Seq<Decode>,
    payload: Seq<u8>,
    k: int,
)
    requires
        found.len() == outcomes.len(),
        is_list(
            decodes,
            protocol,
            found,
            outcomes,
            listed(payloads(protocol, outcomes), found.len()),
        ),
        0 <= k < found.len(),
        outcomes[k].1 == 0,
        recover::recovered(protocol, outcomes[k].0@) == Some(payload),
        forall|j: int|
            #![trigger outcomes[j]]
            0 <= j < k ==> outcomes[j].1 > 0 || recover::recovered(protocol, outcomes[j].0@) != Some(
                payload,
            ),
    ensures
        exists|i: int|
            0 <= i < decodes.len() && (#[trigger] decodes[i]).message.payload@ == payload
                && decodes[i].candidate == found[k] && decodes[i].status == status_of(
                outcomes[k].0@,
                0,
            ),
{
    let all = payloads(protocol, outcomes);
    let n = found.len();
    let list = listed(all, n);
    assert(all[k] == Some(payload));
    lemma_listed_members(all, n);
    law_every_payload_is_listed(all, n, k);
    let i = choose|i: int|
        0 <= i < list.len() && (#[trigger] list[i]) <= k && all[list[i]] == all[k];
    let j = list[i];
    if j < k {
        let o = outcomes[j];
        assert(all[j] == payload_of(protocol, o.0@, o.1));
    }
    assert(j == k);
    assert(decodes[i].candidate == found[k]);
    assert(decodes[i].message.payload@ == payload);
}

/// What is listed has no errors.
#[verifier::spinoff_prover]
proof fn lemma_listed_without_errors(
    protocol: Protocol,
    found: Seq<Candidate>,
    outcomes: Seq<([u8; LDPC_N], usize)>,
    decodes: Seq<Decode>,
)
    requires
        found.len() == outcomes.len(),
        is_list(
            decodes,
            protocol,
            found,
            outcomes,
            listed(payloads(protocol, outcomes), found.len()),
        ),
    ensures
        forall|i: int|
            #![trigger decodes[i]]
            0 <= i < decodes.len() ==> decodes[i].status.ldpc_errors == 0,
{
    let all = payloads(protocol, outcomes);
    let list = listed(all, found.len());
    lemma_listed_members(all, found.len());
    assert forall|i: int|
        #![trigger decodes[i]]
        0 <= i < decodes.len() implies decodes[i].status.ldpc_errors == 0 by {
        let o = outcomes[list[i]];
        assert(is_first(all, list[i]));
        assert(all[list[i]] == payload_of(protocol, o.0@, o.1));
    }
}

/// The word that a payload is sent as holds it.
proof fn lemma_sent_is_recovered(protocol: Protocol, payload: Seq<u8>, word: Seq<u8>)
    requires
        payload.len() == 10,
        payload[9] % 8 == 0,
        word == protocol.sent(payload),
    ensures
        recover::recovered(protocol, word) == Some(payload),
        status_of(word, 0).ldpc_errors == 0,
        status_of(word, 0).crc_extracted == crc::checksum(protocol.scrambled(payload)),
        status_of(word, 0).crc_calculated == crc::checksum(protocol.scrambled(payload)),
{
    let s = protocol.scrambled(payload);
    recover::law_sent_payload_is_recovered(protocol, payload);
    crc::law_sealed_verifies(s);
    recover::law_codeword_begins_with_the_payload(crc::sealed(s));
}

} // verus!
