//! The session-facing protocol: classify an inbound frame as a result
//! request or a submission, verify and record submissions, and serve the
//! round result.
//!
//! A session loop (one per connection) hands every text frame to
//! [`handle_frame`] under the one lock that guards the synchronizer, and
//! performs the outcome: send the response, wake the waiters, or merely
//! log the rejection and carry on.

use crate::crypto::{
    b64_decode_of, b64_of, base64_decode, base64_encode, ed25519_sig_of, ed25519_sign,
};
use crate::decimal::{format_fixed, parse_fixed, spec_format_fixed, spec_parse_fixed};
use crate::registry::Registry;
use crate::auth::{spec_verify, verify, VerifyError};
use crate::round::{step_submit, submit_triggers, RoundSynchronizer, TakeOutcome};
use crate::wire::{
    build_submission, bytes_eq, lemma_dec_digits_are_digits, lemma_submission_round_trip,
    no_quote, parse_submission, push_all, receiver_token, receiver_token_vec,
    spec_parse_submission, spec_submission_text,
};
use crate::average::spec_mean;
use vstd::prelude::*;

verus! {

/// Why a submission frame was dropped.  The round is unaffected by a
/// dropped frame; the session goes on.
#[derive(Clone, Copy, PartialEq, Eq, Structural, Debug)]
pub enum SubmitError {
    /// Not a well-formed submission frame (shape, base64, signature size).
    Malformed,
    /// The claimed client id has no registry entry.
    UnknownClient,
    /// The signature does not verify under the claimed client's key.
    InvalidSignature,
    /// The signed message is not a fixed-point value in range.
    BadValue,
}

/// The decision taken on a submission frame: the value to record, or the
/// reason it is dropped.
pub open spec fn spec_process_message(reg: Seq<Seq<u8>>, t: Seq<u8>) -> Result<int, SubmitError> {
    match spec_parse_submission(t) {
        None => Err(SubmitError::Malformed),
        Some((id, msg, sigb)) => match b64_decode_of(sigb) {
            None => Err(SubmitError::Malformed),
            Some(sig) => match spec_verify(reg, id as int, msg, sig) {
                Err(VerifyError::UnknownClient) => Err(SubmitError::UnknownClient),
                Err(VerifyError::InvalidSignature) => Err(SubmitError::InvalidSignature),
                Ok(()) => match spec_parse_fixed(msg) {
                    None => Err(SubmitError::BadValue),
                    Some(v) => Ok(v),
                },
            },
        },
    }
}

/// Verify one submission frame against the registry: parse it, look the
/// claimed client up, check the signature over exactly the signed bytes,
/// and read the fixed-point value those bytes encode.
pub fn process_message(reg: &Registry, frame: &[u8]) -> (r: Result<i64, SubmitError>)
    requires
        reg.wf(),
    ensures
        r is Ok <==> spec_process_message(reg@, frame@) is Ok,
        r matches Ok(v) ==> spec_process_message(reg@, frame@) == Ok::<int, SubmitError>(v as int),
        r matches Err(e) ==> spec_process_message(reg@, frame@) == Err::<int, SubmitError>(e),
{
    let sub = match parse_submission(frame) {
        Some(s) => s,
        None => {
            return Err(SubmitError::Malformed);
        },
    };
    let sig = match base64_decode(sub.signature_b64.as_slice()) {
        Some(v) => v,
        None => {
            return Err(SubmitError::Malformed);
        },
    };
    match verify(reg, sub.client_id, sub.message.as_slice(), sig.as_slice()) {
        Err(VerifyError::UnknownClient) => {
            return Err(SubmitError::UnknownClient);
        },
        Err(VerifyError::InvalidSignature) => {
            return Err(SubmitError::InvalidSignature);
        },
        Ok(()) => {},
    }
    match parse_fixed(sub.message.as_slice()) {
        Some(v) => Ok(v),
        None => Err(SubmitError::BadValue),
    }
}

/// Bytes of `Global average BTC price: `, the prefix of a result response.
pub open spec fn response_prefix() -> Seq<u8> {
    seq![
        'G' as u8,
        'l' as u8,
        'o' as u8,
        'b' as u8,
        'a' as u8,
        'l' as u8,
        ' ' as u8,
        'a' as u8,
        'v' as u8,
        'e' as u8,
        'r' as u8,
        'a' as u8,
        'g' as u8,
        'e' as u8,
        ' ' as u8,
        'B' as u8,
        'T' as u8,
        'C' as u8,
        ' ' as u8,
        'p' as u8,
        'r' as u8,
        'i' as u8,
        'c' as u8,
        'e' as u8,
        ':' as u8,
        ' ' as u8,
    ]
}

/// The full result response: the prefix and the mean in its canonical
/// four-decimal encoding.
pub open spec fn spec_response_text(mean: int) -> Seq<u8> {
    response_prefix() + spec_format_fixed(mean)
}

/// Render the result response for a computed mean.
pub fn format_response(mean: i64) -> (r: Vec<u8>)
    ensures
        r@ == spec_response_text(mean as int),
{
    let mut out: Vec<u8> = vec![
        'G' as u8,
        'l' as u8,
        'o' as u8,
        'b' as u8,
        'a' as u8,
        'l' as u8,
        ' ' as u8,
        'a' as u8,
        'v' as u8,
        'e' as u8,
        'r' as u8,
        'a' as u8,
        'g' as u8,
        'e' as u8,
        ' ' as u8,
        'B' as u8,
        'T' as u8,
        'C' as u8,
        ' ' as u8,
        'p' as u8,
        'r' as u8,
        'i' as u8,
        'c' as u8,
        'e' as u8,
        ':' as u8,
        ' ' as u8,
    ];
    proof {
        assert(out@ =~= response_prefix());
    }
    let f = format_fixed(mean);
    push_all(&mut out, f.as_slice());
    out
}

/// What a session should do after one inbound text frame.
pub enum FrameOutcome {
    /// A verified submission was recorded; `triggered` says whether it was
    /// the one that detected quorum, in which case the session wakes any
    /// waiting result requester exactly once.
    Accepted { triggered: bool },
    /// A submission was dropped for the given reason; report it and go on.
    Rejected { error: SubmitError },
    /// A result request before quorum: wait for the wake signal, ask again.
    NotReady,
    /// A result request found quorum reached with nothing collected:
    /// nothing to send, the round is reset.
    NoData,
    /// A result request completed: send this response back; the round's
    /// values and their mean ride along for persistence; the round is
    /// reset.
    Result { response: Vec<u8>, values: Vec<i64>, mean: i64 },
}

/// Route one inbound frame.  The caller holds the one lock around the
/// synchronizer for the whole call, so the append, the quorum check and
/// the reset each happen in a single critical section.
pub fn handle_frame(sync: &mut RoundSynchronizer, reg: &Registry, frame: &[u8]) -> (r:
    FrameOutcome)
    requires
        reg.wf(),
        old(sync)@.wf(),
    ensures
        final(sync)@.wf(),
        final(sync)@.quorum == old(sync)@.quorum,
        frame@ == receiver_token() && !old(sync)@.published ==> r == FrameOutcome::NotReady
            && final(sync)@ == old(sync)@,
        frame@ == receiver_token() && old(sync)@.published ==> final(sync)@.empty_collecting(),
        frame@ == receiver_token() && old(sync)@.published && old(sync)@.values.len() == 0 ==> r
            == FrameOutcome::NoData,
        frame@ == receiver_token() && old(sync)@.published && old(sync)@.values.len() > 0 ==> (
        r matches FrameOutcome::Result { response, values, mean } && response@
            == spec_response_text(spec_mean(old(sync)@.values)) && values@ == old(sync)@.values
            && mean == spec_mean(old(sync)@.values)),
        frame@ != receiver_token() ==> (match spec_process_message(reg@, frame@) {
            Ok(v) => final(sync)@ == step_submit(old(sync)@, v as i64) && r == (
            FrameOutcome::Accepted { triggered: submit_triggers(old(sync)@, v as i64) }),
            Err(e) => final(sync)@ == old(sync)@ && r == (FrameOutcome::Rejected { error: e }),
        }),
{
    let recv = receiver_token_vec();
    if bytes_eq(frame, recv.as_slice()) {
        match sync.take_result() {
            TakeOutcome::NotReady => FrameOutcome::NotReady,
            TakeOutcome::Published { values: _, mean: None } => FrameOutcome::NoData,
            TakeOutcome::Published { values, mean: Some(m) } => FrameOutcome::Result {
                response: format_response(m),
                values,
                mean: m,
            },
        }
    } else {
        match process_message(reg, frame) {
            Err(e) => FrameOutcome::Rejected { error: e },
            Ok(v) => {
                let triggered = sync.submit(v);
                FrameOutcome::Accepted { triggered }
            },
        }
    }
}

/// Build the frame a client submits for its measurement: the canonical
/// encoding of `value` is the signed message, and the Ed25519 signature
/// over exactly those bytes rides along in base64.
pub fn build_signed_submission(client_id: u64, signing_key: &[u8], value: i64) -> (r: Vec<u8>)
    requires
        signing_key@.len() == 32,
    ensures
        r@ == spec_submission_text(
            client_id as int,
            spec_format_fixed(value as int),
            b64_of(ed25519_sig_of(signing_key@, spec_format_fixed(value as int))),
        ),
{
    let msg = format_fixed(value);
    let sig = ed25519_sign(signing_key, msg.as_slice());
    let sigb = base64_encode(sig.as_slice());
    build_submission(client_id, msg.as_slice(), sigb.as_slice())
}

/// The canonical encoding of a value carries no double quote, so it can
/// sit verbatim inside the frame's quoted message field.
pub proof fn lemma_format_no_quote(v: int)
    ensures
        no_quote(spec_format_fixed(v)),
{
    let a = if v < 0 {
        -v
    } else {
        v
    };
    lemma_dec_digits_are_digits((a / 10000) as nat);
}

/// A client's own frame always parses back to its id, its canonical
/// message and its base64 signature text: what the aggregator verifies is
/// byte for byte what the client signed.
pub proof fn lemma_client_frame_parses(id: u64, value: int, sigb: Seq<u8>)
    requires
        no_quote(sigb),
    ensures
        spec_parse_submission(spec_submission_text(id as int, spec_format_fixed(value), sigb))
            == Some((id, spec_format_fixed(value), sigb)),
{
    lemma_format_no_quote(value);
    lemma_submission_round_trip(id, spec_format_fixed(value), sigb);
}

} // verus!
