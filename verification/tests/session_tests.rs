use base64::Engine;
use ed25519_dalek::{Signer, SigningKey};
use mcs_binary::auth::{verify, VerifyError};
use mcs_binary::registry::Registry;
use mcs_binary::round::RoundSynchronizer;
use mcs_binary::session::{build_signed_submission, handle_frame, FrameOutcome, SubmitError};
use mcs_binary::wire::{build_submission, parse_submission};

fn seed(i: u8) -> [u8; 32] {
    [i; 32]
}

fn registry_of(n: u8) -> Registry {
    let mut reg = Registry::new();
    for i in 1..=n {
        let sk = SigningKey::from_bytes(&seed(i));
        reg.add_key(sk.verifying_key().to_bytes().to_vec());
    }
    reg
}

// the full happy round: three clients submit signed values 100.0, 102.0,
// 101.0; the result request blocked before quorum unblocks after the third
// and reads the mean formatted to four decimals; the round then resets
#[test]
fn three_clients_reach_quorum_and_publish() {
    let reg = registry_of(3);
    let mut sync = RoundSynchronizer::new(3);

    let receiver = b"receiver";
    assert!(matches!(
        handle_frame(&mut sync, &reg, receiver),
        FrameOutcome::NotReady
    ));

    let values: [(u64, i64); 3] = [(1, 1_000_000), (2, 1_020_000), (3, 1_010_000)];
    let mut triggers = Vec::new();
    for (id, v) in values {
        let frame = build_signed_submission(id, &seed(id as u8), v);
        match handle_frame(&mut sync, &reg, &frame) {
            FrameOutcome::Accepted { triggered } => triggers.push(triggered),
            _ => panic!("valid submission was not accepted"),
        }
    }
    assert_eq!(triggers, vec![false, false, true]);

    match handle_frame(&mut sync, &reg, receiver) {
        FrameOutcome::Result { response, values, mean } => {
            assert_eq!(response, b"Global average BTC price: 101.0000".to_vec());
            assert_eq!(values, vec![1_000_000, 1_020_000, 1_010_000]);
            assert_eq!(mean, 1_010_000);
        }
        _ => panic!("result request did not complete"),
    }
    assert_eq!(sync.state.verified_count, 0);
    assert!(sync.state.collected_values.is_empty());
    assert!(!sync.state.published);
}

// a submission signed with a key that does not match the claimed id never
// appends a value and never increments the count
#[test]
fn mismatched_key_changes_nothing() {
    let reg = registry_of(3);
    let mut sync = RoundSynchronizer::new(3);
    let forged = build_signed_submission(2, &seed(3), 1_020_000);
    match handle_frame(&mut sync, &reg, &forged) {
        FrameOutcome::Rejected { error } => assert_eq!(error, SubmitError::InvalidSignature),
        _ => panic!("forged submission was not rejected"),
    }
    assert_eq!(sync.state.verified_count, 0);
    assert!(sync.state.collected_values.is_empty());
}

// with one invalid signature among three clients the round never reaches
// quorum; it completes only after the offender resubmits validly
#[test]
fn round_stalls_until_valid_resubmission() {
    let reg = registry_of(3);
    let mut sync = RoundSynchronizer::new(3);
    let receiver = b"receiver";

    let f1 = build_signed_submission(1, &seed(1), 1_000_000);
    let bad2 = build_signed_submission(2, &seed(1), 1_020_000);
    let f3 = build_signed_submission(3, &seed(3), 1_010_000);
    assert!(matches!(
        handle_frame(&mut sync, &reg, &f1),
        FrameOutcome::Accepted { triggered: false }
    ));
    assert!(matches!(
        handle_frame(&mut sync, &reg, &bad2),
        FrameOutcome::Rejected { error: SubmitError::InvalidSignature }
    ));
    assert!(matches!(
        handle_frame(&mut sync, &reg, &f3),
        FrameOutcome::Accepted { triggered: false }
    ));
    assert!(matches!(
        handle_frame(&mut sync, &reg, receiver),
        FrameOutcome::NotReady
    ));

    let good2 = build_signed_submission(2, &seed(2), 1_020_000);
    assert!(matches!(
        handle_frame(&mut sync, &reg, &good2),
        FrameOutcome::Accepted { triggered: true }
    ));
    match handle_frame(&mut sync, &reg, receiver) {
        FrameOutcome::Result { response, .. } => {
            assert_eq!(response, b"Global average BTC price: 101.0000".to_vec());
        }
        _ => panic!("result request did not complete"),
    }
}

// ids without a registry entry are reported, including zero and past-the-end
#[test]
fn unknown_client_is_rejected() {
    let reg = registry_of(3);
    let mut sync = RoundSynchronizer::new(3);
    for id in [0u64, 4, u64::MAX] {
        let frame = build_signed_submission(id, &seed(1), 1_000_000);
        match handle_frame(&mut sync, &reg, &frame) {
            FrameOutcome::Rejected { error } => assert_eq!(error, SubmitError::UnknownClient),
            _ => panic!("unknown id was not rejected"),
        }
    }
    assert_eq!(sync.state.verified_count, 0);
}

// frames that are not the canonical submission shape are dropped as
// malformed, whatever else they contain
#[test]
fn malformed_frames_are_rejected() {
    let reg = registry_of(1);
    let mut sync = RoundSynchronizer::new(1);
    for frame in [
        &b"hello"[..],
        &b"{\"client_id\":1}"[..],
        &b"{\"client_id\":x,\"message\":\"1\",\"signature\":\"AA\"}"[..],
        &b""[..],
    ] {
        match handle_frame(&mut sync, &reg, frame) {
            FrameOutcome::Rejected { error } => assert_eq!(error, SubmitError::Malformed),
            _ => panic!("malformed frame was not rejected"),
        }
    }
}

// a signature that verifies over a non-numeric message still yields a
// structured error, not a recorded value
#[test]
fn non_numeric_message_is_bad_value() {
    let reg = registry_of(1);
    let mut sync = RoundSynchronizer::new(1);
    let sk = SigningKey::from_bytes(&seed(1));
    let sig = sk.sign(b"abc");
    let sigb = base64::engine::general_purpose::STANDARD.encode(sig.to_bytes());
    let frame = build_submission(1, b"abc", sigb.as_bytes());
    match handle_frame(&mut sync, &reg, &frame) {
        FrameOutcome::Rejected { error } => assert_eq!(error, SubmitError::BadValue),
        _ => panic!("non-numeric message was not rejected"),
    }
}

// a signature field that is not base64 is malformed; one that decodes to
// the wrong size fails verification
#[test]
fn bad_signature_encodings_are_rejected() {
    let reg = registry_of(1);
    let mut sync = RoundSynchronizer::new(1);
    let not_base64 = build_submission(1, b"1.0", b"!!!not-base64!!!");
    match handle_frame(&mut sync, &reg, &not_base64) {
        FrameOutcome::Rejected { error } => assert_eq!(error, SubmitError::Malformed),
        _ => panic!("bad signature encoding was not rejected"),
    }
    let short_sig = build_submission(1, b"1.0", b"QQ==");
    match handle_frame(&mut sync, &reg, &short_sig) {
        FrameOutcome::Rejected { error } => assert_eq!(error, SubmitError::InvalidSignature),
        _ => panic!("short signature was not rejected"),
    }
}

// the verifier component judges a (client id, message, signature) triple
#[test]
fn verifier_judges_triples() {
    let reg = registry_of(2);
    let sk = SigningKey::from_bytes(&seed(1));
    let sig = sk.sign(b"101.0000").to_bytes();
    assert_eq!(verify(&reg, 1, b"101.0000", &sig), Ok(()));
    assert_eq!(verify(&reg, 2, b"101.0000", &sig), Err(VerifyError::InvalidSignature));
    assert_eq!(verify(&reg, 1, b"102.0000", &sig), Err(VerifyError::InvalidSignature));
    assert_eq!(verify(&reg, 1, b"101.0000", &sig[..63]), Err(VerifyError::InvalidSignature));
    assert_eq!(verify(&reg, 0, b"101.0000", &sig), Err(VerifyError::UnknownClient));
    assert_eq!(verify(&reg, 3, b"101.0000", &sig), Err(VerifyError::UnknownClient));
}

// building and parsing a frame are exact inverses on its fields
#[test]
fn wire_round_trip() {
    let frame = build_submission(7, b"101.0000", b"U0lHTkFUVVJF");
    assert_eq!(
        frame,
        b"{\"client_id\":7,\"message\":\"101.0000\",\"signature\":\"U0lHTkFUVVJF\"}".to_vec()
    );
    let sub = parse_submission(&frame).expect("canonical frame must parse");
    assert_eq!(sub.client_id, 7);
    assert_eq!(sub.message, b"101.0000".to_vec());
    assert_eq!(sub.signature_b64, b"U0lHTkFUVVJF".to_vec());
    assert!(parse_submission(b"{\"client_id\":7\"message\":\"1\",\"signature\":\"AA\"}").is_none());
}

// a genuine signed frame round-trips through the verifier: the value the
// aggregator records is the value the client signed
#[test]
fn signed_frame_verifies_back_to_value() {
    let reg = registry_of(1);
    let frame = build_signed_submission(1, &seed(1), -35_000);
    let r = mcs_binary::session::process_message(&reg, &frame);
    assert_eq!(r, Ok(-35_000));
}
