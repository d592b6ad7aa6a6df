use stark_verifier::canister::{prepare_verification, verification_verdict, VerifyRequest, VerifyResult};

fn request(proof_bytes: Vec<u8>, start: &str, result: &str) -> VerifyRequest {
    VerifyRequest {
        proof_bytes,
        start: start.to_string(),
        result: result.to_string(),
        min_security_bits: 95,
    }
}

fn reason(answer: VerifyResult) -> String {
    match answer {
        VerifyResult::Invalid { reason } => reason,
        VerifyResult::Valid => panic!("expected an Invalid answer"),
    }
}

#[test]
fn empty_proof_bytes_do_not_decode() {
    let answer = prepare_verification(request(vec![], "3", "4")).err().unwrap();
    assert_eq!(reason(answer), "failed to decode proof bytes: unexpected EOF");
}

#[test]
fn zero_trace_width_does_not_decode() {
    let answer = prepare_verification(request(vec![0, 0, 0], "3", "4")).err().unwrap();
    assert_eq!(
        reason(answer),
        "failed to decode proof bytes: main trace segment width must be greater than zero"
    );
}

#[test]
fn proof_is_checked_before_the_public_inputs() {
    let answer = prepare_verification(request(vec![], "x", "y")).err().unwrap();
    assert!(reason(answer).starts_with("failed to decode proof bytes: "));
}

#[test]
fn bad_start_is_reported() {
    let bytes = winterfell::Proof::new_dummy().to_bytes();
    let answer = prepare_verification(request(bytes, "three", "4")).err().unwrap();
    assert_eq!(
        reason(answer),
        "invalid `start` public input: could not parse 'three' as a u128 decimal integer"
    );
}

#[test]
fn bad_result_is_reported() {
    let bytes = winterfell::Proof::new_dummy().to_bytes();
    let answer = prepare_verification(request(bytes, "3", "-4")).err().unwrap();
    assert_eq!(
        reason(answer),
        "invalid `result` public input: could not parse '-4' as a u128 decimal integer"
    );
}

#[test]
fn well_formed_request_is_prepared() {
    let bytes = winterfell::Proof::new_dummy().to_bytes();
    let prepared = prepare_verification(request(bytes, " 3 ", "340282366920938463463374557953744961538"))
        .ok()
        .unwrap();
    assert_eq!(prepared.public_inputs.start, 3);
    assert_eq!(prepared.public_inputs.result, 1);
    assert_eq!(prepared.min_security_bits, 95);
    assert_eq!(prepared.proof, winterfell::Proof::new_dummy());
}

#[test]
fn accepted_proof_is_valid() {
    assert!(matches!(verification_verdict(Ok(())), VerifyResult::Valid));
}

#[test]
fn rejected_proof_carries_the_verifier_message() {
    let answer = verification_verdict(Err("bad commitment".to_string()));
    assert_eq!(reason(answer), "verification failed: bad commitment");
}
