use stark_verifier::canister::VerifyResult;
use stark_verifier::proof_layout::{proof_decoding_traps, walk_proof, Read};

/// A trace shape of one main column, no auxiliary segment, length 2^3 and
/// no metadata, then a one-byte field modulus.
fn header() -> Vec<u8> {
    vec![1, 0, 0, 3, 0, 0, 1, 7]
}

#[test]
fn short_or_invalid_bytes_stop_without_trapping() {
    assert!(!proof_decoding_traps(&[]));
    assert!(!proof_decoding_traps(&[0]));
    assert!(!proof_decoding_traps(&[1, 0, 0, 2]));
    assert!(!proof_decoding_traps(&header()));
}

#[test]
fn random_elements_without_auxiliary_segment_trap() {
    assert!(proof_decoding_traps(&[1, 0, 1, 3, 0, 0]));
    // Truncated metadata stops first.
    assert!(!proof_decoding_traps(&[1, 0, 1, 3, 5, 0]));
}

#[test]
fn oversized_trace_length_traps() {
    assert!(proof_decoding_traps(&[1, 0, 0, 200]));
}

#[test]
fn rejected_proof_options_trap() {
    let mut zero_queries = header();
    zero_queries.extend([0, 8, 0, 1, 8, 31, 0, 0]);
    assert!(proof_decoding_traps(&zero_queries));

    let mut odd_blowup = header();
    odd_blowup.extend([32, 6, 0, 1, 8, 31, 0, 0]);
    assert!(proof_decoding_traps(&odd_blowup));

    let mut unknown_extension = header();
    unknown_extension.extend([0, 8, 0, 9, 8, 31, 0, 0]);
    assert!(!proof_decoding_traps(&unknown_extension));
}

#[test]
fn rejected_partitions_trap() {
    let mut options = header();
    options.extend([32, 8, 0, 1, 8, 31, 0, 0]);
    let mut no_partitions = options.clone();
    no_partitions.extend([0, 1]);
    assert!(proof_decoding_traps(&no_partitions));
    let mut one_partition = options.clone();
    one_partition.extend([1, 1]);
    assert!(!proof_decoding_traps(&one_partition));
}

#[test]
fn a_well_formed_proof_does_not_trap() {
    let bytes = winterfell::Proof::new_dummy().to_bytes();
    assert!(!proof_decoding_traps(&bytes));
    assert!(matches!(walk_proof(&bytes), Read::At(_)));
}

#[test]
fn a_vector_longer_than_the_input_is_truncated() {
    let mut bytes = header();
    bytes.extend([32, 8, 0, 1, 8, 31, 0, 0, 1, 1]);
    // constraint count 1, unique queries 0, empty commitments
    bytes.extend([0b11, 0, 0, 0]);
    // query values declared 100 bytes long, none present
    bytes.push(100 << 1 | 1);
    assert!(matches!(walk_proof(&bytes), Read::Truncated));
}

fn request(proof_bytes: Vec<u8>) -> stark_verifier::canister::VerifyRequest {
    stark_verifier::canister::VerifyRequest {
        proof_bytes,
        start: "3".to_string(),
        result: "4".to_string(),
        min_security_bits: 95,
    }
}

#[test]
fn every_prefix_of_a_proof_decodes_or_stops() {
    let bytes = winterfell::Proof::new_dummy().to_bytes();
    for len in 0..bytes.len() {
        let prefix = bytes[..len].to_vec();
        assert!(!proof_decoding_traps(&prefix));
        let answer = stark_verifier::canister::prepare_verification(request(prefix));
        assert!(answer.is_err());
    }
}

#[test]
fn mutated_proofs_that_do_not_trap_are_answered() {
    let bytes = winterfell::Proof::new_dummy().to_bytes();
    let values = [0u8, 1, 2, 3, 4, 7, 8, 16, 17, 31, 32, 33, 63, 64, 128, 200, 255];
    for at in 0..bytes.len() {
        for v in values {
            let mut mutated = bytes.clone();
            mutated[at] = v;
            match walk_proof(&mutated) {
                Read::Traps => {},
                Read::Truncated => {
                    let answer = stark_verifier::canister::prepare_verification(request(mutated));
                    match answer {
                        Err(VerifyResult::Invalid { reason }) => {
                            assert_eq!(reason, "failed to decode proof bytes: unexpected EOF")
                        },
                        _ => panic!("a truncated vector must be rejected"),
                    }
                },
                _ => {
                    let decoded = winterfell::Proof::from_bytes(&mutated);
                    let answer = stark_verifier::canister::prepare_verification(request(mutated));
                    match (decoded, answer) {
                        (Err(e), Err(VerifyResult::Invalid { reason })) => {
                            assert_eq!(reason, format!("failed to decode proof bytes: {e}"))
                        },
                        (Ok(p), Ok(prepared)) => assert_eq!(prepared.proof, p),
                        _ => panic!("the decoder and the preparation disagree"),
                    }
                },
            }
        }
    }
}
