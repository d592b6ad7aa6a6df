//! The request and answer of the verifier canister, and the decisions it
//! makes around the STARK verification itself: decoding the proof,
//! reading the public inputs, and turning the verifier's outcome into an
//! answer. Each rejection carries a reason that says which step failed.

use crate::air::PublicInputs;
use crate::decimal::{
    base_element_spec, lemma_base_element_reduces, parse_base_element, parse_error_text,
    parse_u128_spec, trim_spec,
};
use crate::field::MODULUS;
use crate::proof_layout::{decoding_traps, decoding_truncated, walk_proof, Read};
use vstd::prelude::*;
use vstd::string::*;

verus! {

/// A request to verify a proof of the example computation.
#[derive(Clone, Debug)]
pub struct VerifyRequest {
    /// The serialized proof, as `Proof::to_bytes` writes it.
    pub proof_bytes: Vec<u8>,
    /// The claimed first value of the computation, as a base-10 string.
    pub start: String,
    /// The claimed last value of the computation, as a base-10 string.
    pub result: String,
    /// The least conjectured security, in bits, that a proof must reach.
    pub min_security_bits: u32,
}

/// The answer to a verification request.
#[derive(Clone, Debug)]
pub enum VerifyResult {
    Valid,
    Invalid { reason: String },
}

/// Winterfell's STARK proof, carried from decoding to the verifier unopened.
#[verifier::external_type_specification]
#[verifier::external_body]
pub struct ExProof(winterfell::Proof);

/// What decoding a proof from the given bytes gives on a machine whose
/// `usize` has the given number of bits: the proof, or the decoding
/// error's message.
pub uninterp spec fn decoded_proof(bytes: Seq<u8>, word_bits: u32) -> Decoded;

/// The outcome of decoding a proof: the proof, or the error's message.
pub type Decoded = Result<winterfell::Proof, Seq<char>>;

/// `winterfell::Proof::from_bytes`, with the decoding error turned into its
/// `Display` text. The contract claims that decoding is a function of the
/// bytes and of the word size (the variable-length integers and the trace
/// length depend on it): its outcome is `decoded_proof` of them, and on
/// empty input it fails with `unexpected EOF` (the first read of the trace
/// width runs out of input). The inputs on which the decoder panics are
/// left out, as `decoding_traps` lays them out (exact for byte strings of
/// at most `isize::MAX` bytes, which every slice is), and so are those with
/// a byte vector declared longer than the bytes that remain, for which the
/// decoder reserves memory it may not get. Every other reservation is at
/// most the input's own size, a machine limit.
#[verifier::external_body]
fn decode_proof(bytes: &[u8]) -> (r: Result<winterfell::Proof, String>)
    requires
        !decoding_traps(bytes@),
        !decoding_truncated(bytes@),
        bytes@.len() <= isize::MAX,
    ensures
        r matches Ok(p) ==> decoded_proof(bytes@, usize::BITS) == Decoded::Ok(p),
        r matches Err(m) ==> decoded_proof(bytes@, usize::BITS) == Decoded::Err(m@),
        bytes@.len() == 0 ==> r is Err,
        r matches Err(m) ==> (bytes@.len() == 0 ==> m@ == "unexpected EOF"@),
{
    match winterfell::Proof::from_bytes(bytes) {
        Ok(proof) => Ok(proof),
        Err(error) => Err(format!("{error}")),
    }
}

/// Everything the STARK verifier needs once a request has been read: the
/// decoded proof, the public inputs as field elements, and the security
/// level that the proof must reach.
pub struct PreparedVerification {
    pub proof: winterfell::Proof,
    pub public_inputs: PublicInputs,
    pub min_security_bits: u32,
}

/// Why a request is rejected before its proof is checked: the proof does
/// not decode, or the start or result is not a decimal `u128`; checked in
/// that order. `None` when the request gets to the verifier. A proof that
/// declares a byte vector longer than the bytes that remain fails with
/// `unexpected EOF`, as the decoder does whenever it can reserve the
/// declared length.
pub open spec fn rejection_reason(proof_bytes: Seq<u8>, start: Seq<char>, result: Seq<char>) -> Option<Seq<char>> {
    let decoded = if decoding_truncated(proof_bytes) {
        Err("unexpected EOF"@)
    } else {
        match decoded_proof(proof_bytes, usize::BITS) {
            Ok(_) => Ok(()),
            Err(e) => Err(e),
        }
    };
    match decoded {
        Err(e) => Some("failed to decode proof bytes: "@ + e),
        Ok(()) => if base_element_spec(start) is None {
            Some("invalid `start` public input: "@ + parse_error_text(start))
        } else if base_element_spec(result) is None {
            Some("invalid `result` public input: "@ + parse_error_text(result))
        } else {
            None
        },
    }
}

/// Reads a request up to the point where the STARK verifier takes over:
/// decodes the proof, then reads the start and the result. Answers
/// `Invalid`, with the reason, at the first step that fails. The proof
/// bytes must not trap the decoder (see `proof_decoding_traps`).
pub fn prepare_verification(req: VerifyRequest) -> (r: Result<PreparedVerification, VerifyResult>)
    requires
        !decoding_traps(req.proof_bytes@),
        req.proof_bytes@.len() <= isize::MAX,
    ensures
        r is Ok <==> rejection_reason(req.proof_bytes@, req.start@, req.result@) is None,
        r is Ok <==> {
            &&& !decoding_truncated(req.proof_bytes@)
            &&& decoded_proof(req.proof_bytes@, usize::BITS) is Ok
            &&& parse_u128_spec(trim_spec(req.start@)) is Some
            &&& parse_u128_spec(trim_spec(req.result@)) is Some
        },
        r matches Err(v) ==> (v matches VerifyResult::Invalid { reason } && rejection_reason(
            req.proof_bytes@,
            req.start@,
            req.result@,
        ) == Some(reason@)),
        req.proof_bytes@.len() == 0 ==> (r matches Err(VerifyResult::Invalid { reason }) && reason@
            == "failed to decode proof bytes: "@ + "unexpected EOF"@),
        r matches Ok(p) ==> {
            &&& !decoding_truncated(req.proof_bytes@)
            &&& decoded_proof(req.proof_bytes@, usize::BITS) == Decoded::Ok(p.proof)
            &&& base_element_spec(req.start@) == Some(p.public_inputs.start)
            &&& base_element_spec(req.result@) == Some(p.public_inputs.result)
            &&& p.min_security_bits == req.min_security_bits
            &&& p.public_inputs.start as int == parse_u128_spec(trim_spec(req.start@)).unwrap() as int
                % (MODULUS as int)
            &&& p.public_inputs.result as int == parse_u128_spec(trim_spec(req.result@)).unwrap()
                as int % (MODULUS as int)
        },
{
    proof {
        lemma_rejection_exactly_on_bad_input(req.proof_bytes@, req.start@, req.result@);
        lemma_base_element_reduces(req.start@);
        lemma_base_element_reduces(req.result@);
    }
    if let Read::Truncated = walk_proof(req.proof_bytes.as_slice()) {
        let mut reason = String::from_str("failed to decode proof bytes: ");
        reason.append("unexpected EOF");
        return Err(VerifyResult::Invalid { reason });
    }
    let proof = match decode_proof(req.proof_bytes.as_slice()) {
        Ok(proof) => proof,
        Err(e) => {
            let mut reason = String::from_str("failed to decode proof bytes: ");
            reason.append(e.as_str());
            return Err(VerifyResult::Invalid { reason });
        },
    };
    let start = match parse_base_element(req.start.as_str()) {
        Ok(v) => v,
        Err(e) => {
            let mut reason = String::from_str("invalid `start` public input: ");
            reason.append(e.as_str());
            return Err(VerifyResult::Invalid { reason });
        },
    };
    let result = match parse_base_element(req.result.as_str()) {
        Ok(v) => v,
        Err(e) => {
            let mut reason = String::from_str("invalid `result` public input: ");
            reason.append(e.as_str());
            return Err(VerifyResult::Invalid { reason });
        },
    };
    Ok(
        PreparedVerification {
            proof,
            public_inputs: PublicInputs { start, result },
            min_security_bits: req.min_security_bits,
        },
    )
}

/// A request is rejected before verification exactly when its proof does
/// not decode or one of its public inputs is not a decimal `u128`; any two
/// decimal `u128` inputs, of any size, reach the verifier with a decoding
/// proof.
pub proof fn lemma_rejection_exactly_on_bad_input(proof_bytes: Seq<u8>, start: Seq<char>, result: Seq<char>)
    ensures
        rejection_reason(proof_bytes, start, result) is None <==> {
            &&& !decoding_truncated(proof_bytes)
            &&& decoded_proof(proof_bytes, usize::BITS) is Ok
            &&& parse_u128_spec(trim_spec(start)) is Some
            &&& parse_u128_spec(trim_spec(result)) is Some
        },
{
    lemma_base_element_reduces(start);
    lemma_base_element_reduces(result);
}

/// Public inputs that denote congruent integers are prepared alike: the
/// same rejection, and the same field element, whichever string is given.
pub proof fn lemma_congruent_inputs_prepare_alike(
    proof_bytes: Seq<u8>,
    s1: Seq<char>,
    s2: Seq<char>,
    other: Seq<char>,
)
    requires
        parse_u128_spec(trim_spec(s1)) is Some,
        parse_u128_spec(trim_spec(s2)) is Some,
        parse_u128_spec(trim_spec(s1)).unwrap() % MODULUS == parse_u128_spec(trim_spec(s2)).unwrap()
            % MODULUS,
    ensures
        base_element_spec(s1) == base_element_spec(s2),
        rejection_reason(proof_bytes, s1, other) == rejection_reason(proof_bytes, s2, other),
        rejection_reason(proof_bytes, other, s1) == rejection_reason(proof_bytes, other, s2),
{
}

/// The answer for the outcome of the STARK verifier: `Valid` when it
/// accepted the proof, otherwise `Invalid` with its error message.
pub fn verification_verdict(outcome: Result<(), String>) -> (v: VerifyResult)
    ensures
        outcome is Ok ==> v is Valid,
        outcome matches Err(e) ==> (v matches VerifyResult::Invalid { reason } && reason@
            == "verification failed: "@ + e@),
{
    match outcome {
        Ok(()) => VerifyResult::Valid,
        Err(e) => {
            let mut reason = String::from_str("verification failed: ");
            reason.append(e.as_str());
            VerifyResult::Invalid { reason }
        },
    }
}

} // verus!
