use paygate::amount::Amount;
use paygate::asset::Network;
use paygate::client::build_proof;
use paygate::header::{
    decode_payment_header, encode_payment_header, CodecError, DEFAULT_CLOCK_SKEW, X402_VERSION,
};
use paygate::hex::{decode_hex, encode_hex};
use paygate::facilitator::{
    facilitator_request, parse_verification_result, render_verification_result,
    VerificationResult,
};
use paygate::requirements::{parse_requirements, render_requirements, OfferedTag,
    RequirementDoc};

const SOL_PAYEE: &str = "11111111111111111111111111111112";

fn sample_offer(units: u128) -> OfferedTag {
    OfferedTag {
        scheme: b"exact".to_vec(),
        network: Network::Solana,
        asset: b"EPjFWdd5AufqSSqeM2qN1xzybapC8G4wEGGkZwyTDt1v".to_vec(),
        pay_to: SOL_PAYEE.as_bytes().to_vec(),
        amount: Amount::from_units(units).unwrap(),
        resource: b"http://localhost:8080/discover".to_vec(),
        description: b"MCP Discovery Service".to_vec(),
        mime_type: b"application/json".to_vec(),
    }
}

fn sample_header(units: u128, valid_before: u64) -> Vec<u8> {
    let o = sample_offer(units);
    let p = build_proof(
        &o,
        b"payerPubKey11111111111111111111111111111111".to_vec(),
        b"deadbeefcafe".to_vec(),
        b"6e6f6e63652d31".to_vec(),
        0,
        valid_before,
    )
    .unwrap();
    encode_payment_header(&p)
}

#[test]
fn hex_round_trips() {
    let data = vec![0u8, 1, 15, 16, 127, 128, 255];
    let enc = encode_hex(&data);
    assert_eq!(enc, b"00010f107f80ff".to_vec());
    assert_eq!(decode_hex(&enc).unwrap(), data);
    assert!(decode_hex(&b"abc".to_vec()).is_none());
    assert!(decode_hex(&b"zz".to_vec()).is_none());
    assert!(decode_hex(&b"AB".to_vec()).is_none());
}

#[test]
fn header_round_trips() {
    let h = sample_header(1_000, 1_000);
    let p = decode_payment_header(&h, X402_VERSION, 900, DEFAULT_CLOCK_SKEW).unwrap();
    assert_eq!(p.version, X402_VERSION);
    assert!(matches!(p.network, Network::Solana));
    assert_eq!(p.to, SOL_PAYEE.as_bytes().to_vec());
    assert_eq!(p.value.units, 1_000);
    assert_eq!(p.valid_before, 1_000);
    assert_eq!(p.nonce, b"6e6f6e63652d31".to_vec());
}

#[test]
fn malformed_headers_are_rejected() {
    assert!(matches!(
        decode_payment_header(&b"nonsense".to_vec(), X402_VERSION, 0, 0),
        Err(CodecError::MalformedProof)
    ));
    // valid hex, but not a proof document
    let h = encode_hex(&b"{\"x402Version\":1}".to_vec());
    assert!(matches!(
        decode_payment_header(&h, X402_VERSION, 0, 0),
        Err(CodecError::MalformedProof)
    ));
    // a truncated but otherwise valid encoding
    let mut h2 = sample_header(1_000, 1_000);
    h2.truncate(h2.len() - 2);
    assert!(matches!(
        decode_payment_header(&h2, X402_VERSION, 0, 0),
        Err(CodecError::MalformedProof)
    ));
}

#[test]
fn other_versions_are_rejected() {
    let h = sample_header(1_000, 1_000);
    assert!(matches!(
        decode_payment_header(&h, 2, 900, DEFAULT_CLOCK_SKEW),
        Err(CodecError::UnsupportedVersion)
    ));
}

#[test]
fn expired_proofs_are_rejected() {
    // validBefore earlier than the verifying clock: expired, even though
    // the document is otherwise intact
    let h = sample_header(1_000, 100);
    assert!(matches!(
        decode_payment_header(&h, X402_VERSION, 200, DEFAULT_CLOCK_SKEW),
        Err(CodecError::ExpiredProof)
    ));
    // at the boundary the skew allowance decides
    assert!(matches!(
        decode_payment_header(&h, X402_VERSION, 105, DEFAULT_CLOCK_SKEW),
        Err(CodecError::ExpiredProof)
    ));
    assert!(decode_payment_header(&h, X402_VERSION, 104, DEFAULT_CLOCK_SKEW).is_ok());
}

#[test]
fn requirement_documents_round_trip() {
    let d = RequirementDoc {
        version: X402_VERSION,
        error: Vec::new(),
        accepts: vec![sample_offer(1_000), sample_offer(2_000)],
    };
    let b = render_requirements(&d);
    let d2 = parse_requirements(&b).unwrap();
    assert_eq!(d2.version, X402_VERSION);
    assert_eq!(d2.error, Vec::<u8>::new());
    assert_eq!(d2.accepts.len(), 2);
    assert_eq!(d2.accepts[0].amount.units, 1_000);
    assert_eq!(d2.accepts[1].amount.units, 2_000);
    assert_eq!(d2.accepts[0].pay_to, SOL_PAYEE.as_bytes().to_vec());
    assert_eq!(d2.accepts[0].mime_type, b"application/json".to_vec());
}

#[test]
fn requirement_parser_rejects_noise() {
    assert!(parse_requirements(&b"{}".to_vec()).is_none());
    let d = RequirementDoc {
        version: X402_VERSION,
        error: Vec::new(),
        accepts: vec![sample_offer(1_000)],
    };
    let mut b = render_requirements(&d);
    b.push(b' ');
    assert!(parse_requirements(&b).is_none());
}

#[test]
fn rendered_requirements_are_exact_json() {
    let d = RequirementDoc {
        version: 1,
        error: b"insufficient".to_vec(),
        accepts: vec![sample_offer(1_000)],
    };
    let b = render_requirements(&d);
    let s = String::from_utf8(b).unwrap();
    assert_eq!(
        s,
        "{\"x402Version\":1,\"error\":\"insufficient\",\"accepts\":[{\"scheme\":\"exact\",\
         \"network\":\"solana\",\"asset\":\"EPjFWdd5AufqSSqeM2qN1xzybapC8G4wEGGkZwyTDt1v\",\
         \"payTo\":\"11111111111111111111111111111112\",\"maxAmountRequired\":\"1000\",\
         \"resource\":\"http://localhost:8080/discover\",\"description\":\"MCP Discovery Service\",\
         \"mimeType\":\"application/json\"}]}"
    );
}

#[test]
fn wire_documents_are_valid_json() {
    // an independent JSON parser agrees with the hand-built wire form
    let d = RequirementDoc {
        version: X402_VERSION,
        error: b"insufficient".to_vec(),
        accepts: vec![sample_offer(1_000), sample_offer(2_000)],
    };
    let b = render_requirements(&d);
    let v: serde_json::Value = serde_json::from_slice(&b).unwrap();
    assert_eq!(v["x402Version"], 1);
    assert_eq!(v["error"], "insufficient");
    assert_eq!(v["accepts"][0]["scheme"], "exact");
    assert_eq!(v["accepts"][0]["network"], "solana");
    assert_eq!(v["accepts"][0]["maxAmountRequired"], "1000");
    assert_eq!(v["accepts"][1]["maxAmountRequired"], "2000");
    assert_eq!(v["accepts"][0]["payTo"], SOL_PAYEE);
    assert_eq!(v["accepts"][0]["mimeType"], "application/json");

    let h = sample_header(1_000, 1_000);
    let body = decode_hex(&h).unwrap();
    let p: serde_json::Value = serde_json::from_slice(&body).unwrap();
    assert_eq!(p["x402Version"], 1);
    assert_eq!(p["scheme"], "exact");
    assert_eq!(p["network"], "solana");
    assert_eq!(p["payload"]["signature"], "deadbeefcafe");
    assert_eq!(p["payload"]["authorization"]["to"], SOL_PAYEE);
    assert_eq!(p["payload"]["authorization"]["value"], "1000");
    assert_eq!(p["payload"]["authorization"]["validBefore"], "1000");
}

#[test]
fn facilitator_bodies_are_valid_json() {
    let o = sample_offer(1_000);
    let p = build_proof(
        &o,
        b"payerPubKey11111111111111111111111111111111".to_vec(),
        b"deadbeefcafe".to_vec(),
        b"6e6f6e63652d31".to_vec(),
        0,
        1_000,
    )
    .unwrap();
    let body = facilitator_request(&p, &o);
    let v: serde_json::Value = serde_json::from_slice(&body).unwrap();
    assert_eq!(v["paymentPayload"]["payload"]["authorization"]["value"], "1000");
    assert_eq!(v["paymentRequirements"]["maxAmountRequired"], "1000");

    // verdicts round-trip, and noise is no verdict
    let ok = render_verification_result(&VerificationResult {
        is_valid: true,
        invalid_reason: Vec::new(),
    });
    assert_eq!(ok, b"{\"isValid\":true}".to_vec());
    let parsed = parse_verification_result(&ok).unwrap();
    assert!(parsed.is_valid);
    let bad = render_verification_result(&VerificationResult {
        is_valid: false,
        invalid_reason: b"insufficient_funds".to_vec(),
    });
    let w: serde_json::Value = serde_json::from_slice(&bad).unwrap();
    assert_eq!(w["isValid"], false);
    assert_eq!(w["invalidReason"], "insufficient_funds");
    let parsed2 = parse_verification_result(&bad).unwrap();
    assert!(!parsed2.is_valid);
    assert_eq!(parsed2.invalid_reason, b"insufficient_funds".to_vec());
    assert!(parse_verification_result(&b"{\"isValid\":maybe}".to_vec()).is_none());
}
