//! The payment header: a payment proof rendered to its wire form and
//! carried hex-encoded in one request header, together with the checks the
//! server applies when it accepts one — protocol version and expiry.

use vstd::prelude::*;
use crate::codec::{encode_proof, parse_proof, render_proof, PaymentProof};
use crate::hex::{decode_hex, encode_hex, hex_of, lemma_hex_of_injective};

verus! {

/// The protocol version this layer speaks.
pub const X402_VERSION: u64 = 1;

/// Default clock-skew tolerance, in seconds, granted when checking a
/// proof's expiry.
pub const DEFAULT_CLOCK_SKEW: u64 = 5;

#[derive(Clone, Copy, PartialEq, Eq, Structural, Debug)]
pub enum CodecError {
    /// The header is not the encoding of any well-formed proof.
    MalformedProof,
    /// The header decodes, but to another protocol version.
    UnsupportedVersion,
    /// The header decodes, but its validity window has elapsed.
    ExpiredProof,
}

/// The header value that carries a proof.
pub open spec fn header_of(p: PaymentProof) -> Seq<u8> {
    hex_of(render_proof(p))
}

/// A proof is expired when the verifying clock, minus the granted skew,
/// has reached its `validBefore` bound.
pub open spec fn proof_expired(p: PaymentProof, now: u64, skew: u64) -> bool {
    now >= p.valid_before + skew
}

/// Everything `decode_payment_header` promises of its result.
pub open spec fn decode_post(
    r: Result<PaymentProof, CodecError>,
    h: Seq<u8>,
    accepted_version: u64,
    now: u64,
    skew: u64,
) -> bool {
    match r {
        Ok(p) => p.wf() && h == header_of(p) && p.version == accepted_version && !proof_expired(
            p,
            now,
            skew,
        ),
        Err(CodecError::MalformedProof) => forall|p: PaymentProof|
            p.wf() ==> h != header_of(p),
        Err(CodecError::UnsupportedVersion) => exists|p: PaymentProof|
            p.wf() && h == header_of(p) && p.version != accepted_version,
        Err(CodecError::ExpiredProof) => exists|p: PaymentProof|
            p.wf() && h == header_of(p) && p.version == accepted_version && proof_expired(
                p,
                now,
                skew,
            ),
    }
}

/// Encodes a proof for the payment header.
pub fn encode_payment_header(p: &PaymentProof) -> (r: Vec<u8>)
    requires
        p.wf(),
    ensures
        r@ == header_of(*p),
{
    let body = encode_proof(p);
    encode_hex(&body)
}

/// Decodes and checks a payment header: the encoding must be well formed,
/// speak the accepted protocol version, and not be expired at `now`.
pub fn decode_payment_header(h: &Vec<u8>, accepted_version: u64, now: u64, skew: u64) -> (r:
    Result<PaymentProof, CodecError>)
    ensures
        decode_post(r, h@, accepted_version, now, skew),
{
    let body = match decode_hex(h) {
        Some(b) => b,
        None => {
            return Err(CodecError::MalformedProof);
        },
    };
    let p = match parse_proof(&body) {
        Some(p) => p,
        None => {
            proof {
                assert forall|q: PaymentProof| q.wf() implies h@ != header_of(q) by {
                    if h@ == header_of(q) {
                        lemma_hex_of_injective(body@, render_proof(q));
                    }
                }
            }
            return Err(CodecError::MalformedProof);
        },
    };
    if p.version != accepted_version {
        proof {
            assert(p.wf() && h@ == header_of(p) && p.version != accepted_version);
        }
        return Err(CodecError::UnsupportedVersion);
    }
    if now as u128 >= p.valid_before as u128 + skew as u128 {
        proof {
            assert(p.wf() && h@ == header_of(p) && p.version == accepted_version
                && proof_expired(p, now, skew));
        }
        return Err(CodecError::ExpiredProof);
    }
    Ok(p)
}

/// Two well-formed proofs with the same header value agree on every field:
/// the header pins the proof down.
#[verifier::rlimit(100)]
pub proof fn lemma_header_determines_proof(p1: PaymentProof, p2: PaymentProof)
    requires
        p1.wf(),
        p2.wf(),
        header_of(p1) == header_of(p2),
    ensures
        p1.version == p2.version,
        p1.scheme@ == p2.scheme@,
        p1.network == p2.network,
        p1.signature@ == p2.signature@,
        p1.from@ == p2.from@,
        p1.to@ == p2.to@,
        p1.value == p2.value,
        p1.valid_after == p2.valid_after,
        p1.valid_before == p2.valid_before,
        p1.nonce@ == p2.nonce@,
{
    lemma_hex_of_injective(render_proof(p1), render_proof(p2));
    let s = render_proof(p1);
    crate::codec::lemma_render_determines_front(p1, p2, s);
    crate::codec::lemma_render_determines_back(p1, p2, s);
}

/// A proof whose validity window has elapsed at the verifying clock is
/// rejected as expired, whatever else it carries: any result meeting the
/// decoder's contract on that proof's header is `ExpiredProof`.
pub proof fn lemma_expired_proof_rejected(
    r: Result<PaymentProof, CodecError>,
    h: Seq<u8>,
    p: PaymentProof,
    accepted_version: u64,
    now: u64,
    skew: u64,
)
    requires
        decode_post(r, h, accepted_version, now, skew),
        p.wf(),
        h == header_of(p),
        p.version == accepted_version,
        proof_expired(p, now, skew),
    ensures
        r == Err::<PaymentProof, CodecError>(CodecError::ExpiredProof),
{
    match r {
        Ok(q) => {
            lemma_header_determines_proof(p, q);
            assert(false);
        },
        Err(CodecError::MalformedProof) => {
            assert(h != header_of(p));
            assert(false);
        },
        Err(CodecError::UnsupportedVersion) => {
            let q = choose|q: PaymentProof|
                q.wf() && h == header_of(q) && q.version != accepted_version;
            lemma_header_determines_proof(p, q);
            assert(false);
        },
        Err(CodecError::ExpiredProof) => {},
    }
}

/// Encoding then decoding a fresh, current-version proof gives the proof
/// back: the codec round-trips.
pub proof fn lemma_header_round_trip(
    r: Result<PaymentProof, CodecError>,
    p: PaymentProof,
    now: u64,
    skew: u64,
)
    requires
        decode_post(r, header_of(p), p.version, now, skew),
        p.wf(),
        !proof_expired(p, now, skew),
    ensures
        r is Ok,
        r->Ok_0.scheme@ == p.scheme@,
        r->Ok_0.network == p.network,
        r->Ok_0.signature@ == p.signature@,
        r->Ok_0.from@ == p.from@,
        r->Ok_0.to@ == p.to@,
        r->Ok_0.value == p.value,
        r->Ok_0.valid_after == p.valid_after,
        r->Ok_0.valid_before == p.valid_before,
        r->Ok_0.nonce@ == p.nonce@,
{
    match r {
        Ok(q) => {
            lemma_header_determines_proof(p, q);
        },
        Err(CodecError::MalformedProof) => {
            assert(header_of(p) != header_of(p));
            assert(false);
        },
        Err(CodecError::UnsupportedVersion) => {
            let q = choose|q: PaymentProof|
                q.wf() && header_of(p) == header_of(q) && q.version != p.version;
            lemma_header_determines_proof(p, q);
            assert(false);
        },
        Err(CodecError::ExpiredProof) => {
            let q = choose|q: PaymentProof|
                q.wf() && header_of(p) == header_of(q) && q.version == p.version
                    && proof_expired(q, now, skew);
            lemma_header_determines_proof(p, q);
            assert(false);
        },
    }
}

} // verus!
