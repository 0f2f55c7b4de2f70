//! The facilitator call contract: the body the server posts to have a
//! proof verified or settled, and the parsers for what comes back.  The
//! transport itself — the HTTP round trip, its timeout — belongs to the
//! host; a timeout or unreachable facilitator is a transport failure, not
//! a verdict.

use vstd::prelude::*;
use crate::codec::{qstr, render_proof, PaymentProof};
use crate::requirements::{render_tag, OfferedTag};
use crate::text::{json_safe, json_safe_byte};
use crate::wire::{expect_lit, lit_at, parse_string_field, string_at, string_content,
    string_end, QUOTE};

verus! {

/// The literal segment `{"paymentPayload":` of a facilitator request.
pub open spec fn lit_f1() -> Seq<u8> {
    seq![
        0x7bu8, 0x22u8, 0x70u8, 0x61u8, 0x79u8, 0x6du8, 0x65u8, 0x6eu8, 0x74u8, 0x50u8, 0x61u8,
        0x79u8, 0x6cu8, 0x6fu8, 0x61u8, 0x64u8, 0x22u8, 0x3au8,
    ]
}

fn lit_f1_vec() -> (v: Vec<u8>)
    ensures
        v@ == lit_f1(),
{
    let mut v: Vec<u8> = Vec::new();
    v.push(0x7b);
    v.push(0x22);
    v.push(0x70);
    v.push(0x61);
    v.push(0x79);
    v.push(0x6d);
    v.push(0x65);
    v.push(0x6e);
    v.push(0x74);
    v.push(0x50);
    v.push(0x61);
    v.push(0x79);
    v.push(0x6c);
    v.push(0x6f);
    v.push(0x61);
    v.push(0x64);
    v.push(0x22);
    v.push(0x3a);
    proof {
        assert(v@ =~= lit_f1());
    }
    v
}

/// The literal segment `,"paymentRequirements":` of a facilitator request.
pub open spec fn lit_f2() -> Seq<u8> {
    seq![
        0x2cu8, 0x22u8, 0x70u8, 0x61u8, 0x79u8, 0x6du8, 0x65u8, 0x6eu8, 0x74u8, 0x52u8, 0x65u8,
        0x71u8, 0x75u8, 0x69u8, 0x72u8, 0x65u8, 0x6du8, 0x65u8, 0x6eu8, 0x74u8, 0x73u8, 0x22u8,
        0x3au8,
    ]
}

fn lit_f2_vec() -> (v: Vec<u8>)
    ensures
        v@ == lit_f2(),
{
    let mut v: Vec<u8> = Vec::new();
    v.push(0x2c);
    v.push(0x22);
    v.push(0x70);
    v.push(0x61);
    v.push(0x79);
    v.push(0x6d);
    v.push(0x65);
    v.push(0x6e);
    v.push(0x74);
    v.push(0x52);
    v.push(0x65);
    v.push(0x71);
    v.push(0x75);
    v.push(0x69);
    v.push(0x72);
    v.push(0x65);
    v.push(0x6d);
    v.push(0x65);
    v.push(0x6e);
    v.push(0x74);
    v.push(0x73);
    v.push(0x22);
    v.push(0x3a);
    proof {
        assert(v@ =~= lit_f2());
    }
    v
}

/// The body posted to the facilitator's verify and settle endpoints: the
/// proof and the listed tag it is measured against.
pub open spec fn render_facilitator_request(p: PaymentProof, t: OfferedTag) -> Seq<u8> {
    lit_f1() + render_proof(p) + lit_f2() + render_tag(t) + seq![0x7du8]
}

/// Renders the verify/settle request body.
pub fn facilitator_request(p: &PaymentProof, t: &OfferedTag) -> (r: Vec<u8>)
    requires
        p.wf(),
        t.wf(),
    ensures
        r@ == render_facilitator_request(*p, *t),
{
    let mut out: Vec<u8> = lit_f1_vec();
    let mut body = crate::codec::encode_proof(p);
    out.append(&mut body);
    let mut l2 = lit_f2_vec();
    out.append(&mut l2);
    crate::requirements::push_tag(&mut out, t);
    out.push(0x7d);
    proof {
        assert(out@ =~= render_facilitator_request(*p, *t));
    }
    out
}

/// The verdict body: `{"isValid":true}` on success, or
/// `{"isValid":false,"invalidReason":"<reason>"}`.
pub open spec fn lit_valid() -> Seq<u8> {
    seq![
        0x7bu8, 0x22u8, 0x69u8, 0x73u8, 0x56u8, 0x61u8, 0x6cu8, 0x69u8, 0x64u8, 0x22u8, 0x3au8,
        0x74u8, 0x72u8, 0x75u8, 0x65u8, 0x7du8,
    ]
}

pub open spec fn lit_invalid() -> Seq<u8> {
    seq![
        0x7bu8, 0x22u8, 0x69u8, 0x73u8, 0x56u8, 0x61u8, 0x6cu8, 0x69u8, 0x64u8, 0x22u8, 0x3au8,
        0x66u8, 0x61u8, 0x6cu8, 0x73u8, 0x65u8, 0x2cu8, 0x22u8, 0x69u8, 0x6eu8, 0x76u8, 0x61u8,
        0x6cu8, 0x69u8, 0x64u8, 0x52u8, 0x65u8, 0x61u8, 0x73u8, 0x6fu8, 0x6eu8, 0x22u8, 0x3au8,
    ]
}

fn lit_valid_vec() -> (v: Vec<u8>)
    ensures
        v@ == lit_valid(),
{
    let mut v: Vec<u8> = Vec::new();
    v.push(0x7b);
    v.push(0x22);
    v.push(0x69);
    v.push(0x73);
    v.push(0x56);
    v.push(0x61);
    v.push(0x6c);
    v.push(0x69);
    v.push(0x64);
    v.push(0x22);
    v.push(0x3a);
    v.push(0x74);
    v.push(0x72);
    v.push(0x75);
    v.push(0x65);
    v.push(0x7d);
    proof {
        assert(v@ =~= lit_valid());
    }
    v
}

fn lit_invalid_vec() -> (v: Vec<u8>)
    ensures
        v@ == lit_invalid(),
{
    let mut v: Vec<u8> = Vec::new();
    v.push(0x7b);
    v.push(0x22);
    v.push(0x69);
    v.push(0x73);
    v.push(0x56);
    v.push(0x61);
    v.push(0x6c);
    v.push(0x69);
    v.push(0x64);
    v.push(0x22);
    v.push(0x3a);
    v.push(0x66);
    v.push(0x61);
    v.push(0x6c);
    v.push(0x73);
    v.push(0x65);
    v.push(0x2c);
    v.push(0x22);
    v.push(0x69);
    v.push(0x6e);
    v.push(0x76);
    v.push(0x61);
    v.push(0x6c);
    v.push(0x69);
    v.push(0x64);
    v.push(0x52);
    v.push(0x65);
    v.push(0x61);
    v.push(0x73);
    v.push(0x6f);
    v.push(0x6e);
    v.push(0x22);
    v.push(0x3a);
    proof {
        assert(v@ =~= lit_invalid());
    }
    v
}

/// A parsed verification result: the verdict, and the stated reason when
/// negative.
pub struct VerificationResult {
    pub is_valid: bool,
    pub invalid_reason: Vec<u8>,
}

/// The wire form of a verification result.
pub open spec fn render_verdict(valid: bool, reason: Seq<u8>) -> Seq<u8> {
    if valid {
        lit_valid()
    } else {
        lit_invalid() + qstr(reason) + seq![0x7du8]
    }
}

/// Renders a verification result; what a facilitator implementation would
/// answer with.
pub fn render_verification_result(r: &VerificationResult) -> (out: Vec<u8>)
    requires
        json_safe(r.invalid_reason@),
    ensures
        out@ == render_verdict(r.is_valid, r.invalid_reason@),
{
    if r.is_valid {
        lit_valid_vec()
    } else {
        let mut out = lit_invalid_vec();
        out.push(QUOTE);
        out.extend_from_slice(r.invalid_reason.as_slice());
        out.push(QUOTE);
        out.push(0x7d);
        proof {
            assert(out@ =~= lit_invalid() + qstr(r.invalid_reason@) + seq![0x7du8]);
        }
        out
    }
}

/// Parses a facilitator verdict.  Accepts exactly the two verdict shapes;
/// anything else is no verdict at all and must be treated as a transport
/// failure.
pub fn parse_verification_result(s: &Vec<u8>) -> (r: Option<VerificationResult>)
    ensures
        match r {
            Some(v) => json_safe(v.invalid_reason@) && s@ == render_verdict(
                v.is_valid,
                v.invalid_reason@,
            ) && (v.is_valid ==> v.invalid_reason@.len() == 0),
            None => forall|valid: bool, reason: Seq<u8>|
                json_safe(reason) ==> s@ != render_verdict(valid, reason),
        },
{
    let lv = lit_valid_vec();
    match expect_lit(s, 0, &lv) {
        Some(j) => {
            if j == s.len() {
                proof {
                    assert(s@.subrange(0, s@.len() as int) =~= s@);
                }
                return Some(VerificationResult { is_valid: true, invalid_reason: Vec::new() });
            }
        },
        None => {},
    }
    let li = lit_invalid_vec();
    let i1 = match expect_lit(s, 0, &li) {
        Some(j) => j,
        None => {
            proof {
                assert forall|valid: bool, reason: Seq<u8>|
                    json_safe(reason) implies s@ != render_verdict(valid, reason) by {
                    if s@ == render_verdict(valid, reason) {
                        lemma_verdict_positions(valid, reason, s@);
                    }
                }
            }
            return None;
        },
    };
    let (reason, i2) = match parse_string_field(s, i1) {
        Some(q) => q,
        None => {
            proof {
                assert forall|valid: bool, reason: Seq<u8>|
                    json_safe(reason) implies s@ != render_verdict(valid, reason) by {
                    if s@ == render_verdict(valid, reason) {
                        lemma_verdict_positions(valid, reason, s@);
                    }
                }
            }
            return None;
        },
    };
    if i2 < s.len() && s[i2] == 0x7d && i2 + 1 == s.len() {
        proof {
            crate::wire::lemma_safe_end(s@, i1 as int + 1);
            assert(s@ =~= lit_invalid() + qstr(reason@) + seq![0x7du8]);
        }
        Some(VerificationResult { is_valid: false, invalid_reason: reason })
    } else {
        proof {
            assert forall|valid: bool, reason2: Seq<u8>|
                json_safe(reason2) implies s@ != render_verdict(valid, reason2) by {
                if s@ == render_verdict(valid, reason2) {
                    lemma_verdict_positions(valid, reason2, s@);
                }
            }
        }
        None
    }
}

/// In a rendered verdict every piece stands where the parser looks.
proof fn lemma_verdict_positions(valid: bool, reason: Seq<u8>, s: Seq<u8>)
    requires
        json_safe(reason),
        s == render_verdict(valid, reason),
    ensures
        valid ==> s == lit_valid() && lit_at(s, 0, lit_valid()) && s.len() == lit_valid().len(),
        !valid ==> lit_at(s, 0, lit_invalid()) && string_at(s, lit_invalid().len() as int)
            && string_content(s, lit_invalid().len() as int) == reason && string_end(
            s,
            lit_invalid().len() as int,
        ) + 1 == s.len() && s[string_end(s, lit_invalid().len() as int)] == 0x7d && !lit_at(
            s,
            0,
            lit_valid(),
        ),
{
    if valid {
        assert(s.subrange(0, lit_valid().len() as int) =~= lit_valid());
    } else {
        let li = lit_invalid();
        let q = qstr(reason);
        assert(s.subrange(0, li.len() as int) =~= li);
        assert(s.subrange(li.len() as int, li.len() + q.len() as int) =~= q);
        crate::codec::lemma_quoted_piece(s, li.len() as int, reason);
        assert(s[li.len() + q.len() as int] == 0x7d);
        // the two verdict shapes differ at their twelfth byte
        assert(!lit_at(s, 0, lit_valid())) by {
            if lit_at(s, 0, lit_valid()) {
                assert(s.subrange(0, lit_valid().len() as int)[11] == s[11]);
                assert(s[11] == 0x74 && s[11] == 0x66);
            }
        }
    }
}

} // verus!
