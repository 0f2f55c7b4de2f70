//! The payment-proof codec: builds and parses the signed payment payload
//! carried in the payment header.  The wire form is a canonical JSON
//! document; the parser accepts exactly the documents the encoder
//! produces, so decoding is the inverse of encoding.

use vstd::prelude::*;
use crate::amount::Amount;
use crate::asset::{bytes_eq, network_name, Network};
use crate::numerals::{digits_of, is_digit, lemma_digits_of_props, push_digits, run_end};
use crate::text::{json_safe, json_safe_byte};
use crate::wire::{
    expect_lit, lemma_number_at_digits, lemma_string_at_content, lit_at, number_at, number_val,
    parse_number, parse_string_field, string_at, string_content, string_end, QUOTE,
};
use crate::numerals::MAX_UNITS;

verus! {

/// A signed, time-bounded payment authorization: the selected price tag's
/// network and payee, the payer's identity, the signature, a nonce, and a
/// validity window.
pub struct PaymentProof {
    pub version: u64,
    pub scheme: Vec<u8>,
    pub network: Network,
    pub signature: Vec<u8>,
    pub from: Vec<u8>,
    pub to: Vec<u8>,
    pub value: Amount,
    pub valid_after: u64,
    pub valid_before: u64,
    pub nonce: Vec<u8>,
}

impl PaymentProof {
    pub open spec fn wf(self) -> bool {
        &&& json_safe(self.scheme@)
        &&& json_safe(self.signature@)
        &&& json_safe(self.from@)
        &&& json_safe(self.to@)
        &&& json_safe(self.nonce@)
        &&& self.value.wf()
    }
}

/// The literal segment `{"x402Version":` of the proof payload.
pub open spec fn lit_p1() -> Seq<u8> {
    seq![0x7bu8, 0x22u8, 0x78u8, 0x34u8, 0x30u8, 0x32u8, 0x56u8, 0x65u8, 0x72u8, 0x73u8, 0x69u8, 0x6fu8, 0x6eu8, 0x22u8, 0x3au8]
}

pub(crate) fn lit_p1_vec() -> (v: Vec<u8>)
    ensures
        v@ == lit_p1(),
{
    let mut v: Vec<u8> = Vec::new();
    v.push(0x7b);
    v.push(0x22);
    v.push(0x78);
    v.push(0x34);
    v.push(0x30);
    v.push(0x32);
    v.push(0x56);
    v.push(0x65);
    v.push(0x72);
    v.push(0x73);
    v.push(0x69);
    v.push(0x6f);
    v.push(0x6e);
    v.push(0x22);
    v.push(0x3a);
    proof {
        assert(v@ =~= lit_p1());
    }
    v
}

/// The literal segment `,"scheme":` of the proof payload.
pub open spec fn lit_p2() -> Seq<u8> {
    seq![0x2cu8, 0x22u8, 0x73u8, 0x63u8, 0x68u8, 0x65u8, 0x6du8, 0x65u8, 0x22u8, 0x3au8]
}

fn lit_p2_vec() -> (v: Vec<u8>)
    ensures
        v@ == lit_p2(),
{
    let mut v: Vec<u8> = Vec::new();
    v.push(0x2c);
    v.push(0x22);
    v.push(0x73);
    v.push(0x63);
    v.push(0x68);
    v.push(0x65);
    v.push(0x6d);
    v.push(0x65);
    v.push(0x22);
    v.push(0x3a);
    proof {
        assert(v@ =~= lit_p2());
    }
    v
}

/// The literal segment `,"network":` of the proof payload.
pub open spec fn lit_p3() -> Seq<u8> {
    seq![0x2cu8, 0x22u8, 0x6eu8, 0x65u8, 0x74u8, 0x77u8, 0x6fu8, 0x72u8, 0x6bu8, 0x22u8, 0x3au8]
}

pub(crate) fn lit_p3_vec() -> (v: Vec<u8>)
    ensures
        v@ == lit_p3(),
{
    let mut v: Vec<u8> = Vec::new();
    v.push(0x2c);
    v.push(0x22);
    v.push(0x6e);
    v.push(0x65);
    v.push(0x74);
    v.push(0x77);
    v.push(0x6f);
    v.push(0x72);
    v.push(0x6b);
    v.push(0x22);
    v.push(0x3a);
    proof {
        assert(v@ =~= lit_p3());
    }
    v
}

/// The literal segment `,"payload":{"signature":` of the proof payload.
pub open spec fn lit_p4() -> Seq<u8> {
    seq![0x2cu8, 0x22u8, 0x70u8, 0x61u8, 0x79u8, 0x6cu8, 0x6fu8, 0x61u8, 0x64u8, 0x22u8, 0x3au8, 0x7bu8, 0x22u8, 0x73u8, 0x69u8, 0x67u8, 0x6eu8, 0x61u8, 0x74u8, 0x75u8, 0x72u8, 0x65u8, 0x22u8, 0x3au8]
}

fn lit_p4_vec() -> (v: Vec<u8>)
    ensures
        v@ == lit_p4(),
{
    let mut v: Vec<u8> = Vec::new();
    v.push(0x2c);
    v.push(0x22);
    v.push(0x70);
    v.push(0x61);
    v.push(0x79);
    v.push(0x6c);
    v.push(0x6f);
    v.push(0x61);
    v.push(0x64);
    v.push(0x22);
    v.push(0x3a);
    v.push(0x7b);
    v.push(0x22);
    v.push(0x73);
    v.push(0x69);
    v.push(0x67);
    v.push(0x6e);
    v.push(0x61);
    v.push(0x74);
    v.push(0x75);
    v.push(0x72);
    v.push(0x65);
    v.push(0x22);
    v.push(0x3a);
    proof {
        assert(v@ =~= lit_p4());
    }
    v
}

/// The literal segment `,"authorization":{"from":` of the proof payload.
pub open spec fn lit_p5() -> Seq<u8> {
    seq![0x2cu8, 0x22u8, 0x61u8, 0x75u8, 0x74u8, 0x68u8, 0x6fu8, 0x72u8, 0x69u8, 0x7au8, 0x61u8, 0x74u8, 0x69u8, 0x6fu8, 0x6eu8, 0x22u8, 0x3au8, 0x7bu8, 0x22u8, 0x66u8, 0x72u8, 0x6fu8, 0x6du8, 0x22u8, 0x3au8]
}

fn lit_p5_vec() -> (v: Vec<u8>)
    ensures
        v@ == lit_p5(),
{
    let mut v: Vec<u8> = Vec::new();
    v.push(0x2c);
    v.push(0x22);
    v.push(0x61);
    v.push(0x75);
    v.push(0x74);
    v.push(0x68);
    v.push(0x6f);
    v.push(0x72);
    v.push(0x69);
    v.push(0x7a);
    v.push(0x61);
    v.push(0x74);
    v.push(0x69);
    v.push(0x6f);
    v.push(0x6e);
    v.push(0x22);
    v.push(0x3a);
    v.push(0x7b);
    v.push(0x22);
    v.push(0x66);
    v.push(0x72);
    v.push(0x6f);
    v.push(0x6d);
    v.push(0x22);
    v.push(0x3a);
    proof {
        assert(v@ =~= lit_p5());
    }
    v
}

/// The literal segment `,"to":` of the proof payload.
pub open spec fn lit_p6() -> Seq<u8> {
    seq![0x2cu8, 0x22u8, 0x74u8, 0x6fu8, 0x22u8, 0x3au8]
}

fn lit_p6_vec() -> (v: Vec<u8>)
    ensures
        v@ == lit_p6(),
{
    let mut v: Vec<u8> = Vec::new();
    v.push(0x2c);
    v.push(0x22);
    v.push(0x74);
    v.push(0x6f);
    v.push(0x22);
    v.push(0x3a);
    proof {
        assert(v@ =~= lit_p6());
    }
    v
}

/// The literal segment `,"value":` of the proof payload.
pub open spec fn lit_p7() -> Seq<u8> {
    seq![0x2cu8, 0x22u8, 0x76u8, 0x61u8, 0x6cu8, 0x75u8, 0x65u8, 0x22u8, 0x3au8]
}

fn lit_p7_vec() -> (v: Vec<u8>)
    ensures
        v@ == lit_p7(),
{
    let mut v: Vec<u8> = Vec::new();
    v.push(0x2c);
    v.push(0x22);
    v.push(0x76);
    v.push(0x61);
    v.push(0x6c);
    v.push(0x75);
    v.push(0x65);
    v.push(0x22);
    v.push(0x3a);
    proof {
        assert(v@ =~= lit_p7());
    }
    v
}

/// The literal segment `,"validAfter":` of the proof payload.
pub open spec fn lit_p8() -> Seq<u8> {
    seq![0x2cu8, 0x22u8, 0x76u8, 0x61u8, 0x6cu8, 0x69u8, 0x64u8, 0x41u8, 0x66u8, 0x74u8, 0x65u8, 0x72u8, 0x22u8, 0x3au8]
}

fn lit_p8_vec() -> (v: Vec<u8>)
    ensures
        v@ == lit_p8(),
{
    let mut v: Vec<u8> = Vec::new();
    v.push(0x2c);
    v.push(0x22);
    v.push(0x76);
    v.push(0x61);
    v.push(0x6c);
    v.push(0x69);
    v.push(0x64);
    v.push(0x41);
    v.push(0x66);
    v.push(0x74);
    v.push(0x65);
    v.push(0x72);
    v.push(0x22);
    v.push(0x3a);
    proof {
        assert(v@ =~= lit_p8());
    }
    v
}

/// The literal segment `,"validBefore":` of the proof payload.
pub open spec fn lit_p9() -> Seq<u8> {
    seq![0x2cu8, 0x22u8, 0x76u8, 0x61u8, 0x6cu8, 0x69u8, 0x64u8, 0x42u8, 0x65u8, 0x66u8, 0x6fu8, 0x72u8, 0x65u8, 0x22u8, 0x3au8]
}

fn lit_p9_vec() -> (v: Vec<u8>)
    ensures
        v@ == lit_p9(),
{
    let mut v: Vec<u8> = Vec::new();
    v.push(0x2c);
    v.push(0x22);
    v.push(0x76);
    v.push(0x61);
    v.push(0x6c);
    v.push(0x69);
    v.push(0x64);
    v.push(0x42);
    v.push(0x65);
    v.push(0x66);
    v.push(0x6f);
    v.push(0x72);
    v.push(0x65);
    v.push(0x22);
    v.push(0x3a);
    proof {
        assert(v@ =~= lit_p9());
    }
    v
}

/// The literal segment `,"nonce":` of the proof payload.
pub open spec fn lit_p10() -> Seq<u8> {
    seq![0x2cu8, 0x22u8, 0x6eu8, 0x6fu8, 0x6eu8, 0x63u8, 0x65u8, 0x22u8, 0x3au8]
}

fn lit_p10_vec() -> (v: Vec<u8>)
    ensures
        v@ == lit_p10(),
{
    let mut v: Vec<u8> = Vec::new();
    v.push(0x2c);
    v.push(0x22);
    v.push(0x6e);
    v.push(0x6f);
    v.push(0x6e);
    v.push(0x63);
    v.push(0x65);
    v.push(0x22);
    v.push(0x3a);
    proof {
        assert(v@ =~= lit_p10());
    }
    v
}

/// The literal segment `}}}` of the proof payload.
pub open spec fn lit_p11() -> Seq<u8> {
    seq![0x7du8, 0x7du8, 0x7du8]
}

fn lit_p11_vec() -> (v: Vec<u8>)
    ensures
        v@ == lit_p11(),
{
    let mut v: Vec<u8> = Vec::new();
    v.push(0x7d);
    v.push(0x7d);
    v.push(0x7d);
    proof {
        assert(v@ =~= lit_p11());
    }
    v
}

/// A quoted string piece.
pub open spec fn qstr(f: Seq<u8>) -> Seq<u8> {
    seq![QUOTE] + f + seq![QUOTE]
}

/// The canonical wire form of a payment proof.
pub open spec fn render_proof(p: PaymentProof) -> Seq<u8> {
    lit_p1() + digits_of(p.version as nat) + lit_p2() + qstr(p.scheme@) + lit_p3() + qstr(
        network_name(p.network),
    ) + lit_p4() + qstr(p.signature@) + lit_p5() + qstr(p.from@) + lit_p6() + qstr(p.to@)
        + lit_p7() + qstr(digits_of(p.value.units as nat)) + lit_p8() + qstr(
        digits_of(p.valid_after as nat),
    ) + lit_p9() + qstr(digits_of(p.valid_before as nat)) + lit_p10() + qstr(p.nonce@) + lit_p11()
}

/// Digit strings may stand verbatim in wire documents.
pub proof fn lemma_digits_json_safe(v: nat)
    ensures
        json_safe(digits_of(v)),
{
    lemma_digits_of_props(v);
    assert forall|i: int| 0 <= i < digits_of(v).len() implies json_safe_byte(
        #[trigger] digits_of(v)[i],
    ) by {
        assert(is_digit(digits_of(v)[i]));
    }
}

fn push_qstr(out: &mut Vec<u8>, f: &Vec<u8>)
    ensures
        final(out)@ == old(out)@ + qstr(f@),
{
    out.push(QUOTE);
    out.extend_from_slice(f.as_slice());
    out.push(QUOTE);
    proof {
        assert(out@ =~= old(out)@ + qstr(f@));
    }
}

fn push_qnum(out: &mut Vec<u8>, n: u128)
    ensures
        final(out)@ == old(out)@ + qstr(digits_of(n as nat)),
{
    out.push(QUOTE);
    push_digits(n, out);
    out.push(QUOTE);
    proof {
        assert(out@ =~= old(out)@ + qstr(digits_of(n as nat)));
    }
}

/// Encodes a payment proof into its canonical wire form.
pub fn encode_proof(p: &PaymentProof) -> (r: Vec<u8>)
    ensures
        r@ == render_proof(*p),
{
    let mut out: Vec<u8> = lit_p1_vec();
    push_digits(p.version as u128, &mut out);
    let mut l2 = lit_p2_vec();
    out.append(&mut l2);
    push_qstr(&mut out, &p.scheme);
    let mut l3 = lit_p3_vec();
    out.append(&mut l3);
    out.push(QUOTE);
    p.network.push_name(&mut out);
    out.push(QUOTE);
    proof {
        assert(out@ =~= lit_p1() + digits_of(p.version as nat) + lit_p2() + qstr(p.scheme@)
            + lit_p3() + qstr(network_name(p.network)));
    }
    let mut l4 = lit_p4_vec();
    out.append(&mut l4);
    push_qstr(&mut out, &p.signature);
    let mut l5 = lit_p5_vec();
    out.append(&mut l5);
    push_qstr(&mut out, &p.from);
    let mut l6 = lit_p6_vec();
    out.append(&mut l6);
    push_qstr(&mut out, &p.to);
    let mut l7 = lit_p7_vec();
    out.append(&mut l7);
    push_qnum(&mut out, p.value.units);
    let mut l8 = lit_p8_vec();
    out.append(&mut l8);
    push_qnum(&mut out, p.valid_after as u128);
    let mut l9 = lit_p9_vec();
    out.append(&mut l9);
    push_qnum(&mut out, p.valid_before as u128);
    let mut l10 = lit_p10_vec();
    out.append(&mut l10);
    push_qstr(&mut out, &p.nonce);
    let mut l11 = lit_p11_vec();
    out.append(&mut l11);
    out
}

/// A quoted string field occupies exactly its quoted content.
proof fn lemma_qstr_slice(s: Seq<u8>, o: int)
    requires
        0 <= o,
        string_at(s, o),
        string_end(s, o) <= s.len(),
    ensures
        s.subrange(o, string_end(s, o)) =~= qstr(string_content(s, o)),
        o + 2 <= string_end(s, o) <= s.len(),
{
    crate::wire::lemma_safe_end(s, o + 1);
}

/// Offsets of the successive pieces of a rendered proof, as functions of
/// the document alone; the parser lands on exactly these.
pub open spec fn po_version(s: Seq<u8>) -> int {
    lit_p1().len() as int
}

pub open spec fn po_scheme(s: Seq<u8>) -> int {
    run_end(s, po_version(s)) + lit_p2().len()
}

pub open spec fn po_network(s: Seq<u8>) -> int {
    string_end(s, po_scheme(s)) + lit_p3().len()
}

pub open spec fn po_signature(s: Seq<u8>) -> int {
    string_end(s, po_network(s)) + lit_p4().len()
}

pub open spec fn po_from(s: Seq<u8>) -> int {
    string_end(s, po_signature(s)) + lit_p5().len()
}

pub open spec fn po_to(s: Seq<u8>) -> int {
    string_end(s, po_from(s)) + lit_p6().len()
}

pub open spec fn po_value(s: Seq<u8>) -> int {
    string_end(s, po_to(s)) + lit_p7().len()
}

pub open spec fn po_after(s: Seq<u8>) -> int {
    string_end(s, po_value(s)) + lit_p8().len()
}

pub open spec fn po_before(s: Seq<u8>) -> int {
    string_end(s, po_after(s)) + lit_p9().len()
}

pub open spec fn po_nonce(s: Seq<u8>) -> int {
    string_end(s, po_before(s)) + lit_p10().len()
}

pub open spec fn po_end(s: Seq<u8>) -> int {
    string_end(s, po_nonce(s)) + lit_p11().len()
}

/// Cumulative offsets of the pieces of a rendered proof, as ground
/// functions of the proof's fields.
pub open spec fn pc_v(p: PaymentProof) -> int {
    lit_p1().len() as int
}

pub open spec fn pc_v_end(p: PaymentProof) -> int {
    pc_v(p) + digits_of(p.version as nat).len()
}

pub open spec fn pc_s(p: PaymentProof) -> int {
    pc_v_end(p) + lit_p2().len()
}

pub open spec fn pc_s_end(p: PaymentProof) -> int {
    pc_s(p) + p.scheme@.len() + 2
}

pub open spec fn pc_n(p: PaymentProof) -> int {
    pc_s_end(p) + lit_p3().len()
}

pub open spec fn pc_n_end(p: PaymentProof) -> int {
    pc_n(p) + network_name(p.network).len() + 2
}

pub open spec fn pc_g(p: PaymentProof) -> int {
    pc_n_end(p) + lit_p4().len()
}

pub open spec fn pc_g_end(p: PaymentProof) -> int {
    pc_g(p) + p.signature@.len() + 2
}

pub open spec fn pc_f(p: PaymentProof) -> int {
    pc_g_end(p) + lit_p5().len()
}

pub open spec fn pc_f_end(p: PaymentProof) -> int {
    pc_f(p) + p.from@.len() + 2
}

pub open spec fn pc_t(p: PaymentProof) -> int {
    pc_f_end(p) + lit_p6().len()
}

pub open spec fn pc_t_end(p: PaymentProof) -> int {
    pc_t(p) + p.to@.len() + 2
}

pub open spec fn pc_u(p: PaymentProof) -> int {
    pc_t_end(p) + lit_p7().len()
}

pub open spec fn pc_u_end(p: PaymentProof) -> int {
    pc_u(p) + digits_of(p.value.units as nat).len() + 2
}

pub open spec fn pc_a(p: PaymentProof) -> int {
    pc_u_end(p) + lit_p8().len()
}

pub open spec fn pc_a_end(p: PaymentProof) -> int {
    pc_a(p) + digits_of(p.valid_after as nat).len() + 2
}

pub open spec fn pc_b(p: PaymentProof) -> int {
    pc_a_end(p) + lit_p9().len()
}

pub open spec fn pc_b_end(p: PaymentProof) -> int {
    pc_b(p) + digits_of(p.valid_before as nat).len() + 2
}

pub open spec fn pc_x(p: PaymentProof) -> int {
    pc_b_end(p) + lit_p10().len()
}

pub open spec fn pc_x_end(p: PaymentProof) -> int {
    pc_x(p) + p.nonce@.len() + 2
}

pub open spec fn pc_total(p: PaymentProof) -> int {
    pc_x_end(p) + lit_p11().len()
}

/// Splitting a known concatenation into its two halves.
proof fn lemma_take_split(s: Seq<u8>, a: Seq<u8>, b: Seq<u8>)
    requires
        a.len() + b.len() <= s.len(),
        s.subrange(0, a.len() + b.len() as int) == a + b,
    ensures
        s.subrange(0, a.len() as int) =~= a,
        s.subrange(a.len() as int, a.len() + b.len() as int) =~= b,
{
    let w = s.subrange(0, a.len() + b.len() as int);
    assert(forall|m: int| 0 <= m < a.len() + b.len() ==> #[trigger] s[m] == w[m]);
}

/// The pieces of a rendered proof from the amount onward, and the front
/// as one block.
#[verifier::rlimit(100)]
proof fn lemma_render_pieces_back(p: PaymentProof, s: Seq<u8>)
    requires
        s == render_proof(p),
    ensures
        s.len() == pc_total(p),
        s.subrange(0, pc_u(p)) == render_front(p),
        s.subrange(pc_u(p), pc_u_end(p)) == qstr(digits_of(p.value.units as nat)),
        s.subrange(pc_u_end(p), pc_a(p)) == lit_p8(),
        s.subrange(pc_a(p), pc_a_end(p)) == qstr(digits_of(p.valid_after as nat)),
        s.subrange(pc_a_end(p), pc_b(p)) == lit_p9(),
        s.subrange(pc_b(p), pc_b_end(p)) == qstr(digits_of(p.valid_before as nat)),
        s.subrange(pc_b_end(p), pc_x(p)) == lit_p10(),
        s.subrange(pc_x(p), pc_x_end(p)) == qstr(p.nonce@),
        s.subrange(pc_x_end(p), pc_total(p)) == lit_p11(),
{
    let d13 = qstr(digits_of(p.value.units as nat));
    let d15 = qstr(digits_of(p.valid_after as nat));
    let d17 = qstr(digits_of(p.valid_before as nat));
    let d19 = qstr(p.nonce@);
    let e12 = render_front(p);
    let e13 = e12 + d13;
    let e14 = e13 + lit_p8();
    let e15 = e14 + d15;
    let e16 = e15 + lit_p9();
    let e17 = e16 + d17;
    let e18 = e17 + lit_p10();
    let e19 = e18 + d19;
    assert(s == e19 + lit_p11());
    assert(s.subrange(0, s.len() as int) =~= s);
    lemma_take_split(s, e19, lit_p11());
    lemma_take_split(s, e18, d19);
    lemma_take_split(s, e17, lit_p10());
    lemma_take_split(s, e16, d17);
    lemma_take_split(s, e15, lit_p9());
    lemma_take_split(s, e14, d15);
    lemma_take_split(s, e13, lit_p8());
    lemma_take_split(s, e12, d13);
}

/// The pieces of a rendered proof before the amount.
#[verifier::rlimit(100)]
proof fn lemma_render_pieces_front(p: PaymentProof, s: Seq<u8>)
    requires
        pc_u(p) <= s.len(),
        s.subrange(0, pc_u(p)) == render_front(p),
    ensures
        s.subrange(0, pc_v(p)) == lit_p1(),
        s.subrange(pc_v(p), pc_v_end(p)) == digits_of(p.version as nat),
        s.subrange(pc_v_end(p), pc_s(p)) == lit_p2(),
        s.subrange(pc_s(p), pc_s_end(p)) == qstr(p.scheme@),
        s.subrange(pc_s_end(p), pc_n(p)) == lit_p3(),
        s.subrange(pc_n(p), pc_n_end(p)) == qstr(network_name(p.network)),
        s.subrange(pc_n_end(p), pc_g(p)) == lit_p4(),
        s.subrange(pc_g(p), pc_g_end(p)) == qstr(p.signature@),
        s.subrange(pc_g_end(p), pc_f(p)) == lit_p5(),
        s.subrange(pc_f(p), pc_f_end(p)) == qstr(p.from@),
        s.subrange(pc_f_end(p), pc_t(p)) == lit_p6(),
        s.subrange(pc_t(p), pc_t_end(p)) == qstr(p.to@),
        s.subrange(pc_t_end(p), pc_u(p)) == lit_p7(),
{
    let d1 = digits_of(p.version as nat);
    let d3 = qstr(p.scheme@);
    let d5 = qstr(network_name(p.network));
    let d7 = qstr(p.signature@);
    let d9 = qstr(p.from@);
    let d11 = qstr(p.to@);
    let e1 = lit_p1() + d1;
    let e2 = e1 + lit_p2();
    let e3 = e2 + d3;
    let e4 = e3 + lit_p3();
    let e5 = e4 + d5;
    let e6 = e5 + lit_p4();
    let e7 = e6 + d7;
    let e8 = e7 + lit_p5();
    let e9 = e8 + d9;
    let e10 = e9 + lit_p6();
    let e11 = e10 + d11;
    assert(render_front(p) == e11 + lit_p7());
    lemma_take_split(s, e11, lit_p7());
    lemma_take_split(s, e10, d11);
    lemma_take_split(s, e9, lit_p6());
    lemma_take_split(s, e8, d9);
    lemma_take_split(s, e7, lit_p5());
    lemma_take_split(s, e6, d7);
    lemma_take_split(s, e5, lit_p4());
    lemma_take_split(s, e4, d5);
    lemma_take_split(s, e3, lit_p3());
    lemma_take_split(s, e2, d3);
    lemma_take_split(s, e1, lit_p2());
    lemma_take_split(s, lit_p1(), d1);
}

/// Each piece of a rendered proof is the subrange between its cumulative
/// offsets.
proof fn lemma_render_pieces(p: PaymentProof, s: Seq<u8>)
    requires
        s == render_proof(p),
    ensures
        s.len() == pc_total(p),
        s.subrange(0, pc_v(p)) == lit_p1(),
        s.subrange(pc_v(p), pc_v_end(p)) == digits_of(p.version as nat),
        s.subrange(pc_v_end(p), pc_s(p)) == lit_p2(),
        s.subrange(pc_s(p), pc_s_end(p)) == qstr(p.scheme@),
        s.subrange(pc_s_end(p), pc_n(p)) == lit_p3(),
        s.subrange(pc_n(p), pc_n_end(p)) == qstr(network_name(p.network)),
        s.subrange(pc_n_end(p), pc_g(p)) == lit_p4(),
        s.subrange(pc_g(p), pc_g_end(p)) == qstr(p.signature@),
        s.subrange(pc_g_end(p), pc_f(p)) == lit_p5(),
        s.subrange(pc_f(p), pc_f_end(p)) == qstr(p.from@),
        s.subrange(pc_f_end(p), pc_t(p)) == lit_p6(),
        s.subrange(pc_t(p), pc_t_end(p)) == qstr(p.to@),
        s.subrange(pc_t_end(p), pc_u(p)) == lit_p7(),
        s.subrange(pc_u(p), pc_u_end(p)) == qstr(digits_of(p.value.units as nat)),
        s.subrange(pc_u_end(p), pc_a(p)) == lit_p8(),
        s.subrange(pc_a(p), pc_a_end(p)) == qstr(digits_of(p.valid_after as nat)),
        s.subrange(pc_a_end(p), pc_b(p)) == lit_p9(),
        s.subrange(pc_b(p), pc_b_end(p)) == qstr(digits_of(p.valid_before as nat)),
        s.subrange(pc_b_end(p), pc_x(p)) == lit_p10(),
        s.subrange(pc_x(p), pc_x_end(p)) == qstr(p.nonce@),
        s.subrange(pc_x_end(p), pc_total(p)) == lit_p11(),
{
    lemma_render_pieces_back(p, s);
    lemma_render_pieces_front(p, s);
}

/// Network names may stand verbatim in wire documents.
pub proof fn lemma_network_name_json_safe(n: Network)
    ensures
        json_safe(network_name(n)),
{
    assert forall|i: int| 0 <= i < network_name(n).len() implies json_safe_byte(
        #[trigger] network_name(n)[i],
    ) by {
        match n {
            Network::Solana => {},
            Network::BaseSepolia => {},
        }
    }
}

/// The first three pieces of a rendered proof, in place.
#[verifier::rlimit(100)]
proof fn lemma_render_pieces_head(p: PaymentProof, s: Seq<u8>)
    requires
        s == render_proof(p),
    ensures
        s.len() == pc_total(p),
        s.subrange(0, pc_v(p)) == lit_p1(),
        s.subrange(pc_v(p), pc_v_end(p)) == digits_of(p.version as nat),
        s.subrange(pc_v_end(p), pc_s(p)) == lit_p2(),
        pc_v(p) >= 0,
        pc_v_end(p) >= pc_v(p) + 1,
        pc_s(p) >= pc_v_end(p),
        pc_s(p) <= s.len(),
{
    lemma_render_pieces(p, s);
    lemma_digits_of_props(p.version as nat);
}

/// Position facts for the version number.
#[verifier::rlimit(100)]
#[verifier::spinoff_prover]
proof fn lemma_proof_positions_a0(p: PaymentProof, s: Seq<u8>)
    requires
        p.wf(),
        s == render_proof(p),
    ensures
        lit_at(s, 0, lit_p1()),
        number_at(s, po_version(s), 0xffff_ffff_ffff_ffff as nat),
        number_val(s, po_version(s)) == p.version,
        lit_at(s, run_end(s, po_version(s)), lit_p2()),
        po_scheme(s) == pc_s(p),
{
    lemma_render_pieces_head(p, s);
    lemma_digits_of_props(p.version as nat);
    lemma_digits_json_safe(p.version as nat);
    // the version number ends at the comma that opens the next literal
    assert(s[pc_v_end(p)] == s.subrange(pc_v_end(p), pc_s(p))[0]);
    assert(s[pc_v_end(p)] == lit_p2()[0]);
    assert(lit_p2()[0] == 0x2c);
    lemma_number_at_digits(s, pc_v(p), p.version as nat, 0xffff_ffff_ffff_ffff as nat);
    assert(run_end(s, po_version(s)) == pc_v_end(p));
}

/// Position facts for the scheme and network fields.
#[verifier::rlimit(100)]
proof fn lemma_proof_positions_a1(p: PaymentProof, s: Seq<u8>)
    requires
        p.wf(),
        s == render_proof(p),
        po_scheme(s) == pc_s(p),
    ensures
        string_at(s, po_scheme(s)),
        string_content(s, po_scheme(s)) == p.scheme@,
        lit_at(s, string_end(s, po_scheme(s)), lit_p3()),
        string_at(s, po_network(s)),
        string_content(s, po_network(s)) == network_name(p.network),
        lit_at(s, string_end(s, po_network(s)), lit_p4()),
        po_signature(s) == pc_g(p),
{
    lemma_render_pieces(p, s);
    lemma_network_name_json_safe(p.network);
    lemma_quoted_piece(s, pc_s(p), p.scheme@);
    assert(string_end(s, po_scheme(s)) == pc_s_end(p));
    lemma_quoted_piece(s, pc_n(p), network_name(p.network));
    assert(po_network(s) == pc_n(p));
    assert(string_end(s, po_network(s)) == pc_n_end(p));
}

/// Position facts from the signature through the payee field.
#[verifier::rlimit(100)]
proof fn lemma_proof_positions_a2(p: PaymentProof, s: Seq<u8>)
    requires
        p.wf(),
        s == render_proof(p),
        po_signature(s) == pc_g(p),
    ensures
        string_at(s, po_signature(s)),
        string_content(s, po_signature(s)) == p.signature@,
        lit_at(s, string_end(s, po_signature(s)), lit_p5()),
        string_at(s, po_from(s)),
        string_content(s, po_from(s)) == p.from@,
        lit_at(s, string_end(s, po_from(s)), lit_p6()),
        string_at(s, po_to(s)),
        string_content(s, po_to(s)) == p.to@,
        lit_at(s, string_end(s, po_to(s)), lit_p7()),
        po_value(s) == pc_u(p),
{
    lemma_render_pieces(p, s);
    lemma_quoted_piece(s, pc_g(p), p.signature@);
    assert(string_end(s, po_signature(s)) == pc_g_end(p));
    lemma_quoted_piece(s, pc_f(p), p.from@);
    assert(po_from(s) == pc_f(p));
    assert(string_end(s, po_from(s)) == pc_f_end(p));
    lemma_quoted_piece(s, pc_t(p), p.to@);
    assert(po_to(s) == pc_t(p));
    assert(string_end(s, po_to(s)) == pc_t_end(p));
}

/// Second half of the position facts: from the amount through the closing
/// braces.
#[verifier::rlimit(100)]
proof fn lemma_proof_positions_b(p: PaymentProof, s: Seq<u8>)
    requires
        p.wf(),
        s == render_proof(p),
        po_value(s) == pc_u(p),
    ensures
        string_at(s, po_value(s)),
        string_content(s, po_value(s)) == digits_of(p.value.units as nat),
        lit_at(s, string_end(s, po_value(s)), lit_p8()),
        string_at(s, po_after(s)),
        string_content(s, po_after(s)) == digits_of(p.valid_after as nat),
        lit_at(s, string_end(s, po_after(s)), lit_p9()),
        string_at(s, po_before(s)),
        string_content(s, po_before(s)) == digits_of(p.valid_before as nat),
        lit_at(s, string_end(s, po_before(s)), lit_p10()),
        string_at(s, po_nonce(s)),
        string_content(s, po_nonce(s)) == p.nonce@,
        lit_at(s, string_end(s, po_nonce(s)), lit_p11()),
        po_end(s) == s.len(),
{
    lemma_render_pieces(p, s);
    lemma_digits_json_safe(p.value.units as nat);
    lemma_digits_json_safe(p.valid_after as nat);
    lemma_digits_json_safe(p.valid_before as nat);
    lemma_quoted_piece(s, pc_u(p), digits_of(p.value.units as nat));
    assert(string_end(s, po_value(s)) == pc_u_end(p));
    lemma_quoted_piece(s, pc_a(p), digits_of(p.valid_after as nat));
    assert(po_after(s) == pc_a(p));
    assert(string_end(s, po_after(s)) == pc_a_end(p));
    lemma_quoted_piece(s, pc_b(p), digits_of(p.valid_before as nat));
    assert(po_before(s) == pc_b(p));
    assert(string_end(s, po_before(s)) == pc_b_end(p));
    lemma_quoted_piece(s, pc_x(p), p.nonce@);
    assert(po_nonce(s) == pc_x(p));
    assert(string_end(s, po_nonce(s)) == pc_x_end(p));
}

/// In a rendered proof every piece stands where the parser looks for it.
pub proof fn lemma_proof_positions(p: PaymentProof, s: Seq<u8>)
    requires
        p.wf(),
        s == render_proof(p),
    ensures
        lit_at(s, 0, lit_p1()),
        number_at(s, po_version(s), 0xffff_ffff_ffff_ffff as nat),
        number_val(s, po_version(s)) == p.version,
        lit_at(s, run_end(s, po_version(s)), lit_p2()),
        string_at(s, po_scheme(s)),
        string_content(s, po_scheme(s)) == p.scheme@,
        lit_at(s, string_end(s, po_scheme(s)), lit_p3()),
        string_at(s, po_network(s)),
        string_content(s, po_network(s)) == network_name(p.network),
        lit_at(s, string_end(s, po_network(s)), lit_p4()),
        string_at(s, po_signature(s)),
        string_content(s, po_signature(s)) == p.signature@,
        lit_at(s, string_end(s, po_signature(s)), lit_p5()),
        string_at(s, po_from(s)),
        string_content(s, po_from(s)) == p.from@,
        lit_at(s, string_end(s, po_from(s)), lit_p6()),
        string_at(s, po_to(s)),
        string_content(s, po_to(s)) == p.to@,
        lit_at(s, string_end(s, po_to(s)), lit_p7()),
        string_at(s, po_value(s)),
        string_content(s, po_value(s)) == digits_of(p.value.units as nat),
        lit_at(s, string_end(s, po_value(s)), lit_p8()),
        string_at(s, po_after(s)),
        string_content(s, po_after(s)) == digits_of(p.valid_after as nat),
        lit_at(s, string_end(s, po_after(s)), lit_p9()),
        string_at(s, po_before(s)),
        string_content(s, po_before(s)) == digits_of(p.valid_before as nat),
        lit_at(s, string_end(s, po_before(s)), lit_p10()),
        string_at(s, po_nonce(s)),
        string_content(s, po_nonce(s)) == p.nonce@,
        lit_at(s, string_end(s, po_nonce(s)), lit_p11()),
        po_end(s) == s.len(),
{
    lemma_proof_positions_a0(p, s);
    lemma_proof_positions_a1(p, s);
    lemma_proof_positions_a2(p, s);
    lemma_proof_positions_b(p, s);
}

/// A quoted piece `"f"` whose subrange is known is a string field in
/// place.
pub proof fn lemma_quoted_piece(s: Seq<u8>, o: int, f: Seq<u8>)
    requires
        0 <= o,
        o + f.len() + 2 <= s.len(),
        s.subrange(o, o + f.len() + 2) == qstr(f),
        json_safe(f),
    ensures
        string_at(s, o),
        string_content(s, o) == f,
        string_end(s, o) == o + f.len() + 2,
{
    let w = s.subrange(o, o + f.len() + 2);
    assert(s[o] == w[0]);
    assert(w[0] == QUOTE);
    assert(s[o + f.len() + 1] == w[f.len() as int + 1]);
    assert(w[f.len() as int + 1] == QUOTE);
    assert(s.subrange(o + 1, o + 1 + f.len() as int) =~= f) by {
        assert(forall|m: int|
            0 <= m < f.len() ==> s.subrange(o + 1, o + 1 + f.len() as int)[m] == #[trigger] w[
                m + 1]);
        assert(forall|m: int| 0 <= m < f.len() ==> w[m + 1] == #[trigger] f[m]);
    }
    lemma_string_at_content(s, o, f);
}

/// The front of a rendered proof: everything before the amount field.
pub open spec fn render_front(p: PaymentProof) -> Seq<u8> {
    lit_p1() + digits_of(p.version as nat) + lit_p2() + qstr(p.scheme@) + lit_p3() + qstr(
        network_name(p.network),
    ) + lit_p4() + qstr(p.signature@) + lit_p5() + qstr(p.from@) + lit_p6() + qstr(p.to@)
        + lit_p7()
}

/// Position facts pin down the front of the document.
#[verifier::rlimit(100)]
proof fn lemma_assemble_front(p: PaymentProof, s: Seq<u8>)
    requires
        lit_at(s, 0, lit_p1()),
        number_at(s, po_version(s), 0xffff_ffff_ffff_ffff as nat),
        number_val(s, po_version(s)) == p.version,
        lit_at(s, run_end(s, po_version(s)), lit_p2()),
        string_at(s, po_scheme(s)),
        string_content(s, po_scheme(s)) == p.scheme@,
        lit_at(s, string_end(s, po_scheme(s)), lit_p3()),
        string_at(s, po_network(s)),
        string_content(s, po_network(s)) == network_name(p.network),
        lit_at(s, string_end(s, po_network(s)), lit_p4()),
        string_at(s, po_signature(s)),
        string_content(s, po_signature(s)) == p.signature@,
        lit_at(s, string_end(s, po_signature(s)), lit_p5()),
        string_at(s, po_from(s)),
        string_content(s, po_from(s)) == p.from@,
        lit_at(s, string_end(s, po_from(s)), lit_p6()),
        string_at(s, po_to(s)),
        string_content(s, po_to(s)) == p.to@,
        lit_at(s, string_end(s, po_to(s)), lit_p7()),
    ensures
        po_value(s) <= s.len(),
        s.take(po_value(s)) == render_front(p),
{
    let o1 = po_version(s);
    let e1 = run_end(s, o1);
    crate::numerals::lemma_run_end(s, o1);
    // the version digits are canonical, so they are the rendering of the
    // parsed value
    let dv = s.subrange(o1, e1);
    assert(crate::numerals::all_digits(dv)) by {
        assert(forall|m: int| 0 <= m < dv.len() ==> dv[m] == #[trigger] s[o1 + m]);
    }
    crate::numerals::lemma_digits_of_digits_val(dv);
    assert(dv == digits_of(p.version as nat));
    lemma_qstr_slice(s, po_scheme(s));
    lemma_qstr_slice(s, po_network(s));
    lemma_qstr_slice(s, po_signature(s));
    lemma_qstr_slice(s, po_from(s));
    lemma_qstr_slice(s, po_to(s));
    let c1 = lit_p1().len() as int;
    let c2 = e1;
    let c3 = po_scheme(s);
    let c4 = string_end(s, c3);
    let c5 = po_network(s);
    let c6 = string_end(s, c5);
    let c7 = po_signature(s);
    let c8 = string_end(s, c7);
    let c9 = po_from(s);
    let c10 = string_end(s, c9);
    let c11 = po_to(s);
    let c12 = string_end(s, c11);
    let c13 = po_value(s);
    assert(s.take(c1) =~= s.subrange(0, c1));
    assert(s.take(c2) =~= s.take(c1) + s.subrange(c1, c2));
    assert(s.take(c3) =~= s.take(c2) + s.subrange(c2, c3));
    assert(s.take(c4) =~= s.take(c3) + s.subrange(c3, c4));
    assert(s.take(c5) =~= s.take(c4) + s.subrange(c4, c5));
    assert(s.take(c6) =~= s.take(c5) + s.subrange(c5, c6));
    assert(s.take(c7) =~= s.take(c6) + s.subrange(c6, c7));
    assert(s.take(c8) =~= s.take(c7) + s.subrange(c7, c8));
    assert(s.take(c9) =~= s.take(c8) + s.subrange(c8, c9));
    assert(s.take(c10) =~= s.take(c9) + s.subrange(c9, c10));
    assert(s.take(c11) =~= s.take(c10) + s.subrange(c10, c11));
    assert(s.take(c12) =~= s.take(c11) + s.subrange(c11, c12));
    assert(s.take(c13) =~= s.take(c12) + s.subrange(c12, c13));
}

/// Position facts pin down the whole document.
#[verifier::rlimit(100)]
proof fn lemma_assemble_proof(p: PaymentProof, s: Seq<u8>)
    requires
        po_value(s) <= s.len(),
        s.take(po_value(s)) == render_front(p),
        string_at(s, po_value(s)),
        string_content(s, po_value(s)) == digits_of(p.value.units as nat),
        lit_at(s, string_end(s, po_value(s)), lit_p8()),
        string_at(s, po_after(s)),
        string_content(s, po_after(s)) == digits_of(p.valid_after as nat),
        lit_at(s, string_end(s, po_after(s)), lit_p9()),
        string_at(s, po_before(s)),
        string_content(s, po_before(s)) == digits_of(p.valid_before as nat),
        lit_at(s, string_end(s, po_before(s)), lit_p10()),
        string_at(s, po_nonce(s)),
        string_content(s, po_nonce(s)) == p.nonce@,
        lit_at(s, string_end(s, po_nonce(s)), lit_p11()),
        po_end(s) == s.len(),
    ensures
        s == render_proof(p),
{
    lemma_qstr_slice(s, po_value(s));
    lemma_qstr_slice(s, po_after(s));
    lemma_qstr_slice(s, po_before(s));
    lemma_qstr_slice(s, po_nonce(s));
    let c13 = po_value(s);
    let c14 = string_end(s, c13);
    let c15 = po_after(s);
    let c16 = string_end(s, c15);
    let c17 = po_before(s);
    let c18 = string_end(s, c17);
    let c19 = po_nonce(s);
    let c20 = string_end(s, c19);
    let c21 = po_end(s);
    assert(s.take(c14) =~= s.take(c13) + s.subrange(c13, c14));
    assert(s.take(c15) =~= s.take(c14) + s.subrange(c14, c15));
    assert(s.take(c16) =~= s.take(c15) + s.subrange(c15, c16));
    assert(s.take(c17) =~= s.take(c16) + s.subrange(c16, c17));
    assert(s.take(c18) =~= s.take(c17) + s.subrange(c17, c18));
    assert(s.take(c19) =~= s.take(c18) + s.subrange(c18, c19));
    assert(s.take(c20) =~= s.take(c19) + s.subrange(c19, c20));
    assert(s.take(c21) =~= s.take(c20) + s.subrange(c20, c21));
    assert(s.take(c21) =~= s);
    assert(render_proof(p) =~= render_front(p) + qstr(digits_of(p.value.units as nat)) + lit_p8()
        + qstr(digits_of(p.valid_after as nat)) + lit_p9() + qstr(
        digits_of(p.valid_before as nat),
    ) + lit_p10() + qstr(p.nonce@) + lit_p11());
    assert(s =~= render_proof(p));
}

/// Parses the canonical wire form of a payment proof.  Returns the proof
/// exactly when the input is the rendering of a well-formed proof, and
/// nothing otherwise.
#[verifier::rlimit(100)]
pub fn parse_proof(s: &Vec<u8>) -> (r: Option<PaymentProof>)
    ensures
        match r {
            Some(p) => p.wf() && s@ == render_proof(p),
            None => forall|p: PaymentProof| p.wf() ==> s@ != render_proof(p),
        },
{
    let l1 = lit_p1_vec();
    let i1 = match expect_lit(s, 0, &l1) {
        Some(j) => j,
        None => {
            proof {
                assert forall|p: PaymentProof| p.wf() implies s@ != render_proof(p) by {
                    if s@ == render_proof(p) {
                        lemma_proof_positions(p, s@);
                    }
                }
            }
            return None;
        },
    };
    let (ver128, i2) = match parse_number(s, i1, 0xffff_ffff_ffff_ffff) {
        Some(q) => q,
        None => {
            proof {
                assert forall|p: PaymentProof| p.wf() implies s@ != render_proof(p) by {
                    if s@ == render_proof(p) {
                        lemma_proof_positions(p, s@);
                    }
                }
            }
            return None;
        },
    };
    let version: u64 = ver128 as u64;
    let l2 = lit_p2_vec();
    let i3 = match expect_lit(s, i2, &l2) {
        Some(j) => j,
        None => {
            proof {
                assert forall|p: PaymentProof| p.wf() implies s@ != render_proof(p) by {
                    if s@ == render_proof(p) {
                        lemma_proof_positions(p, s@);
                    }
                }
            }
            return None;
        },
    };
    let (scheme, i4) = match parse_string_field(s, i3) {
        Some(q) => q,
        None => {
            proof {
                assert forall|p: PaymentProof| p.wf() implies s@ != render_proof(p) by {
                    if s@ == render_proof(p) {
                        lemma_proof_positions(p, s@);
                    }
                }
            }
            return None;
        },
    };
    let l3 = lit_p3_vec();
    let i5 = match expect_lit(s, i4, &l3) {
        Some(j) => j,
        None => {
            proof {
                assert forall|p: PaymentProof| p.wf() implies s@ != render_proof(p) by {
                    if s@ == render_proof(p) {
                        lemma_proof_positions(p, s@);
                    }
                }
            }
            return None;
        },
    };
    let (netname, i6) = match parse_string_field(s, i5) {
        Some(q) => q,
        None => {
            proof {
                assert forall|p: PaymentProof| p.wf() implies s@ != render_proof(p) by {
                    if s@ == render_proof(p) {
                        lemma_proof_positions(p, s@);
                    }
                }
            }
            return None;
        },
    };
    let mut sol_name: Vec<u8> = Vec::new();
    Network::Solana.push_name(&mut sol_name);
    let mut base_name: Vec<u8> = Vec::new();
    Network::BaseSepolia.push_name(&mut base_name);
    let network: Network = if bytes_eq(&netname, &sol_name) {
        Network::Solana
    } else if bytes_eq(&netname, &base_name) {
        Network::BaseSepolia
    } else {
        proof {
            assert forall|p: PaymentProof| p.wf() implies s@ != render_proof(p) by {
                if s@ == render_proof(p) {
                    lemma_proof_positions(p, s@);
                    if p.network is Solana {
                    } else {
                        assert(p.network is BaseSepolia);
                    }
                }
            }
        }
        return None;
    };
    let l4 = lit_p4_vec();
    let i7 = match expect_lit(s, i6, &l4) {
        Some(j) => j,
        None => {
            proof {
                assert forall|p: PaymentProof| p.wf() implies s@ != render_proof(p) by {
                    if s@ == render_proof(p) {
                        lemma_proof_positions(p, s@);
                    }
                }
            }
            return None;
        },
    };
    let (signature, i8) = match parse_string_field(s, i7) {
        Some(q) => q,
        None => {
            proof {
                assert forall|p: PaymentProof| p.wf() implies s@ != render_proof(p) by {
                    if s@ == render_proof(p) {
                        lemma_proof_positions(p, s@);
                    }
                }
            }
            return None;
        },
    };
    let l5 = lit_p5_vec();
    let i9 = match expect_lit(s, i8, &l5) {
        Some(j) => j,
        None => {
            proof {
                assert forall|p: PaymentProof| p.wf() implies s@ != render_proof(p) by {
                    if s@ == render_proof(p) {
                        lemma_proof_positions(p, s@);
                    }
                }
            }
            return None;
        },
    };
    let (from, i10) = match parse_string_field(s, i9) {
        Some(q) => q,
        None => {
            proof {
                assert forall|p: PaymentProof| p.wf() implies s@ != render_proof(p) by {
                    if s@ == render_proof(p) {
                        lemma_proof_positions(p, s@);
                    }
                }
            }
            return None;
        },
    };
    let l6 = lit_p6_vec();
    let i11 = match expect_lit(s, i10, &l6) {
        Some(j) => j,
        None => {
            proof {
                assert forall|p: PaymentProof| p.wf() implies s@ != render_proof(p) by {
                    if s@ == render_proof(p) {
                        lemma_proof_positions(p, s@);
                    }
                }
            }
            return None;
        },
    };
    let (to, i12) = match parse_string_field(s, i11) {
        Some(q) => q,
        None => {
            proof {
                assert forall|p: PaymentProof| p.wf() implies s@ != render_proof(p) by {
                    if s@ == render_proof(p) {
                        lemma_proof_positions(p, s@);
                    }
                }
            }
            return None;
        },
    };
    let l7 = lit_p7_vec();
    let i13 = match expect_lit(s, i12, &l7) {
        Some(j) => j,
        None => {
            proof {
                assert forall|p: PaymentProof| p.wf() implies s@ != render_proof(p) by {
                    if s@ == render_proof(p) {
                        lemma_proof_positions(p, s@);
                    }
                }
            }
            return None;
        },
    };
    let (valstr, i14) = match parse_string_field(s, i13) {
        Some(q) => q,
        None => {
            proof {
                assert forall|p: PaymentProof| p.wf() implies s@ != render_proof(p) by {
                    if s@ == render_proof(p) {
                        lemma_proof_positions(p, s@);
                    }
                }
            }
            return None;
        },
    };
    let units: u128 = match parse_number(&valstr, 0, MAX_UNITS) {
        Some(q) => {
            if q.1 != valstr.len() {
                proof {
                    assert forall|p: PaymentProof| p.wf() implies s@ != render_proof(p) by {
                        if s@ == render_proof(p) {
                            lemma_proof_positions(p, s@);
                            lemma_whole_number(valstr@, p.value.units as nat, MAX_UNITS as nat);
                        }
                    }
                }
                return None;
            }
            q.0
        },
        None => {
            proof {
                assert forall|p: PaymentProof| p.wf() implies s@ != render_proof(p) by {
                    if s@ == render_proof(p) {
                        lemma_proof_positions(p, s@);
                        lemma_whole_number(valstr@, p.value.units as nat, MAX_UNITS as nat);
                    }
                }
            }
            return None;
        },
    };
    let l8 = lit_p8_vec();
    let i15 = match expect_lit(s, i14, &l8) {
        Some(j) => j,
        None => {
            proof {
                assert forall|p: PaymentProof| p.wf() implies s@ != render_proof(p) by {
                    if s@ == render_proof(p) {
                        lemma_proof_positions(p, s@);
                    }
                }
            }
            return None;
        },
    };
    let (vastr, i16) = match parse_string_field(s, i15) {
        Some(q) => q,
        None => {
            proof {
                assert forall|p: PaymentProof| p.wf() implies s@ != render_proof(p) by {
                    if s@ == render_proof(p) {
                        lemma_proof_positions(p, s@);
                    }
                }
            }
            return None;
        },
    };
    let valid_after: u64 = match parse_number(&vastr, 0, 0xffff_ffff_ffff_ffff) {
        Some(q) => {
            if q.1 != vastr.len() {
                proof {
                    assert forall|p: PaymentProof| p.wf() implies s@ != render_proof(p) by {
                        if s@ == render_proof(p) {
                            lemma_proof_positions(p, s@);
                            lemma_whole_number(vastr@, p.valid_after as nat,
                                0xffff_ffff_ffff_ffff as nat);
                        }
                    }
                }
                return None;
            }
            q.0 as u64
        },
        None => {
            proof {
                assert forall|p: PaymentProof| p.wf() implies s@ != render_proof(p) by {
                    if s@ == render_proof(p) {
                        lemma_proof_positions(p, s@);
                        lemma_whole_number(vastr@, p.valid_after as nat,
                            0xffff_ffff_ffff_ffff as nat);
                    }
                }
            }
            return None;
        },
    };
    let l9 = lit_p9_vec();
    let i17 = match expect_lit(s, i16, &l9) {
        Some(j) => j,
        None => {
            proof {
                assert forall|p: PaymentProof| p.wf() implies s@ != render_proof(p) by {
                    if s@ == render_proof(p) {
                        lemma_proof_positions(p, s@);
                    }
                }
            }
            return None;
        },
    };
    let (vbstr, i18) = match parse_string_field(s, i17) {
        Some(q) => q,
        None => {
            proof {
                assert forall|p: PaymentProof| p.wf() implies s@ != render_proof(p) by {
                    if s@ == render_proof(p) {
                        lemma_proof_positions(p, s@);
                    }
                }
            }
            return None;
        },
    };
    let valid_before: u64 = match parse_number(&vbstr, 0, 0xffff_ffff_ffff_ffff) {
        Some(q) => {
            if q.1 != vbstr.len() {
                proof {
                    assert forall|p: PaymentProof| p.wf() implies s@ != render_proof(p) by {
                        if s@ == render_proof(p) {
                            lemma_proof_positions(p, s@);
                            lemma_whole_number(vbstr@, p.valid_before as nat,
                                0xffff_ffff_ffff_ffff as nat);
                        }
                    }
                }
                return None;
            }
            q.0 as u64
        },
        None => {
            proof {
                assert forall|p: PaymentProof| p.wf() implies s@ != render_proof(p) by {
                    if s@ == render_proof(p) {
                        lemma_proof_positions(p, s@);
                        lemma_whole_number(vbstr@, p.valid_before as nat,
                            0xffff_ffff_ffff_ffff as nat);
                    }
                }
            }
            return None;
        },
    };
    let l10 = lit_p10_vec();
    let i19 = match expect_lit(s, i18, &l10) {
        Some(j) => j,
        None => {
            proof {
                assert forall|p: PaymentProof| p.wf() implies s@ != render_proof(p) by {
                    if s@ == render_proof(p) {
                        lemma_proof_positions(p, s@);
                    }
                }
            }
            return None;
        },
    };
    let (nonce, i20) = match parse_string_field(s, i19) {
        Some(q) => q,
        None => {
            proof {
                assert forall|p: PaymentProof| p.wf() implies s@ != render_proof(p) by {
                    if s@ == render_proof(p) {
                        lemma_proof_positions(p, s@);
                    }
                }
            }
            return None;
        },
    };
    let l11 = lit_p11_vec();
    let i21 = match expect_lit(s, i20, &l11) {
        Some(j) => j,
        None => {
            proof {
                assert forall|p: PaymentProof| p.wf() implies s@ != render_proof(p) by {
                    if s@ == render_proof(p) {
                        lemma_proof_positions(p, s@);
                    }
                }
            }
            return None;
        },
    };
    if i21 != s.len() {
        proof {
            assert forall|p: PaymentProof| p.wf() implies s@ != render_proof(p) by {
                if s@ == render_proof(p) {
                    lemma_proof_positions(p, s@);
                }
            }
        }
        return None;
    }
    let out = PaymentProof {
        version,
        scheme,
        network,
        signature,
        from,
        to,
        value: Amount { units },
        valid_after,
        valid_before,
        nonce,
    };
    proof {
        assert(valstr@ =~= valstr@.subrange(0, valstr@.len() as int));
        assert(vastr@ =~= vastr@.subrange(0, vastr@.len() as int));
        assert(vbstr@ =~= vbstr@.subrange(0, vbstr@.len() as int));
        assert(valstr@ == digits_of(units as nat));
        assert(vastr@ == digits_of(valid_after as nat));
        assert(vbstr@ == digits_of(valid_before as nat));
        assert(digits_of(ver128 as nat) == digits_of(version as nat));
        lemma_assemble_front(out, s@);
        lemma_assemble_proof(out, s@);
    }
    Some(out)
}

/// A quoted digit field fills its whole content.
proof fn lemma_whole_number(t: Seq<u8>, v: nat, max: nat)
    requires
        t == digits_of(v),
        v <= max,
    ensures
        number_at(t, 0, max),
        number_val(t, 0) == v,
        run_end(t, 0) == t.len(),
{
    lemma_digits_of_props(v);
    assert(t.subrange(0, t.len() as int) =~= t);
    lemma_number_at_digits(t, 0, v, max);
}

/// Distinct networks have distinct wire names.
pub proof fn lemma_network_name_injective(n1: Network, n2: Network)
    requires
        network_name(n1) == network_name(n2),
    ensures
        n1 == n2,
{
    if n1 != n2 {
        assert(network_name(n1).len() != network_name(n2).len()) by {
            match n1 {
                Network::Solana => {},
                Network::BaseSepolia => {},
            }
            match n2 {
                Network::Solana => {},
                Network::BaseSepolia => {},
            }
        }
    }
}

/// A rendered proof determines its leading fields.
#[verifier::rlimit(100)]
pub proof fn lemma_render_determines_front(p1: PaymentProof, p2: PaymentProof, s: Seq<u8>)
    requires
        p1.wf(),
        p2.wf(),
        s == render_proof(p1),
        s == render_proof(p2),
    ensures
        p1.version == p2.version,
        p1.scheme@ == p2.scheme@,
        p1.network == p2.network,
        p1.signature@ == p2.signature@,
        p1.from@ == p2.from@,
        p1.to@ == p2.to@,
{
    lemma_proof_positions(p1, s);
    lemma_proof_positions(p2, s);
    assert(network_name(p1.network) == network_name(p2.network));
    lemma_network_name_injective(p1.network, p2.network);
}

/// A rendered proof determines its amount, validity window, and nonce.
#[verifier::rlimit(100)]
pub proof fn lemma_render_determines_back(p1: PaymentProof, p2: PaymentProof, s: Seq<u8>)
    requires
        p1.wf(),
        p2.wf(),
        s == render_proof(p1),
        s == render_proof(p2),
    ensures
        p1.value == p2.value,
        p1.valid_after == p2.valid_after,
        p1.valid_before == p2.valid_before,
        p1.nonce@ == p2.nonce@,
{
    lemma_proof_positions(p1, s);
    lemma_proof_positions(p2, s);
    lemma_digits_of_props(p1.value.units as nat);
    lemma_digits_of_props(p2.value.units as nat);
    lemma_digits_of_props(p1.valid_after as nat);
    lemma_digits_of_props(p2.valid_after as nat);
    lemma_digits_of_props(p1.valid_before as nat);
    lemma_digits_of_props(p2.valid_before as nat);
}

/// Copies a payment proof; the copy renders identically.
pub fn clone_proof(p: &PaymentProof) -> (r: PaymentProof)
    ensures
        render_proof(r) == render_proof(*p),
        p.wf() ==> r.wf(),
{
    PaymentProof {
        version: p.version,
        scheme: crate::tag::clone_bytes(&p.scheme),
        network: p.network,
        signature: crate::tag::clone_bytes(&p.signature),
        from: crate::tag::clone_bytes(&p.from),
        to: crate::tag::clone_bytes(&p.to),
        value: p.value,
        valid_after: p.valid_after,
        valid_before: p.valid_before,
        nonce: crate::tag::clone_bytes(&p.nonce),
    }
}

} // verus!
