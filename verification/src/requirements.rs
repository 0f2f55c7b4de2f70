//! The payment-requirement document: the JSON body of a 402 challenge,
//! listing the acceptable price tags in server preference order.  As with
//! the proof codec, the parser accepts exactly what the renderer produces.

use vstd::prelude::*;
use crate::amount::Amount;
use crate::asset::{bytes_eq, network_name, Network};
use crate::codec::{
    lemma_digits_json_safe, lemma_network_name_json_safe, lit_p1, lit_p1_vec, lit_p3, lit_p3_vec,
    qstr,
};
use crate::numerals::{digits_of, lemma_digits_of_digits_val, lemma_digits_of_props, run_end,
    MAX_UNITS};
use crate::text::{json_safe, json_safe_byte};
use crate::wire::{
    expect_lit, lemma_number_at_digits, lit_at, number_at, number_val, parse_number,
    parse_string_field, string_at, string_content, string_end,
};

verus! {

/// ASCII comma and closing bracket.
pub const COMMA: u8 = 0x2c;

pub const RBRACKET: u8 = 0x5d;

/// The literal segment `{"scheme":` of the requirement document.
pub open spec fn lit_t1() -> Seq<u8> {
    seq![0x7bu8, 0x22u8, 0x73u8, 0x63u8, 0x68u8, 0x65u8, 0x6du8, 0x65u8, 0x22u8, 0x3au8]
}

fn lit_t1_vec() -> (v: Vec<u8>)
    ensures
        v@ == lit_t1(),
{
    let mut v: Vec<u8> = Vec::new();
    v.push(0x7b);
    v.push(0x22);
    v.push(0x73);
    v.push(0x63);
    v.push(0x68);
    v.push(0x65);
    v.push(0x6d);
    v.push(0x65);
    v.push(0x22);
    v.push(0x3a);
    proof {
        assert(v@ =~= lit_t1());
    }
    v
}

/// The literal segment `,"asset":` of the requirement document.
pub open spec fn lit_t3() -> Seq<u8> {
    seq![0x2cu8, 0x22u8, 0x61u8, 0x73u8, 0x73u8, 0x65u8, 0x74u8, 0x22u8, 0x3au8]
}

fn lit_t3_vec() -> (v: Vec<u8>)
    ensures
        v@ == lit_t3(),
{
    let mut v: Vec<u8> = Vec::new();
    v.push(0x2c);
    v.push(0x22);
    v.push(0x61);
    v.push(0x73);
    v.push(0x73);
    v.push(0x65);
    v.push(0x74);
    v.push(0x22);
    v.push(0x3a);
    proof {
        assert(v@ =~= lit_t3());
    }
    v
}

/// The literal segment `,"payTo":` of the requirement document.
pub open spec fn lit_t4() -> Seq<u8> {
    seq![0x2cu8, 0x22u8, 0x70u8, 0x61u8, 0x79u8, 0x54u8, 0x6fu8, 0x22u8, 0x3au8]
}

fn lit_t4_vec() -> (v: Vec<u8>)
    ensures
        v@ == lit_t4(),
{
    let mut v: Vec<u8> = Vec::new();
    v.push(0x2c);
    v.push(0x22);
    v.push(0x70);
    v.push(0x61);
    v.push(0x79);
    v.push(0x54);
    v.push(0x6f);
    v.push(0x22);
    v.push(0x3a);
    proof {
        assert(v@ =~= lit_t4());
    }
    v
}

/// The literal segment `,"maxAmountRequired":` of the requirement document.
pub open spec fn lit_t5() -> Seq<u8> {
    seq![0x2cu8, 0x22u8, 0x6du8, 0x61u8, 0x78u8, 0x41u8, 0x6du8, 0x6fu8, 0x75u8, 0x6eu8, 0x74u8, 0x52u8, 0x65u8, 0x71u8, 0x75u8, 0x69u8, 0x72u8, 0x65u8, 0x64u8, 0x22u8, 0x3au8]
}

fn lit_t5_vec() -> (v: Vec<u8>)
    ensures
        v@ == lit_t5(),
{
    let mut v: Vec<u8> = Vec::new();
    v.push(0x2c);
    v.push(0x22);
    v.push(0x6d);
    v.push(0x61);
    v.push(0x78);
    v.push(0x41);
    v.push(0x6d);
    v.push(0x6f);
    v.push(0x75);
    v.push(0x6e);
    v.push(0x74);
    v.push(0x52);
    v.push(0x65);
    v.push(0x71);
    v.push(0x75);
    v.push(0x69);
    v.push(0x72);
    v.push(0x65);
    v.push(0x64);
    v.push(0x22);
    v.push(0x3a);
    proof {
        assert(v@ =~= lit_t5());
    }
    v
}

/// The literal segment `,"resource":` of the requirement document.
pub open spec fn lit_t6() -> Seq<u8> {
    seq![0x2cu8, 0x22u8, 0x72u8, 0x65u8, 0x73u8, 0x6fu8, 0x75u8, 0x72u8, 0x63u8, 0x65u8, 0x22u8, 0x3au8]
}

fn lit_t6_vec() -> (v: Vec<u8>)
    ensures
        v@ == lit_t6(),
{
    let mut v: Vec<u8> = Vec::new();
    v.push(0x2c);
    v.push(0x22);
    v.push(0x72);
    v.push(0x65);
    v.push(0x73);
    v.push(0x6f);
    v.push(0x75);
    v.push(0x72);
    v.push(0x63);
    v.push(0x65);
    v.push(0x22);
    v.push(0x3a);
    proof {
        assert(v@ =~= lit_t6());
    }
    v
}

/// The literal segment `,"description":` of the requirement document.
pub open spec fn lit_t7() -> Seq<u8> {
    seq![0x2cu8, 0x22u8, 0x64u8, 0x65u8, 0x73u8, 0x63u8, 0x72u8, 0x69u8, 0x70u8, 0x74u8, 0x69u8, 0x6fu8, 0x6eu8, 0x22u8, 0x3au8]
}

fn lit_t7_vec() -> (v: Vec<u8>)
    ensures
        v@ == lit_t7(),
{
    let mut v: Vec<u8> = Vec::new();
    v.push(0x2c);
    v.push(0x22);
    v.push(0x64);
    v.push(0x65);
    v.push(0x73);
    v.push(0x63);
    v.push(0x72);
    v.push(0x69);
    v.push(0x70);
    v.push(0x74);
    v.push(0x69);
    v.push(0x6f);
    v.push(0x6e);
    v.push(0x22);
    v.push(0x3a);
    proof {
        assert(v@ =~= lit_t7());
    }
    v
}

/// The literal segment `,"mimeType":` of the requirement document.
pub open spec fn lit_t8() -> Seq<u8> {
    seq![0x2cu8, 0x22u8, 0x6du8, 0x69u8, 0x6du8, 0x65u8, 0x54u8, 0x79u8, 0x70u8, 0x65u8, 0x22u8, 0x3au8]
}

fn lit_t8_vec() -> (v: Vec<u8>)
    ensures
        v@ == lit_t8(),
{
    let mut v: Vec<u8> = Vec::new();
    v.push(0x2c);
    v.push(0x22);
    v.push(0x6d);
    v.push(0x69);
    v.push(0x6d);
    v.push(0x65);
    v.push(0x54);
    v.push(0x79);
    v.push(0x70);
    v.push(0x65);
    v.push(0x22);
    v.push(0x3a);
    proof {
        assert(v@ =~= lit_t8());
    }
    v
}

/// The literal segment `}` of the requirement document.
pub open spec fn lit_t9() -> Seq<u8> {
    seq![0x7du8]
}

fn lit_t9_vec() -> (v: Vec<u8>)
    ensures
        v@ == lit_t9(),
{
    let mut v: Vec<u8> = Vec::new();
    v.push(0x7d);
    proof {
        assert(v@ =~= lit_t9());
    }
    v
}

/// The literal segment `,"error":` of the requirement document.
pub open spec fn lit_r2() -> Seq<u8> {
    seq![0x2cu8, 0x22u8, 0x65u8, 0x72u8, 0x72u8, 0x6fu8, 0x72u8, 0x22u8, 0x3au8]
}

fn lit_r2_vec() -> (v: Vec<u8>)
    ensures
        v@ == lit_r2(),
{
    let mut v: Vec<u8> = Vec::new();
    v.push(0x2c);
    v.push(0x22);
    v.push(0x65);
    v.push(0x72);
    v.push(0x72);
    v.push(0x6f);
    v.push(0x72);
    v.push(0x22);
    v.push(0x3a);
    proof {
        assert(v@ =~= lit_r2());
    }
    v
}

/// The literal segment `,"accepts":[` of the requirement document.
pub open spec fn lit_r3() -> Seq<u8> {
    seq![0x2cu8, 0x22u8, 0x61u8, 0x63u8, 0x63u8, 0x65u8, 0x70u8, 0x74u8, 0x73u8, 0x22u8, 0x3au8, 0x5bu8]
}

fn lit_r3_vec() -> (v: Vec<u8>)
    ensures
        v@ == lit_r3(),
{
    let mut v: Vec<u8> = Vec::new();
    v.push(0x2c);
    v.push(0x22);
    v.push(0x61);
    v.push(0x63);
    v.push(0x63);
    v.push(0x65);
    v.push(0x70);
    v.push(0x74);
    v.push(0x73);
    v.push(0x22);
    v.push(0x3a);
    v.push(0x5b);
    proof {
        assert(v@ =~= lit_r3());
    }
    v
}

/// One offered price tag, as it stands in a requirement document: the
/// route metadata is repeated per entry.
pub struct OfferedTag {
    pub scheme: Vec<u8>,
    pub network: Network,
    pub asset: Vec<u8>,
    pub pay_to: Vec<u8>,
    pub amount: Amount,
    pub resource: Vec<u8>,
    pub description: Vec<u8>,
    pub mime_type: Vec<u8>,
}

impl OfferedTag {
    pub open spec fn wf(self) -> bool {
        &&& json_safe(self.scheme@)
        &&& json_safe(self.asset@)
        &&& json_safe(self.pay_to@)
        &&& json_safe(self.resource@)
        &&& json_safe(self.description@)
        &&& json_safe(self.mime_type@)
        &&& self.amount.wf()
    }
}

/// The wire form of one offered tag.
pub open spec fn render_tag(t: OfferedTag) -> Seq<u8> {
    lit_t1() + qstr(t.scheme@) + lit_p3() + qstr(network_name(t.network)) + lit_t3() + qstr(
        t.asset@,
    ) + lit_t4() + qstr(t.pay_to@) + lit_t5() + qstr(digits_of(t.amount.units as nat)) + lit_t6()
        + qstr(t.resource@) + lit_t7() + qstr(t.description@) + lit_t8() + qstr(t.mime_type@)
        + lit_t9()
}

/// Length of a rendered tag.
pub open spec fn tag_len(t: OfferedTag) -> int {
    render_tag(t).len() as int
}

/// Whether a rendered tag stands at `i`.
pub open spec fn tag_at(s: Seq<u8>, i: int, t: OfferedTag) -> bool {
    0 <= i && i + tag_len(t) <= s.len() && s.subrange(i, i + tag_len(t)) == render_tag(t)
}

/// Parser offsets within a tag, as functions of the document.
pub open spec fn tq_scheme(s: Seq<u8>, i: int) -> int {
    i + lit_t1().len()
}

pub open spec fn tq_network(s: Seq<u8>, i: int) -> int {
    string_end(s, tq_scheme(s, i)) + lit_p3().len()
}

pub open spec fn tq_asset(s: Seq<u8>, i: int) -> int {
    string_end(s, tq_network(s, i)) + lit_t3().len()
}

pub open spec fn tq_pay_to(s: Seq<u8>, i: int) -> int {
    string_end(s, tq_asset(s, i)) + lit_t4().len()
}

pub open spec fn tq_amount(s: Seq<u8>, i: int) -> int {
    string_end(s, tq_pay_to(s, i)) + lit_t5().len()
}

pub open spec fn tq_resource(s: Seq<u8>, i: int) -> int {
    string_end(s, tq_amount(s, i)) + lit_t6().len()
}

pub open spec fn tq_description(s: Seq<u8>, i: int) -> int {
    string_end(s, tq_resource(s, i)) + lit_t7().len()
}

pub open spec fn tq_mime(s: Seq<u8>, i: int) -> int {
    string_end(s, tq_description(s, i)) + lit_t8().len()
}

/// Position just past a tag that starts at `i`.
pub open spec fn tag_end(s: Seq<u8>, i: int) -> int {
    string_end(s, tq_mime(s, i)) + lit_t9().len()
}

/// Splitting a known concatenation at an offset.
proof fn lemma_split_at(s: Seq<u8>, o: int, a: Seq<u8>, b: Seq<u8>)
    requires
        0 <= o,
        o + a.len() + b.len() <= s.len(),
        s.subrange(o, o + a.len() + b.len()) == a + b,
    ensures
        s.subrange(o, o + a.len() as int) =~= a,
        s.subrange(o + a.len() as int, o + a.len() + b.len()) =~= b,
{
    let w = s.subrange(o, o + a.len() + b.len());
    assert(forall|m: int| 0 <= m < a.len() + b.len() ==> #[trigger] s[o + m] == w[m]);
    assert forall|m: int| 0 <= m < a.len() implies s.subrange(o, o + a.len() as int)[m] == a[m] by {
        assert(s[o + m] == w[m]);
    }
    assert forall|m: int|
        0 <= m < b.len() implies s.subrange(o + a.len() as int, o + a.len() + b.len())[m]
        == b[m] by {
        assert(s[o + a.len() + m] == w[a.len() + m]);
    }
}

/// A quoted piece at an offset is a string field in place.
proof fn lemma_tag_quoted(s: Seq<u8>, o: int, f: Seq<u8>)
    requires
        0 <= o,
        o + f.len() + 2 <= s.len(),
        s.subrange(o, o + f.len() + 2) == qstr(f),
        json_safe(f),
    ensures
        string_at(s, o),
        string_content(s, o) == f,
        string_end(s, o) == o + f.len() + 2,
{
    let w = s.subrange(o, o + f.len() + 2);
    assert(s[o] == w[0]);
    assert(w[0] == crate::wire::QUOTE);
    assert(s[o + f.len() + 1] == w[f.len() as int + 1]);
    assert(w[f.len() as int + 1] == crate::wire::QUOTE);
    assert(s.subrange(o + 1, o + 1 + f.len() as int) =~= f) by {
        assert(forall|m: int|
            0 <= m < f.len() ==> s.subrange(o + 1, o + 1 + f.len() as int)[m] == #[trigger] w[
                m + 1]);
        assert(forall|m: int| 0 <= m < f.len() ==> w[m + 1] == #[trigger] f[m]);
    }
    crate::wire::lemma_string_at_content(s, o, f);
}

/// Front half of the in-place facts for a rendered tag.
#[verifier::rlimit(100)]
proof fn lemma_tag_positions_front(t: OfferedTag, s: Seq<u8>, i: int)
    requires
        t.wf(),
        tag_at(s, i, t),
    ensures
        lit_at(s, i, lit_t1()),
        string_at(s, tq_scheme(s, i)),
        string_content(s, tq_scheme(s, i)) == t.scheme@,
        lit_at(s, string_end(s, tq_scheme(s, i)), lit_p3()),
        string_at(s, tq_network(s, i)),
        string_content(s, tq_network(s, i)) == network_name(t.network),
        lit_at(s, string_end(s, tq_network(s, i)), lit_t3()),
        string_at(s, tq_asset(s, i)),
        string_content(s, tq_asset(s, i)) == t.asset@,
        lit_at(s, string_end(s, tq_asset(s, i)), lit_t4()),
        string_at(s, tq_pay_to(s, i)),
        string_content(s, tq_pay_to(s, i)) == t.pay_to@,
        lit_at(s, string_end(s, tq_pay_to(s, i)), lit_t5()),
        tq_amount(s, i) == i + lit_t1().len() + t.scheme@.len() + 2 + lit_p3().len()
            + network_name(t.network).len() + 2 + lit_t3().len() + t.asset@.len() + 2
            + lit_t4().len() + t.pay_to@.len() + 2 + lit_t5().len(),
{
    lemma_network_name_json_safe(t.network);
    let d1 = qstr(t.scheme@);
    let d3 = qstr(network_name(t.network));
    let d5 = qstr(t.asset@);
    let d7 = qstr(t.pay_to@);
    let e1 = lit_t1() + d1;
    let e2 = e1 + lit_p3();
    let e3 = e2 + d3;
    let e4 = e3 + lit_t3();
    let e5 = e4 + d5;
    let e6 = e5 + lit_t4();
    let e7 = e6 + d7;
    let e8 = e7 + lit_t5();
    let rest = qstr(digits_of(t.amount.units as nat)) + lit_t6() + qstr(t.resource@) + lit_t7()
        + qstr(t.description@) + lit_t8() + qstr(t.mime_type@) + lit_t9();
    assert(render_tag(t) == e8 + rest) by {
        assert(render_tag(t) =~= e8 + rest);
    }
    lemma_split_at(s, i, e8, rest);
    lemma_split_at(s, i, e7, lit_t5());
    lemma_split_at(s, i, e6, d7);
    lemma_split_at(s, i, e5, lit_t4());
    lemma_split_at(s, i, e4, d5);
    lemma_split_at(s, i, e3, lit_t3());
    lemma_split_at(s, i, e2, d3);
    lemma_split_at(s, i, e1, lit_p3());
    lemma_split_at(s, i, lit_t1(), d1);
    lemma_tag_quoted(s, i + lit_t1().len(), t.scheme@);
    assert(string_end(s, tq_scheme(s, i)) == i + e1.len());
    lemma_tag_quoted(s, i + e2.len(), network_name(t.network));
    assert(tq_network(s, i) == i + e2.len());
    assert(string_end(s, tq_network(s, i)) == i + e3.len());
    lemma_tag_quoted(s, i + e4.len(), t.asset@);
    assert(tq_asset(s, i) == i + e4.len());
    assert(string_end(s, tq_asset(s, i)) == i + e5.len());
    lemma_tag_quoted(s, i + e6.len(), t.pay_to@);
    assert(tq_pay_to(s, i) == i + e6.len());
    assert(string_end(s, tq_pay_to(s, i)) == i + e7.len());
}

/// Back half of the in-place facts for a rendered tag.
#[verifier::rlimit(100)]
proof fn lemma_tag_positions_back(t: OfferedTag, s: Seq<u8>, i: int)
    requires
        t.wf(),
        tag_at(s, i, t),
        tq_amount(s, i) == i + lit_t1().len() + t.scheme@.len() + 2 + lit_p3().len()
            + network_name(t.network).len() + 2 + lit_t3().len() + t.asset@.len() + 2
            + lit_t4().len() + t.pay_to@.len() + 2 + lit_t5().len(),
    ensures
        string_at(s, tq_amount(s, i)),
        string_content(s, tq_amount(s, i)) == digits_of(t.amount.units as nat),
        lit_at(s, string_end(s, tq_amount(s, i)), lit_t6()),
        string_at(s, tq_resource(s, i)),
        string_content(s, tq_resource(s, i)) == t.resource@,
        lit_at(s, string_end(s, tq_resource(s, i)), lit_t7()),
        string_at(s, tq_description(s, i)),
        string_content(s, tq_description(s, i)) == t.description@,
        lit_at(s, string_end(s, tq_description(s, i)), lit_t8()),
        string_at(s, tq_mime(s, i)),
        string_content(s, tq_mime(s, i)) == t.mime_type@,
        lit_at(s, string_end(s, tq_mime(s, i)), lit_t9()),
        tag_end(s, i) == i + tag_len(t),
{
    lemma_network_name_json_safe(t.network);
    lemma_digits_json_safe(t.amount.units as nat);
    let d1 = qstr(t.scheme@);
    let d3 = qstr(network_name(t.network));
    let d5 = qstr(t.asset@);
    let d7 = qstr(t.pay_to@);
    let d9 = qstr(digits_of(t.amount.units as nat));
    let d11 = qstr(t.resource@);
    let d13 = qstr(t.description@);
    let d15 = qstr(t.mime_type@);
    let e8 = lit_t1() + d1 + lit_p3() + d3 + lit_t3() + d5 + lit_t4() + d7 + lit_t5();
    let e9 = e8 + d9;
    let e10 = e9 + lit_t6();
    let e11 = e10 + d11;
    let e12 = e11 + lit_t7();
    let e13 = e12 + d13;
    let e14 = e13 + lit_t8();
    let e15 = e14 + d15;
    assert(render_tag(t) == e15 + lit_t9()) by {
        assert(render_tag(t) =~= e15 + lit_t9());
    }
    lemma_split_at(s, i, e15, lit_t9());
    lemma_split_at(s, i, e14, d15);
    lemma_split_at(s, i, e13, lit_t8());
    lemma_split_at(s, i, e12, d13);
    lemma_split_at(s, i, e11, lit_t7());
    lemma_split_at(s, i, e10, d11);
    lemma_split_at(s, i, e9, lit_t6());
    lemma_split_at(s, i, e8, d9);
    lemma_tag_quoted(s, i + e8.len(), digits_of(t.amount.units as nat));
    assert(tq_amount(s, i) == i + e8.len());
    assert(string_end(s, tq_amount(s, i)) == i + e9.len());
    lemma_tag_quoted(s, i + e10.len(), t.resource@);
    assert(tq_resource(s, i) == i + e10.len());
    assert(string_end(s, tq_resource(s, i)) == i + e11.len());
    lemma_tag_quoted(s, i + e12.len(), t.description@);
    assert(tq_description(s, i) == i + e12.len());
    assert(string_end(s, tq_description(s, i)) == i + e13.len());
    lemma_tag_quoted(s, i + e14.len(), t.mime_type@);
    assert(tq_mime(s, i) == i + e14.len());
    assert(string_end(s, tq_mime(s, i)) == i + e15.len());
}

/// All in-place facts for a rendered tag.
pub proof fn lemma_tag_positions(t: OfferedTag, s: Seq<u8>, i: int)
    requires
        t.wf(),
        tag_at(s, i, t),
    ensures
        lit_at(s, i, lit_t1()),
        string_at(s, tq_scheme(s, i)),
        string_content(s, tq_scheme(s, i)) == t.scheme@,
        lit_at(s, string_end(s, tq_scheme(s, i)), lit_p3()),
        string_at(s, tq_network(s, i)),
        string_content(s, tq_network(s, i)) == network_name(t.network),
        lit_at(s, string_end(s, tq_network(s, i)), lit_t3()),
        string_at(s, tq_asset(s, i)),
        string_content(s, tq_asset(s, i)) == t.asset@,
        lit_at(s, string_end(s, tq_asset(s, i)), lit_t4()),
        string_at(s, tq_pay_to(s, i)),
        string_content(s, tq_pay_to(s, i)) == t.pay_to@,
        lit_at(s, string_end(s, tq_pay_to(s, i)), lit_t5()),
        string_at(s, tq_amount(s, i)),
        string_content(s, tq_amount(s, i)) == digits_of(t.amount.units as nat),
        lit_at(s, string_end(s, tq_amount(s, i)), lit_t6()),
        string_at(s, tq_resource(s, i)),
        string_content(s, tq_resource(s, i)) == t.resource@,
        lit_at(s, string_end(s, tq_resource(s, i)), lit_t7()),
        string_at(s, tq_description(s, i)),
        string_content(s, tq_description(s, i)) == t.description@,
        lit_at(s, string_end(s, tq_description(s, i)), lit_t8()),
        string_at(s, tq_mime(s, i)),
        string_content(s, tq_mime(s, i)) == t.mime_type@,
        lit_at(s, string_end(s, tq_mime(s, i)), lit_t9()),
        tag_end(s, i) == i + tag_len(t),
{
    lemma_tag_positions_front(t, s, i);
    lemma_tag_positions_back(t, s, i);
}

/// Front of the assembled tag: everything before the amount.
pub open spec fn render_tag_front(t: OfferedTag) -> Seq<u8> {
    lit_t1() + qstr(t.scheme@) + lit_p3() + qstr(network_name(t.network)) + lit_t3() + qstr(
        t.asset@,
    ) + lit_t4() + qstr(t.pay_to@) + lit_t5()
}

/// Parsed string fields pin down the front of a tag.
#[verifier::rlimit(100)]
proof fn lemma_tag_assemble_front(t: OfferedTag, s: Seq<u8>, i: int)
    requires
        0 <= i,
        lit_at(s, i, lit_t1()),
        string_at(s, tq_scheme(s, i)),
        string_content(s, tq_scheme(s, i)) == t.scheme@,
        lit_at(s, string_end(s, tq_scheme(s, i)), lit_p3()),
        string_at(s, tq_network(s, i)),
        string_content(s, tq_network(s, i)) == network_name(t.network),
        lit_at(s, string_end(s, tq_network(s, i)), lit_t3()),
        string_at(s, tq_asset(s, i)),
        string_content(s, tq_asset(s, i)) == t.asset@,
        lit_at(s, string_end(s, tq_asset(s, i)), lit_t4()),
        string_at(s, tq_pay_to(s, i)),
        string_content(s, tq_pay_to(s, i)) == t.pay_to@,
        lit_at(s, string_end(s, tq_pay_to(s, i)), lit_t5()),
    ensures
        tq_amount(s, i) <= s.len(),
        tq_amount(s, i) == i + render_tag_front(t).len(),
        s.subrange(i, tq_amount(s, i)) == render_tag_front(t),
{
    lemma_string_window(s, tq_scheme(s, i));
    lemma_string_window(s, tq_network(s, i));
    lemma_string_window(s, tq_asset(s, i));
    lemma_string_window(s, tq_pay_to(s, i));
    let c1 = i + lit_t1().len();
    let c2 = string_end(s, c1);
    let c3 = c2 + lit_p3().len();
    let c4 = string_end(s, c3);
    let c5 = c4 + lit_t3().len();
    let c6 = string_end(s, c5);
    let c7 = c6 + lit_t4().len();
    let c8 = string_end(s, c7);
    let c9 = c8 + lit_t5().len();
    assert(s.subrange(i, c2) =~= s.subrange(i, c1 as int) + s.subrange(c1 as int, c2));
    assert(s.subrange(i, c3) =~= s.subrange(i, c2) + s.subrange(c2, c3));
    assert(s.subrange(i, c4) =~= s.subrange(i, c3) + s.subrange(c3, c4));
    assert(s.subrange(i, c5) =~= s.subrange(i, c4) + s.subrange(c4, c5));
    assert(s.subrange(i, c6) =~= s.subrange(i, c5) + s.subrange(c5, c6));
    assert(s.subrange(i, c7) =~= s.subrange(i, c6) + s.subrange(c6, c7));
    assert(s.subrange(i, c8) =~= s.subrange(i, c7) + s.subrange(c7, c8));
    assert(s.subrange(i, c9) =~= s.subrange(i, c8) + s.subrange(c8, c9));
}

/// Parsed string fields pin down the whole tag.
#[verifier::rlimit(100)]
proof fn lemma_tag_assemble(t: OfferedTag, s: Seq<u8>, i: int)
    requires
        0 <= i,
        tq_amount(s, i) <= s.len(),
        tq_amount(s, i) == i + render_tag_front(t).len(),
        s.subrange(i, tq_amount(s, i)) == render_tag_front(t),
        string_at(s, tq_amount(s, i)),
        string_content(s, tq_amount(s, i)) == digits_of(t.amount.units as nat),
        lit_at(s, string_end(s, tq_amount(s, i)), lit_t6()),
        string_at(s, tq_resource(s, i)),
        string_content(s, tq_resource(s, i)) == t.resource@,
        lit_at(s, string_end(s, tq_resource(s, i)), lit_t7()),
        string_at(s, tq_description(s, i)),
        string_content(s, tq_description(s, i)) == t.description@,
        lit_at(s, string_end(s, tq_description(s, i)), lit_t8()),
        string_at(s, tq_mime(s, i)),
        string_content(s, tq_mime(s, i)) == t.mime_type@,
        lit_at(s, string_end(s, tq_mime(s, i)), lit_t9()),
    ensures
        tag_at(s, i, t),
        tag_end(s, i) == i + tag_len(t),
{
    lemma_string_window(s, tq_amount(s, i));
    lemma_string_window(s, tq_resource(s, i));
    lemma_string_window(s, tq_description(s, i));
    lemma_string_window(s, tq_mime(s, i));
    let c9 = tq_amount(s, i);
    let c10 = string_end(s, c9);
    let c11 = c10 + lit_t6().len();
    let c12 = string_end(s, c11);
    let c13 = c12 + lit_t7().len();
    let c14 = string_end(s, c13);
    let c15 = c14 + lit_t8().len();
    let c16 = string_end(s, c15);
    let c17 = c16 + lit_t9().len();
    assert(s.subrange(i, c10) =~= s.subrange(i, c9) + s.subrange(c9, c10));
    assert(s.subrange(i, c11) =~= s.subrange(i, c10) + s.subrange(c10, c11));
    assert(s.subrange(i, c12) =~= s.subrange(i, c11) + s.subrange(c11, c12));
    assert(s.subrange(i, c13) =~= s.subrange(i, c12) + s.subrange(c12, c13));
    assert(s.subrange(i, c14) =~= s.subrange(i, c13) + s.subrange(c13, c14));
    assert(s.subrange(i, c15) =~= s.subrange(i, c14) + s.subrange(c14, c15));
    assert(s.subrange(i, c16) =~= s.subrange(i, c15) + s.subrange(c15, c16));
    assert(s.subrange(i, c17) =~= s.subrange(i, c16) + s.subrange(c16, c17));
    assert(s.subrange(i, c17) =~= render_tag(t));
    assert(tag_len(t) == c17 - i);
}

/// A string field occupies exactly its quoted content (bounds form).
proof fn lemma_string_window(s: Seq<u8>, o: int)
    requires
        string_at(s, o),
    ensures
        o + 2 <= string_end(s, o) <= s.len(),
        s.subrange(o, string_end(s, o)) =~= qstr(string_content(s, o)),
{
    crate::wire::lemma_safe_end(s, o + 1);
}

fn push_qstr(out: &mut Vec<u8>, f: &Vec<u8>)
    ensures
        final(out)@ == old(out)@ + qstr(f@),
{
    out.push(crate::wire::QUOTE);
    out.extend_from_slice(f.as_slice());
    out.push(crate::wire::QUOTE);
    proof {
        assert(out@ =~= old(out)@ + qstr(f@));
    }
}

/// Appends the wire form of one offered tag.
#[verifier::rlimit(100)]
pub fn push_tag(out: &mut Vec<u8>, t: &OfferedTag)
    requires
        t.wf(),
    ensures
        final(out)@ == old(out)@ + render_tag(*t),
{
    let mut l = lit_t1_vec();
    out.append(&mut l);
    push_qstr(out, &t.scheme);
    let mut l2 = lit_p3_vec();
    out.append(&mut l2);
    out.push(crate::wire::QUOTE);
    t.network.push_name(out);
    out.push(crate::wire::QUOTE);
    proof {
        assert(out@ =~= old(out)@ + (lit_t1() + qstr(t.scheme@) + lit_p3() + qstr(
            network_name(t.network))));
    }
    let mut l3 = lit_t3_vec();
    out.append(&mut l3);
    push_qstr(out, &t.asset);
    let mut l4 = lit_t4_vec();
    out.append(&mut l4);
    push_qstr(out, &t.pay_to);
    let mut l5 = lit_t5_vec();
    out.append(&mut l5);
    out.push(crate::wire::QUOTE);
    crate::numerals::push_digits(t.amount.units, out);
    out.push(crate::wire::QUOTE);
    proof {
        assert(out@ =~= old(out)@ + (lit_t1() + qstr(t.scheme@) + lit_p3() + qstr(
            network_name(t.network)) + lit_t3() + qstr(t.asset@) + lit_t4() + qstr(t.pay_to@)
            + lit_t5() + qstr(digits_of(t.amount.units as nat))));
    }
    let mut l6 = lit_t6_vec();
    out.append(&mut l6);
    push_qstr(out, &t.resource);
    let mut l7 = lit_t7_vec();
    out.append(&mut l7);
    push_qstr(out, &t.description);
    let mut l8 = lit_t8_vec();
    out.append(&mut l8);
    push_qstr(out, &t.mime_type);
    let mut l9 = lit_t9_vec();
    out.append(&mut l9);
    proof {
        assert(out@ =~= old(out)@ + render_tag(*t));
    }
}

pub open spec fn tags_all_wf(ts: Seq<OfferedTag>) -> bool {
    forall|k: int| 0 <= k < ts.len() ==> (#[trigger] ts[k]).wf()
}

/// The wire form of a nonempty tag list, in order, comma-separated.
pub open spec fn render_tags(ts: Seq<OfferedTag>) -> Seq<u8>
    decreases ts.len(),
{
    if ts.len() == 0 {
        Seq::empty()
    } else if ts.len() == 1 {
        render_tag(ts[0])
    } else {
        render_tag(ts[0]) + seq![COMMA] + render_tags(ts.drop_first())
    }
}

/// Whether a rendered tag list followed by the closing bracket stands at
/// `i`.
pub open spec fn tag_list_at(s: Seq<u8>, i: int, ts: Seq<OfferedTag>) -> bool {
    &&& 0 <= i
    &&& i + render_tags(ts).len() + 1 <= s.len()
    &&& s.subrange(i, i + render_tags(ts).len() + 1) == render_tags(ts) + seq![RBRACKET]
}

/// The head of a rendered tag list stands at `i`, followed by a comma and
/// the rendered tail, or by the closing bracket.
proof fn lemma_tag_list_head(s: Seq<u8>, i: int, ts: Seq<OfferedTag>)
    requires
        tag_list_at(s, i, ts),
        ts.len() >= 1,
        tags_all_wf(ts),
    ensures
        tag_at(s, i, ts[0]),
        ts.len() == 1 ==> s[i + tag_len(ts[0])] == RBRACKET,
        ts.len() > 1 ==> s[i + tag_len(ts[0])] == COMMA && tag_list_at(
            s,
            i + tag_len(ts[0]) + 1,
            ts.drop_first(),
        ) && tags_all_wf(ts.drop_first()),
{
    if ts.len() == 1 {
        lemma_split_at(s, i, render_tag(ts[0]), seq![RBRACKET]);
        assert(s.subrange(i + tag_len(ts[0]), i + tag_len(ts[0]) + 1) =~= seq![RBRACKET]);
        assert(s[i + tag_len(ts[0])] == seq![RBRACKET][0]);
    } else {
        let rest = seq![COMMA] + render_tags(ts.drop_first()) + seq![RBRACKET];
        assert(render_tags(ts) + seq![RBRACKET] =~= render_tag(ts[0]) + rest);
        lemma_split_at(s, i, render_tag(ts[0]), rest);
        let o = i + tag_len(ts[0]);
        assert(s[o] == rest[0]);
        let tail = render_tags(ts.drop_first()) + seq![RBRACKET];
        assert(rest =~= seq![COMMA] + tail);
        lemma_split_at(s, o, seq![COMMA], tail);
        assert(tag_list_at(s, o + 1, ts.drop_first()));
        assert(forall|k: int|
            0 <= k < ts.drop_first().len() ==> ts.drop_first()[k] == #[trigger] ts[k + 1]);
    }
}

/// Two rendered tag lists standing at the same place have the same length:
/// the closing bracket and the commas leave no ambiguity.
proof fn lemma_tag_list_len_unique(s: Seq<u8>, i: int, ts1: Seq<OfferedTag>, ts2: Seq<
    OfferedTag,
>)
    requires
        tag_list_at(s, i, ts1),
        tag_list_at(s, i, ts2),
        ts1.len() >= 1,
        ts2.len() >= 1,
        tags_all_wf(ts1),
        tags_all_wf(ts2),
    ensures
        render_tags(ts1).len() == render_tags(ts2).len(),
    decreases ts1.len(),
{
    lemma_tag_list_head(s, i, ts1);
    lemma_tag_list_head(s, i, ts2);
    lemma_tag_positions(ts1[0], s, i);
    lemma_tag_positions(ts2[0], s, i);
    assert(tag_len(ts1[0]) == tag_len(ts2[0]));
    let o = i + tag_len(ts1[0]);
    if ts1.len() == 1 && ts2.len() == 1 {
    } else if ts1.len() > 1 && ts2.len() > 1 {
        lemma_tag_list_len_unique(s, o + 1, ts1.drop_first(), ts2.drop_first());
    } else {
        assert(s[o] == COMMA && s[o] == RBRACKET);
        assert(false);
    }
}

/// Parses one offered tag at `i`.
#[verifier::rlimit(100)]
pub fn parse_tag(s: &Vec<u8>, i: usize) -> (r: Option<(OfferedTag, usize)>)
    requires
        i <= s@.len(),
    ensures
        match r {
            Some(p) => p.0.wf() && tag_at(s@, i as int, p.0) && p.1 as int == tag_end(
                s@,
                i as int,
            ) && p.1 as int == i + tag_len(p.0) && i < p.1 <= s@.len(),
            None => forall|t: OfferedTag| t.wf() ==> !tag_at(s@, i as int, t),
        },
{
    let l1 = lit_t1_vec();
    let j1 = match expect_lit(s, i, &l1) {
        Some(j) => j,
        None => {
            proof {
                assert forall|t: OfferedTag| t.wf() implies !tag_at(s@, i as int, t) by {
                    if tag_at(s@, i as int, t) {
                        lemma_tag_positions(t, s@, i as int);
                    }
                }
            }
            return None;
        },
    };
    let (scheme, j2) = match parse_string_field(s, j1) {
        Some(q) => q,
        None => {
            proof {
                assert forall|t: OfferedTag| t.wf() implies !tag_at(s@, i as int, t) by {
                    if tag_at(s@, i as int, t) {
                        lemma_tag_positions(t, s@, i as int);
                    }
                }
            }
            return None;
        },
    };
    let l2 = lit_p3_vec();
    let j3 = match expect_lit(s, j2, &l2) {
        Some(j) => j,
        None => {
            proof {
                assert forall|t: OfferedTag| t.wf() implies !tag_at(s@, i as int, t) by {
                    if tag_at(s@, i as int, t) {
                        lemma_tag_positions(t, s@, i as int);
                    }
                }
            }
            return None;
        },
    };
    let (netname, j4) = match parse_string_field(s, j3) {
        Some(q) => q,
        None => {
            proof {
                assert forall|t: OfferedTag| t.wf() implies !tag_at(s@, i as int, t) by {
                    if tag_at(s@, i as int, t) {
                        lemma_tag_positions(t, s@, i as int);
                    }
                }
            }
            return None;
        },
    };
    let mut sol_name: Vec<u8> = Vec::new();
    Network::Solana.push_name(&mut sol_name);
    let mut base_name: Vec<u8> = Vec::new();
    Network::BaseSepolia.push_name(&mut base_name);
    let network: Network = if bytes_eq(&netname, &sol_name) {
        Network::Solana
    } else if bytes_eq(&netname, &base_name) {
        Network::BaseSepolia
    } else {
        proof {
            assert forall|t: OfferedTag| t.wf() implies !tag_at(s@, i as int, t) by {
                if tag_at(s@, i as int, t) {
                    lemma_tag_positions(t, s@, i as int);
                    if t.network is Solana {
                    } else {
                        assert(t.network is BaseSepolia);
                    }
                }
            }
        }
        return None;
    };
    let l3 = lit_t3_vec();
    let j5 = match expect_lit(s, j4, &l3) {
        Some(j) => j,
        None => {
            proof {
                assert forall|t: OfferedTag| t.wf() implies !tag_at(s@, i as int, t) by {
                    if tag_at(s@, i as int, t) {
                        lemma_tag_positions(t, s@, i as int);
                    }
                }
            }
            return None;
        },
    };
    let (asset, j6) = match parse_string_field(s, j5) {
        Some(q) => q,
        None => {
            proof {
                assert forall|t: OfferedTag| t.wf() implies !tag_at(s@, i as int, t) by {
                    if tag_at(s@, i as int, t) {
                        lemma_tag_positions(t, s@, i as int);
                    }
                }
            }
            return None;
        },
    };
    let l4 = lit_t4_vec();
    let j7 = match expect_lit(s, j6, &l4) {
        Some(j) => j,
        None => {
            proof {
                assert forall|t: OfferedTag| t.wf() implies !tag_at(s@, i as int, t) by {
                    if tag_at(s@, i as int, t) {
                        lemma_tag_positions(t, s@, i as int);
                    }
                }
            }
            return None;
        },
    };
    let (pay_to, j8) = match parse_string_field(s, j7) {
        Some(q) => q,
        None => {
            proof {
                assert forall|t: OfferedTag| t.wf() implies !tag_at(s@, i as int, t) by {
                    if tag_at(s@, i as int, t) {
                        lemma_tag_positions(t, s@, i as int);
                    }
                }
            }
            return None;
        },
    };
    let l5 = lit_t5_vec();
    let j9 = match expect_lit(s, j8, &l5) {
        Some(j) => j,
        None => {
            proof {
                assert forall|t: OfferedTag| t.wf() implies !tag_at(s@, i as int, t) by {
                    if tag_at(s@, i as int, t) {
                        lemma_tag_positions(t, s@, i as int);
                    }
                }
            }
            return None;
        },
    };
    let (amtstr, j10) = match parse_string_field(s, j9) {
        Some(q) => q,
        None => {
            proof {
                assert forall|t: OfferedTag| t.wf() implies !tag_at(s@, i as int, t) by {
                    if tag_at(s@, i as int, t) {
                        lemma_tag_positions(t, s@, i as int);
                    }
                }
            }
            return None;
        },
    };
    let units: u128 = match parse_number(&amtstr, 0, MAX_UNITS) {
        Some(q) => {
            if q.1 != amtstr.len() {
                proof {
                    assert forall|t: OfferedTag| t.wf() implies !tag_at(s@, i as int, t) by {
                        if tag_at(s@, i as int, t) {
                            lemma_tag_positions(t, s@, i as int);
                            lemma_whole_number_req(amtstr@, t.amount.units as nat,
                                MAX_UNITS as nat);
                        }
                    }
                }
                return None;
            }
            q.0
        },
        None => {
            proof {
                assert forall|t: OfferedTag| t.wf() implies !tag_at(s@, i as int, t) by {
                    if tag_at(s@, i as int, t) {
                        lemma_tag_positions(t, s@, i as int);
                        lemma_whole_number_req(amtstr@, t.amount.units as nat, MAX_UNITS as nat);
                    }
                }
            }
            return None;
        },
    };
    let l6 = lit_t6_vec();
    let j11 = match expect_lit(s, j10, &l6) {
        Some(j) => j,
        None => {
            proof {
                assert forall|t: OfferedTag| t.wf() implies !tag_at(s@, i as int, t) by {
                    if tag_at(s@, i as int, t) {
                        lemma_tag_positions(t, s@, i as int);
                    }
                }
            }
            return None;
        },
    };
    let (resource, j12) = match parse_string_field(s, j11) {
        Some(q) => q,
        None => {
            proof {
                assert forall|t: OfferedTag| t.wf() implies !tag_at(s@, i as int, t) by {
                    if tag_at(s@, i as int, t) {
                        lemma_tag_positions(t, s@, i as int);
                    }
                }
            }
            return None;
        },
    };
    let l7 = lit_t7_vec();
    let j13 = match expect_lit(s, j12, &l7) {
        Some(j) => j,
        None => {
            proof {
                assert forall|t: OfferedTag| t.wf() implies !tag_at(s@, i as int, t) by {
                    if tag_at(s@, i as int, t) {
                        lemma_tag_positions(t, s@, i as int);
                    }
                }
            }
            return None;
        },
    };
    let (description, j14) = match parse_string_field(s, j13) {
        Some(q) => q,
        None => {
            proof {
                assert forall|t: OfferedTag| t.wf() implies !tag_at(s@, i as int, t) by {
                    if tag_at(s@, i as int, t) {
                        lemma_tag_positions(t, s@, i as int);
                    }
                }
            }
            return None;
        },
    };
    let l8 = lit_t8_vec();
    let j15 = match expect_lit(s, j14, &l8) {
        Some(j) => j,
        None => {
            proof {
                assert forall|t: OfferedTag| t.wf() implies !tag_at(s@, i as int, t) by {
                    if tag_at(s@, i as int, t) {
                        lemma_tag_positions(t, s@, i as int);
                    }
                }
            }
            return None;
        },
    };
    let (mime_type, j16) = match parse_string_field(s, j15) {
        Some(q) => q,
        None => {
            proof {
                assert forall|t: OfferedTag| t.wf() implies !tag_at(s@, i as int, t) by {
                    if tag_at(s@, i as int, t) {
                        lemma_tag_positions(t, s@, i as int);
                    }
                }
            }
            return None;
        },
    };
    let l9 = lit_t9_vec();
    let j17 = match expect_lit(s, j16, &l9) {
        Some(j) => j,
        None => {
            proof {
                assert forall|t: OfferedTag| t.wf() implies !tag_at(s@, i as int, t) by {
                    if tag_at(s@, i as int, t) {
                        lemma_tag_positions(t, s@, i as int);
                    }
                }
            }
            return None;
        },
    };
    let out = OfferedTag {
        scheme,
        network,
        asset,
        pay_to,
        amount: Amount { units },
        resource,
        description,
        mime_type,
    };
    proof {
        assert(amtstr@ =~= amtstr@.subrange(0, amtstr@.len() as int));
        assert(amtstr@ == digits_of(units as nat));
        lemma_tag_assemble_front(out, s@, i as int);
        lemma_tag_assemble(out, s@, i as int);
    }
    Some((out, j17))
}

/// A quoted digit field fills its whole content.
proof fn lemma_whole_number_req(t: Seq<u8>, v: nat, max: nat)
    requires
        t == digits_of(v),
        v <= max,
    ensures
        number_at(t, 0, max),
        number_val(t, 0) == v,
        run_end(t, 0) == t.len(),
{
    lemma_digits_of_props(v);
    assert(t.subrange(0, t.len() as int) =~= t);
    lemma_number_at_digits(t, 0, v, max);
}

/// Parses a nonempty comma-separated tag list closed by a bracket,
/// consuming the bracket.
#[verifier::rlimit(100)]
pub fn parse_tags(s: &Vec<u8>, i: usize) -> (r: Option<(Vec<OfferedTag>, usize)>)
    requires
        i <= s@.len(),
    ensures
        match r {
            Some(p) => p.0@.len() >= 1 && tags_all_wf(p.0@) && tag_list_at(s@, i as int, p.0@)
                && p.1 as int == i + render_tags(p.0@).len() + 1 && i < p.1 <= s@.len(),
            None => forall|ts: Seq<OfferedTag>|
                ts.len() >= 1 && tags_all_wf(ts) ==> !tag_list_at(s@, i as int, ts),
        },
    decreases s@.len() - i,
{
    let (head, j) = match parse_tag(s, i) {
        Some(q) => q,
        None => {
            proof {
                assert forall|ts: Seq<OfferedTag>|
                    ts.len() >= 1 && tags_all_wf(ts) implies !tag_list_at(s@, i as int, ts) by {
                    if tag_list_at(s@, i as int, ts) {
                        lemma_tag_list_head(s@, i as int, ts);
                    }
                }
            }
            return None;
        },
    };
    if j >= s.len() {
        proof {
            assert forall|ts: Seq<OfferedTag>|
                ts.len() >= 1 && tags_all_wf(ts) implies !tag_list_at(s@, i as int, ts) by {
                if tag_list_at(s@, i as int, ts) {
                    lemma_tag_list_head(s@, i as int, ts);
                    lemma_tag_positions(ts[0], s@, i as int);
                }
            }
        }
        return None;
    }
    let b = s[j];
    if b == RBRACKET {
        let mut out: Vec<OfferedTag> = Vec::new();
        out.push(head);
        proof {
            assert(render_tags(out@) == render_tag(out@[0]));
            assert(s@.subrange(i as int, j + 1) =~= render_tag(head) + seq![RBRACKET]);
        }
        Some((out, j + 1))
    } else if b == COMMA {
        match parse_tags(s, j + 1) {
            Some(q) => {
                let rest = q.1;
                let mut tail = q.0;
                let mut out: Vec<OfferedTag> = Vec::new();
                out.push(head);
                let ghost tail_view = tail@;
                out.append(&mut tail);
                proof {
                    assert(out@ =~= seq![head] + tail_view);
                    assert(out@[0] == head);
                    assert(out@.drop_first() =~= tail_view);
                    assert(render_tags(out@) == render_tag(head) + seq![COMMA] + render_tags(
                        tail_view));
                    assert(s@.subrange(i as int, q.1 as int) =~= s@.subrange(i as int, j as int)
                        + seq![COMMA] + s@.subrange(j + 1, q.1 as int)) by {
                        assert(s@[j as int] == COMMA);
                    }
                    assert(s@.subrange(i as int, q.1 as int) =~= render_tags(out@) + seq![
                        RBRACKET]);
                }
                Some((out, rest))
            },
            None => {
                proof {
                    assert forall|ts: Seq<OfferedTag>|
                        ts.len() >= 1 && tags_all_wf(ts) implies !tag_list_at(
                        s@,
                        i as int,
                        ts,
                    ) by {
                        if tag_list_at(s@, i as int, ts) {
                            lemma_tag_list_head(s@, i as int, ts);
                            lemma_tag_positions(ts[0], s@, i as int);
                            if ts.len() == 1 {
                                assert(s@[j as int] == RBRACKET);
                                assert(false);
                            } else {
                                assert(!tag_list_at(s@, j + 1, ts.drop_first()));
                                assert(false);
                            }
                        }
                    }
                }
                None
            },
        }
    } else {
        proof {
            assert forall|ts: Seq<OfferedTag>|
                ts.len() >= 1 && tags_all_wf(ts) implies !tag_list_at(s@, i as int, ts) by {
                if tag_list_at(s@, i as int, ts) {
                    lemma_tag_list_head(s@, i as int, ts);
                    lemma_tag_positions(ts[0], s@, i as int);
                }
            }
        }
        None
    }
}

/// The 402 body: protocol version, an error note, and the offered tags in
/// server preference order.
pub struct RequirementDoc {
    pub version: u64,
    pub error: Vec<u8>,
    pub accepts: Vec<OfferedTag>,
}

impl RequirementDoc {
    pub open spec fn wf(self) -> bool {
        &&& json_safe(self.error@)
        &&& self.accepts@.len() >= 1
        &&& tags_all_wf(self.accepts@)
    }
}

/// The wire form of a requirement document.
pub open spec fn render_doc(d: RequirementDoc) -> Seq<u8> {
    lit_p1() + digits_of(d.version as nat) + lit_r2() + qstr(d.error@) + lit_r3() + render_tags(
        d.accepts@,
    ) + seq![RBRACKET] + lit_t9()
}

/// Offset of the error field, and of the first tag, in a requirement
/// document.
pub open spec fn rq_error(s: Seq<u8>) -> int {
    run_end(s, lit_p1().len() as int) + lit_r2().len()
}

pub open spec fn rq_tags(s: Seq<u8>) -> int {
    string_end(s, rq_error(s)) + lit_r3().len()
}

/// In a rendered requirement document every piece stands where the parser
/// looks for it.
#[verifier::rlimit(100)]
proof fn lemma_doc_positions(d: RequirementDoc, s: Seq<u8>)
    requires
        d.wf(),
        s == render_doc(d),
    ensures
        lit_at(s, 0, lit_p1()),
        number_at(s, lit_p1().len() as int, 0xffff_ffff_ffff_ffff as nat),
        number_val(s, lit_p1().len() as int) == d.version,
        lit_at(s, run_end(s, lit_p1().len() as int), lit_r2()),
        string_at(s, rq_error(s)),
        string_content(s, rq_error(s)) == d.error@,
        lit_at(s, string_end(s, rq_error(s)), lit_r3()),
        tag_list_at(s, rq_tags(s), d.accepts@),
        lit_at(s, rq_tags(s) + render_tags(d.accepts@).len() + 1, lit_t9()),
        rq_tags(s) + render_tags(d.accepts@).len() + 2 == s.len(),
{
    lemma_digits_of_props(d.version as nat);
    lemma_digits_json_safe(d.version as nat);
    let d1 = digits_of(d.version as nat);
    let d3 = qstr(d.error@);
    let body = render_tags(d.accepts@) + seq![RBRACKET];
    let e1 = lit_p1() + d1;
    let e2 = e1 + lit_r2();
    let e3 = e2 + d3;
    let e4 = e3 + lit_r3();
    let e5 = e4 + body;
    assert(s == e5 + lit_t9()) by {
        assert(s =~= e5 + lit_t9());
    }
    assert(s.subrange(0, s.len() as int) =~= s);
    lemma_split_at(s, 0, e5, lit_t9());
    lemma_split_at(s, 0, e4, body);
    lemma_split_at(s, 0, e3, lit_r3());
    lemma_split_at(s, 0, e2, d3);
    lemma_split_at(s, 0, e1, lit_r2());
    lemma_split_at(s, 0, lit_p1(), d1);
    assert(s[e1.len() as int] == lit_r2()[0]);
    lemma_number_at_digits(s, lit_p1().len() as int, d.version as nat,
        0xffff_ffff_ffff_ffff as nat);
    assert(run_end(s, lit_p1().len() as int) == e1.len());
    lemma_tag_quoted(s, e2.len() as int, d.error@);
    assert(rq_error(s) == e2.len());
    assert(string_end(s, rq_error(s)) == e3.len());
    assert(rq_tags(s) == e4.len());
    assert(tag_list_at(s, rq_tags(s), d.accepts@));
}

/// Parsed pieces pin down the whole requirement document.
#[verifier::rlimit(100)]
proof fn lemma_doc_assemble(d: RequirementDoc, s: Seq<u8>)
    requires
        lit_at(s, 0, lit_p1()),
        number_at(s, lit_p1().len() as int, 0xffff_ffff_ffff_ffff as nat),
        number_val(s, lit_p1().len() as int) == d.version,
        lit_at(s, run_end(s, lit_p1().len() as int), lit_r2()),
        string_at(s, rq_error(s)),
        string_content(s, rq_error(s)) == d.error@,
        lit_at(s, string_end(s, rq_error(s)), lit_r3()),
        tag_list_at(s, rq_tags(s), d.accepts@),
        lit_at(s, rq_tags(s) + render_tags(d.accepts@).len() + 1, lit_t9()),
        rq_tags(s) + render_tags(d.accepts@).len() + 2 == s.len(),
    ensures
        s == render_doc(d),
{
    let c1 = lit_p1().len() as int;
    let c2 = run_end(s, c1);
    crate::numerals::lemma_run_end(s, c1);
    let dv = s.subrange(c1, c2);
    assert(crate::numerals::all_digits(dv)) by {
        assert(forall|m: int| 0 <= m < dv.len() ==> dv[m] == #[trigger] s[c1 + m]);
    }
    lemma_digits_of_digits_val(dv);
    assert(dv == digits_of(d.version as nat));
    lemma_string_window(s, rq_error(s));
    let c3 = rq_error(s);
    let c4 = string_end(s, c3);
    let c5 = rq_tags(s);
    let c6 = c5 + render_tags(d.accepts@).len() + 1;
    let c7 = c6 + lit_t9().len();
    assert(s.take(c1) =~= s.subrange(0, c1));
    assert(s.take(c2) =~= s.take(c1) + s.subrange(c1, c2));
    assert(s.take(c3) =~= s.take(c2) + s.subrange(c2, c3));
    assert(s.take(c4) =~= s.take(c3) + s.subrange(c3, c4));
    assert(s.take(c5) =~= s.take(c4) + s.subrange(c4, c5));
    assert(s.take(c6) =~= s.take(c5) + s.subrange(c5, c6));
    assert(s.take(c7) =~= s.take(c6) + s.subrange(c6, c7));
    assert(s.take(c7) =~= s);
    assert(render_doc(d) =~= lit_p1() + digits_of(d.version as nat) + lit_r2() + qstr(d.error@)
        + lit_r3() + (render_tags(d.accepts@) + seq![RBRACKET]) + lit_t9());
    assert(s =~= render_doc(d));
}

/// Appends the wire form of the tags from index `k` on.
fn push_tags(out: &mut Vec<u8>, tags: &Vec<OfferedTag>, k: usize)
    requires
        k < tags@.len(),
        tags_all_wf(tags@),
    ensures
        final(out)@ == old(out)@ + render_tags(tags@.skip(k as int)),
    decreases tags@.len() - k,
{
    push_tag(out, &tags[k]);
    proof {
        assert(tags@.skip(k as int)[0] == tags@[k as int]);
    }
    if k < tags.len() - 1 {
        out.push(COMMA);
        push_tags(out, tags, k + 1);
        proof {
            assert(tags@.skip(k as int).drop_first() =~= tags@.skip(k + 1));
            assert(out@ =~= old(out)@ + render_tags(tags@.skip(k as int)));
        }
    } else {
        proof {
            assert(tags@.skip(k as int).len() == 1);
            assert(out@ =~= old(out)@ + render_tags(tags@.skip(k as int)));
        }
    }
}

/// Renders a requirement document to its canonical wire form.
pub fn render_requirements(d: &RequirementDoc) -> (r: Vec<u8>)
    requires
        d.wf(),
    ensures
        r@ == render_doc(*d),
{
    let mut out: Vec<u8> = lit_p1_vec();
    crate::numerals::push_digits(d.version as u128, &mut out);
    let mut l2 = lit_r2_vec();
    out.append(&mut l2);
    push_qstr(&mut out, &d.error);
    let mut l3 = lit_r3_vec();
    out.append(&mut l3);
    push_tags(&mut out, &d.accepts, 0);
    out.push(RBRACKET);
    let mut l9 = lit_t9_vec();
    out.append(&mut l9);
    proof {
        assert(d.accepts@.skip(0) =~= d.accepts@);
        assert(out@ =~= render_doc(*d));
    }
    out
}

/// Parses the canonical wire form of a requirement document.  Returns the
/// document exactly when the input is the rendering of a well-formed one.
#[verifier::rlimit(100)]
pub fn parse_requirements(s: &Vec<u8>) -> (r: Option<RequirementDoc>)
    ensures
        match r {
            Some(d) => d.wf() && s@ == render_doc(d),
            None => forall|d: RequirementDoc| d.wf() ==> s@ != render_doc(d),
        },
{
    let l1 = lit_p1_vec();
    let i1 = match expect_lit(s, 0, &l1) {
        Some(j) => j,
        None => {
            proof {
                assert forall|d: RequirementDoc| d.wf() implies s@ != render_doc(d) by {
                    if s@ == render_doc(d) {
                        lemma_doc_positions(d, s@);
                    }
                }
            }
            return None;
        },
    };
    let (ver128, i2) = match parse_number(s, i1, 0xffff_ffff_ffff_ffff) {
        Some(q) => q,
        None => {
            proof {
                assert forall|d: RequirementDoc| d.wf() implies s@ != render_doc(d) by {
                    if s@ == render_doc(d) {
                        lemma_doc_positions(d, s@);
                    }
                }
            }
            return None;
        },
    };
    let version: u64 = ver128 as u64;
    let l2 = lit_r2_vec();
    let i3 = match expect_lit(s, i2, &l2) {
        Some(j) => j,
        None => {
            proof {
                assert forall|d: RequirementDoc| d.wf() implies s@ != render_doc(d) by {
                    if s@ == render_doc(d) {
                        lemma_doc_positions(d, s@);
                    }
                }
            }
            return None;
        },
    };
    let (error, i4) = match parse_string_field(s, i3) {
        Some(q) => q,
        None => {
            proof {
                assert forall|d: RequirementDoc| d.wf() implies s@ != render_doc(d) by {
                    if s@ == render_doc(d) {
                        lemma_doc_positions(d, s@);
                    }
                }
            }
            return None;
        },
    };
    let l3 = lit_r3_vec();
    let i5 = match expect_lit(s, i4, &l3) {
        Some(j) => j,
        None => {
            proof {
                assert forall|d: RequirementDoc| d.wf() implies s@ != render_doc(d) by {
                    if s@ == render_doc(d) {
                        lemma_doc_positions(d, s@);
                    }
                }
            }
            return None;
        },
    };
    let (accepts, i6) = match parse_tags(s, i5) {
        Some(q) => q,
        None => {
            proof {
                assert forall|d: RequirementDoc| d.wf() implies s@ != render_doc(d) by {
                    if s@ == render_doc(d) {
                        lemma_doc_positions(d, s@);
                    }
                }
            }
            return None;
        },
    };
    let l9 = lit_t9_vec();
    let i7 = match expect_lit(s, i6, &l9) {
        Some(j) => j,
        None => {
            proof {
                assert forall|d: RequirementDoc| d.wf() implies s@ != render_doc(d) by {
                    if s@ == render_doc(d) {
                        lemma_doc_positions(d, s@);
                        lemma_tag_list_len_unique(s@, i5 as int, accepts@, d.accepts@);
                    }
                }
            }
            return None;
        },
    };
    if i7 != s.len() {
        proof {
            assert forall|d: RequirementDoc| d.wf() implies s@ != render_doc(d) by {
                if s@ == render_doc(d) {
                    lemma_doc_positions(d, s@);
                    lemma_tag_list_len_unique(s@, i5 as int, accepts@, d.accepts@);
                }
            }
        }
        return None;
    }
    let out = RequirementDoc { version, error, accepts };
    proof {
        lemma_doc_assemble(out, s@);
    }
    Some(out)
}

} // verus!
