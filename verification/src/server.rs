//! The server middleware: a per-request protocol state machine that gates
//! one protected route behind a payment.  The surrounding host performs
//! the transport work — it hands each incoming request's header in, makes
//! the facilitator calls asked of it, and sends the responses produced
//! here — while every decision is taken in this module.

use vstd::prelude::*;
use crate::amount::Amount;
use crate::asset::{bytes_eq, lemma_addr_json_safe, Network};
use crate::codec::PaymentProof;
use crate::header::{decode_payment_header, header_of, proof_expired, CodecError, X402_VERSION};
use crate::requirements::{render_requirements, tags_all_wf, OfferedTag, RequirementDoc,
    render_doc};
use crate::tag::{
    clone_bytes, clone_tag, decision_spec, lemma_decision_spec_view, PolicyDecision, PriceTag,
    PriceTagSet,
};
use crate::text::json_safe;

verus! {

/// The scheme every offered tag speaks: an exact-amount transfer.
pub open spec fn scheme_exact() -> Seq<u8> {
    seq![0x65u8, 0x78u8, 0x61u8, 0x63u8, 0x74u8]
}

fn scheme_exact_vec() -> (v: Vec<u8>)
    ensures
        v@ == scheme_exact(),
{
    let mut v: Vec<u8> = Vec::new();
    v.push(0x65);
    v.push(0x78);
    v.push(0x61);
    v.push(0x63);
    v.push(0x74);
    proof {
        assert(v@ =~= scheme_exact());
    }
    v
}

/// Error note attached to a corrected challenge after a policy rejection
/// or a failed verification.
pub open spec fn reject_note(dec: PolicyDecision) -> Seq<u8> {
    match dec {
        PolicyDecision::Accept => Seq::empty(),
        PolicyDecision::RejectInsufficient => seq![
            0x69u8, 0x6eu8, 0x73u8, 0x75u8, 0x66u8, 0x66u8, 0x69u8, 0x63u8, 0x69u8, 0x65u8,
            0x6eu8, 0x74u8,
        ],
        PolicyDecision::RejectExceedsMax => seq![
            0x65u8, 0x78u8, 0x63u8, 0x65u8, 0x65u8, 0x64u8, 0x73u8, 0x2du8, 0x6du8, 0x61u8,
            0x78u8,
        ],
        PolicyDecision::RejectUnlisted => seq![
            0x75u8, 0x6eu8, 0x6cu8, 0x69u8, 0x73u8, 0x74u8, 0x65u8, 0x64u8,
        ],
    }
}

fn reject_note_vec(dec: &PolicyDecision) -> (v: Vec<u8>)
    ensures
        v@ == reject_note(*dec),
{
    let mut v: Vec<u8> = Vec::new();
    match dec {
        PolicyDecision::Accept => {},
        PolicyDecision::RejectInsufficient => {
            v.push(0x69);
            v.push(0x6e);
            v.push(0x73);
            v.push(0x75);
            v.push(0x66);
            v.push(0x66);
            v.push(0x69);
            v.push(0x63);
            v.push(0x69);
            v.push(0x65);
            v.push(0x6e);
            v.push(0x74);
        },
        PolicyDecision::RejectExceedsMax => {
            v.push(0x65);
            v.push(0x78);
            v.push(0x63);
            v.push(0x65);
            v.push(0x65);
            v.push(0x64);
            v.push(0x73);
            v.push(0x2d);
            v.push(0x6d);
            v.push(0x61);
            v.push(0x78);
        },
        PolicyDecision::RejectUnlisted => {
            v.push(0x75);
            v.push(0x6e);
            v.push(0x6c);
            v.push(0x69);
            v.push(0x73);
            v.push(0x74);
            v.push(0x65);
            v.push(0x64);
        },
    }
    proof {
        assert(v@ =~= reject_note(*dec));
    }
    v
}

/// Error note after a negative facilitator verdict.
pub open spec fn verdict_note() -> Seq<u8> {
    seq![
        0x76u8, 0x65u8, 0x72u8, 0x69u8, 0x66u8, 0x69u8, 0x63u8, 0x61u8, 0x74u8, 0x69u8, 0x6fu8,
        0x6eu8, 0x2du8, 0x66u8, 0x61u8, 0x69u8, 0x6cu8, 0x65u8, 0x64u8,
    ]
}

fn verdict_note_vec() -> (v: Vec<u8>)
    ensures
        v@ == verdict_note(),
{
    let mut v: Vec<u8> = Vec::new();
    v.push(0x76);
    v.push(0x65);
    v.push(0x72);
    v.push(0x69);
    v.push(0x66);
    v.push(0x69);
    v.push(0x63);
    v.push(0x61);
    v.push(0x74);
    v.push(0x69);
    v.push(0x6f);
    v.push(0x6e);
    v.push(0x2d);
    v.push(0x66);
    v.push(0x61);
    v.push(0x69);
    v.push(0x6c);
    v.push(0x65);
    v.push(0x64);
    proof {
        assert(v@ =~= verdict_note());
    }
    v
}

/// Configuration of one protected route: what it charges, its document
/// metadata, and the protocol settings.
pub struct RouteConfig {
    pub tags: PriceTagSet,
    pub resource: Vec<u8>,
    pub description: Vec<u8>,
    pub mime_type: Vec<u8>,
    pub accepted_version: u64,
    pub clock_skew: u64,
    pub max_verify_attempts: u32,
}

impl RouteConfig {
    pub open spec fn wf(self) -> bool {
        &&& self.tags.wf()
        &&& json_safe(self.resource@)
        &&& json_safe(self.description@)
        &&& json_safe(self.mime_type@)
        &&& self.max_verify_attempts >= 1
    }
}

/// One offered entry corresponds to one listed tag under this route's
/// metadata.
pub open spec fn offer_matches(o: OfferedTag, t: PriceTag, c: RouteConfig) -> bool {
    &&& o.scheme@ == scheme_exact()
    &&& o.network == t.asset.network
    &&& o.asset@ == t.asset.address@
    &&& o.pay_to@ == t.payee@
    &&& o.amount == t.amount
    &&& o.resource@ == c.resource@
    &&& o.description@ == c.description@
    &&& o.mime_type@ == c.mime_type@
}

/// A well-formed challenge document for this route: the listed tags in
/// preference order, under the route's metadata, with the given error
/// note.
pub open spec fn challenge_matches(d: RequirementDoc, c: RouteConfig, err: Seq<u8>) -> bool {
    &&& d.wf()
    &&& d.version == X402_VERSION
    &&& d.error@ == err
    &&& d.accepts@.len() == c.tags.tags@.len()
    &&& forall|k: int|
        0 <= k < d.accepts@.len() ==> offer_matches(#[trigger] d.accepts@[k], c.tags.tags@[k], c)
}

/// Whether `b` is the rendering of a challenge for this route.
pub open spec fn is_challenge_body(b: Seq<u8>, c: RouteConfig, err: Seq<u8>) -> bool {
    exists|d: RequirementDoc| challenge_matches(d, c, err) && b == render_doc(d)
}

/// The offered entry for one listed tag under this route's metadata;
/// also what the facilitator is shown as the expected requirement.
pub fn offer_for(c: &RouteConfig, t: &PriceTag) -> (o: OfferedTag)
    requires
        c.wf(),
        t.wf(),
    ensures
        offer_matches(o, *t, *c),
        o.wf(),
{
    let o = OfferedTag {
        scheme: scheme_exact_vec(),
        network: t.asset.network,
        asset: clone_bytes(&t.asset.address),
        pay_to: clone_bytes(&t.payee),
        amount: t.amount,
        resource: clone_bytes(&c.resource),
        description: clone_bytes(&c.description),
        mime_type: clone_bytes(&c.mime_type),
    };
    proof {
        lemma_addr_json_safe(t.asset.network, t.asset.address@);
        lemma_addr_json_safe(t.asset.network, t.payee@);
        assert(json_safe(scheme_exact()));
    }
    o
}

/// Builds the challenge document for a route.
pub fn challenge_doc(c: &RouteConfig, error: Vec<u8>) -> (d: RequirementDoc)
    requires
        c.wf(),
        json_safe(error@),
    ensures
        challenge_matches(d, *c, error@),
{
    let n = c.tags.tags.len();
    let mut accepts: Vec<OfferedTag> = Vec::new();
    let mut k: usize = 0;
    while k < n
        invariant
            k <= n,
            n == c.tags.tags@.len(),
            c.wf(),
            accepts@.len() == k,
            forall|m: int|
                0 <= m < k ==> offer_matches(#[trigger] accepts@[m], c.tags.tags@[m], *c),
            tags_all_wf(accepts@),
        decreases n - k,
    {
        proof {
            assert(c.tags.tags@[k as int].wf());
        }
        let o = offer_for(c, &c.tags.tags[k]);
        accepts.push(o);
        k = k + 1;
    }
    let d = RequirementDoc { version: X402_VERSION, error, accepts };
    d
}

/// Renders the 402 body for a route.
pub fn challenge_body(c: &RouteConfig, error: Vec<u8>) -> (b: Vec<u8>)
    requires
        c.wf(),
        json_safe(error@),
    ensures
        is_challenge_body(b@, *c, error@),
{
    let d = challenge_doc(c, error);
    render_requirements(&d)
}

/// Index of the first listed tag asking for this instrument: the proof's
/// network paid to the proof's payee.
pub open spec fn instr_index(tags: Seq<PriceTag>, n: Network, to: Seq<u8>) -> int
    decreases tags.len(),
{
    if tags.len() == 0 {
        0
    } else if tags[0].asset.network == n && tags[0].payee@ == to {
        0
    } else {
        1 + instr_index(tags.drop_first(), n, to)
    }
}

proof fn lemma_instr_index(tags: Seq<PriceTag>, n: Network, to: Seq<u8>)
    ensures
        0 <= instr_index(tags, n, to) <= tags.len(),
        instr_index(tags, n, to) < tags.len() ==> tags[instr_index(tags, n, to)].asset.network
            == n && tags[instr_index(tags, n, to)].payee@ == to,
        forall|m: int|
            0 <= m < instr_index(tags, n, to) ==> !((#[trigger] tags[m]).asset.network == n
                && tags[m].payee@ == to),
    decreases tags.len(),
{
    if tags.len() > 0 && !(tags[0].asset.network == n && tags[0].payee@ == to) {
        lemma_instr_index(tags.drop_first(), n, to);
        assert(forall|m: int|
            0 <= m < tags.drop_first().len() ==> tags.drop_first()[m] == #[trigger] tags[m + 1]);
        let ii = instr_index(tags, n, to);
        assert forall|m: int|
            0 <= m < ii implies !((#[trigger] tags[m]).asset.network == n && tags[m].payee@
            == to) by {
            if m > 0 {
                assert(tags.drop_first()[m - 1] == tags[m]);
            }
        }
    }
}

/// The candidate tag a proof proposes: the matched instrument at the
/// proof's amount.
pub open spec fn gate_candidate(tags: Seq<PriceTag>, p: PaymentProof) -> Option<PriceTag> {
    let k = instr_index(tags, p.network, p.to@);
    if k >= tags.len() {
        None
    } else {
        Some(PriceTag { asset: tags[k].asset, amount: p.value, payee: tags[k].payee })
    }
}

/// The policy's verdict on a decoded proof.
pub open spec fn proof_decision(c: RouteConfig, p: PaymentProof) -> PolicyDecision {
    match gate_candidate(c.tags.tags@, p) {
        None => PolicyDecision::RejectUnlisted,
        Some(cand) => decision_spec(c.tags.tags@, c.tags.maxes@, cand),
    }
}

/// States of the per-request protocol machine.
#[derive(Clone, Copy, PartialEq, Eq, Structural, Debug)]
pub enum GateState {
    Unpaid,
    Challenged,
    Verifying,
    Verified,
    Forwarded,
    Rejected,
}

/// What the host must do next with the current request.
pub enum GateStep {
    /// Send this response and stop: the handler is not invoked.
    Respond { status: u16, body: Vec<u8> },
    /// Ask the facilitator to verify this proof against this listed tag.
    CallVerify { proof: PaymentProof, expected: PriceTag },
}

/// What the facilitator call came back with.
#[derive(Clone, Copy, PartialEq, Eq, Structural, Debug)]
pub enum VerifyOutcome {
    /// A verdict was reached: valid or not.
    Verdict { valid: bool },
    /// The facilitator could not be reached: a transport failure, not a
    /// verdict.
    Unreachable,
}

/// What the host must do after a facilitator verify call.
pub enum VerifyStep {
    /// Retry the same verify call: the failure was transport, and budget
    /// remains.
    RetryVerify,
    /// Send this response and stop.
    Respond { status: u16, body: Vec<u8> },
    /// The proof is verified: invoke the wrapped handler exactly once.
    InvokeHandler,
}

/// The settle call to schedule after the response has left.
pub struct SettleDirective {
    pub proof: PaymentProof,
}

/// What handling a request that carried a payment header guarantees.
pub open spec fn header_step_post(
    r: GateStep,
    pre: PaymentGate,
    post: PaymentGate,
    h: Seq<u8>,
    now: u64,
) -> bool {
    match r {
        GateStep::Respond { status, body } => post.state is Rejected && (status == 400 || status
            == 402) && (status == 400 ==> forall|p: PaymentProof|
            p.wf() && h == header_of(p) ==> p.version != pre.config.accepted_version
                || proof_expired(p, now, pre.config.clock_skew)) && (status == 402
            ==> exists|p: PaymentProof|
            p.wf() && h == header_of(p) && p.version == pre.config.accepted_version
                && !proof_expired(p, now, pre.config.clock_skew) && proof_decision(pre.config, p)
                != PolicyDecision::Accept && is_challenge_body(
                body@,
                pre.config,
                reject_note(proof_decision(pre.config, p)),
            )),
        GateStep::CallVerify { proof, expected } => post.state is Verifying && proof.wf() && h
            == header_of(proof) && proof.version == pre.config.accepted_version
            && !proof_expired(proof, now, pre.config.clock_skew) && proof_decision(
            pre.config,
            proof,
        ) == PolicyDecision::Accept && expected.same_spec(
            pre.config.tags.tags@[instr_index(pre.config.tags.tags@, proof.network, proof.to@)],
        ) && (match post.pending {
            Some(q) => q.wf() && header_of(q) == header_of(proof),
            None => false,
        }),
    }
}

/// The per-request gate.  Each request starts a fresh gate in `Unpaid`;
/// nothing persists across requests.
pub struct PaymentGate {
    pub config: RouteConfig,
    pub state: GateState,
    pub verify_attempts: u32,
    pub settle_issued: bool,
    pub pending: Option<PaymentProof>,
}

impl PaymentGate {
    pub open spec fn wf(self) -> bool {
        &&& self.config.wf()
        &&& (self.settle_issued ==> self.state is Forwarded)
        &&& ((self.state is Verifying || self.state is Verified) ==> (match self.pending {
            Some(p) => p.wf(),
            None => false,
        }))
        &&& self.verify_attempts <= self.config.max_verify_attempts
    }

    pub fn new(config: RouteConfig) -> (g: PaymentGate)
        requires
            config.wf(),
        ensures
            g.wf(),
            g.state is Unpaid,
            !g.settle_issued,
            g.config == config,
            g.verify_attempts == 0,
    {
        PaymentGate { config, state: GateState::Unpaid, verify_attempts: 0, settle_issued: false,
            pending: None }
    }

    /// Handles an incoming request.  With no payment header the middleware
    /// challenges with 402 and the wrapped handler is never invoked; with
    /// one it decodes, applies the route's policy without any remote call,
    /// and only a proof the policy accepts reaches the facilitator.
    pub fn on_request(&mut self, header: Option<&Vec<u8>>, now: u64) -> (r: GateStep)
        requires
            old(self).wf(),
            old(self).state is Unpaid,
        ensures
            final(self).wf(),
            final(self).config == old(self).config,
            !final(self).settle_issued,
            match header {
                None => final(self).state is Challenged && (match r {
                    GateStep::Respond { status, body } => status == 402 && is_challenge_body(
                        body@,
                        old(self).config,
                        Seq::empty(),
                    ),
                    GateStep::CallVerify { .. } => false,
                }),
                Some(h) => header_step_post(r, *old(self), *final(self), h@, now),
            },
    {
        match header {
            None => {
                self.state = GateState::Challenged;
                let body = challenge_body(&self.config, Vec::new());
                GateStep::Respond { status: 402, body }
            },
            Some(h) => self.handle_header(h, now),
        }
    }

    /// The header path of `on_request`.
    #[verifier::rlimit(100)]
    fn handle_header(&mut self, h: &Vec<u8>, now: u64) -> (r: GateStep)
        requires
            old(self).wf(),
            old(self).state is Unpaid,
        ensures
            final(self).wf(),
            final(self).config == old(self).config,
            !final(self).settle_issued,
            header_step_post(r, *old(self), *final(self), h@, now),
    {
        let proof = match decode_payment_header(h, self.config.accepted_version, now,
            self.config.clock_skew) {
            Ok(p) => p,
            Err(e) => {
                self.state = GateState::Rejected;
                proof {
                    let av = self.config.accepted_version;
                    let skew = self.config.clock_skew;
                    assert forall|p: PaymentProof|
                        p.wf() && h@ == header_of(p) implies p.version != av || proof_expired(
                        p,
                        now,
                        skew,
                    ) by {
                        match e {
                            CodecError::MalformedProof => {
                                assert(h@ != header_of(p));
                            },
                            CodecError::UnsupportedVersion => {
                                let p0 = choose|p0: PaymentProof|
                                    p0.wf() && h@ == header_of(p0) && p0.version != av;
                                crate::header::lemma_header_determines_proof(p0, p);
                            },
                            CodecError::ExpiredProof => {
                                let p0 = choose|p0: PaymentProof|
                                    p0.wf() && h@ == header_of(p0) && p0.version == av
                                        && proof_expired(p0, now, skew);
                                crate::header::lemma_header_determines_proof(p0, p);
                            },
                        }
                    }
                }
                return GateStep::Respond { status: 400, body: Vec::new() };
            },
        };
        // find the listed instrument the proof pays
        let n = self.config.tags.tags.len();
        let mut k: usize = 0;
        let mut found: bool = false;
        while k < n && !found
            invariant
                k <= n,
                n == self.config.tags.tags@.len(),
                !found ==> forall|m: int|
                    0 <= m < k ==> !((#[trigger] self.config.tags.tags@[m]).asset.network
                        == proof.network && self.config.tags.tags@[m].payee@ == proof.to@),
                found ==> k < n && self.config.tags.tags@[k as int].asset.network
                    == proof.network && self.config.tags.tags@[k as int].payee@ == proof.to@
                    && forall|m: int|
                    0 <= m < k ==> !((#[trigger] self.config.tags.tags@[m]).asset.network
                        == proof.network && self.config.tags.tags@[m].payee@ == proof.to@),
            decreases n - k + (if found { 0int } else { 1int }),
        {
            let t = &self.config.tags.tags[k];
            let n_eq = match (t.asset.network, proof.network) {
                (Network::Solana, Network::Solana) => true,
                (Network::BaseSepolia, Network::BaseSepolia) => true,
                _ => false,
            };
            if n_eq && bytes_eq(&t.payee, &proof.to) {
                found = true;
            } else {
                k = k + 1;
            }
        }
        proof {
            lemma_instr_index(self.config.tags.tags@, proof.network, proof.to@);
        }
        if !found {
            proof {
                assert(instr_index(self.config.tags.tags@, proof.network, proof.to@) == n);
            }
            self.state = GateState::Rejected;
            let note = reject_note_vec(&PolicyDecision::RejectUnlisted);
            proof {
                assert(json_safe(reject_note(PolicyDecision::RejectUnlisted)));
            }
            let body = challenge_body(&self.config, note);
            return GateStep::Respond { status: 402, body };
        }
        proof {
            // the loop stopped at the first matching instrument
            assert(instr_index(self.config.tags.tags@, proof.network, proof.to@) == k as int);
        }
        let listed = &self.config.tags.tags[k];
        let candidate = PriceTag {
            asset: crate::tag::clone_asset(&listed.asset),
            amount: Amount { units: proof.value.units },
            payee: clone_bytes(&listed.payee),
        };
        let decision = self.config.tags.resolve_policy(&candidate);
        proof {
            let spec_cand = gate_candidate(self.config.tags.tags@, proof)->Some_0;
            lemma_decision_spec_view(self.config.tags.tags@, self.config.tags.maxes@, candidate,
                spec_cand);
        }
        match decision {
            PolicyDecision::Accept => {
                let expected = clone_tag(listed);
                let pending = crate::codec::clone_proof(&proof);
                self.pending = Some(pending);
                self.state = GateState::Verifying;
                GateStep::CallVerify { proof, expected }
            },
            _ => {
                self.state = GateState::Rejected;
                let note = reject_note_vec(&decision);
                proof {
                    assert(json_safe(reject_note(decision)));
                }
                let body = challenge_body(&self.config, note);
                GateStep::Respond { status: 402, body }
            },
        }
    }

    /// Consumes the facilitator's answer.  A verdict settles the request:
    /// valid proofs move on to the handler, invalid ones are rejected with
    /// a corrected challenge.  A transport failure is retried within the
    /// route's bounded budget, then surfaced as a 502 — never conflated
    /// with a negative verdict.
    pub fn on_verify_outcome(&mut self, outcome: &VerifyOutcome) -> (r: VerifyStep)
        requires
            old(self).wf(),
            old(self).state is Verifying,
        ensures
            final(self).wf(),
            final(self).config == old(self).config,
            !final(self).settle_issued,
            final(self).pending == old(self).pending,
            match outcome {
                VerifyOutcome::Verdict { valid } => {
                    if *valid {
                        final(self).state is Verified && r is InvokeHandler
                    } else {
                        final(self).state is Rejected && (match r {
                            VerifyStep::Respond { status, body } => status == 402
                                && is_challenge_body(body@, old(self).config, verdict_note()),
                            _ => false,
                        })
                    }
                },
                VerifyOutcome::Unreachable => {
                    if old(self).verify_attempts + 1 < old(self).config.max_verify_attempts {
                        final(self).state is Verifying && r is RetryVerify
                            && final(self).verify_attempts == old(self).verify_attempts + 1
                    } else {
                        final(self).state is Rejected && (match r {
                            VerifyStep::Respond { status, body } => status == 502,
                            _ => false,
                        })
                    }
                },
            },
    {
        match outcome {
            VerifyOutcome::Verdict { valid } => {
                if *valid {
                    self.state = GateState::Verified;
                    VerifyStep::InvokeHandler
                } else {
                    self.state = GateState::Rejected;
                    let body = challenge_body(&self.config, verdict_note_vec());
                    VerifyStep::Respond { status: 402, body }
                }
            },
            VerifyOutcome::Unreachable => {
                if self.verify_attempts < self.config.max_verify_attempts - 1 {
                    self.verify_attempts = self.verify_attempts + 1;
                    VerifyStep::RetryVerify
                } else {
                    self.state = GateState::Rejected;
                    VerifyStep::Respond { status: 502, body: Vec::new() }
                }
            },
        }
    }

    /// Called once the wrapped handler has produced its response:
    /// settlement is scheduled, exactly once for the request.
    pub fn on_handler_done(&mut self) -> (r: SettleDirective)
        requires
            old(self).wf(),
            old(self).state is Verified,
        ensures
            final(self).wf(),
            final(self).config == old(self).config,
            final(self).state is Forwarded,
            final(self).settle_issued,
            !old(self).settle_issued,
            r.proof.wf(),
            match old(self).pending {
                Some(p) => header_of(r.proof) == header_of(p),
                None => false,
            },
    {
        let p = match &self.pending {
            Some(p) => crate::codec::clone_proof(p),
            None => {
                proof {
                    assert(false);
                }
                vstd::pervasive::unreached()
            },
        };
        self.state = GateState::Forwarded;
        self.settle_issued = true;
        SettleDirective { proof: p }
    }
}

/// Settlement is scheduled at most once per request: it is marked
/// issued only on the single transition into `Forwarded`, a terminal
/// state, and a gate that has issued it is in that state for good.
pub proof fn lemma_settle_at_most_once(g: PaymentGate)
    requires
        g.wf(),
        g.state is Verified,
    ensures
        !g.settle_issued,
{
}

/// Preference order is preserved on the wire: in a challenge for a set
/// built with `prefer(b)` then `or_tag(a)`, the entry for `b` stands
/// first in the document and `a`'s follows it.
pub proof fn lemma_preferred_listed_first(
    c: RouteConfig,
    d: RequirementDoc,
    err: Seq<u8>,
    b: PriceTag,
    a: PriceTag,
)
    requires
        c.wf(),
        c.tags.tags@ == seq![b, a],
        challenge_matches(d, c, err),
    ensures
        offer_matches(d.accepts@[0], b, c),
        offer_matches(d.accepts@[1], a, c),
        crate::requirements::render_tags(d.accepts@) == crate::requirements::render_tag(
            d.accepts@[0],
        ) + seq![crate::requirements::COMMA] + crate::requirements::render_tag(d.accepts@[1]),
{
    assert(d.accepts@.len() == 2);
    assert(c.tags.tags@[0] == b && c.tags.tags@[1] == a);
    let ts = d.accepts@;
    assert(ts.drop_first().len() == 1);
    assert(ts.drop_first()[0] == ts[1]);
    assert(crate::requirements::render_tags(ts.drop_first())
        == crate::requirements::render_tag(ts[1]));
}

} // verus!
