//! The client payment agent: consumes a 402 challenge, selects a price
//! tag under the payer's own policy, builds the payment proof around a
//! signature the key holder supplies, and retries exactly once.  The
//! surrounding host does the transport and the signing; every decision is
//! taken here.

use vstd::prelude::*;
use crate::amount::Amount;
use crate::asset::Network;
use crate::codec::PaymentProof;
use crate::header::{encode_payment_header, header_of, X402_VERSION};
use crate::requirements::{parse_requirements, render_doc, OfferedTag, RequirementDoc};
use crate::tag::{clone_bytes, MaxEntry};
use crate::text::{is_json_safe, json_safe};

verus! {

#[derive(Clone, Copy, PartialEq, Eq, Structural, Debug)]
pub enum AgentError {
    /// The 402 body was not a requirement document.
    MalformedChallenge,
    /// No offered tag satisfies the payer's constraints.
    NoAcceptablePriceTag,
    /// The retried request was refused again; the agent does not loop.
    PaymentRejectedAfterRetry,
    /// A proof field the host supplied cannot stand in a wire document.
    UnencodableField,
}

/// The payer's constraints: an optional preferred network, and per-asset
/// ceilings symmetric to the server's.
pub struct ClientPolicy {
    pub preferred_network: Option<Network>,
    pub maxes: Vec<MaxEntry>,
}

/// The payer's ceiling for an asset: the first applicable entry.
pub open spec fn client_max(maxes: Seq<MaxEntry>, n: Network, addr: Seq<u8>) -> Option<Amount>
    decreases maxes.len(),
{
    if maxes.len() == 0 {
        None
    } else if maxes[0].network == n && maxes[0].address@ == addr {
        Some(maxes[0].max)
    } else {
        client_max(maxes.drop_first(), n, addr)
    }
}

/// Whether an offered tag satisfies the payer's constraints.
pub open spec fn acceptable(o: OfferedTag, pol: ClientPolicy) -> bool {
    &&& (match pol.preferred_network {
        Some(n) => o.network == n,
        None => true,
    })
    &&& (match client_max(pol.maxes@, o.network, o.asset@) {
        Some(m) => o.amount.units <= m.units,
        None => true,
    })
}

/// Whether the payer's ceiling, if any, allows the offered amount.
fn ceiling_allows(maxes: &Vec<MaxEntry>, o: &OfferedTag) -> (r: bool)
    ensures
        r == (match client_max(maxes@, o.network, o.asset@) {
            Some(m) => o.amount.units <= m.units,
            None => true,
        }),
{
    let k = maxes.len();
    let mut j: usize = 0;
    proof {
        assert(maxes@.skip(0) =~= maxes@);
    }
    while j < k
        invariant
            j <= k,
            k == maxes@.len(),
            client_max(maxes@, o.network, o.asset@) == client_max(
                maxes@.skip(j as int),
                o.network,
                o.asset@,
            ),
        decreases k - j,
    {
        proof {
            assert(maxes@.skip(j as int)[0] == maxes@[j as int]);
            assert(maxes@.skip(j as int).drop_first() =~= maxes@.skip(j + 1));
        }
        let e = &maxes[j];
        let n_eq = match (e.network, o.network) {
            (Network::Solana, Network::Solana) => true,
            (Network::BaseSepolia, Network::BaseSepolia) => true,
            _ => false,
        };
        if n_eq && crate::asset::bytes_eq(&e.address, &o.asset) {
            proof {
                assert(client_max(maxes@, o.network, o.asset@) == Some(maxes@[j as int].max));
            }
            return o.amount.units <= e.max.units;
        }
        j = j + 1;
    }
    proof {
        assert(maxes@.skip(k as int) =~= Seq::<MaxEntry>::empty());
    }
    true
}

/// Selects the first tag in server preference order that the payer's
/// constraints allow.
pub fn select_tag(doc: &RequirementDoc, pol: &ClientPolicy) -> (r: Result<usize, AgentError>)
    ensures
        match r {
            Ok(i) => 0 <= i < doc.accepts@.len() && acceptable(doc.accepts@[i as int], *pol)
                && forall|m: int| 0 <= m < i ==> !acceptable(#[trigger] doc.accepts@[m], *pol),
            Err(e) => e == AgentError::NoAcceptablePriceTag && forall|m: int|
                0 <= m < doc.accepts@.len() ==> !acceptable(#[trigger] doc.accepts@[m], *pol),
        },
{
    let n = doc.accepts.len();
    let mut i: usize = 0;
    while i < n
        invariant
            i <= n,
            n == doc.accepts@.len(),
            forall|m: int| 0 <= m < i ==> !acceptable(#[trigger] doc.accepts@[m], *pol),
        decreases n - i,
    {
        let o = &doc.accepts[i];
        let net_ok = match &pol.preferred_network {
            Some(p) => {
                match (p, o.network) {
                    (Network::Solana, Network::Solana) => true,
                    (Network::BaseSepolia, Network::BaseSepolia) => true,
                    _ => false,
                }
            },
            None => true,
        };
        if net_ok && ceiling_allows(&pol.maxes, o) {
            return Ok(i);
        }
        i = i + 1;
    }
    Err(AgentError::NoAcceptablePriceTag)
}

/// Copies an offered tag.
pub fn clone_offer(o: &OfferedTag) -> (r: OfferedTag)
    ensures
        r.scheme@ == o.scheme@,
        r.network == o.network,
        r.asset@ == o.asset@,
        r.pay_to@ == o.pay_to@,
        r.amount == o.amount,
        r.resource@ == o.resource@,
        r.description@ == o.description@,
        r.mime_type@ == o.mime_type@,
        o.wf() ==> r.wf(),
{
    OfferedTag {
        scheme: clone_bytes(&o.scheme),
        network: o.network,
        asset: clone_bytes(&o.asset),
        pay_to: clone_bytes(&o.pay_to),
        amount: o.amount,
        resource: clone_bytes(&o.resource),
        description: clone_bytes(&o.description),
        mime_type: clone_bytes(&o.mime_type),
    }
}

/// Builds the payment proof for a selected tag around the signature the
/// key holder produced over exactly this tuple.
pub fn build_proof(
    o: &OfferedTag,
    from: Vec<u8>,
    signature: Vec<u8>,
    nonce: Vec<u8>,
    valid_after: u64,
    valid_before: u64,
) -> (r: Result<PaymentProof, AgentError>)
    requires
        o.wf(),
    ensures
        match r {
            Ok(p) => p.wf() && p.version == X402_VERSION && p.scheme@ == o.scheme@ && p.network
                == o.network && p.to@ == o.pay_to@ && p.value == o.amount && p.from@ == from@
                && p.signature@ == signature@ && p.nonce@ == nonce@ && p.valid_after
                == valid_after && p.valid_before == valid_before,
            Err(e) => e == AgentError::UnencodableField && !(json_safe(from@) && json_safe(
                signature@,
            ) && json_safe(nonce@)),
        },
{
    if !(is_json_safe(&from) && is_json_safe(&signature) && is_json_safe(&nonce)) {
        return Err(AgentError::UnencodableField);
    }
    Ok(PaymentProof {
        version: X402_VERSION,
        scheme: clone_bytes(&o.scheme),
        network: o.network,
        signature,
        from,
        to: clone_bytes(&o.pay_to),
        value: o.amount,
        valid_after,
        valid_before,
        nonce,
    })
}

/// Phases of one paid request attempt.
#[derive(Clone, Copy, PartialEq, Eq, Structural, Debug)]
pub enum AgentPhase {
    /// The original request has been sent; its response is awaited.
    Start,
    /// A proof has been attached and the request resent once.
    AwaitRetry,
    /// A final response was obtained.
    Done,
    /// The attempt failed; the agent will not retry again.
    Failed,
}

/// What the host must do next.
pub enum AgentStep {
    /// The response is final: hand it to the caller.
    Finished { status: u16 },
    /// Sign a transfer for this tag, then call `on_signature`.
    Pay { tag: OfferedTag },
    /// The attempt failed.
    Fail { err: AgentError },
}

/// The client payment agent for one request.
pub struct PaymentAgent {
    pub policy: ClientPolicy,
    pub phase: AgentPhase,
}

impl PaymentAgent {
    pub fn new(policy: ClientPolicy) -> (a: PaymentAgent)
        ensures
            a.phase is Start,
    {
        PaymentAgent { policy, phase: AgentPhase::Start }
    }

    /// Consumes the first response.  Anything but 402 is final; a 402 is
    /// parsed and a tag selected under the payer's constraints, or the
    /// attempt fails without any retry.
    pub fn on_first_response(&mut self, status: u16, body: &Vec<u8>) -> (r: AgentStep)
        requires
            old(self).phase is Start,
        ensures
            final(self).policy == old(self).policy,
            status != 402 ==> final(self).phase is Done && (r matches AgentStep::Finished {
                status: s } && s == status),
            status == 402 ==> match r {
                AgentStep::Finished { .. } => false,
                AgentStep::Pay { tag } => final(self).phase is Start && tag.wf() && exists|
                    d: RequirementDoc,
                |
                    d.wf() && body@ == render_doc(d) && (exists|i: int|
                        0 <= i < d.accepts@.len() && acceptable(#[trigger] d.accepts@[i],
                            old(self).policy) && tag.amount == d.accepts@[i].amount && tag.network
                            == d.accepts@[i].network && tag.pay_to@ == d.accepts@[i].pay_to@),
                AgentStep::Fail { err } => final(self).phase is Failed && (
                err == AgentError::MalformedChallenge ==> forall|d: RequirementDoc|
                    d.wf() ==> body@ != render_doc(d)) && (err
                    == AgentError::NoAcceptablePriceTag ==> exists|d: RequirementDoc|
                    d.wf() && body@ == render_doc(d) && forall|m: int|
                        0 <= m < d.accepts@.len() ==> !acceptable(#[trigger] d.accepts@[m],
                            old(self).policy)) && (err == AgentError::MalformedChallenge || err
                    == AgentError::NoAcceptablePriceTag),
            },
    {
        if status != 402 {
            self.phase = AgentPhase::Done;
            return AgentStep::Finished { status };
        }
        let doc = match parse_requirements(body) {
            Some(d) => d,
            None => {
                self.phase = AgentPhase::Failed;
                return AgentStep::Fail { err: AgentError::MalformedChallenge };
            },
        };
        match select_tag(&doc, &self.policy) {
            Ok(i) => {
                let tag = clone_offer(&doc.accepts[i]);
                AgentStep::Pay { tag }
            },
            Err(_) => {
                self.phase = AgentPhase::Failed;
                AgentStep::Fail { err: AgentError::NoAcceptablePriceTag }
            },
        }
    }

    /// Consumes the signature the key holder produced, and yields the
    /// header for the one retry.
    pub fn on_signature(
        &mut self,
        tag: &OfferedTag,
        from: Vec<u8>,
        signature: Vec<u8>,
        nonce: Vec<u8>,
        valid_after: u64,
        valid_before: u64,
    ) -> (r: Result<Vec<u8>, AgentError>)
        requires
            old(self).phase is Start,
            tag.wf(),
        ensures
            final(self).policy == old(self).policy,
            match r {
                Ok(h) => final(self).phase is AwaitRetry && exists|p: PaymentProof|
                    p.wf() && h@ == header_of(p) && p.version == X402_VERSION && p.network
                        == tag.network && p.to@ == tag.pay_to@ && p.value == tag.amount
                        && p.valid_after == valid_after && p.valid_before == valid_before,
                Err(e) => final(self).phase is Failed && e == AgentError::UnencodableField,
            },
    {
        let p = match build_proof(tag, from, signature, nonce, valid_after, valid_before) {
            Ok(p) => p,
            Err(e) => {
                self.phase = AgentPhase::Failed;
                return Err(e);
            },
        };
        let h = encode_payment_header(&p);
        self.phase = AgentPhase::AwaitRetry;
        Ok(h)
    }

    /// Consumes the response to the one retry.  A second 402 is a hard
    /// failure: the agent reports it and never loops.
    pub fn on_retry_response(&mut self, status: u16) -> (r: Result<u16, AgentError>)
        requires
            old(self).phase is AwaitRetry,
        ensures
            final(self).policy == old(self).policy,
            status == 402 ==> r == Err::<u16, AgentError>(
                AgentError::PaymentRejectedAfterRetry,
            ) && final(self).phase is Failed,
            status != 402 ==> r == Ok::<u16, AgentError>(status) && final(self).phase is Done,
    {
        if status == 402 {
            self.phase = AgentPhase::Failed;
            Err(AgentError::PaymentRejectedAfterRetry)
        } else {
            self.phase = AgentPhase::Done;
            Ok(status)
        }
    }
}

} // verus!
