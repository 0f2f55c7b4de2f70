//! Price tags and ordered price-tag sets: what a protected route charges,
//! with preference order, per-asset ceilings, and the acceptance policy
//! applied to client-proposed tags.

use vstd::prelude::*;
use crate::amount::Amount;
use crate::asset::{addr_valid, check_address, bytes_eq, AssetDeployment, Network};


verus! {

/// One acceptable payment requirement: pay `amount` of `asset` to `payee`.
#[derive(Clone, Debug)]
pub struct PriceTag {
    pub asset: AssetDeployment,
    pub amount: Amount,
    pub payee: Vec<u8>,
}

#[derive(Clone, Copy, PartialEq, Eq, Structural, Debug)]
pub enum TagError {
    InvalidAsset,
    InvalidPayee,
}

impl PriceTag {
    pub open spec fn wf(self) -> bool {
        &&& self.asset.wf()
        &&& self.amount.wf()
        &&& addr_valid(self.asset.network, self.payee@)
    }

    /// Structural equality over views.
    pub open spec fn same_spec(self, other: PriceTag) -> bool {
        &&& self.asset.same_spec(other.asset)
        &&& self.amount == other.amount
        &&& self.payee@ == other.payee@
    }

    /// Two tags ask for the same instrument: same asset paid to the same
    /// payee, in whatever amount.
    pub open spec fn same_key_spec(self, other: PriceTag) -> bool {
        &&& self.asset.same_spec(other.asset)
        &&& self.payee@ == other.payee@
    }

    /// Validates the parts and builds a tag.
    pub fn new(asset: AssetDeployment, amount: Amount, payee: Vec<u8>) -> (r: Result<
        PriceTag,
        TagError,
    >)
        requires
            amount.wf(),
        ensures
            match r {
                Ok(t) => asset.wf() && addr_valid(asset.network, payee@) && t.wf()
                    && t.asset.same_spec(asset) && t.amount == amount && t.payee@ == payee@,
                Err(TagError::InvalidAsset) => !asset.wf(),
                Err(TagError::InvalidPayee) => asset.wf() && !addr_valid(asset.network, payee@),
            },
    {
        let asset_ok = asset.decimals <= 18 && check_address(&asset.network, &asset.address)
            && crate::text::is_json_safe(&asset.symbol) && asset.symbol.len() >= 1;
        if !asset_ok {
            return Err(TagError::InvalidAsset);
        }
        if !check_address(&asset.network, &payee) {
            return Err(TagError::InvalidPayee);
        }
        Ok(PriceTag { asset, amount, payee })
    }

    pub fn same_key(&self, other: &PriceTag) -> (r: bool)
        ensures
            r == self.same_key_spec(*other),
    {
        self.asset.same(&other.asset) && bytes_eq(&self.payee, &other.payee)
    }
}

/// A recorded ceiling: no client-selected tag for this asset may exceed
/// `max`.
#[derive(Clone, Debug)]
pub struct MaxEntry {
    pub network: Network,
    pub address: Vec<u8>,
    pub max: Amount,
}

impl MaxEntry {
    pub open spec fn applies_spec(self, t: PriceTag) -> bool {
        &&& self.network == t.asset.network
        &&& self.address@ == t.asset.address@
    }

    pub fn applies(&self, t: &PriceTag) -> (r: bool)
        ensures
            r == self.applies_spec(*t),
    {
        let n_eq = match (self.network, t.asset.network) {
            (Network::Solana, Network::Solana) => true,
            (Network::BaseSepolia, Network::BaseSepolia) => true,
            _ => false,
        };
        n_eq && bytes_eq(&self.address, &t.asset.address)
    }
}

/// The ceiling recorded for a tag's asset: the first applicable entry.
pub open spec fn max_for(maxes: Seq<MaxEntry>, t: PriceTag) -> Option<Amount>
    decreases maxes.len(),
{
    if maxes.len() == 0 {
        None
    } else if maxes[0].applies_spec(t) {
        Some(maxes[0].max)
    } else {
        max_for(maxes.drop_first(), t)
    }
}

/// No two listed tags ask for the same instrument in different amounts.
pub open spec fn unambiguous(tags: Seq<PriceTag>) -> bool {
    forall|i: int, j: int|
        0 <= i < tags.len() && 0 <= j < tags.len() && #[trigger] tags[i].same_key_spec(
            #[trigger] tags[j],
        ) ==> tags[i].amount == tags[j].amount
}

pub open spec fn all_wf(tags: Seq<PriceTag>) -> bool {
    forall|i: int| 0 <= i < tags.len() ==> (#[trigger] tags[i]).wf()
}

pub open spec fn maxes_wf(maxes: Seq<MaxEntry>) -> bool {
    forall|i: int| 0 <= i < maxes.len() ==> (#[trigger] maxes[i]).max.wf()
}

#[derive(Clone, Copy, PartialEq, Eq, Structural, Debug)]
pub enum TagSetError {
    /// No tag was supplied before `build`.
    EmptyPriceTagSet,
    /// Two tags ask for the same instrument in different amounts.
    AmbiguousPriceTagSet,
}

/// Accumulates price tags and ceilings before validation.
pub struct PriceTagSetBuilder {
    pub tags: Vec<PriceTag>,
    pub maxes: Vec<MaxEntry>,
}

/// A validated, ordered set of price tags for one protected route.
pub struct PriceTagSet {
    pub tags: Vec<PriceTag>,
    pub maxes: Vec<MaxEntry>,
}

impl PriceTagSetBuilder {
    pub fn new() -> (r: PriceTagSetBuilder)
        ensures
            r.tags@ =~= Seq::<PriceTag>::empty(),
            r.maxes@ =~= Seq::<MaxEntry>::empty(),
    {
        PriceTagSetBuilder { tags: Vec::new(), maxes: Vec::new() }
    }

    /// Forces a tag to the front of the preference order.
    pub fn prefer(&mut self, tag: PriceTag)
        requires
            tag.wf(),
        ensures
            final(self).tags@ =~= seq![tag] + old(self).tags@,
            final(self).maxes@ == old(self).maxes@,
    {
        self.tags.insert(0, tag);
    }

    /// Appends a fallback alternative.
    pub fn or_tag(&mut self, tag: PriceTag)
        requires
            tag.wf(),
        ensures
            final(self).tags@ =~= old(self).tags@.push(tag),
            final(self).maxes@ == old(self).maxes@,
    {
        self.tags.push(tag);
    }

    /// Records a per-asset ceiling on client-selected amounts.
    pub fn with_max(&mut self, entry: MaxEntry)
        requires
            entry.max.wf(),
        ensures
            final(self).maxes@ =~= old(self).maxes@.push(entry),
            final(self).tags@ == old(self).tags@,
    {
        self.maxes.push(entry);
    }

    /// Validates the accumulated tags: the set must be nonempty and
    /// unambiguous.
    pub fn build(self) -> (r: Result<PriceTagSet, TagSetError>)
        requires
            all_wf(self.tags@),
            maxes_wf(self.maxes@),
        ensures
            match r {
                Ok(s) => s.tags@ == self.tags@ && s.maxes@ == self.maxes@ && s.wf(),
                Err(TagSetError::EmptyPriceTagSet) => self.tags@.len() == 0,
                Err(TagSetError::AmbiguousPriceTagSet) => self.tags@.len() > 0 && !unambiguous(
                    self.tags@,
                ),
            },
    {
        if self.tags.len() == 0 {
            return Err(TagSetError::EmptyPriceTagSet);
        }
        let n = self.tags.len();
        let mut i: usize = 0;
        while i < n
            invariant
                i <= n,
                n == self.tags@.len(),
                all_wf(self.tags@),
                forall|x: int, y: int|
                    0 <= x < i && 0 <= y < n && #[trigger] self.tags@[x].same_key_spec(
                        #[trigger] self.tags@[y],
                    ) ==> self.tags@[x].amount == self.tags@[y].amount,
            decreases n - i,
        {
            let mut j: usize = 0;
            while j < n
                invariant
                    i < n,
                    j <= n,
                    n == self.tags@.len(),
                    all_wf(self.tags@),
                    forall|y: int|
                        0 <= y < j && #[trigger] self.tags@[i as int].same_key_spec(
                            self.tags@[y],
                        ) ==> self.tags@[i as int].amount == self.tags@[y].amount,
                decreases n - j,
            {
                if self.tags[i].same_key(&self.tags[j]) {
                    if self.tags[i].amount.units != self.tags[j].amount.units {
                        proof {
                            assert(self.tags@[i as int].same_key_spec(self.tags@[j as int]));
                            assert(self.tags@[i as int].amount != self.tags@[j as int].amount);
                        }
                        return Err(TagSetError::AmbiguousPriceTagSet);
                    }
                }
                j = j + 1;
            }
            proof {
                // symmetric closure of the row just checked
                assert(forall|y: int|
                    0 <= y < n && #[trigger] self.tags@[i as int].same_key_spec(self.tags@[y])
                        ==> self.tags@[i as int].amount == self.tags@[y].amount);
            }
            i = i + 1;
        }
        Ok(PriceTagSet { tags: self.tags, maxes: self.maxes })
    }
}

/// The policy's verdict on a client-proposed tag.
#[derive(Clone, Copy, PartialEq, Eq, Structural, Debug)]
pub enum PolicyDecision {
    Accept,
    /// The proposed amount is below the listed tag's amount.
    RejectInsufficient,
    /// The proposed amount is above the recorded ceiling for the asset.
    RejectExceedsMax,
    /// No listed tag asks for this instrument.
    RejectUnlisted,
}

/// What the policy decides: a candidate is accepted exactly when it is
/// listed, meets or exceeds the listed amount, and does not exceed the
/// recorded ceiling for its asset, if one was set.
pub open spec fn decision_spec(tags: Seq<PriceTag>, maxes: Seq<MaxEntry>, c: PriceTag)
    -> PolicyDecision {
    if !(exists|i: int| 0 <= i < tags.len() && (#[trigger] tags[i]).same_key_spec(c)) {
        PolicyDecision::RejectUnlisted
    } else if exists|i: int|
        0 <= i < tags.len() && (#[trigger] tags[i]).same_key_spec(c) && c.amount.units
            < tags[i].amount.units {
        PolicyDecision::RejectInsufficient
    } else if match max_for(maxes, c) {
        Some(m) => c.amount.units > m.units,
        None => false,
    } {
        PolicyDecision::RejectExceedsMax
    } else {
        PolicyDecision::Accept
    }
}

impl PriceTagSet {
    pub open spec fn wf(self) -> bool {
        &&& self.tags@.len() >= 1
        &&& all_wf(self.tags@)
        &&& unambiguous(self.tags@)
        &&& maxes_wf(self.maxes@)
    }

    /// Applies the route's policy to a client-proposed tag.
    pub fn resolve_policy(&self, candidate: &PriceTag) -> (r: PolicyDecision)
        requires
            self.wf(),
        ensures
            r == decision_spec(self.tags@, self.maxes@, *candidate),
    {
        let n = self.tags.len();
        let mut i: usize = 0;
        let mut found: bool = false;
        let mut listed_units: u128 = 0;
        while i < n && !found
            invariant
                i <= n,
                n == self.tags@.len(),
                unambiguous(self.tags@),
                !found ==> forall|m: int|
                    0 <= m < i ==> !(#[trigger] self.tags@[m]).same_key_spec(*candidate),
                found ==> 0 <= i < n && self.tags@[i as int].same_key_spec(*candidate)
                    && self.tags@[i as int].amount.units == listed_units,
            decreases n - i + (if found { 0int } else { 1int }),
        {
            if self.tags[i].same_key(candidate) {
                found = true;
                listed_units = self.tags[i].amount.units;
            } else {
                i = i + 1;
            }
        }
        if !found {
            proof {
                assert(forall|m: int|
                    0 <= m < self.tags@.len() ==> !(#[trigger] self.tags@[m]).same_key_spec(
                        *candidate));
            }
            return PolicyDecision::RejectUnlisted;
        }
        proof {
            assert(exists|m: int|
                0 <= m < self.tags@.len() && (#[trigger] self.tags@[m]).same_key_spec(
                    *candidate));
            // every listed match asks for the same amount as the one found
            assert forall|m: int|
                0 <= m < self.tags@.len() && (#[trigger] self.tags@[m]).same_key_spec(
                    *candidate) implies self.tags@[m].amount.units == listed_units by {
                assert(self.tags@[m].same_key_spec(self.tags@[i as int]));
            }
        }
        if candidate.amount.units < listed_units {
            return PolicyDecision::RejectInsufficient;
        }
        // ceiling lookup: first applicable entry
        let k = self.maxes.len();
        let mut j: usize = 0;
        proof {
            assert(self.maxes@.skip(0) =~= self.maxes@);
        }
        let ghost dec = decision_spec(self.tags@, self.maxes@, *candidate);
        while j < k
            invariant
                j <= k,
                k == self.maxes@.len(),
                dec == decision_spec(self.tags@, self.maxes@, *candidate),
                max_for(self.maxes@, *candidate) == max_for(self.maxes@.skip(j as int),
                    *candidate),
                forall|m: int|
                    0 <= m < self.maxes@.len() ==> (#[trigger] self.maxes@[m]).max.wf(),
                candidate.amount.units >= listed_units,
                exists|m: int|
                    0 <= m < self.tags@.len() && (#[trigger] self.tags@[m]).same_key_spec(
                        *candidate),
                forall|m: int|
                    0 <= m < self.tags@.len() && (#[trigger] self.tags@[m]).same_key_spec(
                        *candidate) ==> self.tags@[m].amount.units == listed_units,
            decreases k - j,
        {
            proof {
                assert(self.maxes@.skip(j as int)[0] == self.maxes@[j as int]);
                assert(self.maxes@.skip(j as int).drop_first() =~= self.maxes@.skip(j + 1));
            }
            if self.maxes[j].applies(candidate) {
                proof {
                    assert(max_for(self.maxes@, *candidate) == Some(self.maxes@[j as int].max));
                }
                if candidate.amount.units > self.maxes[j].max.units {
                    return PolicyDecision::RejectExceedsMax;
                } else {
                    return PolicyDecision::Accept;
                }
            }
            j = j + 1;
        }
        proof {
            assert(self.maxes@.skip(k as int) =~= Seq::<MaxEntry>::empty());
        }
        PolicyDecision::Accept
    }
}

/// The policy's amount band, for a candidate that matches a listed tag:
/// amounts equal to the listed amount are accepted, any amount below it is
/// insufficient, any amount above the recorded ceiling exceeds it, and
/// everything in between is accepted.
pub proof fn lemma_policy_amount_band(
    tags: Seq<PriceTag>,
    maxes: Seq<MaxEntry>,
    c: PriceTag,
    i: int,
)
    requires
        unambiguous(tags),
        0 <= i < tags.len(),
        tags[i].same_key_spec(c),
    ensures
        c.amount.units < tags[i].amount.units ==> decision_spec(tags, maxes, c)
            == PolicyDecision::RejectInsufficient,
        c.amount.units >= tags[i].amount.units && (match max_for(maxes, c) {
            Some(m) => c.amount.units > m.units,
            None => false,
        }) ==> decision_spec(tags, maxes, c) == PolicyDecision::RejectExceedsMax,
        c.amount.units >= tags[i].amount.units && (match max_for(maxes, c) {
            Some(m) => c.amount.units <= m.units,
            None => true,
        }) ==> decision_spec(tags, maxes, c) == PolicyDecision::Accept,
{
    assert(exists|m: int| 0 <= m < tags.len() && (#[trigger] tags[m]).same_key_spec(c));
    if c.amount.units >= tags[i].amount.units {
        assert forall|m: int|
            0 <= m < tags.len() && (#[trigger] tags[m]).same_key_spec(c) implies tags[m].amount
            == tags[i].amount by {
            assert(tags[m].same_key_spec(tags[i]));
        }
    }
}

/// The policy verdict depends only on the candidate's views, not on which
/// allocation carries them.
pub proof fn lemma_max_for_view(maxes: Seq<MaxEntry>, c1: PriceTag, c2: PriceTag)
    requires
        c1.asset.same_spec(c2.asset),
    ensures
        max_for(maxes, c1) == max_for(maxes, c2),
    decreases maxes.len(),
{
    if maxes.len() > 0 {
        lemma_max_for_view(maxes.drop_first(), c1, c2);
    }
}

/// Same views, same verdict.
pub proof fn lemma_decision_spec_view(
    tags: Seq<PriceTag>,
    maxes: Seq<MaxEntry>,
    c1: PriceTag,
    c2: PriceTag,
)
    requires
        c1.asset.same_spec(c2.asset),
        c1.payee@ == c2.payee@,
        c1.amount == c2.amount,
    ensures
        decision_spec(tags, maxes, c1) == decision_spec(tags, maxes, c2),
{
    assert(forall|i: int|
        0 <= i < tags.len() ==> ((#[trigger] tags[i]).same_key_spec(c1) <==> tags[i].same_key_spec(
            c2)));
    lemma_max_for_view(maxes, c1, c2);
}

/// Copies a byte string.
pub fn clone_bytes(v: &Vec<u8>) -> (r: Vec<u8>)
    ensures
        r@ == v@,
{
    vstd::slice::slice_to_vec(v.as_slice())
}

/// Copies an asset deployment.
pub fn clone_asset(a: &AssetDeployment) -> (r: AssetDeployment)
    ensures
        r.same_spec(*a),
{
    AssetDeployment {
        network: a.network,
        address: clone_bytes(&a.address),
        decimals: a.decimals,
        symbol: clone_bytes(&a.symbol),
    }
}

/// Copies a price tag.
pub fn clone_tag(t: &PriceTag) -> (r: PriceTag)
    ensures
        r.same_spec(*t),
        t.wf() ==> r.wf(),
{
    PriceTag { asset: clone_asset(&t.asset), amount: t.amount, payee: clone_bytes(&t.payee) }
}

} // verus!
