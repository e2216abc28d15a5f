//! The AI data marketplace: seller offers, registered data assets and the
//! access grants that gate every AI read of Pollen data.
//!
//! The rule: an AI request that names a Pollen data reference is served only
//! under a valid, unexpired, unexhausted grant of the asset's owner to the
//! requester; there is no override.
use vstd::prelude::*;
use crate::core_types::address::{Address, ContentId};
use crate::core_types::hash::{extend_bytes, le_bytes, sha256, spec_sha256, str_bytes, u64_le_bytes};
use crate::core_types::order::{compare_bytes, lex_lt, lemma_lex_total, lemma_lex_transitive};
use crate::pollen::assets::{
    AccessGrant, AccessGrantStatus, AiDataInputRef, AssetId, DataAsset, DataAssetStatus, GrantId, asset_error,
    bool_byte, grant_active_for, grant_shape_error, spec_asset_leaf, spec_decode_ref, spec_grant_leaf,
};

verus! {

#[derive(Debug, Clone, Copy)]
pub struct DataOffer {
    pub id: u64,
    pub seller: Address,
    pub cid: ContentId,
    /// Price in $BUD.
    pub price: u64,
    pub active: bool,
}

#[derive(Debug, Clone)]
pub struct MarketplaceRegistry {
    /// Offers in ascending id order, at most one per id (`create_offer` keeps
    /// that order).
    pub offers: Vec<DataOffer>,
    pub next_offer_id: u64,
    pub data_assets: Vec<DataAsset>,
    pub access_grants: Vec<AccessGrant>,
}

/// The first position whose element satisfies `p`.
pub open spec fn first_match<T>(s: Seq<T>, p: spec_fn(T) -> bool) -> Option<int> {
    if exists|i: int| 0 <= i < s.len() && p(s[i]) {
        Some(choose|i: int| 0 <= i < s.len() && p(s[i]) && forall|j: int| 0 <= j < i ==> !p(s[j]))
    } else {
        None
    }
}

proof fn lemma_first_match_at<T>(s: Seq<T>, p: spec_fn(T) -> bool, i: int)
    requires
        0 <= i < s.len(),
        p(s[i]),
        forall|j: int| 0 <= j < i ==> !p(s[j]),
    ensures
        first_match(s, p) == Some(i),
{
    let k = choose|k: int| 0 <= k < s.len() && p(s[k]) && forall|j: int| 0 <= j < k ==> !p(s[j]);
    assert(0 <= i < s.len() && p(s[i]) && forall|j: int| 0 <= j < i ==> !p(s[j]));
    if k < i {
        assert(!p(s[k]));
    } else if k > i {
        assert(!p(s[i]));
    }
}

proof fn lemma_first_match_none<T>(s: Seq<T>, p: spec_fn(T) -> bool)
    requires
        forall|j: int| 0 <= j < s.len() ==> !p(s[j]),
    ensures
        first_match(s, p) is None,
{
}

proof fn lemma_first_match_some<T>(s: Seq<T>, p: spec_fn(T) -> bool)
    requires
        first_match(s, p) is Some,
    ensures
        0 <= first_match(s, p)->0 < s.len(),
        p(s[first_match(s, p)->0]),
{
    let w = choose|i: int| 0 <= i < s.len() && p(s[i]);
    assert(exists|i: int| 0 <= i < s.len() && p(s[i]) && forall|j: int| 0 <= j < i ==> !p(s[j])) by {
        lemma_least_witness(s, p, w);
    }
}

proof fn lemma_least_witness<T>(s: Seq<T>, p: spec_fn(T) -> bool, w: int)
    requires
        0 <= w < s.len(),
        p(s[w]),
    ensures
        exists|i: int| 0 <= i < s.len() && p(s[i]) && forall|j: int| 0 <= j < i ==> !p(s[j]),
    decreases w,
{
    if exists|j: int| 0 <= j < w && p(s[j]) {
        let j = choose|j: int| 0 <= j < w && p(s[j]);
        lemma_least_witness(s, p, j);
    } else {
        assert(0 <= w < s.len() && p(s[w]) && forall|j: int| 0 <= j < w ==> !p(s[j]));
    }
}

pub open spec fn offer_index(s: Seq<DataOffer>, id: u64) -> Option<int> {
    first_match(s, |o: DataOffer| o.id == id)
}

/// Offers in strictly ascending id order: at most one offer per id.
pub open spec fn offers_sorted(s: Seq<DataOffer>) -> bool {
    forall|i: int, j: int| 0 <= i < j < s.len() ==> s[i].id < s[j].id
}

/// Where an offer with a new `id` goes to keep the order: before the first
/// offer with a greater id, or at the end.
pub open spec fn offer_slot(s: Seq<DataOffer>, id: u64) -> int {
    match first_match(s, |o: DataOffer| o.id > id) {
        Some(i) => i,
        None => s.len() as int,
    }
}

pub open spec fn asset_index(s: Seq<DataAsset>, id: Seq<u8>) -> Option<int> {
    first_match(s, |a: DataAsset| a.asset_id.0@ == id)
}

pub open spec fn grant_index(s: Seq<AccessGrant>, id: Seq<u8>) -> Option<int> {
    first_match(s, |g: AccessGrant| g.grant_id.0@ == id)
}

/// What the AI read gate answers for an input reference.
pub open spec fn spec_ai_read(
    assets: Seq<DataAsset>,
    grants: Seq<AccessGrant>,
    input_ref: Seq<u8>,
    requester: Seq<u8>,
    block: u64,
) -> Result<Option<Seq<u8>>, Seq<char>> {
    match spec_decode_ref(input_ref) {
        Err(e) => Err(e),
        Ok(None) => Ok(None),
        Ok(Some((asset_id, grant_id))) => match asset_index(assets, asset_id) {
            None => Err("AI data read denied: DataAsset not found"@),
            Some(ai) => {
                let asset = assets[ai];
                if asset.status != DataAssetStatus::Active {
                    Err("AI data read denied: DataAsset inactive"@)
                } else {
                    match grant_index(grants, grant_id) {
                        None => Err("AI data read denied: AccessGrant not found"@),
                        Some(gi) => {
                            let grant = grants[gi];
                            if grant.asset_id.0@ != asset_id {
                                Err("AI data read denied: grant/asset mismatch"@)
                            } else if grant.owner.0@ != asset.owner.0@ {
                                Err("AI data read denied: grant owner mismatch"@)
                            } else if !grant_active_for(grant, requester, block) {
                                Err("AI data read denied: AccessGrant inactive, expired, exhausted, or wrong grantee"@)
                            } else {
                                Ok(Some(grant_id))
                            }
                        },
                    }
                }
            },
        },
    }
}

fn text(s: &str) -> (r: String)
    ensures
        r@ == s@,
{
    s.to_owned()
}

/// The slot for `id`: every offer before it has an id no greater, and the
/// offer at it (if any) a greater one.
proof fn lemma_offer_slot(s0: Seq<DataOffer>, id: u64)
    ensures
        0 <= offer_slot(s0, id) <= s0.len(),
        forall|k: int| 0 <= k < offer_slot(s0, id) ==> #[trigger] s0[k].id <= id,
        offer_slot(s0, id) < s0.len() ==> s0[offer_slot(s0, id)].id > id,
{
    let p = |o: DataOffer| o.id > id;
    if exists|i: int| 0 <= i < s0.len() && p(s0[i]) {
        let w = choose|i: int| 0 <= i < s0.len() && p(s0[i]);
        lemma_least_witness(s0, p, w);
        let c = choose|i: int| 0 <= i < s0.len() && p(s0[i]) && forall|jj: int| 0 <= jj < i ==> !p(s0[jj]);
        assert(offer_slot(s0, id) == c);
        assert forall|k: int| 0 <= k < c implies #[trigger] s0[k].id <= id by {
            assert(!p(s0[k]));
        }
    } else {
        assert(offer_slot(s0, id) == s0.len());
        assert forall|k: int| 0 <= k < s0.len() implies #[trigger] s0[k].id <= id by {
            assert(!p(s0[k]));
        }
    }
}

/// Without an offer under `id`, no offer has that id.
proof fn lemma_no_offer(s0: Seq<DataOffer>, id: u64)
    requires
        offer_index(s0, id) is None,
    ensures
        forall|k: int| 0 <= k < s0.len() ==> #[trigger] s0[k].id != id,
{
    let p = |o: DataOffer| o.id == id;
    assert forall|k: int| 0 <= k < s0.len() implies #[trigger] s0[k].id != id by {
        if s0[k].id == id {
            assert(p(s0[k]));
        }
    }
}

/// Inserting an offer with an id none of the sorted offers holds, at its
/// slot, keeps them sorted.
#[verifier::spinoff_prover]
#[verifier::rlimit(30)]
proof fn lemma_insert_keeps_sorted(s0: Seq<DataOffer>, id: u64, offer: DataOffer)
    requires
        offer.id == id,
        offer_index(s0, id) is None,
    ensures
        offers_sorted(s0) ==> offers_sorted(s0.insert(offer_slot(s0, id), offer)),
        0 <= offer_slot(s0, id) <= s0.len(),
{
    lemma_offer_slot(s0, id);
    lemma_no_offer(s0, id);
    let j = offer_slot(s0, id);
    if offers_sorted(s0) {
        let s1 = s0.insert(j, offer);
        assert forall|a: int, b: int| 0 <= a < b < s1.len() implies s1[a].id < s1[b].id by {
            if b < j {
                assert(s1[a] == s0[a] && s1[b] == s0[b]);
            } else if b == j {
                assert(s1[a] == s0[a]);
                assert(s0[a].id <= id);
                assert(s0[a].id != id);
            } else if a == j {
                assert(s1[b] == s0[b - 1]);
                if b - 1 > j {
                    assert(s0[j].id < s0[b - 1].id);
                }
            } else if a < j {
                assert(s1[a] == s0[a] && s1[b] == s0[b - 1]);
            } else {
                assert(s1[a] == s0[a - 1] && s1[b] == s0[b - 1]);
            }
        }
    }
}

/// Data assets in strictly ascending id order (byte order): one per id.
pub open spec fn assets_sorted(s: Seq<DataAsset>) -> bool {
    forall|i: int, j: int| 0 <= i < j < s.len() ==> lex_lt(s[i].asset_id.0@, s[j].asset_id.0@)
}

/// Where a assets with a new `id` goes to keep the order.
pub open spec fn assets_slot(s: Seq<DataAsset>, id: Seq<u8>) -> int {
    match first_match(s, |x: DataAsset| lex_lt(id, x.asset_id.0@)) {
        Some(i) => i,
        None => s.len() as int,
    }
}

proof fn lemma_assets_slot(s0: Seq<DataAsset>, id: Seq<u8>)
    ensures
        0 <= assets_slot(s0, id) <= s0.len(),
        forall|k: int| 0 <= k < assets_slot(s0, id) ==> !lex_lt(id, #[trigger] s0[k].asset_id.0@),
        assets_slot(s0, id) < s0.len() ==> lex_lt(id, s0[assets_slot(s0, id)].asset_id.0@),
{
    let p = |x: DataAsset| lex_lt(id, x.asset_id.0@);
    if exists|i: int| 0 <= i < s0.len() && p(s0[i]) {
        let w = choose|i: int| 0 <= i < s0.len() && p(s0[i]);
        lemma_least_witness(s0, p, w);
        let c = choose|i: int| 0 <= i < s0.len() && p(s0[i]) && forall|jj: int| 0 <= jj < i ==> !p(s0[jj]);
        assert(assets_slot(s0, id) == c);
        assert forall|k: int| 0 <= k < c implies !lex_lt(id, #[trigger] s0[k].asset_id.0@) by {
            assert(!p(s0[k]));
        }
    } else {
        assert forall|k: int| 0 <= k < s0.len() implies !lex_lt(id, #[trigger] s0[k].asset_id.0@) by {
            assert(!p(s0[k]));
        }
    }
}

proof fn lemma_assets_insert(s0: Seq<DataAsset>, x: DataAsset)
    requires
        asset_index(s0, x.asset_id.0@) is None,
    ensures
        0 <= assets_slot(s0, x.asset_id.0@) <= s0.len(),
        assets_sorted(s0) ==> assets_sorted(s0.insert(assets_slot(s0, x.asset_id.0@), x)),
{
    let id = x.asset_id.0@;
    lemma_assets_slot(s0, id);
    let j = assets_slot(s0, id);
    let q = |y: DataAsset| y.asset_id.0@ == id;
    assert forall|k: int| 0 <= k < s0.len() implies #[trigger] s0[k].asset_id.0@ != id by {
        if s0[k].asset_id.0@ == id {
            assert(q(s0[k]));
        }
    }
    if assets_sorted(s0) {
        let s1 = s0.insert(j, x);
        assert forall|a: int, b: int| 0 <= a < b < s1.len() implies lex_lt(s1[a].asset_id.0@, s1[b].asset_id.0@) by {
            if b < j {
                assert(s1[a] == s0[a] && s1[b] == s0[b]);
            } else if b == j {
                assert(s1[a] == s0[a]);
                assert(!lex_lt(id, s0[a].asset_id.0@));
                assert(s0[a].asset_id.0@ != id);
                lemma_lex_total(id, s0[a].asset_id.0@);
            } else if a == j {
                assert(s1[b] == s0[b - 1]);
                if b - 1 > j {
                    lemma_lex_transitive(id, s0[j].asset_id.0@, s0[b - 1].asset_id.0@);
                }
            } else if a < j {
                assert(s1[a] == s0[a] && s1[b] == s0[b - 1]);
            } else {
                assert(s1[a] == s0[a - 1] && s1[b] == s0[b - 1]);
            }
        }
    }
}

proof fn lemma_assets_update(s0: Seq<DataAsset>, i: int, x: DataAsset)
    requires
        0 <= i < s0.len(),
        x.asset_id.0@ == s0[i].asset_id.0@,
    ensures
        assets_sorted(s0) ==> assets_sorted(s0.update(i, x)),
{
    if assets_sorted(s0) {
        let s1 = s0.update(i, x);
        assert forall|a: int, b: int| 0 <= a < b < s1.len() implies lex_lt(s1[a].asset_id.0@, s1[b].asset_id.0@) by {
            assert(lex_lt(s0[a].asset_id.0@, s0[b].asset_id.0@));
        }
    }
}

/// Access grants in strictly ascending id order (byte order): one per id.
pub open spec fn grants_sorted(s: Seq<AccessGrant>) -> bool {
    forall|i: int, j: int| 0 <= i < j < s.len() ==> lex_lt(s[i].grant_id.0@, s[j].grant_id.0@)
}

/// Where a grants with a new `id` goes to keep the order.
pub open spec fn grants_slot(s: Seq<AccessGrant>, id: Seq<u8>) -> int {
    match first_match(s, |x: AccessGrant| lex_lt(id, x.grant_id.0@)) {
        Some(i) => i,
        None => s.len() as int,
    }
}

proof fn lemma_grants_slot(s0: Seq<AccessGrant>, id: Seq<u8>)
    ensures
        0 <= grants_slot(s0, id) <= s0.len(),
        forall|k: int| 0 <= k < grants_slot(s0, id) ==> !lex_lt(id, #[trigger] s0[k].grant_id.0@),
        grants_slot(s0, id) < s0.len() ==> lex_lt(id, s0[grants_slot(s0, id)].grant_id.0@),
{
    let p = |x: AccessGrant| lex_lt(id, x.grant_id.0@);
    if exists|i: int| 0 <= i < s0.len() && p(s0[i]) {
        let w = choose|i: int| 0 <= i < s0.len() && p(s0[i]);
        lemma_least_witness(s0, p, w);
        let c = choose|i: int| 0 <= i < s0.len() && p(s0[i]) && forall|jj: int| 0 <= jj < i ==> !p(s0[jj]);
        assert(grants_slot(s0, id) == c);
        assert forall|k: int| 0 <= k < c implies !lex_lt(id, #[trigger] s0[k].grant_id.0@) by {
            assert(!p(s0[k]));
        }
    } else {
        assert forall|k: int| 0 <= k < s0.len() implies !lex_lt(id, #[trigger] s0[k].grant_id.0@) by {
            assert(!p(s0[k]));
        }
    }
}

proof fn lemma_grants_insert(s0: Seq<AccessGrant>, x: AccessGrant)
    requires
        grant_index(s0, x.grant_id.0@) is None,
    ensures
        0 <= grants_slot(s0, x.grant_id.0@) <= s0.len(),
        grants_sorted(s0) ==> grants_sorted(s0.insert(grants_slot(s0, x.grant_id.0@), x)),
{
    let id = x.grant_id.0@;
    lemma_grants_slot(s0, id);
    let j = grants_slot(s0, id);
    let q = |y: AccessGrant| y.grant_id.0@ == id;
    assert forall|k: int| 0 <= k < s0.len() implies #[trigger] s0[k].grant_id.0@ != id by {
        if s0[k].grant_id.0@ == id {
            assert(q(s0[k]));
        }
    }
    if grants_sorted(s0) {
        let s1 = s0.insert(j, x);
        assert forall|a: int, b: int| 0 <= a < b < s1.len() implies lex_lt(s1[a].grant_id.0@, s1[b].grant_id.0@) by {
            if b < j {
                assert(s1[a] == s0[a] && s1[b] == s0[b]);
            } else if b == j {
                assert(s1[a] == s0[a]);
                assert(!lex_lt(id, s0[a].grant_id.0@));
                assert(s0[a].grant_id.0@ != id);
                lemma_lex_total(id, s0[a].grant_id.0@);
            } else if a == j {
                assert(s1[b] == s0[b - 1]);
                if b - 1 > j {
                    lemma_lex_transitive(id, s0[j].grant_id.0@, s0[b - 1].grant_id.0@);
                }
            } else if a < j {
                assert(s1[a] == s0[a] && s1[b] == s0[b - 1]);
            } else {
                assert(s1[a] == s0[a - 1] && s1[b] == s0[b - 1]);
            }
        }
    }
}

proof fn lemma_grants_update(s0: Seq<AccessGrant>, i: int, x: AccessGrant)
    requires
        0 <= i < s0.len(),
        x.grant_id.0@ == s0[i].grant_id.0@,
    ensures
        grants_sorted(s0) ==> grants_sorted(s0.update(i, x)),
{
    if grants_sorted(s0) {
        let s1 = s0.update(i, x);
        assert forall|a: int, b: int| 0 <= a < b < s1.len() implies lex_lt(s1[a].grant_id.0@, s1[b].grant_id.0@) by {
            assert(lex_lt(s0[a].grant_id.0@, s0[b].grant_id.0@));
        }
    }
}

/// An offer as the registry commitment lists it.
pub open spec fn offer_entry_bytes(o: DataOffer) -> Seq<u8> {
    str_bytes("offer") + le_bytes(o.id as nat, 8) + o.seller.0@ + o.cid.0@ + le_bytes(o.price as nat, 8) + seq![
        bool_byte(o.active),
    ]
}

pub open spec fn asset_entry_bytes(a: DataAsset) -> Seq<u8> {
    str_bytes("asset") + a.asset_id.0@ + spec_asset_leaf(a)
}

pub open spec fn grant_entry_bytes(g: AccessGrant) -> Seq<u8> {
    str_bytes("grant") + g.grant_id.0@ + spec_grant_leaf(g)
}

pub open spec fn offers_bytes(s: Seq<DataOffer>) -> Seq<u8>
    decreases s.len(),
{
    if s.len() == 0 {
        Seq::empty()
    } else {
        offers_bytes(s.drop_last()) + offer_entry_bytes(s.last())
    }
}

pub open spec fn assets_bytes(s: Seq<DataAsset>) -> Seq<u8>
    decreases s.len(),
{
    if s.len() == 0 {
        Seq::empty()
    } else {
        assets_bytes(s.drop_last()) + asset_entry_bytes(s.last())
    }
}

pub open spec fn grants_bytes(s: Seq<AccessGrant>) -> Seq<u8>
    decreases s.len(),
{
    if s.len() == 0 {
        Seq::empty()
    } else {
        grants_bytes(s.drop_last()) + grant_entry_bytes(s.last())
    }
}

/// What the registry commitment hashes: the tag, the next offer id, then
/// every offer, asset and grant in id order.
pub open spec fn registry_preimage(r: MarketplaceRegistry) -> Seq<u8> {
    str_bytes("BDLM_MARKETPLACE_REGISTRY_V2") + le_bytes(r.next_offer_id as nat, 8) + offers_bytes(r.offers@)
        + assets_bytes(r.data_assets@) + grants_bytes(r.access_grants@)
}


impl MarketplaceRegistry {
    pub fn new() -> (r: Self)
        ensures
            r.offers@.len() == 0,
            r.next_offer_id == 0,
            r.data_assets@.len() == 0,
            r.access_grants@.len() == 0,
    {
        MarketplaceRegistry { offers: Vec::new(), next_offer_id: 0, data_assets: Vec::new(), access_grants: Vec::new() }
    }

    fn find_offer(&self, id: u64) -> (r: Option<usize>)
        ensures
            match r {
                Some(i) => offer_index(self.offers@, id) == Some(i as int),
                None => offer_index(self.offers@, id) is None,
            },
    {
        let mut i: usize = 0;
        while i < self.offers.len()
            invariant
                0 <= i <= self.offers@.len(),
                forall|j: int| 0 <= j < i ==> self.offers@[j].id != id,
            decreases self.offers@.len() - i,
        {
            if self.offers[i].id == id {
                proof {
                    lemma_first_match_at(self.offers@, |o: DataOffer| o.id == id, i as int);
                }
                return Some(i);
            }
            i = i + 1;
        }
        proof {
            lemma_first_match_none(self.offers@, |o: DataOffer| o.id == id);
        }
        None
    }

    fn find_asset(&self, id: &AssetId) -> (r: Option<usize>)
        ensures
            match r {
                Some(i) => asset_index(self.data_assets@, id.0@) == Some(i as int),
                None => asset_index(self.data_assets@, id.0@) is None,
            },
    {
        let mut i: usize = 0;
        while i < self.data_assets.len()
            invariant
                0 <= i <= self.data_assets@.len(),
                forall|j: int| 0 <= j < i ==> self.data_assets@[j].asset_id.0@ != id.0@,
            decreases self.data_assets@.len() - i,
        {
            if crate::core_types::address::bytes32_eq(&self.data_assets[i].asset_id.0, &id.0) {
                proof {
                    lemma_first_match_at(self.data_assets@, |a: DataAsset| a.asset_id.0@ == id.0@, i as int);
                }
                return Some(i);
            }
            i = i + 1;
        }
        proof {
            lemma_first_match_none(self.data_assets@, |a: DataAsset| a.asset_id.0@ == id.0@);
        }
        None
    }

    fn find_grant(&self, id: &GrantId) -> (r: Option<usize>)
        ensures
            match r {
                Some(i) => grant_index(self.access_grants@, id.0@) == Some(i as int),
                None => grant_index(self.access_grants@, id.0@) is None,
            },
    {
        let mut i: usize = 0;
        while i < self.access_grants.len()
            invariant
                0 <= i <= self.access_grants@.len(),
                forall|j: int| 0 <= j < i ==> self.access_grants@[j].grant_id.0@ != id.0@,
            decreases self.access_grants@.len() - i,
        {
            if crate::core_types::address::bytes32_eq(&self.access_grants[i].grant_id.0, &id.0) {
                proof {
                    lemma_first_match_at(self.access_grants@, |g: AccessGrant| g.grant_id.0@ == id.0@, i as int);
                }
                return Some(i);
            }
            i = i + 1;
        }
        proof {
            lemma_first_match_none(self.access_grants@, |g: AccessGrant| g.grant_id.0@ == id.0@);
        }
        None
    }

    fn find_slot(&self, id: u64) -> (j: usize)
        ensures
            j as int == offer_slot(self.offers@, id),
            j <= self.offers@.len(),
    {
        let mut j: usize = 0;
        let mut found: bool = false;
        while j < self.offers.len() && !found
            invariant
                0 <= j <= self.offers@.len(),
                forall|k: int| 0 <= k < j ==> !(self.offers@[k].id > id),
                found ==> j < self.offers@.len() && self.offers@[j as int].id > id,
            decreases self.offers@.len() - j, if found { 0int } else { 1int },
        {
            if self.offers[j].id > id {
                found = true;
            } else {
                j = j + 1;
            }
        }
        proof {
            if found {
                lemma_first_match_at(self.offers@, |o: DataOffer| o.id > id, j as int);
            } else {
                lemma_first_match_none(self.offers@, |o: DataOffer| o.id > id);
            }
        }
        j
    }

    /// Open an offer at the next id (replacing any offer already held under
    /// it), keeping the offers in ascending id order. A zero price is refused.
    pub fn create_offer(&mut self, seller: Address, cid: ContentId, price: u64) -> (r: Result<u64, String>)
        requires
            price > 0 ==> old(self).next_offer_id < u64::MAX,
        ensures
            price == 0 <==> r is Err,
            r matches Err(m) ==> m@ == "Price must be greater than zero"@ && *final(self) == *old(self),
            r matches Ok(id) ==> {
                let offer = DataOffer { id, seller, cid, price, active: true };
                &&& id == old(self).next_offer_id
                &&& final(self).next_offer_id == old(self).next_offer_id + 1
                &&& final(self).offers@ == match offer_index(old(self).offers@, id) {
                    Some(i) => old(self).offers@.update(i, offer),
                    None => old(self).offers@.insert(offer_slot(old(self).offers@, id), offer),
                }
                &&& final(self).data_assets == old(self).data_assets
                &&& final(self).access_grants == old(self).access_grants
            },
            offers_sorted(old(self).offers@) ==> offers_sorted(final(self).offers@),
    {
        if price == 0 {
            return Err(text("Price must be greater than zero"));
        }
        let id: u64 = self.next_offer_id;
        let offer = DataOffer { id, seller, cid, price, active: true };
        let ghost s0 = self.offers@;
        match self.find_offer(id) {
            Some(i) => {
                proof {
                    lemma_first_match_some(self.offers@, |o: DataOffer| o.id == id);
                }
                self.offers.set(i, offer);
                proof {
                    if offers_sorted(s0) {
                        assert forall|a: int, b: int| 0 <= a < b < self.offers@.len() implies self.offers@[a].id
                            < self.offers@[b].id by {
                            assert(s0[a].id < s0[b].id);
                        }
                    }
                }
            },
            None => {
                let j: usize = self.find_slot(id);
                self.offers.insert(j, offer);
                proof {
                    lemma_insert_keeps_sorted(s0, id, offer);
                }
            },
        }
        self.next_offer_id = self.next_offer_id + 1;
        Ok(id)
    }

    /// Deactivate an offer; only its seller may.
    pub fn close_offer(&mut self, id: u64, caller: &Address) -> (r: Result<(), String>)
        ensures
            final(self).next_offer_id == old(self).next_offer_id,
            final(self).data_assets == old(self).data_assets,
            final(self).access_grants == old(self).access_grants,
            match offer_index(old(self).offers@, id) {
                None => r matches Err(m) && m@ == "Offer not found"@ && final(self).offers == old(self).offers,
                Some(i) => if old(self).offers@[i].seller.0@ != caller.0@ {
                    r matches Err(m) && m@ == "Not the seller"@ && final(self).offers == old(self).offers
                } else {
                    r is Ok && final(self).offers@ == old(self).offers@.update(
                        i,
                        DataOffer { active: false, ..old(self).offers@[i] },
                    )
                },
            },
            offers_sorted(old(self).offers@) ==> offers_sorted(final(self).offers@),
    {
        match self.find_offer(id) {
            None => Err(text("Offer not found")),
            Some(i) => {
                proof {
                    lemma_first_match_some(self.offers@, |o: DataOffer| o.id == id);
                }
                let offer: DataOffer = self.offers[i];
                if offer.seller != *caller {
                    return Err(text("Not the seller"));
                }
                let ghost s0 = self.offers@;
                self.offers.set(i, DataOffer { active: false, ..offer });
                proof {
                    if offers_sorted(s0) {
                        assert forall|a: int, b: int| 0 <= a < b < self.offers@.len() implies self.offers@[a].id
                            < self.offers@[b].id by {
                            assert(s0[a].id < s0[b].id);
                        }
                    }
                }
                Ok(())
            },
        }
    }

    pub fn get_offer(&self, id: u64) -> (r: Option<&DataOffer>)
        ensures
            match offer_index(self.offers@, id) {
                None => r is None,
                Some(i) => r matches Some(o) && *o == self.offers@[i],
            },
    {
        match self.find_offer(id) {
            None => None,
            Some(i) => {
                proof {
                    lemma_first_match_some(self.offers@, |o: DataOffer| o.id == id);
                }
                Some(&self.offers[i])
            },
        }
    }

    fn find_assets_slot(&self, id: &[u8; 32]) -> (j: usize)
        ensures
            j as int == assets_slot(self.data_assets@, id@),
            j <= self.data_assets@.len(),
    {
        let mut j: usize = 0;
        let mut found: bool = false;
        while j < self.data_assets.len() && !found
            invariant
                0 <= j <= self.data_assets@.len(),
                forall|k: int| 0 <= k < j ==> !lex_lt(id@, #[trigger] self.data_assets@[k].asset_id.0@),
                found ==> j < self.data_assets@.len() && lex_lt(id@, self.data_assets@[j as int].asset_id.0@),
            decreases self.data_assets@.len() - j, if found { 0int } else { 1int },
        {
            if compare_bytes(id, &self.data_assets[j].asset_id.0) == -1 {
                found = true;
            } else {
                j = j + 1;
            }
        }
        proof {
            if found {
                lemma_first_match_at(self.data_assets@, |x: DataAsset| lex_lt(id@, x.asset_id.0@), j as int);
            } else {
                lemma_first_match_none(self.data_assets@, |x: DataAsset| lex_lt(id@, x.asset_id.0@));
            }
        }
        j
    }

    fn find_grants_slot(&self, id: &[u8; 32]) -> (j: usize)
        ensures
            j as int == grants_slot(self.access_grants@, id@),
            j <= self.access_grants@.len(),
    {
        let mut j: usize = 0;
        let mut found: bool = false;
        while j < self.access_grants.len() && !found
            invariant
                0 <= j <= self.access_grants@.len(),
                forall|k: int| 0 <= k < j ==> !lex_lt(id@, #[trigger] self.access_grants@[k].grant_id.0@),
                found ==> j < self.access_grants@.len() && lex_lt(id@, self.access_grants@[j as int].grant_id.0@),
            decreases self.access_grants@.len() - j, if found { 0int } else { 1int },
        {
            if compare_bytes(id, &self.access_grants[j].grant_id.0) == -1 {
                found = true;
            } else {
                j = j + 1;
            }
        }
        proof {
            if found {
                lemma_first_match_at(self.access_grants@, |x: AccessGrant| lex_lt(id@, x.grant_id.0@), j as int);
            } else {
                lemma_first_match_none(self.access_grants@, |x: AccessGrant| lex_lt(id@, x.grant_id.0@));
            }
        }
        j
    }

    /// Register a valid asset under an id not yet taken.
    pub fn register_data_asset(&mut self, asset: DataAsset) -> (r: Result<AssetId, String>)
        ensures
            final(self).offers == old(self).offers,
            final(self).next_offer_id == old(self).next_offer_id,
            final(self).access_grants == old(self).access_grants,
            match asset_error(asset) {
                Some(e) => r matches Err(m) && m@ == e && final(self).data_assets == old(self).data_assets,
                None => if asset_index(old(self).data_assets@, asset.asset_id.0@) is Some {
                    r matches Err(m) && m@ == "DataAsset already registered"@ && final(self).data_assets
                        == old(self).data_assets
                } else {
                    r == Ok::<AssetId, String>(asset.asset_id) && final(self).data_assets@ == old(
                        self,
                    ).data_assets@.insert(assets_slot(old(self).data_assets@, asset.asset_id.0@), asset)
                },
            },
            assets_sorted(old(self).data_assets@) ==> assets_sorted(final(self).data_assets@),
    {
        match asset.validate() {
            Err(e) => {
                return Err(e);
            },
            Ok(()) => {},
        }
        if self.find_asset(&asset.asset_id).is_some() {
            return Err(text("DataAsset already registered"));
        }
        let id = asset.asset_id;
        let j: usize = self.find_assets_slot(&id.0);
        proof {
            lemma_assets_insert(self.data_assets@, asset);
        }
        self.data_assets.insert(j, asset);
        Ok(id)
    }

    /// Revoke an asset; only its owner may.
    pub fn revoke_data_asset(&mut self, asset_id: &AssetId, caller: &Address) -> (r: Result<(), String>)
        ensures
            final(self).offers == old(self).offers,
            final(self).next_offer_id == old(self).next_offer_id,
            final(self).access_grants == old(self).access_grants,
            match asset_index(old(self).data_assets@, asset_id.0@) {
                None => r matches Err(m) && m@ == "DataAsset not found"@ && final(self).data_assets
                    == old(self).data_assets,
                Some(i) => if old(self).data_assets@[i].owner.0@ != caller.0@ {
                    r matches Err(m) && m@ == "Only DataAsset owner can revoke"@ && final(self).data_assets
                        == old(self).data_assets
                } else {
                    r is Ok && final(self).data_assets@ == old(self).data_assets@.update(
                        i,
                        DataAsset { status: DataAssetStatus::Revoked, ..old(self).data_assets@[i] },
                    )
                },
            },
            assets_sorted(old(self).data_assets@) ==> assets_sorted(final(self).data_assets@),
    {
        match self.find_asset(asset_id) {
            None => Err(text("DataAsset not found")),
            Some(i) => {
                proof {
                    lemma_first_match_some(self.data_assets@, |a: DataAsset| a.asset_id.0@ == asset_id.0@);
                }
                let asset: DataAsset = self.data_assets[i];
                if asset.owner != *caller {
                    return Err(text("Only DataAsset owner can revoke"));
                }
                proof {
                    lemma_assets_update(self.data_assets@, i as int, DataAsset { status: DataAssetStatus::Revoked, ..asset });
                }
                self.data_assets.set(i, DataAsset { status: DataAssetStatus::Revoked, ..asset });
                Ok(())
            },
        }
    }

    /// Register a well-formed grant of an active asset, made by the asset's
    /// owner, under an id not yet taken.
    pub fn create_access_grant(&mut self, grant: AccessGrant) -> (r: Result<GrantId, String>)
        ensures
            final(self).offers == old(self).offers,
            final(self).next_offer_id == old(self).next_offer_id,
            final(self).data_assets == old(self).data_assets,
            r is Err ==> final(self).access_grants == old(self).access_grants,
            match grant_shape_error(grant) {
                Some(e) => r matches Err(m) && m@ == e,
                None => match asset_index(old(self).data_assets@, grant.asset_id.0@) {
                    None => r matches Err(m) && m@ == "AccessGrant references unknown DataAsset"@,
                    Some(ai) => if old(self).data_assets@[ai].status != DataAssetStatus::Active {
                        r matches Err(m) && m@ == "AccessGrant references inactive DataAsset"@
                    } else if grant.owner.0@ != old(self).data_assets@[ai].owner.0@ {
                        r matches Err(m) && m@ == "AccessGrant owner must match DataAsset owner"@
                    } else if grant_index(old(self).access_grants@, grant.grant_id.0@) is Some {
                        r matches Err(m) && m@ == "AccessGrant already registered"@
                    } else {
                        r == Ok::<GrantId, String>(grant.grant_id) && final(self).access_grants@ == old(
                            self,
                        ).access_grants@.insert(grants_slot(old(self).access_grants@, grant.grant_id.0@), grant)
                    },
                },
            },
            grants_sorted(old(self).access_grants@) ==> grants_sorted(final(self).access_grants@),
    {
        match grant.validate_shape() {
            Err(e) => {
                return Err(e);
            },
            Ok(()) => {},
        }
        let ai = match self.find_asset(&grant.asset_id) {
            None => {
                return Err(text("AccessGrant references unknown DataAsset"));
            },
            Some(i) => i,
        };
        proof {
            lemma_first_match_some(self.data_assets@, |a: DataAsset| a.asset_id.0@ == grant.asset_id.0@);
        }
        let asset: DataAsset = self.data_assets[ai];
        if !asset.is_active() {
            return Err(text("AccessGrant references inactive DataAsset"));
        }
        if grant.owner != asset.owner {
            return Err(text("AccessGrant owner must match DataAsset owner"));
        }
        if self.find_grant(&grant.grant_id).is_some() {
            return Err(text("AccessGrant already registered"));
        }
        let id = grant.grant_id;
        let j: usize = self.find_grants_slot(&id.0);
        proof {
            lemma_grants_insert(self.access_grants@, grant);
        }
        self.access_grants.insert(j, grant);
        Ok(id)
    }

    /// Revoke a grant; only its owner may.
    pub fn revoke_access_grant(&mut self, grant_id: &GrantId, caller: &Address) -> (r: Result<(), String>)
        ensures
            final(self).offers == old(self).offers,
            final(self).next_offer_id == old(self).next_offer_id,
            final(self).data_assets == old(self).data_assets,
            match grant_index(old(self).access_grants@, grant_id.0@) {
                None => r matches Err(m) && m@ == "AccessGrant not found"@ && final(self).access_grants
                    == old(self).access_grants,
                Some(i) => if old(self).access_grants@[i].owner.0@ != caller.0@ {
                    r matches Err(m) && m@ == "Only AccessGrant owner can revoke"@ && final(self).access_grants
                        == old(self).access_grants
                } else {
                    r is Ok && final(self).access_grants@ == old(self).access_grants@.update(
                        i,
                        AccessGrant { status: AccessGrantStatus::Revoked, ..old(self).access_grants@[i] },
                    )
                },
            },
            grants_sorted(old(self).access_grants@) ==> grants_sorted(final(self).access_grants@),
    {
        match self.find_grant(grant_id) {
            None => Err(text("AccessGrant not found")),
            Some(i) => {
                proof {
                    lemma_first_match_some(self.access_grants@, |g: AccessGrant| g.grant_id.0@ == grant_id.0@);
                }
                let grant: AccessGrant = self.access_grants[i];
                if grant.owner != *caller {
                    return Err(text("Only AccessGrant owner can revoke"));
                }
                proof {
                    lemma_grants_update(self.access_grants@, i as int, AccessGrant { status: AccessGrantStatus::Revoked, ..grant });
                }
                self.access_grants.set(i, AccessGrant { status: AccessGrantStatus::Revoked, ..grant });
                Ok(())
            },
        }
    }

    /// The strict AI read gate: input that is not a Pollen reference passes
    /// (`Ok(None)`); a Pollen reference passes only under a valid grant.
    pub fn validate_ai_read_ref(&self, input_ref: &[u8], requester: &Address, current_block: u64) -> (r: Result<
        Option<GrantId>,
        String,
    >)
        ensures
            match spec_ai_read(self.data_assets@, self.access_grants@, input_ref@, requester.0@, current_block) {
                Ok(None) => r matches Ok(None),
                Ok(Some(g)) => r matches Ok(Some(id)) && id.0@ == g,
                Err(e) => r matches Err(m) && m@ == e,
            },
    {
        let reference = match AiDataInputRef::decode(input_ref) {
            Err(e) => {
                return Err(e);
            },
            Ok(None) => {
                return Ok(None);
            },
            Ok(Some(x)) => x,
        };
        let ai = match self.find_asset(&reference.asset_id) {
            None => {
                return Err(text("AI data read denied: DataAsset not found"));
            },
            Some(i) => i,
        };
        proof {
            lemma_first_match_some(self.data_assets@, |a: DataAsset| a.asset_id.0@ == reference.asset_id.0@);
        }
        let asset: DataAsset = self.data_assets[ai];
        if !asset.is_active() {
            return Err(text("AI data read denied: DataAsset inactive"));
        }
        let gi = match self.find_grant(&reference.grant_id) {
            None => {
                return Err(text("AI data read denied: AccessGrant not found"));
            },
            Some(i) => i,
        };
        proof {
            lemma_first_match_some(self.access_grants@, |g: AccessGrant| g.grant_id.0@ == reference.grant_id.0@);
        }
        let grant: AccessGrant = self.access_grants[gi];
        if !crate::core_types::address::bytes32_eq(&grant.asset_id.0, &reference.asset_id.0) {
            return Err(text("AI data read denied: grant/asset mismatch"));
        }
        if grant.owner != asset.owner {
            return Err(text("AI data read denied: grant owner mismatch"));
        }
        if !grant.is_active_for(requester, current_block) {
            return Err(text("AI data read denied: AccessGrant inactive, expired, exhausted, or wrong grantee"));
        }
        Ok(Some(reference.grant_id))
    }

    /// Spend one read of a grant for `requester`.
    pub fn consume_ai_read_grant(&mut self, grant_id: &GrantId, requester: &Address, current_block: u64) -> (r:
        Result<(), String>)
        ensures
            final(self).offers == old(self).offers,
            final(self).next_offer_id == old(self).next_offer_id,
            final(self).data_assets == old(self).data_assets,
            match grant_index(old(self).access_grants@, grant_id.0@) {
                None => r matches Err(m) && m@ == "AccessGrant not found"@ && final(self).access_grants
                    == old(self).access_grants,
                Some(i) => if !grant_active_for(old(self).access_grants@[i], requester.0@, current_block) {
                    r matches Err(m) && m@ == "AccessGrant cannot be consumed"@ && final(self).access_grants
                        == old(self).access_grants
                } else {
                    r is Ok && final(self).access_grants@ == old(self).access_grants@.update(
                        i,
                        AccessGrant {
                            reads_used: (old(self).access_grants@[i].reads_used + 1) as u32,
                            ..old(self).access_grants@[i]
                        },
                    )
                },
            },
            grants_sorted(old(self).access_grants@) ==> grants_sorted(final(self).access_grants@),
    {
        match self.find_grant(grant_id) {
            None => Err(text("AccessGrant not found")),
            Some(i) => {
                proof {
                    lemma_first_match_some(self.access_grants@, |g: AccessGrant| g.grant_id.0@ == grant_id.0@);
                }
                let mut grant: AccessGrant = self.access_grants[i];
                if !grant.is_active_for(requester, current_block) {
                    return Err(text("AccessGrant cannot be consumed"));
                }
                let res = grant.record_read();
                proof {
                    lemma_grants_update(self.access_grants@, i as int, grant);
                }
                self.access_grants.set(i, grant);
                res
            },
        }
    }

    /// The registry commitment: SHA-256 over its tag, the next offer id and
    /// every offer, asset (with its leaf) and grant (with its leaf), each
    /// list in id order.
    pub fn root(&self) -> (h: [u8; 32])
        ensures
            h@ == spec_sha256(registry_preimage(*self)),
    {
        let mut buf: Vec<u8> = Vec::new();
        extend_bytes(&mut buf, "BDLM_MARKETPLACE_REGISTRY_V2".as_bytes());
        let nb = u64_le_bytes(self.next_offer_id);
        extend_bytes(&mut buf, nb.as_slice());
        let ghost head = buf@;
        let mut i: usize = 0;
        assert(self.offers@.subrange(0, 0) =~= Seq::<DataOffer>::empty());
        while i < self.offers.len()
            invariant
                0 <= i <= self.offers@.len(),
                buf@ == head + offers_bytes(self.offers@.subrange(0, i as int)),
            decreases self.offers@.len() - i,
        {
            let o: DataOffer = self.offers[i];
            extend_bytes(&mut buf, "offer".as_bytes());
            let ib = u64_le_bytes(o.id);
            extend_bytes(&mut buf, ib.as_slice());
            extend_bytes(&mut buf, o.seller.as_bytes());
            extend_bytes(&mut buf, &o.cid.0);
            let pb = u64_le_bytes(o.price);
            extend_bytes(&mut buf, pb.as_slice());
            buf.push(if o.active { 1u8 } else { 0u8 });
            proof {
                let p = self.offers@.subrange(0, i + 1);
                assert(p.drop_last() =~= self.offers@.subrange(0, i as int));
                assert(p.last() == o);
                assert(buf@ =~= head + offers_bytes(p));
            }
            i = i + 1;
        }
        assert(self.offers@.subrange(0, self.offers@.len() as int) =~= self.offers@);
        let ghost head2 = buf@;
        let mut j: usize = 0;
        assert(self.data_assets@.subrange(0, 0) =~= Seq::<DataAsset>::empty());
        while j < self.data_assets.len()
            invariant
                0 <= j <= self.data_assets@.len(),
                buf@ == head2 + assets_bytes(self.data_assets@.subrange(0, j as int)),
            decreases self.data_assets@.len() - j,
        {
            let a: DataAsset = self.data_assets[j];
            extend_bytes(&mut buf, "asset".as_bytes());
            extend_bytes(&mut buf, &a.asset_id.0);
            let leaf = a.calculate_leaf();
            extend_bytes(&mut buf, &leaf);
            proof {
                let p = self.data_assets@.subrange(0, j + 1);
                assert(p.drop_last() =~= self.data_assets@.subrange(0, j as int));
                assert(p.last() == a);
                assert(buf@ =~= head2 + assets_bytes(p));
            }
            j = j + 1;
        }
        assert(self.data_assets@.subrange(0, self.data_assets@.len() as int) =~= self.data_assets@);
        let ghost head3 = buf@;
        let mut k: usize = 0;
        assert(self.access_grants@.subrange(0, 0) =~= Seq::<AccessGrant>::empty());
        while k < self.access_grants.len()
            invariant
                0 <= k <= self.access_grants@.len(),
                buf@ == head3 + grants_bytes(self.access_grants@.subrange(0, k as int)),
            decreases self.access_grants@.len() - k,
        {
            let g: AccessGrant = self.access_grants[k];
            extend_bytes(&mut buf, "grant".as_bytes());
            extend_bytes(&mut buf, &g.grant_id.0);
            let leaf = g.calculate_leaf();
            extend_bytes(&mut buf, &leaf);
            proof {
                let p = self.access_grants@.subrange(0, k + 1);
                assert(p.drop_last() =~= self.access_grants@.subrange(0, k as int));
                assert(p.last() == g);
                assert(buf@ =~= head3 + grants_bytes(p));
            }
            k = k + 1;
        }
        assert(self.access_grants@.subrange(0, self.access_grants@.len() as int) =~= self.access_grants@);
        assert(buf@ =~= registry_preimage(*self));
        sha256(buf.as_slice())
    }
}

impl Default for MarketplaceRegistry {
    fn default() -> (r: Self)
        ensures
            r.offers@.len() == 0,
            r.next_offer_id == 0,
            r.data_assets@.len() == 0,
            r.access_grants@.len() == 0,
    {
        Self::new()
    }
}

/// Default deny: the AI read gate admits a Pollen reference only when the
/// named grant exists, belongs to the named asset's owner, and is active for
/// the requester at that block.
pub proof fn law_ai_read_needs_active_grant(
    assets: Seq<DataAsset>,
    grants: Seq<AccessGrant>,
    input_ref: Seq<u8>,
    requester: Seq<u8>,
    block: u64,
)
    requires
        spec_ai_read(assets, grants, input_ref, requester, block) matches Ok(Some(_)),
    ensures
        spec_decode_ref(input_ref) matches Ok(Some((a, g))) && grant_index(grants, g) matches Some(gi)
            && grant_active_for(grants[gi], requester, block) && grants[gi].asset_id.0@ == a,
{
}

/// The AI read gate admits a Pollen reference only for a registered data asset
/// that is still active: a revoked asset is never read, whatever grant is
/// presented, and the grant admitted is the one named, issued by the asset's
/// owner.
#[verifier::rlimit(40)]
pub proof fn law_ai_read_needs_active_asset(
    assets: Seq<DataAsset>,
    grants: Seq<AccessGrant>,
    input_ref: Seq<u8>,
    requester: Seq<u8>,
    block: u64,
)
    requires
        spec_ai_read(assets, grants, input_ref, requester, block) matches Ok(Some(_)),
    ensures
        ({
            &&& spec_decode_ref(input_ref) matches Ok(Some((a, g)))
            &&& asset_index(assets, a) matches Some(ai)
            &&& 0 <= ai < assets.len()
            &&& assets[ai].asset_id.0@ == a
            &&& assets[ai].status == DataAssetStatus::Active
            &&& grant_index(grants, g) matches Some(gi)
            &&& 0 <= gi < grants.len()
            &&& grants[gi].grant_id.0@ == g
            &&& grants[gi].owner.0@ == assets[ai].owner.0@
            &&& spec_ai_read(assets, grants, input_ref, requester, block) == Ok::<Option<Seq<u8>>, Seq<char>>(Some(g))
        }),
{
    let d = spec_decode_ref(input_ref);
    let (aid, gid) = d->Ok_0->0;
    lemma_asset_index_some(assets, aid, asset_index(assets, aid)->0);
    lemma_grant_index_some(grants, gid, grant_index(grants, gid)->0);
}

proof fn lemma_asset_index_some(s: Seq<DataAsset>, id: Seq<u8>, i: int)
    requires
        asset_index(s, id) == Some(i),
    ensures
        0 <= i < s.len(),
        s[i].asset_id.0@ == id,
{
    let p = |a: DataAsset| a.asset_id.0@ == id;
    let w = choose|k: int| 0 <= k < s.len() && p(s[k]);
    lemma_least_witness(s, p, w);
}

proof fn lemma_grant_index_some(s: Seq<AccessGrant>, id: Seq<u8>, i: int)
    requires
        grant_index(s, id) == Some(i),
    ensures
        0 <= i < s.len(),
        s[i].grant_id.0@ == id,
{
    let p = |g: AccessGrant| g.grant_id.0@ == id;
    let w = choose|k: int| 0 <= k < s.len() && p(s[k]);
    lemma_least_witness(s, p, w);
}

/// A grant with one read left admits exactly one more read: after it is
/// consumed, it is no longer active for anyone.
pub proof fn law_last_read_exhausts_grant(g: AccessGrant, requester: Seq<u8>, block: u64, other: Seq<u8>, later: u64)
    requires
        grant_active_for(g, requester, block),
        g.reads_used + 1 == g.max_reads,
    ensures
        !grant_active_for(AccessGrant { reads_used: (g.reads_used + 1) as u32, ..g }, other, later),
{
}

} // verus!
