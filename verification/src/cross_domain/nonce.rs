//! Replay protection for cross-domain messages: per-route outbound nonces and
//! the bounded set of processed message ids.
use vstd::prelude::*;
use crate::core_types::address::Address;
use crate::core_types::hash::{
    field_views, fields_fit, frame_fields, hash_fields_bytes, le_bytes, lemma_byte_bounds, lemma_frame_injective,
    spec_hash_fields, spec_sha256, str_bytes, u32_le_bytes, u64_le_bytes,
};
use crate::core_types::merkle::{merkle_root, merkle_root_of, leaf_views};
use crate::core_types::order::{compare_bytes, lex_lt, lemma_lex_irreflexive, lemma_lex_transitive, lemma_lex_total, lemma_lex_asymmetric};

verus! {

pub type DomainId = u32;

pub type MessageId = [u8; 32];

/// Most processed message ids retained; beyond it the oldest ids are pruned
/// so the store cannot grow without bound.
pub const MAX_PROCESSED_MESSAGES: usize = 65_536;

/// One outbound route and the next nonce it will hand out.
#[derive(Debug, Clone, Copy)]
pub struct NonceEntry {
    pub source: DomainId,
    pub target: DomainId,
    pub sender: Address,
    pub nonce: u64,
}

/// The key of an outbound route.
pub type RouteKey = (u32, u32, Seq<u8>);

pub open spec fn route_key(e: NonceEntry) -> RouteKey {
    (e.source, e.target, e.sender.0@)
}

/// Route order: by source domain, then target domain, then sender bytes.
pub open spec fn route_lt(a: RouteKey, b: RouteKey) -> bool {
    a.0 < b.0 || (a.0 == b.0 && (a.1 < b.1 || (a.1 == b.1 && lex_lt(a.2, b.2))))
}

proof fn lemma_route_transitive(a: RouteKey, b: RouteKey, c: RouteKey)
    requires
        route_lt(a, b),
        route_lt(b, c),
    ensures
        route_lt(a, c),
{
    if a.0 == b.0 && b.0 == c.0 && a.1 == b.1 && b.1 == c.1 {
        lemma_lex_transitive(a.2, b.2, c.2);
    }
}

proof fn lemma_route_irreflexive(a: RouteKey)
    ensures
        !route_lt(a, a),
{
    lemma_lex_irreflexive(a.2);
}

#[derive(Debug, Clone)]
pub struct ReplayNonceStore {
    outbound_nonces: Vec<NonceEntry>,
    processed_messages: Vec<MessageId>,
    /// The processed ids in the order they were admitted, oldest first.
    arrivals: Vec<MessageId>,
}

/// Strictly increasing route keys.
pub open spec fn routes_sorted(s: Seq<NonceEntry>) -> bool {
    forall|i: int, j: int| 0 <= i < j < s.len() ==> route_lt(route_key(s[i]), route_key(s[j]))
}

/// Strictly increasing message ids.
pub open spec fn ids_sorted(s: Seq<MessageId>) -> bool {
    forall|i: int, j: int| 0 <= i < j < s.len() ==> lex_lt(s[i]@, s[j]@)
}

pub open spec fn has_route(s: Seq<NonceEntry>, k: RouteKey) -> bool {
    exists|i: int| 0 <= i < s.len() && route_key(s[i]) == k
}

/// The nonce map denoted by a sorted entry list.
pub open spec fn route_map(s: Seq<NonceEntry>) -> Map<RouteKey, u64> {
    Map::new(
        |k: RouteKey| has_route(s, k),
        |k: RouteKey| s[choose|i: int| 0 <= i < s.len() && route_key(s[i]) == k].nonce,
    )
}

/// The id set denoted by a sorted id list.
/// No id occurs twice.
pub open spec fn ids_distinct(s: Seq<MessageId>) -> bool {
    forall|i: int, j: int| 0 <= i < j < s.len() ==> s[i]@ != s[j]@
}

/// The ids as byte strings.
pub open spec fn ids_view(s: Seq<MessageId>) -> Seq<Seq<u8>> {
    s.map_values(|m: MessageId| m@)
}

pub open spec fn id_set(s: Seq<MessageId>) -> Set<Seq<u8>> {
    Set::new(|m: Seq<u8>| exists|i: int| 0 <= i < s.len() && s[i]@ == m)
}

pub open spec fn sat_inc(n: u64) -> u64 {
    if n == u64::MAX {
        u64::MAX
    } else {
        (n + 1) as u64
    }
}

proof fn lemma_route_map_at(s: Seq<NonceEntry>, i: int)
    requires
        routes_sorted(s),
        0 <= i < s.len(),
    ensures
        route_map(s).contains_key(route_key(s[i])),
        route_map(s)[route_key(s[i])] == s[i].nonce,
{
    let k = route_key(s[i]);
    assert(has_route(s, k));
    let j = choose|j: int| 0 <= j < s.len() && route_key(s[j]) == k;
    if j != i {
        if j < i {
            assert(route_lt(route_key(s[j]), route_key(s[i])));
        } else {
            assert(route_lt(route_key(s[i]), route_key(s[j])));
        }
        lemma_route_irreflexive(k);
    }
}

impl ReplayNonceStore {
    /// The store's invariant: both lists strictly sorted, at most
    /// `MAX_PROCESSED_MESSAGES` ids, and the arrival order lists exactly the
    /// processed ids, each once.
    pub closed spec fn wf(&self) -> bool {
        &&& routes_sorted(self.outbound_nonces@)
        &&& ids_sorted(self.processed_messages@)
        &&& self.processed_messages@.len() <= MAX_PROCESSED_MESSAGES
        &&& self.arrivals@.len() == self.processed_messages@.len()
        &&& ids_distinct(self.arrivals@)
        &&& id_set(self.arrivals@) == id_set(self.processed_messages@)
    }

    /// The processed ids in the order they were admitted, oldest first.
    pub closed spec fn arrival_order(&self) -> Seq<Seq<u8>> {
        ids_view(self.arrivals@)
    }

    /// The outbound nonce of every route that has sent a message.
    pub closed spec fn nonces(&self) -> Map<RouteKey, u64> {
        route_map(self.outbound_nonces@)
    }

    /// The processed message ids.
    pub closed spec fn processed(&self) -> Set<Seq<u8>> {
        id_set(self.processed_messages@)
    }

    /// The processed ids in ascending order.
    pub closed spec fn processed_seq(&self) -> Seq<MessageId> {
        self.processed_messages@
    }

    pub fn new() -> (s: Self)
        ensures
            s.wf(),
            s.nonces() == Map::<RouteKey, u64>::empty(),
            s.processed() == Set::<Seq<u8>>::empty(),
            s.arrival_order() == Seq::<Seq<u8>>::empty(),
    {
        let s = ReplayNonceStore { outbound_nonces: Vec::new(), processed_messages: Vec::new(), arrivals: Vec::new() };
        assert(id_set(s.arrivals@) =~= id_set(s.processed_messages@));
        assert(s.arrival_order() =~= Seq::<Seq<u8>>::empty());
        assert(s.nonces() =~= Map::<RouteKey, u64>::empty());
        assert(s.processed() =~= Set::<Seq<u8>>::empty());
        s
    }

    /// Hand out the next outbound nonce of a route (0 for a new route) and
    /// advance it (saturating).
    pub fn next_nonce(&mut self, source_domain: DomainId, target_domain: DomainId, sender: Address) -> (n: u64)
        requires
            old(self).wf(),
        ensures
            final(self).wf(),
            n == (if old(self).nonces().contains_key((source_domain, target_domain, sender.0@)) {
                old(self).nonces()[(source_domain, target_domain, sender.0@)]
            } else {
                0
            }),
            final(self).nonces() == old(self).nonces().insert(
                (source_domain, target_domain, sender.0@),
                sat_inc(n),
            ),
            final(self).processed() == old(self).processed(),
            final(self).processed_seq() == old(self).processed_seq(),
            final(self).arrival_order() == old(self).arrival_order(),
    {
        let ghost k: RouteKey = (source_domain, target_domain, sender.0@);
        let ghost old_s = self.outbound_nonces@;
        let mut i: usize = 0;
        let len: usize = self.outbound_nonces.len();
        let mut stop: bool = false;
        // Find the first entry whose key is not below `k`.
        while i < len && !stop
            invariant
                0 <= i <= len,
                len == self.outbound_nonces@.len(),
                self.outbound_nonces@ == old_s,
                k == (source_domain, target_domain, sender.0@),
                forall|j: int| 0 <= j < i ==> route_lt(route_key(old_s[j]), k),
                stop ==> i < len && !route_lt(route_key(old_s[i as int]), k),
            decreases len - i + (if stop { 0int } else { 1int }),
        {
            let e: NonceEntry = self.outbound_nonces[i];
            assert(e == old_s[i as int]);
            let c: i8 = if e.source < source_domain {
                -1
            } else if e.source > source_domain {
                1
            } else if e.target < target_domain {
                -1
            } else if e.target > target_domain {
                1
            } else {
                compare_bytes(e.sender.as_bytes(), sender.as_bytes())
            };
            if c != -1 {
                proof {
                    if c == 1 && e.source == source_domain && e.target == target_domain {
                        lemma_lex_asymmetric(sender.0@, e.sender.0@);
                    }
                    if c == 0 {
                        lemma_lex_irreflexive(sender.0@);
                    }
                }
                assert(!route_lt(route_key(e), k));
                stop = true;
            } else {
                assert(route_lt(route_key(e), k));
                i = i + 1;
            }
        }
        proof {
            if i < len {
                let ki = route_key(old_s[i as int]);
                lemma_lex_total(ki.2, k.2);
            }
        }
        let found: bool = if i < len {
            let e: NonceEntry = self.outbound_nonces[i];
            e.source == source_domain && e.target == target_domain && e.sender == sender
        } else {
            false
        };
        if found {
            // Existing route: bump it in place.
            let e: NonceEntry = self.outbound_nonces[i];
            let nonce: u64 = e.nonce;
            let updated = NonceEntry { source: e.source, target: e.target, sender: e.sender, nonce: nonce.saturating_add(1) };
            self.outbound_nonces.set(i, updated);
            proof {
                let s = self.outbound_nonces@;
                assert(route_key(s[i as int]) == k);
                lemma_route_map_at(old_s, i as int);
                assert forall|a: int, b: int| 0 <= a < b < s.len() implies route_lt(route_key(s[a]), route_key(s[b])) by {
                    assert(route_key(s[a]) == route_key(old_s[a]));
                    assert(route_key(s[b]) == route_key(old_s[b]));
                }
                assert forall|kk: RouteKey| #[trigger] has_route(s, kk) == has_route(old_s, kk) by {
                    if has_route(s, kk) {
                        let j = choose|j: int| 0 <= j < s.len() && route_key(s[j]) == kk;
                        assert(route_key(old_s[j]) == kk);
                    }
                    if has_route(old_s, kk) {
                        let j = choose|j: int| 0 <= j < old_s.len() && route_key(old_s[j]) == kk;
                        assert(route_key(s[j]) == kk);
                    }
                }
                assert forall|kk: RouteKey| #[trigger] route_map(s).contains_key(kk) implies route_map(s)[kk] == (if kk == k { sat_inc(nonce) } else { route_map(old_s)[kk] }) by {
                    let j = choose|j: int| 0 <= j < s.len() && route_key(s[j]) == kk;
                    lemma_route_map_at(s, j);
                    if kk != k {
                        assert(j != i);
                        lemma_route_map_at(old_s, j);
                    } else {
                        if j != i {
                            lemma_route_map_at(s, i as int);
                        }
                    }
                }
                assert(route_map(s) =~= route_map(old_s).insert(k, sat_inc(nonce)));
            }
            nonce
        } else {
            // New route: insert it at its sorted position with nonce 1.
            let entry = NonceEntry { source: source_domain, target: target_domain, sender, nonce: 1 };
            proof {
                assert(!has_route(old_s, k)) by {
                    if has_route(old_s, k) {
                        let j = choose|j: int| 0 <= j < old_s.len() && route_key(old_s[j]) == k;
                        if j < i {
                            lemma_route_irreflexive(k);
                        } else {
                            let ki = route_key(old_s[i as int]);
                            // ki is not below k and not equal to it, so it is above k
                            assert(route_lt(k, ki));
                            if j > i {
                                lemma_route_transitive(k, ki, route_key(old_s[j]));
                            }
                            lemma_route_irreflexive(k);
                        }
                    }
                }
            }
            self.outbound_nonces.insert(i, entry);
            proof {
                let s = self.outbound_nonces@;
                assert(route_key(s[i as int]) == k);
                assert forall|a: int, b: int| 0 <= a < b < s.len() implies route_lt(route_key(s[a]), route_key(s[b])) by {
                    if b < i {
                    } else if b == i {
                    } else if a < i {
                        // s[a] = old_s[a] < k, s[b] = old_s[b-1] >= old_s[i] > k
                        if b - 1 > i {
                            lemma_route_transitive(k, route_key(old_s[i as int]), route_key(old_s[b - 1]));
                        }
                        lemma_route_transitive(route_key(old_s[a]), k, route_key(old_s[b - 1]));
                    } else if a == i {
                        if b - 1 > i {
                            lemma_route_transitive(k, route_key(old_s[i as int]), route_key(old_s[b - 1]));
                        }
                    } else {
                    }
                }
                assert forall|kk: RouteKey| #[trigger] has_route(s, kk) == (has_route(old_s, kk) || kk == k) by {
                    if has_route(s, kk) {
                        let j = choose|j: int| 0 <= j < s.len() && route_key(s[j]) == kk;
                        if j < i {
                            assert(route_key(old_s[j]) == kk);
                        } else if j > i {
                            assert(route_key(old_s[j - 1]) == kk);
                        }
                    }
                    if has_route(old_s, kk) {
                        let j = choose|j: int| 0 <= j < old_s.len() && route_key(old_s[j]) == kk;
                        if j < i {
                            assert(route_key(s[j]) == kk);
                        } else {
                            assert(route_key(s[j + 1]) == kk);
                        }
                    }
                }
                assert forall|kk: RouteKey| #[trigger] route_map(s).contains_key(kk) implies route_map(s)[kk] == (if kk == k { 1u64 } else { route_map(old_s)[kk] }) by {
                    let j = choose|j: int| 0 <= j < s.len() && route_key(s[j]) == kk;
                    lemma_route_map_at(s, j);
                    if j < i {
                        lemma_route_map_at(old_s, j);
                    } else if j > i {
                        lemma_route_map_at(old_s, j - 1);
                    }
                }
                assert(route_map(s) =~= route_map(old_s).insert(k, sat_inc(0)));
            }
            0
        }
    }

    /// The routes in ascending key order.
    pub closed spec fn routes(&self) -> Seq<NonceEntry> {
        self.outbound_nonces@
    }

    /// Record a processed message id. A replayed id is rejected and leaves the
    /// store unchanged; otherwise the id is added and, at capacity, the
    /// oldest admitted id is pruned.
    pub fn mark_processed(&mut self, message_id: MessageId) -> (r: Result<(), String>)
        requires
            old(self).wf(),
        ensures
            final(self).wf(),
            old(self).processed().contains(message_id@) <==> r is Err,
            r matches Err(e) ==> e@ == "Cross-domain message was already processed"@
                && final(self).processed() == old(self).processed()
                && final(self).processed_seq() == old(self).processed_seq()
                && final(self).arrival_order() == old(self).arrival_order(),
            r is Ok ==> final(self).processed() == admit_id(old(self).processed(), old(self).arrival_order(), message_id@)
                && final(self).arrival_order() == admitted_order(old(self).arrival_order(), message_id@),
            final(self).nonces() == old(self).nonces(),
            final(self).routes() == old(self).routes(),
    {
        let ghost old_s = self.processed_messages@;
        let ghost id = message_id@;
        proof {
            lemma_id_set_len(old_s);
        }
        let len: usize = self.processed_messages.len();
        // Binary search for the first id not below `message_id`.
        let mut lo: usize = 0;
        let mut hi: usize = len;
        while lo < hi
            invariant
                0 <= lo <= hi <= len,
                len == self.processed_messages@.len(),
                self.processed_messages@ == old_s,
                id == message_id@,
                ids_sorted(old_s),
                forall|j: int| 0 <= j < lo ==> lex_lt(#[trigger] old_s[j]@, id),
                forall|j: int| hi <= j < len ==> !lex_lt(#[trigger] old_s[j]@, id),
            decreases hi - lo,
        {
            let mid: usize = lo + (hi - lo) / 2;
            let c: i8 = compare_bytes(&self.processed_messages[mid], &message_id);
            if c == -1 {
                proof {
                    assert forall|j: int| 0 <= j <= mid implies lex_lt(#[trigger] old_s[j]@, id) by {
                        if j < mid {
                            lemma_lex_transitive(old_s[j]@, old_s[mid as int]@, id);
                        }
                    }
                }
                lo = mid + 1;
            } else {
                proof {
                    assert forall|j: int| mid <= j < len implies !lex_lt(#[trigger] old_s[j]@, id) by {
                        if j > mid && lex_lt(old_s[j]@, id) {
                            lemma_lex_transitive(old_s[mid as int]@, old_s[j]@, id);
                        }
                    }
                }
                hi = mid;
            }
        }
        let i: usize = lo;
        let dup: bool = i < len && compare_bytes(&self.processed_messages[i], &message_id) == 0;
        if dup {
            proof {
                assert(id_set(old_s).contains(id));
            }
            return Err("Cross-domain message was already processed".to_owned());
        }
        proof {
            if i < len {
                lemma_lex_total(old_s[i as int]@, id);
            }
            assert(!id_set(old_s).contains(id)) by {
                if id_set(old_s).contains(id) {
                    let j = choose|j: int| 0 <= j < old_s.len() && old_s[j]@ == id;
                    if j < i {
                        lemma_lex_irreflexive(id);
                    } else {
                        if j > i {
                            lemma_lex_transitive(id, old_s[i as int]@, old_s[j]@);
                        }
                        lemma_lex_irreflexive(id);
                    }
                }
            }
        }
        self.processed_messages.insert(i, message_id);
        let ghost ins_s = self.processed_messages@;
        proof {
            assert forall|a: int, b: int| 0 <= a < b < ins_s.len() implies lex_lt(ins_s[a]@, ins_s[b]@) by {
                if b < i {
                } else if b == i {
                } else if a < i {
                    if b - 1 > i {
                        lemma_lex_transitive(id, old_s[i as int]@, old_s[b - 1]@);
                    }
                    lemma_lex_transitive(old_s[a]@, id, old_s[b - 1]@);
                } else if a == i {
                    if b - 1 > i {
                        lemma_lex_transitive(id, old_s[i as int]@, old_s[b - 1]@);
                    }
                } else {
                }
            }
            assert(id_set(ins_s) =~= id_set(old_s).insert(id)) by {
                assert forall|m: Seq<u8>| #[trigger] id_set(ins_s).contains(m) implies id_set(old_s).insert(id).contains(m) by {
                    let j = choose|j: int| 0 <= j < ins_s.len() && ins_s[j]@ == m;
                    if j < i {
                        assert(old_s[j]@ == m);
                    } else if j > i {
                        assert(old_s[j - 1]@ == m);
                    }
                }
                assert forall|m: Seq<u8>| #[trigger] id_set(old_s).insert(id).contains(m) implies id_set(ins_s).contains(m) by {
                    if m == id {
                        assert(ins_s[i as int]@ == m);
                    } else {
                        let j = choose|j: int| 0 <= j < old_s.len() && old_s[j]@ == m;
                        if j < i {
                            assert(ins_s[j]@ == m);
                        } else {
                            assert(ins_s[j + 1]@ == m);
                        }
                    }
                }
            }
            lemma_id_set_len(ins_s);
        }
        let ghost old_a = self.arrivals@;
        proof {
            lemma_sorted_distinct(ins_s);
            assert(id_set(old_a) == id_set(old_s));
        }
        if self.processed_messages.len() > MAX_PROCESSED_MESSAGES {
            let oldest: MessageId = self.arrivals.remove(0);
            proof {
                assert(old_a.len() > 0);
                assert(oldest == old_a[0]);
                assert(id_set(old_a).contains(oldest@)) by {
                    assert(old_a[0]@ == oldest@);
                }
                assert(id_set(ins_s).contains(oldest@));
            }
            let k: usize = Self::index_of_id(&self.processed_messages, &oldest);
            self.processed_messages.remove(k);
            proof {
                lemma_remove_sorted(ins_s, k as int);
                lemma_remove_distinct(ins_s, k as int);
                lemma_remove_distinct(old_a, 0);
                assert(old_a.remove(0) =~= old_a.drop_first());
                assert(oldest@ != id);
            }
        }
        let ghost mid_a = self.arrivals@;
        proof {
            assert(!id_set(mid_a).contains(id));
        }
        self.arrivals.push(message_id);
        proof {
            lemma_push_distinct(mid_a, message_id);
            lemma_id_set_len(old_s);
            let fin = self.processed_messages@;
            assert(id_set(self.arrivals@) =~= id_set(fin));
            assert(ids_view(self.arrivals@) =~= admitted_order(ids_view(old_a), id));
            assert(id_set(fin) =~= admit_id(id_set(old_s), ids_view(old_a), id));
        }
        Ok(())
    }

    /// The position of an id that the list holds.
    fn index_of_id(ids: &Vec<MessageId>, m: &MessageId) -> (k: usize)
        requires
            id_set(ids@).contains(m@),
        ensures
            k < ids@.len(),
            ids@[k as int]@ == m@,
    {
        let ghost w = choose|j: int| 0 <= j < ids@.len() && ids@[j]@ == m@;
        let mut k: usize = 0;
        while k < ids.len()
            invariant
                0 <= k <= ids@.len(),
                0 <= w < ids@.len(),
                ids@[w]@ == m@,
                forall|j: int| 0 <= j < k ==> ids@[j]@ != m@,
            decreases ids@.len() - k,
        {
            if compare_bytes(&ids[k], m) == 0 {
                return k;
            }
            k = k + 1;
        }
        assert(ids@[w]@ != m@);
        0
    }

    /// Drop the oldest admitted ids while the store exceeds its capacity. A
    /// well-formed store never exceeds it (`mark_processed` prunes as it
    /// admits), so the store is left as it is.
    pub fn prune_processed(&mut self)
        requires
            old(self).wf(),
        ensures
            final(self).wf(),
            final(self).processed() == old(self).processed(),
            final(self).processed_seq() == old(self).processed_seq(),
            final(self).arrival_order() == old(self).arrival_order(),
            final(self).nonces() == old(self).nonces(),
            final(self).routes() == old(self).routes(),
    {
        while self.processed_messages.len() > MAX_PROCESSED_MESSAGES && self.arrivals.len() > 0
            invariant
                self.wf(),
                *self == *old(self),
            decreases self.arrivals@.len(),
        {
            let oldest: MessageId = self.arrivals.remove(0);
            let k: usize = Self::index_of_id(&self.processed_messages, &oldest);
            self.processed_messages.remove(k);
        }
    }

    /// Merkle commitment to the store: one leaf per route (ascending), then one
    /// per processed id (ascending).
    pub fn root(&self) -> (r: [u8; 32])
        requires
            self.wf(),
        ensures
            r@ == merkle_root(store_leaves(self.routes(), self.processed_seq())),
    {
        let mut leaves: Vec<[u8; 32]> = Vec::new();
        let mut i: usize = 0;
        let n: usize = self.outbound_nonces.len();
        while i < n
            invariant
                0 <= i <= n,
                n == self.outbound_nonces@.len(),
                leaf_views(leaves@) == Seq::new(i as nat, |j: int| route_leaf(self.outbound_nonces@[j])),
            decreases n - i,
        {
            let e: NonceEntry = self.outbound_nonces[i];
            let tag: &[u8] = "BDLM_NONCE_LEAF_V1".as_bytes();
            let src = u32_le_bytes(e.source);
            let tgt = u32_le_bytes(e.target);
            let nonce = u64_le_bytes(e.nonce);
            let fields: [&[u8]; 5] = [tag, src.as_slice(), tgt.as_slice(), e.sender.as_bytes(), nonce.as_slice()];
            let h = hash_fields_bytes(&fields);
            proof {
                assert(field_views(fields@) =~= seq![
                    str_bytes("BDLM_NONCE_LEAF_V1"),
                    le_bytes(e.source as nat, 4),
                    le_bytes(e.target as nat, 4),
                    e.sender.0@,
                    le_bytes(e.nonce as nat, 8),
                ]);
            }
            assert(e == self.outbound_nonces@[i as int]);
            assert(h@ == route_leaf(e));
            let ghost prev = leaves@;
            leaves.push(h);
            assert(leaf_views(leaves@) =~= leaf_views(prev).push(h@));
            i = i + 1;
            assert(leaf_views(leaves@) =~= Seq::new(i as nat, |j: int| route_leaf(self.outbound_nonces@[j])));
        }
        let mut k: usize = 0;
        let m: usize = self.processed_messages.len();
        while k < m
            invariant
                0 <= k <= m,
                m == self.processed_messages@.len(),
                n == self.outbound_nonces@.len(),
                leaf_views(leaves@) == Seq::new(n as nat, |j: int| route_leaf(self.outbound_nonces@[j]))
                    + Seq::new(k as nat, |j: int| id_leaf(self.processed_messages@[j])),
            decreases m - k,
        {
            let tag: &[u8] = "BDLM_PROCESSED_MESSAGE_LEAF_V1".as_bytes();
            let fields: [&[u8]; 2] = [tag, &self.processed_messages[k]];
            let h = hash_fields_bytes(&fields);
            proof {
                assert(field_views(fields@) =~= seq![
                    str_bytes("BDLM_PROCESSED_MESSAGE_LEAF_V1"),
                    self.processed_messages@[k as int]@,
                ]);
            }
            assert(h@ == id_leaf(self.processed_messages@[k as int]));
            let ghost prev = leaves@;
            leaves.push(h);
            assert(leaf_views(leaves@) =~= leaf_views(prev).push(h@));
            k = k + 1;
            assert(leaf_views(leaves@) =~= Seq::new(n as nat, |j: int| route_leaf(self.outbound_nonces@[j]))
                + Seq::new(k as nat, |j: int| id_leaf(self.processed_messages@[j])));
        }
        merkle_root_of(leaves)
    }

    /// The number of processed message ids currently stored.
    pub fn processed_count(&self) -> (n: usize)
        requires
            self.wf(),
        ensures
            n == self.processed().len(),
    {
        proof {
            lemma_id_set_len(self.processed_messages@);
        }
        self.processed_messages.len()
    }

    pub fn is_processed(&self, message_id: &MessageId) -> (b: bool)
        requires
            self.wf(),
        ensures
            b == self.processed().contains(message_id@),
    {
        let mut i: usize = 0;
        while i < self.processed_messages.len()
            invariant
                0 <= i <= self.processed_messages@.len(),
                forall|j: int| 0 <= j < i ==> self.processed_messages@[j]@ != message_id@,
            decreases self.processed_messages@.len() - i,
        {
            if compare_bytes(&self.processed_messages[i], message_id) == 0 {
                return true;
            }
            i = i + 1;
        }
        false
    }
}

impl Default for ReplayNonceStore {
    fn default() -> (s: Self)
        ensures
            s.wf(),
            s.nonces() == Map::<RouteKey, u64>::empty(),
            s.processed() == Set::<Seq<u8>>::empty(),
    {
        Self::new()
    }
}

/// The processed set after admitting `id` into a store holding `before`,
/// admitted in the order `order`: the id is added, and if that exceeds the
/// capacity the oldest admitted id is dropped.
pub open spec fn admit_id(before: Set<Seq<u8>>, order: Seq<Seq<u8>>, id: Seq<u8>) -> Set<Seq<u8>> {
    let ins = before.insert(id);
    if before.len() < MAX_PROCESSED_MESSAGES {
        ins
    } else {
        ins.remove(order[0])
    }
}

/// The admission order after admitting `id`: it joins at the end, and at
/// capacity the oldest leaves.
pub open spec fn admitted_order(order: Seq<Seq<u8>>, id: Seq<u8>) -> Seq<Seq<u8>> {
    if order.len() < MAX_PROCESSED_MESSAGES {
        order.push(id)
    } else {
        order.drop_first().push(id)
    }
}

proof fn lemma_sorted_distinct(s: Seq<MessageId>)
    requires
        ids_sorted(s),
    ensures
        ids_distinct(s),
{
    assert forall|i: int, j: int| 0 <= i < j < s.len() implies s[i]@ != s[j]@ by {
        if s[i]@ == s[j]@ {
            lemma_lex_irreflexive(s[i]@);
        }
    }
}

proof fn lemma_remove_sorted(s: Seq<MessageId>, k: int)
    requires
        ids_sorted(s),
        0 <= k < s.len(),
    ensures
        ids_sorted(s.remove(k)),
{
    let t = s.remove(k);
    assert forall|a: int, b: int| 0 <= a < b < t.len() implies lex_lt(t[a]@, t[b]@) by {
        let a2 = if a < k { a } else { a + 1 };
        let b2 = if b < k { b } else { b + 1 };
        assert(t[a] == s[a2] && t[b] == s[b2]);
    }
}

/// Removing position `k` of a list without repeats removes exactly that id.
proof fn lemma_remove_distinct(s: Seq<MessageId>, k: int)
    requires
        ids_distinct(s),
        0 <= k < s.len(),
    ensures
        ids_distinct(s.remove(k)),
        id_set(s.remove(k)) == id_set(s).remove(s[k]@),
{
    let t = s.remove(k);
    assert forall|a: int, b: int| 0 <= a < b < t.len() implies t[a]@ != t[b]@ by {
        let a2 = if a < k { a } else { a + 1 };
        let b2 = if b < k { b } else { b + 1 };
        assert(t[a] == s[a2] && t[b] == s[b2]);
    }
    assert forall|m: Seq<u8>| #[trigger] id_set(t).contains(m) implies id_set(s).remove(s[k]@).contains(m) by {
        let j = choose|j: int| 0 <= j < t.len() && t[j]@ == m;
        let j2 = if j < k { j } else { j + 1 };
        assert(t[j] == s[j2]);
        assert(j2 != k);
    }
    assert forall|m: Seq<u8>| #[trigger] id_set(s).remove(s[k]@).contains(m) implies id_set(t).contains(m) by {
        let j = choose|j: int| 0 <= j < s.len() && s[j]@ == m;
        assert(j != k);
        if j < k {
            assert(t[j] == s[j]);
        } else {
            assert(t[j - 1] == s[j]);
        }
    }
    assert(id_set(t) =~= id_set(s).remove(s[k]@));
}

/// Appending a new id keeps a list without repeats and adds that id.
proof fn lemma_push_distinct(s: Seq<MessageId>, m: MessageId)
    requires
        ids_distinct(s),
        !id_set(s).contains(m@),
    ensures
        ids_distinct(s.push(m)),
        id_set(s.push(m)) == id_set(s).insert(m@),
{
    let t = s.push(m);
    assert forall|a: int, b: int| 0 <= a < b < t.len() implies t[a]@ != t[b]@ by {
        if b == s.len() {
            assert(t[a] == s[a]);
            assert(id_set(s).contains(s[a]@));
        } else {
            assert(t[a] == s[a] && t[b] == s[b]);
        }
    }
    assert forall|x: Seq<u8>| #[trigger] id_set(t).contains(x) implies id_set(s).insert(m@).contains(x) by {
        let j = choose|j: int| 0 <= j < t.len() && t[j]@ == x;
        if j < s.len() {
            assert(t[j] == s[j]);
        }
    }
    assert forall|x: Seq<u8>| #[trigger] id_set(s).insert(m@).contains(x) implies id_set(t).contains(x) by {
        if x == m@ {
            assert(t[s.len() as int]@ == x);
        } else {
            let j = choose|j: int| 0 <= j < s.len() && s[j]@ == x;
            assert(t[j] == s[j]);
        }
    }
    assert(id_set(t) =~= id_set(s).insert(m@));
}

/// Leaf committing one outbound route and its nonce.
pub open spec fn route_leaf(e: NonceEntry) -> Seq<u8> {
    spec_hash_fields(
        seq![
            str_bytes("BDLM_NONCE_LEAF_V1"),
            le_bytes(e.source as nat, 4),
            le_bytes(e.target as nat, 4),
            e.sender.0@,
            le_bytes(e.nonce as nat, 8),
        ],
    )
}

/// Leaf committing one processed message id.
pub open spec fn id_leaf(m: MessageId) -> Seq<u8> {
    spec_hash_fields(seq![str_bytes("BDLM_PROCESSED_MESSAGE_LEAF_V1"), m@])
}

pub open spec fn store_leaves(routes: Seq<NonceEntry>, ids: Seq<MessageId>) -> Seq<Seq<u8>> {
    Seq::new(routes.len(), |i: int| route_leaf(routes[i])) + Seq::new(
        ids.len(),
        |i: int| id_leaf(ids[i]),
    )
}

/// The nonce a route hands out next under a given nonce map.
pub open spec fn nonce_or_zero(m: Map<RouteKey, u64>, k: RouteKey) -> u64 {
    if m.contains_key(k) {
        m[k]
    } else {
        0
    }
}

/// A well-formed store never holds more than `MAX_PROCESSED_MESSAGES` ids.
pub proof fn law_processed_capacity(s: &ReplayNonceStore)
    requires
        s.wf(),
    ensures
        s.processed().len() <= MAX_PROCESSED_MESSAGES,
        s.processed().finite(),
{
    lemma_id_set_len(s.processed_messages@);
}

/// Replay protection: an admitted id is held by the store, at capacity too
/// (pruning drops the oldest id, never the one just admitted), so a second
/// `mark_processed` of it is rejected.
pub proof fn law_admitted_id_is_held(before: Set<Seq<u8>>, order: Seq<Seq<u8>>, id: Seq<u8>)
    requires
        !before.contains(id),
        before.len() >= MAX_PROCESSED_MESSAGES ==> order.len() > 0 && before.contains(order[0]),
    ensures
        admit_id(before, order, id).contains(id),
        admitted_order(order, id).last() == id,
{
}

/// A route list as keys and nonces.
pub open spec fn route_views(s: Seq<NonceEntry>) -> Seq<(RouteKey, u64)> {
    s.map_values(|e: NonceEntry| (route_key(e), e.nonce))
}

proof fn lemma_sorted_ids_unique(s1: Seq<MessageId>, s2: Seq<MessageId>)
    requires
        ids_sorted(s1),
        ids_sorted(s2),
        id_set(s1) == id_set(s2),
    ensures
        ids_view(s1) == ids_view(s2),
    decreases s1.len(),
{
    if s1.len() == 0 {
        if s2.len() > 0 {
            assert(id_set(s2).contains(s2[0]@));
        }
        assert(ids_view(s1) =~= ids_view(s2));
    } else {
        assert(id_set(s1).contains(s1[0]@));
        assert(id_set(s2).contains(s1[0]@));
        assert(s2.len() > 0);
        assert(id_set(s2).contains(s2[0]@));
        let a = s1[0]@;
        let b = s2[0]@;
        let i = choose|i: int| 0 <= i < s1.len() && s1[i]@ == b;
        let j = choose|j: int| 0 <= j < s2.len() && s2[j]@ == a;
        if a != b {
            assert(i != 0 && j != 0);
            assert(lex_lt(s1[0]@, s1[i]@));
            assert(lex_lt(s2[0]@, s2[j]@));
            lemma_lex_asymmetric(a, b);
        }
        lemma_sorted_distinct(s1);
        lemma_sorted_distinct(s2);
        lemma_remove_distinct(s1, 0);
        lemma_remove_distinct(s2, 0);
        lemma_remove_sorted(s1, 0);
        lemma_remove_sorted(s2, 0);
        assert(s1.remove(0) =~= s1.drop_first());
        assert(s2.remove(0) =~= s2.drop_first());
        lemma_sorted_ids_unique(s1.drop_first(), s2.drop_first());
        assert(ids_view(s1.drop_first()).len() == s1.len() - 1);
        assert(ids_view(s2.drop_first()).len() == s2.len() - 1);
        assert(s1.len() == s2.len());
        assert(ids_view(s1) =~= ids_view(s2)) by {
            assert forall|k: int| 0 <= k < s1.len() implies ids_view(s1)[k] == ids_view(s2)[k] by {
                if k > 0 {
                    assert(ids_view(s1)[k] == ids_view(s1.drop_first())[k - 1]);
                    assert(ids_view(s2)[k] == ids_view(s2.drop_first())[k - 1]);
                }
            }
        }
    }
}

proof fn lemma_route_drop_first(s: Seq<NonceEntry>)
    requires
        routes_sorted(s),
        s.len() > 0,
    ensures
        routes_sorted(s.drop_first()),
        route_map(s.drop_first()) == route_map(s).remove(route_key(s[0])),
{
    let t = s.drop_first();
    assert forall|a: int, b: int| 0 <= a < b < t.len() implies route_lt(route_key(t[a]), route_key(t[b])) by {
        assert(t[a] == s[a + 1] && t[b] == s[b + 1]);
    }
    assert forall|k: RouteKey| #[trigger] has_route(t, k) == (has_route(s, k) && k != route_key(s[0])) by {
        if has_route(t, k) {
            let j = choose|j: int| 0 <= j < t.len() && route_key(t[j]) == k;
            assert(s[j + 1] == t[j]);
            assert(route_lt(route_key(s[0]), route_key(s[j + 1])));
            if k == route_key(s[0]) {
                lemma_route_irreflexive(k);
            }
        }
        if has_route(s, k) && k != route_key(s[0]) {
            let j = choose|j: int| 0 <= j < s.len() && route_key(s[j]) == k;
            assert(j != 0);
            assert(t[j - 1] == s[j]);
        }
    }
    assert forall|k: RouteKey| #[trigger] route_map(t).contains_key(k) implies route_map(t)[k]
        == route_map(s).remove(route_key(s[0]))[k] by {
        let j = choose|j: int| 0 <= j < t.len() && route_key(t[j]) == k;
        lemma_route_map_at(t, j);
        assert(s[j + 1] == t[j]);
        lemma_route_map_at(s, j + 1);
    }
    assert(route_map(t) =~= route_map(s).remove(route_key(s[0])));
}

proof fn lemma_sorted_routes_unique(s1: Seq<NonceEntry>, s2: Seq<NonceEntry>)
    requires
        routes_sorted(s1),
        routes_sorted(s2),
        route_map(s1) == route_map(s2),
    ensures
        route_views(s1) == route_views(s2),
    decreases s1.len(),
{
    if s1.len() == 0 {
        if s2.len() > 0 {
            lemma_route_map_at(s2, 0);
            assert(has_route(s1, route_key(s2[0])));
        }
        assert(route_views(s1) =~= route_views(s2));
    } else {
        lemma_route_map_at(s1, 0);
        assert(has_route(s2, route_key(s1[0])));
        assert(s2.len() > 0);
        lemma_route_map_at(s2, 0);
        assert(has_route(s1, route_key(s2[0])));
        let a = route_key(s1[0]);
        let b = route_key(s2[0]);
        let i = choose|i: int| 0 <= i < s1.len() && route_key(s1[i]) == b;
        let j = choose|j: int| 0 <= j < s2.len() && route_key(s2[j]) == a;
        if a != b {
            assert(i != 0 && j != 0);
            assert(route_lt(a, route_key(s1[i])));
            assert(route_lt(b, route_key(s2[j])));
            lemma_route_transitive(a, b, a);
            lemma_route_irreflexive(a);
        }
        lemma_route_drop_first(s1);
        lemma_route_drop_first(s2);
        lemma_sorted_routes_unique(s1.drop_first(), s2.drop_first());
        assert(route_views(s1.drop_first()).len() == s1.len() - 1);
        assert(route_views(s2.drop_first()).len() == s2.len() - 1);
        assert(s1.len() == s2.len());
        assert(route_views(s1) =~= route_views(s2)) by {
            assert forall|k: int| 0 <= k < s1.len() implies route_views(s1)[k] == route_views(s2)[k] by {
                if k > 0 {
                    assert(route_views(s1)[k] == route_views(s1.drop_first())[k - 1]);
                    assert(route_views(s2)[k] == route_views(s2.drop_first())[k - 1]);
                } else {
                    assert(s1[0].nonce == route_map(s1)[a]);
                    assert(s2[0].nonce == route_map(s2)[b]);
                }
            }
        }
    }
}

/// The store's commitment depends only on what it holds: two well-formed
/// stores with the same route nonces and the same processed ids commit to
/// the same leaves, so `root` gives them the same root.
pub proof fn law_root_determined_by_contents(a: &ReplayNonceStore, b: &ReplayNonceStore)
    requires
        a.wf(),
        b.wf(),
        a.nonces() == b.nonces(),
        a.processed() == b.processed(),
    ensures
        store_leaves(a.routes(), a.processed_seq()) == store_leaves(b.routes(), b.processed_seq()),
{
    lemma_sorted_routes_unique(a.outbound_nonces@, b.outbound_nonces@);
    lemma_sorted_ids_unique(a.processed_messages@, b.processed_messages@);
    let ra = a.outbound_nonces@;
    let rb = b.outbound_nonces@;
    let pa = a.processed_messages@;
    let pb = b.processed_messages@;
    assert(ra.len() == route_views(ra).len());
    assert(pa.len() == ids_view(pa).len());
    assert forall|i: int| 0 <= i < ra.len() implies route_leaf(ra[i]) == route_leaf(rb[i]) by {
        assert(route_views(ra)[i] == route_views(rb)[i]);
    }
    assert forall|i: int| 0 <= i < pa.len() implies id_leaf(pa[i]) == id_leaf(pb[i]) by {
        assert(ids_view(pa)[i] == ids_view(pb)[i]);
    }
    assert(store_leaves(ra, pa) =~= store_leaves(rb, pb));
}

/// The bytes each store leaf hashes: `store_leaves` is SHA-256 of each.
pub open spec fn store_leaf_preimages(routes: Seq<NonceEntry>, ids: Seq<MessageId>) -> Seq<Seq<u8>> {
    Seq::new(
        routes.len(),
        |i: int|
            frame_fields(
                seq![
                    str_bytes("BDLM_NONCE_LEAF_V1"),
                    le_bytes(routes[i].source as nat, 4),
                    le_bytes(routes[i].target as nat, 4),
                    routes[i].sender.0@,
                    le_bytes(routes[i].nonce as nat, 8),
                ],
            ),
    ) + Seq::new(ids.len(), |i: int| frame_fields(seq![str_bytes("BDLM_PROCESSED_MESSAGE_LEAF_V1"), ids[i]@]))
}

/// Each leaf is the hash of its preimage.
pub proof fn lemma_leaves_hash_preimages(routes: Seq<NonceEntry>, ids: Seq<MessageId>)
    ensures
        store_leaves(routes, ids).len() == store_leaf_preimages(routes, ids).len(),
        forall|i: int| 0 <= i < store_leaves(routes, ids).len() ==> #[trigger] store_leaves(routes, ids)[i]
            == spec_sha256(store_leaf_preimages(routes, ids)[i]),
{
}

/// A change of the processed ids changes what the root commits to: two
/// well-formed stores with the same routes but different processed ids (as
/// before and after a `mark_processed` that admits an id) have different
/// leaf preimages, so their roots differ unless SHA-256 collides.
pub proof fn law_processed_ids_change_root_preimage(a: &ReplayNonceStore, b: &ReplayNonceStore)
    requires
        a.wf(),
        b.wf(),
        a.routes() == b.routes(),
        a.processed() != b.processed(),
    ensures
        store_leaf_preimages(a.routes(), a.processed_seq()) != store_leaf_preimages(b.routes(), b.processed_seq()),
{
    let r = a.routes();
    let pa = a.processed_messages@;
    let pb = b.processed_messages@;
    let la = store_leaf_preimages(r, pa);
    let lb = store_leaf_preimages(r, pb);
    if la == lb {
        broadcast use vstd::string::is_ascii_spec_bytes;
        reveal_strlit("BDLM_PROCESSED_MESSAGE_LEAF_V1");
        assert(vstd::string::is_ascii("BDLM_PROCESSED_MESSAGE_LEAF_V1"));
        lemma_byte_bounds();
        let n = r.len() as int;
        assert(la.len() == n + pa.len() && lb.len() == n + pb.len());
        assert(pa.len() == pb.len());
        assert forall|i: int| 0 <= i < pa.len() implies pa[i]@ == pb[i]@ by {
            let fa = seq![str_bytes("BDLM_PROCESSED_MESSAGE_LEAF_V1"), pa[i]@];
            let fb = seq![str_bytes("BDLM_PROCESSED_MESSAGE_LEAF_V1"), pb[i]@];
            assert(la[n + i] == frame_fields(fa));
            assert(lb[n + i] == frame_fields(fb));
            assert(fields_fit(fa));
            assert(fields_fit(fb));
            lemma_frame_injective(fa, fb);
            assert(fa[1] == fb[1]);
        }
        assert(id_set(pa) =~= id_set(pb)) by {
            assert forall|m: Seq<u8>| #[trigger] id_set(pa).contains(m) implies id_set(pb).contains(m) by {
                let j = choose|j: int| 0 <= j < pa.len() && pa[j]@ == m;
                assert(pb[j]@ == m);
            }
            assert forall|m: Seq<u8>| #[trigger] id_set(pb).contains(m) implies id_set(pa).contains(m) by {
                let j = choose|j: int| 0 <= j < pb.len() && pb[j]@ == m;
                assert(pa[j]@ == m);
            }
        }
    }
}

/// Route nonces strictly increase from one `next_nonce` to the next on the same
/// route (until they saturate at `u64::MAX`), and other routes are untouched.
pub proof fn law_route_nonce_increases(m: Map<RouteKey, u64>, k: RouteKey, other: RouteKey)
    ensures
        nonce_or_zero(m.insert(k, sat_inc(nonce_or_zero(m, k))), k) == sat_inc(nonce_or_zero(m, k)),
        nonce_or_zero(m, k) < u64::MAX ==> sat_inc(nonce_or_zero(m, k)) > nonce_or_zero(m, k),
        other != k ==> nonce_or_zero(m.insert(k, sat_inc(nonce_or_zero(m, k))), other)
            == nonce_or_zero(m, other),
{
}

proof fn lemma_id_set_len(s: Seq<MessageId>)
    requires
        ids_sorted(s),
    ensures
        id_set(s).finite(),
        id_set(s).len() == s.len(),
    decreases s.len(),
{
    if s.len() == 0 {
        assert(id_set(s) =~= Set::<Seq<u8>>::empty());
    } else {
        let d = s.drop_last();
        lemma_id_set_len(d);
        assert(id_set(s) =~= id_set(d).insert(s.last()@)) by {
            assert forall|m: Seq<u8>| #[trigger] id_set(s).contains(m) implies id_set(d).insert(s.last()@).contains(m) by {
                let i = choose|i: int| 0 <= i < s.len() && s[i]@ == m;
                if i < s.len() - 1 {
                    assert(d[i]@ == m);
                }
            }
            assert forall|m: Seq<u8>| #[trigger] id_set(d).contains(m) implies id_set(s).contains(m) by {
                let i = choose|i: int| 0 <= i < d.len() && d[i]@ == m;
                assert(s[i]@ == m);
            }
        }
        assert(!id_set(d).contains(s.last()@)) by {
            if id_set(d).contains(s.last()@) {
                let i = choose|i: int| 0 <= i < d.len() && d[i]@ == s.last()@;
                assert(lex_lt(s[i]@, s[s.len() - 1]@));
                lemma_lex_irreflexive(s.last()@);
            }
        }
    }
}

} // verus!
