//! A map keyed by address, kept as a list strictly sorted by address bytes.
//!
//! Because the order of the list is fixed by its keys, two maps with the same
//! contents hold the same list, whatever order the keys were inserted in; this
//! is what makes commitments computed from the list deterministic.
use vstd::prelude::*;
use crate::core_types::address::Address;
use crate::core_types::order::{compare_bytes, lex_lt, lemma_lex_irreflexive, lemma_lex_transitive, lemma_lex_total, lemma_lex_asymmetric};

verus! {

pub open spec fn key_of<V>(e: (Address, V)) -> Seq<u8> {
    e.0.0@
}

/// Strictly increasing keys.
pub open spec fn keys_sorted<V>(s: Seq<(Address, V)>) -> bool {
    forall|i: int, j: int| 0 <= i < j < s.len() ==> lex_lt(key_of(s[i]), key_of(s[j]))
}

pub open spec fn has_key<V>(s: Seq<(Address, V)>, k: Seq<u8>) -> bool {
    exists|i: int| 0 <= i < s.len() && key_of(s[i]) == k
}

/// The map a sorted entry list denotes.
pub open spec fn entries_map<V>(s: Seq<(Address, V)>) -> Map<Seq<u8>, V> {
    Map::new(
        |k: Seq<u8>| has_key(s, k),
        |k: Seq<u8>| s[choose|i: int| 0 <= i < s.len() && key_of(s[i]) == k].1,
    )
}

/// The entry list with each address taken by its bytes.
pub open spec fn entry_views<V>(s: Seq<(Address, V)>) -> Seq<(Seq<u8>, V)> {
    s.map_values(|e: (Address, V)| (e.0.0@, e.1))
}

pub proof fn lemma_entries_map_at<V>(s: Seq<(Address, V)>, i: int)
    requires
        keys_sorted(s),
        0 <= i < s.len(),
    ensures
        entries_map(s).contains_key(key_of(s[i])),
        entries_map(s)[key_of(s[i])] == s[i].1,
{
    let k = key_of(s[i]);
    assert(has_key(s, k));
    let j = choose|j: int| 0 <= j < s.len() && key_of(s[j]) == k;
    if j != i {
        lemma_lex_irreflexive(k);
    }
}

/// Dropping the least entry of a sorted list removes its key from the map.
proof fn lemma_drop_first_map<V>(s: Seq<(Address, V)>)
    requires
        keys_sorted(s),
        s.len() > 0,
    ensures
        keys_sorted(s.drop_first()),
        entries_map(s.drop_first()) == entries_map(s).remove(key_of(s[0])),
{
    let t = s.drop_first();
    let k0 = key_of(s[0]);
    assert forall|a: int, b: int| 0 <= a < b < t.len() implies lex_lt(key_of(t[a]), key_of(t[b])) by {
        assert(t[a] == s[a + 1] && t[b] == s[b + 1]);
    }
    assert forall|k: Seq<u8>| #[trigger] has_key(t, k) == (has_key(s, k) && k != k0) by {
        if has_key(t, k) {
            let j = choose|j: int| 0 <= j < t.len() && key_of(t[j]) == k;
            assert(key_of(s[j + 1]) == k);
            assert(lex_lt(k0, key_of(s[j + 1])));
            if k == k0 {
                lemma_lex_irreflexive(k);
            }
        }
        if has_key(s, k) && k != k0 {
            let j = choose|j: int| 0 <= j < s.len() && key_of(s[j]) == k;
            assert(j != 0);
            assert(key_of(t[j - 1]) == k);
        }
    }
    assert forall|k: Seq<u8>| #[trigger] entries_map(t).contains_key(k) implies entries_map(t)[k]
        == entries_map(s)[k] by {
        let j = choose|j: int| 0 <= j < t.len() && key_of(t[j]) == k;
        lemma_entries_map_at(t, j);
        lemma_entries_map_at(s, j + 1);
    }
    assert(entries_map(t) =~= entries_map(s).remove(k0));
}

/// The least key of a non-empty sorted list is the first.
proof fn lemma_first_is_least<V>(s: Seq<(Address, V)>, k: Seq<u8>)
    requires
        keys_sorted(s),
        s.len() > 0,
        has_key(s, k),
    ensures
        k == key_of(s[0]) || lex_lt(key_of(s[0]), k),
{
    let j = choose|j: int| 0 <= j < s.len() && key_of(s[j]) == k;
    if j > 0 {
        assert(lex_lt(key_of(s[0]), key_of(s[j])));
    }
}

/// Two sorted lists that denote the same map hold the same entries in the
/// same order.
pub proof fn lemma_sorted_entries_unique<V>(s1: Seq<(Address, V)>, s2: Seq<(Address, V)>)
    requires
        keys_sorted(s1),
        keys_sorted(s2),
        entries_map(s1) == entries_map(s2),
    ensures
        entry_views(s1) == entry_views(s2),
    decreases s1.len(),
{
    if s1.len() == 0 {
        if s2.len() > 0 {
            lemma_entries_map_at(s2, 0);
            assert(entries_map(s1).contains_key(key_of(s2[0])));
        }
        assert(entry_views(s1) =~= entry_views(s2));
    } else {
        lemma_entries_map_at(s1, 0);
        assert(entries_map(s2).contains_key(key_of(s1[0])));
        assert(s2.len() > 0);
        lemma_entries_map_at(s2, 0);
        let a = key_of(s1[0]);
        let b = key_of(s2[0]);
        assert(has_key(s1, b));
        assert(has_key(s2, a));
        lemma_first_is_least(s1, b);
        lemma_first_is_least(s2, a);
        if a != b {
            lemma_lex_asymmetric(a, b);
        }
        assert(a == b);
        lemma_drop_first_map(s1);
        lemma_drop_first_map(s2);
        lemma_sorted_entries_unique(s1.drop_first(), s2.drop_first());
        assert(entry_views(s1.drop_first()) =~= entry_views(s1).drop_first());
        assert(entry_views(s2.drop_first()) =~= entry_views(s2).drop_first());
        assert(entry_views(s1)[0] == entry_views(s2)[0]);
        assert(entry_views(s1) =~= entry_views(s2)) by {
            assert(entry_views(s1).len() == entry_views(s2).len());
            assert forall|i: int| 0 <= i < entry_views(s1).len() implies entry_views(s1)[i]
                == entry_views(s2)[i] by {
                if i > 0 {
                    assert(entry_views(s1)[i] == entry_views(s1).drop_first()[i - 1]);
                    assert(entry_views(s2)[i] == entry_views(s2).drop_first()[i - 1]);
                }
            }
        }
    }
}

/// Whether the map has a sorted listing (every map a well-formed
/// `AddressMap` holds has one).
pub open spec fn has_listing<V>(m: Map<Seq<u8>, V>) -> bool {
    exists|s: Seq<(Address, V)>| keys_sorted(s) && entries_map(s) == m
}

/// Removing an entry from a sorted list lists the map without its key.
pub proof fn lemma_remove_entry<V>(s: Seq<(Address, V)>, i: int)
    requires
        keys_sorted(s),
        0 <= i < s.len(),
    ensures
        keys_sorted(s.remove(i)),
        entries_map(s.remove(i)) == entries_map(s).remove(key_of(s[i])),
{
    let t = s.remove(i);
    let ki = key_of(s[i]);
    assert forall|a: int, b: int| 0 <= a < b < t.len() implies lex_lt(key_of(t[a]), key_of(t[b])) by {
        let a2 = if a < i { a } else { a + 1 };
        let b2 = if b < i { b } else { b + 1 };
        assert(t[a] == s[a2] && t[b] == s[b2]);
    }
    assert forall|k: Seq<u8>| #[trigger] has_key(t, k) == (has_key(s, k) && k != ki) by {
        if has_key(t, k) {
            let j = choose|j: int| 0 <= j < t.len() && key_of(t[j]) == k;
            let j2 = if j < i { j } else { j + 1 };
            assert(t[j] == s[j2]);
            assert(key_of(s[j2]) == k);
            if k == ki {
                if j2 < i {
                    assert(lex_lt(key_of(s[j2]), key_of(s[i])));
                } else {
                    assert(lex_lt(key_of(s[i]), key_of(s[j2])));
                }
                lemma_lex_irreflexive(k);
            }
        }
        if has_key(s, k) && k != ki {
            let j = choose|j: int| 0 <= j < s.len() && key_of(s[j]) == k;
            assert(j != i);
            let j2 = if j < i { j } else { j - 1 };
            assert(t[j2] == s[j]);
        }
    }
    assert forall|k: Seq<u8>| #[trigger] entries_map(t).contains_key(k) implies entries_map(t)[k]
        == entries_map(s)[k] by {
        let j = choose|j: int| 0 <= j < t.len() && key_of(t[j]) == k;
        let j2 = if j < i { j } else { j + 1 };
        assert(t[j] == s[j2]);
        lemma_entries_map_at(t, j);
        lemma_entries_map_at(s, j2);
    }
    assert(entries_map(t) =~= entries_map(s).remove(ki));
}

/// The sorted listing of a map is that of any sorted list denoting it.
pub proof fn lemma_sorted_entries_of<V>(s: Seq<(Address, V)>)
    requires
        keys_sorted(s),
    ensures
        has_listing(entries_map(s)),
        sorted_entries(entries_map(s)) == entry_views(s),
{
    let m = entries_map(s);
    assert(keys_sorted(s) && entries_map(s) == m);
    let c = choose|c: Seq<(Address, V)>| keys_sorted(c) && entries_map(c) == m;
    lemma_sorted_entries_unique(c, s);
}

/// The entries of a map in ascending address order: the one sorted list that
/// denotes it.
pub open spec fn sorted_entries<V>(m: Map<Seq<u8>, V>) -> Seq<(Seq<u8>, V)> {
    entry_views(choose|s: Seq<(Address, V)>| keys_sorted(s) && entries_map(s) == m)
}

#[derive(Debug, Clone)]
pub struct AddressMap<V> {
    entries: Vec<(Address, V)>,
}

impl<V> View for AddressMap<V> {
    type V = Map<Seq<u8>, V>;

    closed spec fn view(&self) -> Map<Seq<u8>, V> {
        entries_map(self.entries@)
    }
}

impl<V: Copy> AddressMap<V> {
    /// The invariant: keys strictly increasing.
    pub closed spec fn wf(&self) -> bool {
        keys_sorted(self.entries@)
    }

    /// The entries in ascending address order.
    pub closed spec fn entries_seq(&self) -> Seq<(Address, V)> {
        self.entries@
    }

    /// What the map holds, as a sorted list: the view and the list agree,
    /// and the list is strictly sorted.
    pub proof fn lemma_view_is_entries(&self)
        requires
            self.wf(),
        ensures
            keys_sorted(self.entries_seq()),
            self@ == entries_map(self.entries_seq()),
            forall|i: int| 0 <= i < self.entries_seq().len() ==> #[trigger] self@.contains_key(key_of(self.entries_seq()[i]))
                && self@[key_of(self.entries_seq()[i])] == self.entries_seq()[i].1,
            forall|k: Seq<u8>| #[trigger] self@.contains_key(k) ==> has_key(self.entries_seq(), k),
    {
        assert forall|i: int| 0 <= i < self.entries_seq().len() implies #[trigger] self@.contains_key(key_of(self.entries_seq()[i]))
            && self@[key_of(self.entries_seq()[i])] == self.entries_seq()[i].1 by {
            lemma_entries_map_at(self.entries@, i);
        }
    }

    /// The stored list is the sorted listing of the contents.
    pub proof fn lemma_canonical(&self)
        requires
            self.wf(),
        ensures
            entry_views(self.entries_seq()) == sorted_entries(self@),
    {
        assert(keys_sorted(self.entries@) && entries_map(self.entries@) == self@);
        let s = choose|s: Seq<(Address, V)>| keys_sorted(s) && entries_map(s) == self@;
        lemma_sorted_entries_unique(self.entries@, s);
    }

    pub fn new() -> (m: Self)
        ensures
            m.wf(),
            m@ == Map::<Seq<u8>, V>::empty(),
            m.entries_seq().len() == 0,
    {
        let m = AddressMap { entries: Vec::new() };
        assert(m@ =~= Map::<Seq<u8>, V>::empty());
        m
    }

    /// Number of entries.
    pub fn len(&self) -> (n: usize)
        ensures
            n == self.entries_seq().len(),
    {
        self.entries.len()
    }

    /// The `i`-th entry in ascending address order.
    pub fn entry(&self, i: usize) -> (e: (Address, V))
        requires
            i < self.entries_seq().len(),
        ensures
            e == self.entries_seq()[i as int],
    {
        self.entries[i]
    }

    /// Binary search: `Ok(i)` where the key sits, or `Err(i)` where it would
    /// be inserted.
    fn search(&self, k: &Address) -> (r: Result<usize, usize>)
        requires
            self.wf(),
        ensures
            r matches Ok(i) ==> i < self.entries@.len() && key_of(self.entries@[i as int]) == k.0@,
            r matches Err(i) ==> i <= self.entries@.len()
                && (forall|j: int| 0 <= j < i ==> lex_lt(#[trigger] key_of(self.entries@[j]), k.0@))
                && (forall|j: int| i <= j < self.entries@.len() ==> lex_lt(k.0@, #[trigger] key_of(self.entries@[j]))),
    {
        let ghost s = self.entries@;
        let ghost kk = k.0@;
        let len: usize = self.entries.len();
        let mut lo: usize = 0;
        let mut hi: usize = len;
        while lo < hi
            invariant
                0 <= lo <= hi <= len,
                len == s.len(),
                s == self.entries@,
                kk == k.0@,
                keys_sorted(s),
                forall|j: int| 0 <= j < lo ==> lex_lt(#[trigger] key_of(s[j]), kk),
                forall|j: int| hi <= j < len ==> !lex_lt(#[trigger] key_of(s[j]), kk),
            decreases hi - lo,
        {
            let mid: usize = lo + (hi - lo) / 2;
            let c: i8 = compare_bytes(self.entries[mid].0.as_bytes(), k.as_bytes());
            if c == -1 {
                proof {
                    assert forall|j: int| 0 <= j <= mid implies lex_lt(#[trigger] key_of(s[j]), kk) by {
                        if j < mid {
                            lemma_lex_transitive(key_of(s[j]), key_of(s[mid as int]), kk);
                        }
                    }
                }
                lo = mid + 1;
            } else {
                proof {
                    assert forall|j: int| mid <= j < len implies !lex_lt(#[trigger] key_of(s[j]), kk) by {
                        if j > mid && lex_lt(key_of(s[j]), kk) {
                            lemma_lex_transitive(key_of(s[mid as int]), key_of(s[j]), kk);
                        }
                    }
                }
                hi = mid;
            }
        }
        if lo < len && compare_bytes(self.entries[lo].0.as_bytes(), k.as_bytes()) == 0 {
            Ok(lo)
        } else {
            proof {
                assert forall|j: int| lo <= j < len implies lex_lt(kk, #[trigger] key_of(s[j])) by {
                    lemma_lex_total(key_of(s[j]), kk);
                    if j > lo {
                        lemma_lex_total(key_of(s[lo as int]), kk);
                        if lex_lt(kk, key_of(s[lo as int])) {
                            lemma_lex_transitive(kk, key_of(s[lo as int]), key_of(s[j]));
                        }
                    }
                }
            }
            Err(lo)
        }
    }

    /// The value held for `k`, if any.
    pub fn get(&self, k: &Address) -> (r: Option<V>)
        requires
            self.wf(),
        ensures
            r == (if self@.contains_key(k.0@) { Some(self@[k.0@]) } else { None::<V> }),
    {
        match self.search(k) {
            Ok(i) => {
                proof {
                    lemma_entries_map_at(self.entries@, i as int);
                }
                Some(self.entries[i].1)
            },
            Err(i) => {
                proof {
                    if has_key(self.entries@, k.0@) {
                        let j = choose|j: int| 0 <= j < self.entries@.len() && key_of(self.entries@[j]) == k.0@;
                        lemma_lex_irreflexive(k.0@);
                    }
                }
                None
            },
        }
    }

    /// Set the value held for `k`, adding the key if it is new.
    pub fn insert(&mut self, k: Address, v: V)
        requires
            old(self).wf(),
        ensures
            final(self).wf(),
            final(self)@ == old(self)@.insert(k.0@, v),
    {
        let ghost old_s = self.entries@;
        let ghost kk = k.0@;
        match self.search(&k) {
            Ok(i) => {
                self.entries.set(i, (k, v));
                proof {
                    let s = self.entries@;
                    assert forall|a: int, b: int| 0 <= a < b < s.len() implies lex_lt(key_of(s[a]), key_of(s[b])) by {
                        assert(key_of(s[a]) == key_of(old_s[a]));
                        assert(key_of(s[b]) == key_of(old_s[b]));
                    }
                    assert forall|x: Seq<u8>| #[trigger] has_key(s, x) == has_key(old_s, x) by {
                        if has_key(s, x) {
                            let j = choose|j: int| 0 <= j < s.len() && key_of(s[j]) == x;
                            assert(key_of(old_s[j]) == x);
                        }
                        if has_key(old_s, x) {
                            let j = choose|j: int| 0 <= j < old_s.len() && key_of(old_s[j]) == x;
                            assert(key_of(s[j]) == x);
                        }
                    }
                    assert forall|x: Seq<u8>| #[trigger] entries_map(s).contains_key(x) implies entries_map(s)[x]
                        == (if x == kk { v } else { entries_map(old_s)[x] }) by {
                        let j = choose|j: int| 0 <= j < s.len() && key_of(s[j]) == x;
                        lemma_entries_map_at(s, j);
                        if x != kk {
                            lemma_entries_map_at(old_s, j);
                        } else if j != i {
                            lemma_entries_map_at(s, i as int);
                        }
                    }
                    assert(entries_map(s) =~= entries_map(old_s).insert(kk, v));
                }
            },
            Err(i) => {
                self.entries.insert(i, (k, v));
                proof {
                    let s = self.entries@;
                    assert(key_of(s[i as int]) == kk);
                    assert forall|a: int, b: int| 0 <= a < b < s.len() implies lex_lt(key_of(s[a]), key_of(s[b])) by {
                        if b < i {
                        } else if b == i {
                        } else if a < i {
                            lemma_lex_transitive(key_of(old_s[a]), kk, key_of(old_s[b - 1]));
                        } else if a == i {
                        } else {
                        }
                    }
                    assert forall|x: Seq<u8>| #[trigger] has_key(s, x) == (has_key(old_s, x) || x == kk) by {
                        if has_key(s, x) {
                            let j = choose|j: int| 0 <= j < s.len() && key_of(s[j]) == x;
                            if j < i {
                                assert(key_of(old_s[j]) == x);
                            } else if j > i {
                                assert(key_of(old_s[j - 1]) == x);
                            }
                        }
                        if has_key(old_s, x) {
                            let j = choose|j: int| 0 <= j < old_s.len() && key_of(old_s[j]) == x;
                            if j < i {
                                assert(key_of(s[j]) == x);
                            } else {
                                assert(key_of(s[j + 1]) == x);
                            }
                        }
                    }
                    assert forall|x: Seq<u8>| #[trigger] entries_map(s).contains_key(x) implies entries_map(s)[x]
                        == (if x == kk { v } else { entries_map(old_s)[x] }) by {
                        let j = choose|j: int| 0 <= j < s.len() && key_of(s[j]) == x;
                        lemma_entries_map_at(s, j);
                        lemma_lex_irreflexive(kk);
                        if j < i {
                            lemma_entries_map_at(old_s, j);
                            assert(lex_lt(key_of(old_s[j]), kk));
                        } else if j > i {
                            lemma_entries_map_at(old_s, j - 1);
                            assert(lex_lt(kk, key_of(old_s[j - 1])));
                        }
                    }
                    assert(entries_map(s) =~= entries_map(old_s).insert(kk, v));
                }
            },
        }
    }
}

/// Two well-formed maps with the same contents list the same entries in the
/// same order, whatever order their keys were inserted in.
pub proof fn law_entries_determined_by_contents<V: Copy>(a: &AddressMap<V>, b: &AddressMap<V>)
    requires
        a.wf(),
        b.wf(),
        a@ == b@,
    ensures
        entry_views(a.entries_seq()) == entry_views(b.entries_seq()),
{
    lemma_sorted_entries_unique(a.entries@, b.entries@);
}

} // verus!
