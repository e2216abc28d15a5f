use vstd::prelude::*;
use crate::bns::types::{BnsError, NameRecord};
use crate::core_types::address::{Address, bytes32_eq};

verus! {

/// Registry of names; at most one record per name.
#[derive(Debug, Clone)]
pub struct BnsRegistry {
    records: Vec<NameRecord>,
    /// Cost per epoch.
    pub base_cost: u64,
}

/// Length in UTF-8 bytes of a string (as `str::len` reports it).
pub open spec fn utf8_len(s: Seq<char>) -> usize {
    vstd::utf8::encode_utf8(s).len() as usize
}

/// A name of 3 to 32 bytes.
pub open spec fn valid_name(name: Seq<char>) -> bool {
    3 <= utf8_len(name) <= 32
}

pub open spec fn has_name(s: Seq<NameRecord>, name: Seq<char>) -> bool {
    exists|i: int| 0 <= i < s.len() && s[i].name@ == name
}

pub open spec fn name_map(s: Seq<NameRecord>) -> Map<Seq<char>, NameRecord> {
    Map::new(
        |k: Seq<char>| has_name(s, k),
        |k: Seq<char>| s[choose|i: int| 0 <= i < s.len() && s[i].name@ == k],
    )
}

pub open spec fn names_unique(s: Seq<NameRecord>) -> bool {
    forall|i: int, j: int| 0 <= i < j < s.len() ==> s[i].name@ != s[j].name@
}

proof fn lemma_name_map_at(s: Seq<NameRecord>, i: int)
    requires
        names_unique(s),
        0 <= i < s.len(),
    ensures
        name_map(s).contains_key(s[i].name@),
        name_map(s)[s[i].name@] == s[i],
{
    let k = s[i].name@;
    assert(has_name(s, k));
    let j = choose|j: int| 0 <= j < s.len() && s[j].name@ == k;
    if j < i {
        assert(s[j].name@ != s[i].name@);
    } else if j > i {
        assert(s[i].name@ != s[j].name@);
    }
}

/// Whether `name` is held by an unexpired record at `epoch`.
pub open spec fn name_active(names: Map<Seq<char>, NameRecord>, name: Seq<char>, epoch: u64) -> bool {
    names.contains_key(name) && names[name].expires_at > epoch
}

impl BnsRegistry {
    pub closed spec fn wf(&self) -> bool {
        names_unique(self.records@)
    }

    /// The registration cost per epoch.
    pub closed spec fn cost(&self) -> u64 {
        self.base_cost
    }

    /// The registered names, expired ones included until they are re-registered.
    pub closed spec fn names(&self) -> Map<Seq<char>, NameRecord> {
        name_map(self.records@)
    }

    pub fn new() -> (r: Self)
        ensures
            r.wf(),
            r.names() == Map::<Seq<char>, NameRecord>::empty(),
            r.cost() == 100,
    {
        let r = BnsRegistry { records: Vec::new(), base_cost: 100 };
        assert(r.names() =~= Map::<Seq<char>, NameRecord>::empty());
        r
    }

    fn find(&self, name: &String) -> (r: Option<usize>)
        requires
            self.wf(),
        ensures
            match r {
                Some(i) => i < self.records@.len() && self.records@[i as int].name@ == name@,
                None => !has_name(self.records@, name@),
            },
    {
        let mut i: usize = 0;
        while i < self.records.len()
            invariant
                0 <= i <= self.records@.len(),
                forall|j: int| 0 <= j < i ==> self.records@[j].name@ != name@,
            decreases self.records@.len() - i,
        {
            if self.records[i].name == *name {
                return Some(i);
            }
            i = i + 1;
        }
        None
    }

    /// Register `name` for `owner` from `current_epoch` for `duration` epochs.
    /// Names must be 3 to 32 bytes. A name held by an unexpired record is taken,
    /// except that its owner renews it: the expiry moves `duration` epochs past
    /// the old one and the rest of the record stays. An expired name can be
    /// registered again by anyone.
    pub fn register(&mut self, name: String, owner: Address, current_epoch: u64, duration: u64) -> (r:
        Result<(), BnsError>)
        requires
            old(self).wf(),
            valid_name(name@) && !name_active(old(self).names(), name@, current_epoch)
                ==> current_epoch + duration <= u64::MAX,
            valid_name(name@) && name_active(old(self).names(), name@, current_epoch)
                && old(self).names()[name@].owner.0@ == owner.0@
                ==> old(self).names()[name@].expires_at + duration <= u64::MAX,
        ensures
            final(self).wf(),
            final(self).cost() == old(self).cost(),
            !valid_name(name@) ==> r == Err::<(), BnsError>(BnsError::InvalidName),
            valid_name(name@) && name_active(old(self).names(), name@, current_epoch)
                && old(self).names()[name@].owner.0@ != owner.0@ ==> r == Err::<(), BnsError>(BnsError::NameTaken),
            r is Err ==> final(self).names() == old(self).names(),
            r is Ok <==> valid_name(name@) && (!name_active(old(self).names(), name@, current_epoch)
                || old(self).names()[name@].owner.0@ == owner.0@),
            r is Ok && name_active(old(self).names(), name@, current_epoch) ==> final(self).names()
                == old(self).names().insert(
                name@,
                NameRecord {
                    name: name,
                    expires_at: (old(self).names()[name@].expires_at + duration) as u64,
                    ..old(self).names()[name@]
                },
            ),
            r is Ok && !name_active(old(self).names(), name@, current_epoch) ==> final(self).names()
                == old(self).names().insert(
                name@,
                NameRecord {
                    name: name,
                    owner: owner,
                    expires_at: (current_epoch + duration) as u64,
                    resolver: None,
                },
            ),
    {
        let n: usize = name.as_str().len();
        if n < 3 || n > 32 {
            return Err(BnsError::InvalidName);
        }
        let found = self.find(&name);
        proof {
            if let Some(i) = found {
                lemma_name_map_at(self.records@, i as int);
            } else {
                assert(!self.names().contains_key(name@));
            }
        }
        match found {
            Some(i) => {
                let ghost old_s = self.records@;
                let record = if self.records[i].expires_at > current_epoch {
                    if !bytes32_eq(&self.records[i].owner.0, &owner.0) {
                        return Err(BnsError::NameTaken);
                    }
                    NameRecord {
                        name: name,
                        owner: self.records[i].owner,
                        expires_at: self.records[i].expires_at + duration,
                        resolver: self.records[i].resolver,
                    }
                } else {
                    NameRecord {
                        name: name,
                        owner,
                        expires_at: current_epoch + duration,
                        resolver: None,
                    }
                };
                self.records.set(i, record);
                proof {
                    let s = self.records@;
                    assert(names_unique(s)) by {
                        assert forall|a: int, b: int| 0 <= a < b < s.len() implies s[a].name@ != s[b].name@ by {
                            assert(old_s[a].name@ != old_s[b].name@);
                        }
                    }
                    let k = s[i as int].name@;
                    assert forall|kk: Seq<char>| #[trigger] has_name(s, kk) == has_name(old_s, kk) by {
                        if has_name(s, kk) {
                            let j = choose|j: int| 0 <= j < s.len() && s[j].name@ == kk;
                            assert(old_s[j].name@ == kk);
                        }
                        if has_name(old_s, kk) {
                            let j = choose|j: int| 0 <= j < old_s.len() && old_s[j].name@ == kk;
                            assert(s[j].name@ == kk);
                        }
                    }
                    assert forall|kk: Seq<char>| #[trigger] name_map(s).contains_key(kk) implies name_map(s)[kk] == name_map(old_s).insert(k, s[i as int])[kk] by {
                        let j = choose|j: int| 0 <= j < s.len() && s[j].name@ == kk;
                        lemma_name_map_at(s, j);
                        if j != i {
                            lemma_name_map_at(old_s, j);
                        }
                    }
                    assert(name_map(s) =~= name_map(old_s).insert(k, s[i as int]));
                }
                Ok(())
            },
            None => {
                let ghost old_s = self.records@;
                let record = NameRecord {
                    name: name,
                    owner,
                    expires_at: current_epoch + duration,
                    resolver: None,
                };
                self.records.push(record);
                proof {
                    let s = self.records@;
                    let last = s.len() - 1;
                    assert(names_unique(s)) by {
                        assert forall|a: int, b: int| 0 <= a < b < s.len() implies s[a].name@ != s[b].name@ by {
                            if b == last {
                                assert(old_s[a].name@ != s[b].name@);
                            }
                        }
                    }
                    let k = s[last].name@;
                    assert forall|kk: Seq<char>| #[trigger] has_name(s, kk) == (has_name(old_s, kk) || kk == k) by {
                        if has_name(s, kk) {
                            let j = choose|j: int| 0 <= j < s.len() && s[j].name@ == kk;
                            if j < last {
                                assert(old_s[j].name@ == kk);
                            }
                        }
                        if has_name(old_s, kk) {
                            let j = choose|j: int| 0 <= j < old_s.len() && old_s[j].name@ == kk;
                            assert(s[j].name@ == kk);
                        }
                        if kk == k {
                            assert(s[last].name@ == kk);
                        }
                    }
                    assert forall|kk: Seq<char>| #[trigger] name_map(s).contains_key(kk) implies name_map(s)[kk] == name_map(old_s).insert(k, s[last])[kk] by {
                        let j = choose|j: int| 0 <= j < s.len() && s[j].name@ == kk;
                        lemma_name_map_at(s, j);
                        if j != last {
                            lemma_name_map_at(old_s, j);
                        }
                    }
                    assert(name_map(s) =~= name_map(old_s).insert(k, s[last]));
                }
                Ok(())
            },
        }
    }

    /// The owner of `name` if it is registered and unexpired at `current_epoch`.
    pub fn resolve(&self, name: &str, current_epoch: u64) -> (r: Option<Address>)
        requires
            self.wf(),
        ensures
            r == (if name_active(self.names(), name@, current_epoch) {
                Some(self.names()[name@].owner)
            } else {
                None::<Address>
            }),
    {
        let key: String = name.to_owned();
        let found = self.find(&key);
        match found {
            Some(i) => {
                proof {
                    lemma_name_map_at(self.records@, i as int);
                }
                if self.records[i].expires_at > current_epoch {
                    Some(self.records[i].owner)
                } else {
                    None
                }
            },
            None => None,
        }
    }
}

impl Default for BnsRegistry {
    fn default() -> (r: Self)
        ensures
            r.wf(),
            r.names() == Map::<Seq<char>, NameRecord>::empty(),
            r.cost() == 0,
    {
        let r = BnsRegistry { records: Vec::new(), base_cost: 0 };
        assert(r.names() =~= Map::<Seq<char>, NameRecord>::empty());
        r
    }
}

/// What a read gives back of a write: right after `name` is registered for
/// `owner` until `expires_at`, resolving it at any epoch before `expires_at`
/// gives `owner`, and from `expires_at` on gives nothing.
pub proof fn law_resolve_after_register(
    names: Map<Seq<char>, NameRecord>,
    name: Seq<char>,
    record: NameRecord,
    epoch: u64,
)
    ensures
        name_active(names.insert(name, record), name, epoch) <==> epoch < record.expires_at,
        name_active(names.insert(name, record), name, epoch) ==> names.insert(name, record)[name].owner
            == record.owner,
{
}

/// Registering one name never changes how any other name resolves.
pub proof fn law_register_isolated(
    names: Map<Seq<char>, NameRecord>,
    name: Seq<char>,
    record: NameRecord,
    other: Seq<char>,
    epoch: u64,
)
    requires
        other != name,
    ensures
        name_active(names.insert(name, record), other, epoch) == name_active(names, other, epoch),
        names.contains_key(other) ==> names.insert(name, record)[other] == names[other],
{
}

} // verus!
