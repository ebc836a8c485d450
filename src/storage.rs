//! A shard's key/value map.
//!
//! Entries are grouped in buckets by a 64-bit digest of the key's bytes; a
//! bucket holds each of its keys once. The map that the buckets stand for is
//! kept alongside as ghost state.
use std::collections::hash_map::DefaultHasher;
use std::collections::HashMap;
use std::hash::Hasher;
use vstd::prelude::*;
use vstd::std_specs::hash::DefaultHasherAdditionalSpecFns;

use crate::data_type::GString;
use crate::response::UpdateResponse;
use crate::value::{opt_view, DataView, Value};

verus! {

/// The digest that decides a key's bucket and its shard.
pub open spec fn key_hash(k: Seq<u8>) -> u64 {
    DefaultHasher::spec_finish(seq![k])
}

/// A 64-bit digest of the key's bytes, the same on every call for the same bytes.
pub fn hash_key(key: &GString) -> (r: u64)
    ensures
        r == key_hash(key@),
{
    let mut hasher = DefaultHasher::new();
    hasher.write(key.as_slice());
    hasher.finish()
}

/// The value bound to `k` in `m`, if any.
pub open spec fn lookup(m: Map<Seq<u8>, DataView>, k: Seq<u8>) -> Option<DataView> {
    if m.contains_key(k) {
        Some(m[k])
    } else {
        None
    }
}

/// The map after an update has left `updated` as the binding of `k`.
pub open spec fn apply_update(m: Map<Seq<u8>, DataView>, k: Seq<u8>, updated: Option<DataView>) -> Map<
    Seq<u8>,
    DataView,
> {
    match updated {
        Some(v) => m.insert(k, v),
        None => m.remove(k),
    }
}

pub type Bucket = Vec<(GString, Value)>;

pub open spec fn bucket_wf(b: Seq<(GString, Value)>, h: u64, m: Map<Seq<u8>, DataView>) -> bool {
    &&& forall|i: int|
        0 <= i < b.len() ==> key_hash((#[trigger] b[i]).0@) == h && m.contains_key(b[i].0@)
            && m[b[i].0@] == b[i].1@
    &&& forall|i: int, j: int|
        0 <= i < b.len() && 0 <= j < b.len() && (#[trigger] b[i]).0@ == (#[trigger] b[j]).0@
            ==> i == j
}

pub open spec fn bucket_holds(b: Seq<(GString, Value)>, k: Seq<u8>) -> bool {
    exists|i: int| 0 <= i < b.len() && (#[trigger] b[i]).0@ == k
}

pub struct Storage {
    buckets: HashMap<u64, Bucket>,
    contents: Ghost<Map<Seq<u8>, DataView>>,
}

impl View for Storage {
    type V = Map<Seq<u8>, DataView>;

    closed spec fn view(&self) -> Map<Seq<u8>, DataView> {
        self.contents@
    }
}

/// Position of `key` in `bucket`.
fn find(bucket: &Bucket, key: &GString) -> (r: Option<usize>)
    ensures
        r matches Some(i) ==> i < bucket@.len() && bucket@[i as int].0@ == key@,
        r is None ==> forall|i: int| 0 <= i < bucket@.len() ==> (#[trigger] bucket@[i]).0@ != key@,
{
    let mut i: usize = 0;
    while i < bucket.len()
        invariant
            i <= bucket@.len(),
            forall|j: int| 0 <= j < i ==> (#[trigger] bucket@[j]).0@ != key@,
        decreases bucket@.len() - i,
    {
        if bucket[i].0 == *key {
            return Some(i);
        }
        i = i + 1;
    }
    None
}

impl Storage {
    /// Buckets hold the entries of the map, each under its key's digest.
    pub closed spec fn wf(&self) -> bool {
        &&& forall|h: u64| #[trigger]
            self.buckets@.contains_key(h) ==> bucket_wf(self.buckets@[h]@, h, self.contents@)
        &&& forall|k: Seq<u8>| #[trigger]
            self.contents@.contains_key(k) ==> self.buckets@.contains_key(key_hash(k))
                && bucket_holds(self.buckets@[key_hash(k)]@, k)
    }

    pub fn new() -> (r: Storage)
        ensures
            r.wf(),
            r@ == Map::<Seq<u8>, DataView>::empty(),
    {
        Storage { buckets: HashMap::new(), contents: Ghost(Map::empty()) }
    }

    /// The value bound to `key`.
    pub fn get(&self, key: &GString) -> (r: Option<Value>)
        requires
            self.wf(),
        ensures
            opt_view(r) == lookup(self@, key@),
    {
        let h = hash_key(key);
        match self.buckets.get(&h) {
            Some(bucket) => {
                assert(bucket_wf(bucket@, h, self.contents@));
                match find(bucket, key) {
                    Some(i) => Some(bucket[i].1.clone()),
                    None => {
                        proof {
                            if self.contents@.contains_key(key@) {
                                let j = choose|j: int|
                                    0 <= j < bucket@.len() && (#[trigger] bucket@[j]).0@ == key@;
                                assert(bucket@[j].0@ == key@);
                            }
                        }
                        None
                    },
                }
            },
            None => None,
        }
    }

    /// Binds `key` to `value`, returning the value it was bound to before.
    pub fn set(&mut self, key: GString, value: Value) -> (r: Option<Value>)
        requires
            old(self).wf(),
        ensures
            final(self).wf(),
            final(self)@ == old(self)@.insert(key@, value@),
            opt_view(r) == lookup(old(self)@, key@),
    {
        let ghost k = key@;
        let ghost v = value@;
        let ghost m = self.contents@;
        let h = hash_key(&key);
        let mut bucket = match self.buckets.remove(&h) {
            Some(b) => b,
            None => Vec::new(),
        };
        let ghost old_bucket = bucket@;
        let ghost others = self.buckets@;
        assert(old_bucket.len() > 0 ==> bucket_wf(old_bucket, h, m));
        let previous = match find(&bucket, &key) {
            Some(i) => {
                let previous = bucket[i].1.clone();
                bucket.set(i, (key, value));
                proof {
                    assert(bucket@ == old_bucket.update(i as int, bucket@[i as int]));
                }
                Some(previous)
            },
            None => {
                bucket.push((key, value));
                None
            },
        };
        self.buckets.insert(h, bucket);
        self.contents = Ghost(m.insert(k, v));
        proof {
            let nb = self.buckets@[h]@;
            assert(nb.len() >= 1);
            assert forall|hh: u64| #[trigger]
                self.buckets@.contains_key(hh) implies bucket_wf(self.buckets@[hh]@, hh, self.contents@) by {
                if hh != h {
                    let b = self.buckets@[hh]@;
                    assert(bucket_wf(b, hh, m));
                    assert forall|i: int| 0 <= i < b.len() implies key_hash((#[trigger] b[i]).0@) == hh
                        && self.contents@.contains_key(b[i].0@) && self.contents@[b[i].0@] == b[i].1@ by {
                        assert(b[i].0@ != k);
                    }
                } else {
                    assert forall|i: int| 0 <= i < nb.len() implies key_hash((#[trigger] nb[i]).0@) == h
                        && self.contents@.contains_key(nb[i].0@) && self.contents@[nb[i].0@] == nb[i].1@ by {
                        if nb[i].0@ != k {
                            assert(i < old_bucket.len() && nb[i] == old_bucket[i]);
                        }
                    }
                    assert forall|i: int, j: int|
                        0 <= i < nb.len() && 0 <= j < nb.len() && (#[trigger] nb[i]).0@ == (#[trigger] nb[j]).0@
                        implies i == j by {
                        if nb[i].0@ != k {
                            assert(i < old_bucket.len() && nb[i] == old_bucket[i]);
                            assert(j < old_bucket.len() && nb[j] == old_bucket[j]);
                        } else if previous is None {
                            assert(i == old_bucket.len() && j == old_bucket.len());
                        } else {
                            assert(nb[i].0@ == k);
                        }
                    }
                }
            }
            assert forall|kk: Seq<u8>| #[trigger]
                self.contents@.contains_key(kk) implies self.buckets@.contains_key(key_hash(kk))
                && bucket_holds(self.buckets@[key_hash(kk)]@, kk) by {
                if kk == k {
                    if previous is None {
                        assert(nb[old_bucket.len() as int].0@ == k);
                    }
                } else {
                    assert(m.contains_key(kk));
                    if key_hash(kk) == h {
                        let j = choose|j: int| 0 <= j < old_bucket.len() && (#[trigger] old_bucket[j]).0@ == kk;
                        assert(nb[j] == old_bucket[j]);
                    } else {
                        assert(others.contains_key(key_hash(kk)));
                    }
                }
            }
        }
        previous
    }

    /// Removes the binding of `key`, returning the value it was bound to.
    pub fn delete(&mut self, key: &GString) -> (r: Option<Value>)
        requires
            old(self).wf(),
        ensures
            final(self).wf(),
            final(self)@ == old(self)@.remove(key@),
            opt_view(r) == lookup(old(self)@, key@),
    {
        let ghost k = key@;
        let ghost m = self.contents@;
        let h = hash_key(key);
        let mut bucket = match self.buckets.remove(&h) {
            Some(b) => b,
            None => {
                proof {
                    assert(!m.contains_key(k));
                    assert(m.remove(k) =~= m);
                }
                return None;
            },
        };
        let ghost old_bucket = bucket@;
        let ghost others = self.buckets@;
        assert(bucket_wf(old_bucket, h, m));
        let removed = match find(&bucket, key) {
            Some(i) => {
                let entry = bucket.swap_remove(i);
                Some(entry.1)
            },
            None => {
                proof {
                    if m.contains_key(k) {
                        let j = choose|j: int| 0 <= j < old_bucket.len() && (#[trigger] old_bucket[j]).0@ == k;
                        assert(old_bucket[j].0@ == k);
                    }
                }
                None
            },
        };
        let ghost nb = bucket@;
        proof {
            assert forall|i: int| 0 <= i < nb.len() implies (#[trigger] nb[i]).0@ != k && exists|j: int|
                0 <= j < old_bucket.len() && nb[i] == #[trigger] old_bucket[j] by {
                if removed is Some {
                    let last = old_bucket.len() - 1;
                    let gone = choose|g: int| 0 <= g < old_bucket.len() && old_bucket[g].0@ == k && nb == old_bucket.update(g, old_bucket[last]).drop_last();
                    if i == gone {
                        assert(nb[i] == old_bucket[last]);
                        assert(last != gone);
                    } else {
                        assert(nb[i] == old_bucket[i]);
                    }
                } else {
                    assert(nb[i] == old_bucket[i]);
                }
            }
        }
        if bucket.len() > 0 {
            self.buckets.insert(h, bucket);
        }
        self.contents = Ghost(m.remove(k));
        proof {
            assert forall|hh: u64| #[trigger]
                self.buckets@.contains_key(hh) implies bucket_wf(self.buckets@[hh]@, hh, self.contents@) by {
                if hh != h {
                    let b = self.buckets@[hh]@;
                    assert(bucket_wf(b, hh, m));
                    assert forall|i: int| 0 <= i < b.len() implies key_hash((#[trigger] b[i]).0@) == hh
                        && self.contents@.contains_key(b[i].0@) && self.contents@[b[i].0@] == b[i].1@ by {
                        assert(b[i].0@ != k);
                    }
                } else {
                    assert forall|i: int| 0 <= i < nb.len() implies key_hash((#[trigger] nb[i]).0@) == h
                        && self.contents@.contains_key(nb[i].0@) && self.contents@[nb[i].0@] == nb[i].1@ by {
                        let j = choose|j: int| 0 <= j < old_bucket.len() && nb[i] == #[trigger] old_bucket[j];
                        assert(nb[i] == old_bucket[j]);
                    }
                    assert forall|i: int, j: int|
                        0 <= i < nb.len() && 0 <= j < nb.len() && (#[trigger] nb[i]).0@ == (#[trigger] nb[j]).0@
                        implies i == j by {
                        let a = choose|a: int| 0 <= a < old_bucket.len() && nb[i] == #[trigger] old_bucket[a];
                        let b = choose|b: int| 0 <= b < old_bucket.len() && nb[j] == #[trigger] old_bucket[b];
                        assert(old_bucket[a].0@ == old_bucket[b].0@);
                        if removed is Some {
                            let last = old_bucket.len() - 1;
                            let gone = choose|g: int| 0 <= g < old_bucket.len() && old_bucket[g].0@ == k && nb == old_bucket.update(g, old_bucket[last]).drop_last();
                            if i != j {
                                if i == gone {
                                    assert(nb[i] == old_bucket[last] && nb[j] == old_bucket[j]);
                                } else if j == gone {
                                    assert(nb[j] == old_bucket[last] && nb[i] == old_bucket[i]);
                                } else {
                                    assert(nb[i] == old_bucket[i] && nb[j] == old_bucket[j]);
                                }
                            }
                        } else {
                            assert(nb[i] == old_bucket[i] && nb[j] == old_bucket[j]);
                        }
                    }
                }
            }
            assert forall|kk: Seq<u8>| #[trigger]
                self.contents@.contains_key(kk) implies self.buckets@.contains_key(key_hash(kk))
                && bucket_holds(self.buckets@[key_hash(kk)]@, kk) by {
                assert(m.contains_key(kk) && kk != k);
                if key_hash(kk) == h {
                    let j = choose|j: int| 0 <= j < old_bucket.len() && (#[trigger] old_bucket[j]).0@ == kk;
                    if removed is Some {
                        let last = old_bucket.len() - 1;
                        let gone = choose|g: int| 0 <= g < old_bucket.len() && old_bucket[g].0@ == k && nb == old_bucket.update(g, old_bucket[last]).drop_last();
                        if j == last {
                            assert(nb[gone] == old_bucket[j]);
                        } else {
                            assert(nb[j] == old_bucket[j]);
                        }
                    } else {
                        assert(nb[j] == old_bucket[j]);
                    }
                } else {
                    assert(others.contains_key(key_hash(kk)));
                }
            }
        }
        removed
    }

    /// Replaces the binding of `key` by what `f` makes of it: `f` sees the
    /// current value, or `None`; where it returns `None` the key ends unbound.
    pub fn update<F: Fn(Option<Value>) -> Option<Value>>(&mut self, key: GString, f: F) -> (r:
        UpdateResponse)
        requires
            old(self).wf(),
            forall|v: Option<Value>| f.requires((v,)),
        ensures
            final(self).wf(),
            opt_view(r.original_value) == lookup(old(self)@, key@),
            exists|arg: Option<Value>|
                opt_view(arg) == lookup(old(self)@, key@) && f.ensures((arg,), r.updated),
            final(self)@ == apply_update(old(self)@, key@, opt_view(r.updated)),
    {
        let current = self.get(&key);
        let original_value = match &current {
            Some(v) => Some(v.clone()),
            None => None,
        };
        let ghost arg = current;
        let updated = f(current);
        match &updated {
            Some(v) => {
                self.set(key, v.clone());
            },
            None => {
                self.delete(&key);
            },
        }
        UpdateResponse { original_value, updated }
    }
}

impl Default for Storage {
    fn default() -> (r: Storage)
        ensures
            r.wf(),
            r@ == Map::<Seq<u8>, DataView>::empty(),
    {
        Storage::new()
    }
}

} // verus!
