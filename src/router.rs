//! Which shard owns a key.
use vstd::prelude::*;

use crate::data_type::GString;
use crate::storage::{hash_key, key_hash};

verus! {

/// The shard, among `n`, that owns key `k`.
pub open spec fn route(k: Seq<u8>, n: nat) -> int {
    key_hash(k) as int % n as int
}

/// One shard's table of the storage handles of all shards, index `i` for shard `i`.
pub struct StorageRouter<H> {
    handles: Vec<H>,
}

impl<H> StorageRouter<H> {
    pub closed spec fn handles(&self) -> Seq<H> {
        self.handles@
    }

    pub open spec fn shard_count(&self) -> nat {
        self.handles().len()
    }

    pub fn new(handles: Vec<H>) -> (r: StorageRouter<H>)
        ensures
            r.handles() == handles@,
    {
        StorageRouter { handles }
    }

    pub fn len(&self) -> (r: usize)
        ensures
            r == self.shard_count(),
    {
        self.handles.len()
    }

    /// The index of the shard that owns `key`.
    pub fn route(&self, key: &GString) -> (r: usize)
        requires
            self.shard_count() > 0,
        ensures
            r == route(key@, self.shard_count()),
            r < self.shard_count(),
    {
        (hash_key(key) % (self.handles.len() as u64)) as usize
    }

    /// The handle of the shard that owns `key`.
    pub fn handle_for(&self, key: &GString) -> (r: &H)
        requires
            self.shard_count() > 0,
        ensures
            *r == self.handles()[route(key@, self.shard_count())],
    {
        let index = self.route(key);
        &self.handles[index]
    }
}

} // verus!
