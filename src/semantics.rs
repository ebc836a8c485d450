//! Laws of the storage operations, of `INCR`, and of routing, stated over the
//! maps that `Storage` stands for.
use vstd::prelude::*;

use crate::frame::FrameView;
use crate::processor::{incr_reply, incr_value, increment_overflow};
use crate::router::route;
use crate::storage::{apply_update, lookup};
use crate::value::DataView;

verus! {

/// After `set(k, v)`, `get(k)` yields `v`.
pub proof fn lemma_get_after_set(m: Map<Seq<u8>, DataView>, k: Seq<u8>, v: DataView)
    ensures
        lookup(m.insert(k, v), k) == Some(v),
{
}

/// `delete` of an absent key yields nothing and changes nothing; of a present
/// key it yields the last value written and leaves the key absent.
pub proof fn lemma_delete(m: Map<Seq<u8>, DataView>, k: Seq<u8>, v: DataView)
    ensures
        !m.contains_key(k) ==> lookup(m, k) is None && m.remove(k) == m,
        lookup(m.insert(k, v), k) == Some(v),
        lookup(m.insert(k, v).remove(k), k) is None,
{
    if !m.contains_key(k) {
        assert(m.remove(k) =~= m);
    }
}

/// `INCR` on an absent key binds it to 1 and replies 1.
pub proof fn lemma_incr_absent(m: Map<Seq<u8>, DataView>, k: Seq<u8>)
    requires
        !m.contains_key(k),
    ensures
        ({
            let updated = incr_value(lookup(m, k));
            &&& updated == Some(DataView::Integer(1))
            &&& lookup(apply_update(m, k, updated), k) == Some(DataView::Integer(1))
            &&& incr_reply(lookup(m, k), updated) == FrameView::Integer(1)
        }),
{
}

/// `INCR` on `i64::MAX` replies with the overflow error and leaves the map as it was.
pub proof fn lemma_incr_overflow(m: Map<Seq<u8>, DataView>, k: Seq<u8>)
    requires
        m.contains_key(k),
        m[k] == DataView::Integer(i64::MAX),
    ensures
        ({
            let updated = incr_value(lookup(m, k));
            &&& apply_update(m, k, updated) == m
            &&& incr_reply(lookup(m, k), updated) == FrameView::SimpleError(increment_overflow())
        }),
{
    assert(m.insert(k, DataView::Integer(i64::MAX)) =~= m);
}

/// `INCR` on an integer below `i64::MAX` binds it to the next one and replies with it.
pub proof fn lemma_incr_integer(m: Map<Seq<u8>, DataView>, k: Seq<u8>, n: i64)
    requires
        m.contains_key(k),
        m[k] == DataView::Integer(n),
        n < i64::MAX,
    ensures
        ({
            let updated = incr_value(lookup(m, k));
            &&& lookup(apply_update(m, k, updated), k) == Some(DataView::Integer((n + 1) as i64))
            &&& incr_reply(lookup(m, k), updated) == FrameView::Integer((n + 1) as i64)
        }),
{
}

/// A cluster's maps, one per shard, after `k` is set through the router.
pub open spec fn cluster_set(shards: Seq<Map<Seq<u8>, DataView>>, k: Seq<u8>, v: DataView) -> Seq<
    Map<Seq<u8>, DataView>,
> {
    let owner = route(k, shards.len());
    shards.update(owner, shards[owner].insert(k, v))
}

/// What a get of `k` through the router finds.
pub open spec fn cluster_get(shards: Seq<Map<Seq<u8>, DataView>>, k: Seq<u8>) -> Option<DataView> {
    lookup(shards[route(k, shards.len())], k)
}

/// Routing depends on the key and the number of shards alone, so a set made
/// through one shard's router and a get made through another's reach the
/// same owning shard, and the get sees the value set.
pub proof fn lemma_routing(shards: Seq<Map<Seq<u8>, DataView>>, k: Seq<u8>, v: DataView)
    requires
        shards.len() > 0,
    ensures
        0 <= route(k, shards.len()) < shards.len(),
        cluster_set(shards, k, v).len() == shards.len(),
        cluster_get(cluster_set(shards, k, v), k) == Some(v),
        forall|i: int|
            0 <= i < shards.len() && i != route(k, shards.len()) ==> #[trigger] cluster_set(
                shards,
                k,
                v,
            )[i] == shards[i],
{
}

} // verus!
