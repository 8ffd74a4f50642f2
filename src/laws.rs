//! Properties of the store, stated over the contents model that the
//! operations' contracts use.
use vstd::prelude::*;

use crate::database::{lookup, shard_of, with_entry, without_entry, Layout, NUMBER_OF_SHARDS};

verus! {

/// Routing is a function of the key's text: two keys with the same text
/// always go to the same shard, however often the index is computed.
pub proof fn lemma_routing_deterministic(k1: Seq<char>, k2: Seq<char>)
    requires
        k1 == k2,
    ensures
        shard_of(k1) == shard_of(k2),
{
}

/// Every key is routed to an existing shard.
pub proof fn lemma_routing_in_range(key: Seq<char>)
    ensures
        0 <= shard_of(key) < NUMBER_OF_SHARDS,
{
}

/// After a value is stored under a key, reading the key gives that value.
pub proof fn lemma_insert_then_get(layout: Layout, key: Seq<char>, value: Seq<char>)
    requires
        layout.len() == NUMBER_OF_SHARDS,
    ensures
        lookup(with_entry(layout, key, value), key) == Some(value),
{
    lemma_routing_in_range(key);
}

/// Updating a key that holds `v1` with `v2` hands back `v1`, and reading the
/// key afterwards gives `v2`.
pub proof fn lemma_update_overwrites(layout: Layout, key: Seq<char>, v1: Seq<char>, v2: Seq<char>)
    requires
        layout.len() == NUMBER_OF_SHARDS,
    ensures
        lookup(with_entry(layout, key, v1), key) == Some(v1),
        lookup(with_entry(with_entry(layout, key, v1), key, v2), key) == Some(v2),
{
    lemma_routing_in_range(key);
}

/// Updating a key that holds nothing hands back nothing and still stores the value.
pub proof fn lemma_update_absent(layout: Layout, key: Seq<char>, value: Seq<char>)
    requires
        layout.len() == NUMBER_OF_SHARDS,
        lookup(layout, key) == None::<Seq<char>>,
    ensures
        lookup(with_entry(layout, key, value), key) == Some(value),
{
    lemma_routing_in_range(key);
}

/// Deleting a key that holds `value` hands back `value`, and the key reads as
/// absent afterwards.
pub proof fn lemma_delete_after_insert(layout: Layout, key: Seq<char>, value: Seq<char>)
    requires
        layout.len() == NUMBER_OF_SHARDS,
    ensures
        lookup(with_entry(layout, key, value), key) == Some(value),
        lookup(without_entry(with_entry(layout, key, value), key), key) == None::<Seq<char>>,
{
    lemma_routing_in_range(key);
}

/// Deleting a key that holds nothing leaves the whole store as it was.
pub proof fn lemma_delete_absent(layout: Layout, key: Seq<char>)
    requires
        layout.len() == NUMBER_OF_SHARDS,
        lookup(layout, key) == None::<Seq<char>>,
    ensures
        without_entry(layout, key) == layout,
{
    lemma_routing_in_range(key);
    let i = shard_of(key);
    assert(layout[i].remove(key) =~= layout[i]);
    assert(without_entry(layout, key) =~= layout);
}

/// Storing a value under a key leaves every other shard as it was, so a key
/// routed to another shard keeps its value (or its absence).
pub proof fn lemma_shards_isolated(layout: Layout, key: Seq<char>, value: Seq<char>, other: Seq<char>)
    requires
        layout.len() == NUMBER_OF_SHARDS,
        shard_of(key) != shard_of(other),
    ensures
        with_entry(layout, key, value)[shard_of(other)] == layout[shard_of(other)],
        lookup(with_entry(layout, key, value), other) == lookup(layout, other),
{
    lemma_routing_in_range(key);
    lemma_routing_in_range(other);
}

} // verus!
