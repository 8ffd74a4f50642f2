use std::collections::hash_map::DefaultHasher;
use std::hash::Hasher;
use vstd::prelude::*;
use vstd::std_specs::hash::DefaultHasherAdditionalSpecFns;
use vstd::utf8::encode_utf8;

use crate::shard::Shard;

verus! {

/// How many shards a store has. Changing it moves keys to other shards.
pub const NUMBER_OF_SHARDS: usize = 4;

/// The writes that the router feeds to the hasher for a key: the key's UTF-8
/// bytes, then a 0xFF byte (never part of UTF-8 text), so that no key's
/// stream is a prefix of another's. This is the stream that `str` itself
/// feeds to a hasher.
pub open spec fn hashed_stream(key: Seq<char>) -> Seq<Seq<u8>> {
    seq![encode_utf8(key), seq![0xffu8]]
}

/// The shard that holds `key`: its hash, reduced modulo the shard count.
pub open spec fn shard_of(key: Seq<char>) -> int {
    DefaultHasher::spec_finish(hashed_stream(key)) as int % NUMBER_OF_SHARDS as int
}

/// The contents of a store, one mapping per shard.
pub type Layout = Seq<Map<Seq<char>, Seq<char>>>;

/// There is one mapping per shard, and every key sits in the shard it is routed to.
pub open spec fn routed(layout: Layout) -> bool {
    &&& layout.len() == NUMBER_OF_SHARDS
    &&& forall|i: int, k: Seq<char>|
        0 <= i < layout.len() && #[trigger] layout[i].contains_key(k) ==> shard_of(k) == i
}

/// The value that the store holds for `key`, looked up in its shard.
pub open spec fn lookup(layout: Layout, key: Seq<char>) -> Option<Seq<char>> {
    let m = layout[shard_of(key)];
    if m.contains_key(key) {
        Some(m[key])
    } else {
        None
    }
}

/// The contents after `value` is stored under `key`.
pub open spec fn with_entry(layout: Layout, key: Seq<char>, value: Seq<char>) -> Layout {
    layout.update(shard_of(key), layout[shard_of(key)].insert(key, value))
}

/// The contents after the entry for `key` is removed.
pub open spec fn without_entry(layout: Layout, key: Seq<char>) -> Layout {
    layout.update(shard_of(key), layout[shard_of(key)].remove(key))
}

/// Every key in `m` is routed to shard `i`.
pub open spec fn routes_to(m: Map<Seq<char>, Seq<char>>, i: int) -> bool {
    forall|k: Seq<char>| #[trigger] m.contains_key(k) ==> shard_of(k) == i
}

spec fn shards_wf(shards: Seq<Shard>) -> bool {
    &&& shards.len() == NUMBER_OF_SHARDS
    &&& forall|i: int| 0 <= i < shards.len() ==> (#[trigger] shards[i]).wf() && routes_to(shards[i]@, i)
}

/// A store: a fixed number of shards, each holding the keys routed to it.
pub struct ShardedDatabase {
    shards: Vec<Shard>,
}

impl View for ShardedDatabase {
    type V = Layout;

    closed spec fn view(&self) -> Layout {
        self.shards@.map_values(|s: Shard| s@)
    }
}

impl ShardedDatabase {
    /// Every shard is well formed, there are exactly `NUMBER_OF_SHARDS` of
    /// them, and each key sits in the shard it is routed to.
    pub closed spec fn wf(&self) -> bool {
        shards_wf(self.shards@)
    }

    /// A store of `NUMBER_OF_SHARDS` empty shards, each one built on its own.
    pub fn new() -> (db: Self)
        ensures
            db.wf(),
            routed(db@),
            db@ == Seq::new(NUMBER_OF_SHARDS as nat, |i: int| Map::<Seq<char>, Seq<char>>::empty()),
    {
        let mut shards: Vec<Shard> = Vec::new();
        let mut n: usize = 0;
        while n < NUMBER_OF_SHARDS
            invariant
                n <= NUMBER_OF_SHARDS,
                shards@.len() == n,
                forall|i: int| 0 <= i < n ==> (#[trigger] shards@[i]).wf() && shards@[i]@
                    == Map::<Seq<char>, Seq<char>>::empty(),
            decreases NUMBER_OF_SHARDS - n,
        {
            shards.push(Shard::new());
            n = n + 1;
        }
        let db = ShardedDatabase { shards };
        assert(db@ =~= Seq::new(NUMBER_OF_SHARDS as nat, |i: int| Map::<Seq<char>, Seq<char>>::empty()));
        db
    }

    /// The index of the shard that `key` is routed to.
    pub fn determine_shard(&self, key: &str) -> (r: usize)
        ensures
            r == shard_of(key@),
            r < NUMBER_OF_SHARDS,
    {
        let mut hasher = DefaultHasher::new();
        hasher.write(key.as_bytes());
        let terminator: [u8; 1] = [0xff];
        let tail = terminator.as_slice();
        hasher.write(tail);
        proof {
            assert(tail@ =~= seq![0xffu8]);
            assert(hasher@ =~= hashed_stream(key@));
        }
        let h = hasher.finish();
        (h % (NUMBER_OF_SHARDS as u64)) as usize
    }

    /// The shard that `key` is routed to, lent out for changes. The store is
    /// well formed again once the shard is well formed and holds only keys
    /// routed to it.
    pub fn shard_mut(&mut self, key: &str) -> (r: &mut Shard)
        requires
            old(self).wf(),
        ensures
            r.wf(),
            r@ == old(self)@[shard_of(key@)],
            final(self)@ == old(self)@.update(shard_of(key@), final(r)@),
            final(r).wf() && routes_to(final(r)@, shard_of(key@)) ==> final(self).wf(),
    {
        let i = self.determine_shard(key);
        let r = &mut self.shards[i];
        proof {
            assert forall|s: Shard| s.wf() && routes_to(s@, i as int) implies shards_wf(
                #[trigger] old(self).shards@.update(i as int, s),
            ) by {
                let t = old(self).shards@.update(i as int, s);
                assert forall|j: int| 0 <= j < t.len() implies (#[trigger] t[j]).wf() && routes_to(t[j]@, j) by {
                    if j != i {
                        assert(t[j] == old(self).shards@[j]);
                    }
                }
            }
        }
        r
    }

    /// Stores `value` under `key` in the key's shard, replacing any value already there.
    pub fn insert(&mut self, key: String, value: String)
        requires
            old(self).wf(),
        ensures
            final(self).wf(),
            routed(final(self)@),
            final(self)@ == with_entry(old(self)@, key@, value@),
    {
        self.shard_mut(key.as_str()).insert(key, value);
    }

    /// The value stored under `key`, looked up in the key's shard alone.
    pub fn get(&self, key: &str) -> (r: Option<&String>)
        requires
            self.wf(),
        ensures
            match r {
                Some(v) => lookup(self@, key@) == Some(v@),
                None => lookup(self@, key@) == None::<Seq<char>>,
            },
    {
        let i = self.determine_shard(key);
        self.shards[i].get(key)
    }

    /// Stores `value` under `key` in the key's shard and hands back the value
    /// it replaced, if any.
    pub fn update(&mut self, key: String, value: String) -> (r: Option<String>)
        requires
            old(self).wf(),
        ensures
            final(self).wf(),
            routed(final(self)@),
            final(self)@ == with_entry(old(self)@, key@, value@),
            match r {
                Some(v) => lookup(old(self)@, key@) == Some(v@),
                None => lookup(old(self)@, key@) == None::<Seq<char>>,
            },
    {
        self.shard_mut(key.as_str()).update(key, value)
    }

    /// Removes the entry for `key` from the key's shard and hands back its
    /// value, if there was one.
    pub fn delete(&mut self, key: &str) -> (r: Option<String>)
        requires
            old(self).wf(),
        ensures
            final(self).wf(),
            routed(final(self)@),
            final(self)@ == without_entry(old(self)@, key@),
            match r {
                Some(v) => lookup(old(self)@, key@) == Some(v@),
                None => lookup(old(self)@, key@) == None::<Seq<char>>,
            },
    {
        self.shard_mut(key).delete(key)
    }
}

} // verus!
