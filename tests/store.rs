use std::collections::hash_map::DefaultHasher;
use std::hash::{Hash, Hasher};

use sharded_db::database::{ShardedDatabase, NUMBER_OF_SHARDS};
use sharded_db::shard::{keys_equal, Shard};

fn s(text: &str) -> String {
    text.to_string()
}

fn str_hash_shard(key: &str) -> usize {
    let mut hasher = DefaultHasher::new();
    key.hash(&mut hasher);
    (hasher.finish() % NUMBER_OF_SHARDS as u64) as usize
}

#[test]
fn end_to_end_scenario() {
    let mut db = ShardedDatabase::new();
    db.insert(s("user1"), s("Alice"));
    db.insert(s("user2"), s("Bob"));
    assert_eq!(db.get("user1"), Some(&s("Alice")));
    assert_eq!(db.get("user2"), Some(&s("Bob")));

    db.update(s("user1"), s("Alicia"));
    assert_eq!(db.get("user1"), Some(&s("Alicia")));
    assert_eq!(db.get("user2"), Some(&s("Bob")));

    db.delete("user2");
    assert_eq!(db.get("user2"), None);
    assert_eq!(db.get("user1"), Some(&s("Alicia")));
}

#[test]
fn routing_is_deterministic() {
    let db = ShardedDatabase::new();
    let other = ShardedDatabase::new();
    for key in ["", "user1", "user2", "a much longer key with spaces", "clé"] {
        let first = db.determine_shard(key);
        assert_eq!(db.determine_shard(key), first);
        assert_eq!(other.determine_shard(key), first);
        assert_eq!(db.determine_shard(&key.to_string()), first);
    }
}

#[test]
fn routing_stays_in_range() {
    let db = ShardedDatabase::new();
    for n in 0..200 {
        let key = format!("key{}", n);
        assert!(db.determine_shard(&key) < NUMBER_OF_SHARDS);
    }
}

#[test]
fn routing_matches_the_hash_of_str() {
    let db = ShardedDatabase::new();
    for n in 0..100 {
        let key = format!("k-{}", n);
        assert_eq!(db.determine_shard(&key), str_hash_shard(&key));
    }
    assert_eq!(db.determine_shard(""), str_hash_shard(""));
    assert_eq!(db.determine_shard("user1"), str_hash_shard("user1"));
}

#[test]
fn routing_spreads_keys_over_every_shard() {
    let db = ShardedDatabase::new();
    let mut seen = vec![false; NUMBER_OF_SHARDS];
    for n in 0..200 {
        seen[db.determine_shard(&format!("key{}", n))] = true;
    }
    assert!(seen.iter().all(|b| *b));
}

#[test]
fn insert_then_get_round_trip() {
    let mut db = ShardedDatabase::new();
    for n in 0..50 {
        db.insert(format!("k{}", n), format!("v{}", n));
    }
    for n in 0..50 {
        assert_eq!(db.get(&format!("k{}", n)), Some(&format!("v{}", n)));
    }
    assert_eq!(db.get("k50"), None);
}

#[test]
fn insert_overwrites_silently() {
    let mut db = ShardedDatabase::new();
    db.insert(s("k"), s("first"));
    db.insert(s("k"), s("second"));
    assert_eq!(db.get("k"), Some(&s("second")));
    assert_eq!(db.delete("k"), Some(s("second")));
    assert_eq!(db.get("k"), None);
}

#[test]
fn update_returns_previous_value() {
    let mut db = ShardedDatabase::new();
    db.insert(s("k"), s("v1"));
    assert_eq!(db.update(s("k"), s("v2")), Some(s("v1")));
    assert_eq!(db.get("k"), Some(&s("v2")));
}

#[test]
fn update_on_absent_key_stores_value() {
    let mut db = ShardedDatabase::new();
    assert_eq!(db.update(s("fresh"), s("v")), None);
    assert_eq!(db.get("fresh"), Some(&s("v")));
}

#[test]
fn delete_removes_and_returns() {
    let mut db = ShardedDatabase::new();
    db.insert(s("k"), s("v"));
    assert_eq!(db.delete("k"), Some(s("v")));
    assert_eq!(db.get("k"), None);
}

#[test]
fn delete_on_absent_key_changes_nothing() {
    let mut db = ShardedDatabase::new();
    db.insert(s("a"), s("1"));
    db.insert(s("b"), s("2"));
    assert_eq!(db.delete("never"), None);
    assert_eq!(db.delete("a"), Some(s("1")));
    assert_eq!(db.delete("a"), None);
    assert_eq!(db.get("b"), Some(&s("2")));
    assert_eq!(db.get("a"), None);
}

#[test]
fn shards_are_isolated() {
    let mut db = ShardedDatabase::new();
    let first = s("user1");
    let target = db.determine_shard(&first);
    let mut other = String::new();
    for n in 0..100 {
        let key = format!("other{}", n);
        if db.determine_shard(&key) != target {
            other = key;
            break;
        }
    }
    assert_ne!(db.determine_shard(&other), target);

    db.insert(first.clone(), s("Alice"));
    db.insert(other.clone(), s("Bob"));
    db.update(first.clone(), s("Alicia"));
    assert_eq!(db.get(&other), Some(&s("Bob")));
    db.delete(&first);
    assert_eq!(db.get(&other), Some(&s("Bob")));
    db.insert(first.clone(), s("Ann"));
    assert_eq!(db.delete(&other), Some(s("Bob")));
    assert_eq!(db.get(&first), Some(&s("Ann")));
}

#[test]
fn keys_in_one_shard_do_not_disturb_each_other() {
    let mut db = ShardedDatabase::new();
    let target = db.determine_shard("k0");
    let same: Vec<String> = (1..200)
        .map(|n| format!("k{}", n))
        .filter(|k| db.determine_shard(k) == target)
        .take(5)
        .collect();
    assert_eq!(same.len(), 5);
    db.insert(s("k0"), s("zero"));
    for (n, key) in same.iter().enumerate() {
        db.insert(key.clone(), format!("v{}", n));
    }
    assert_eq!(db.delete(&same[2]), Some(s("v2")));
    assert_eq!(db.get("k0"), Some(&s("zero")));
    assert_eq!(db.get(&same[0]), Some(&s("v0")));
    assert_eq!(db.get(&same[4]), Some(&s("v4")));
    assert_eq!(db.get(&same[2]), None);
}

#[test]
fn empty_key_and_value_are_ordinary() {
    let mut db = ShardedDatabase::new();
    db.insert(s(""), s(""));
    assert_eq!(db.get(""), Some(&s("")));
    assert_eq!(db.update(s(""), s("x")), Some(s("")));
    assert_eq!(db.delete(""), Some(s("x")));
    assert_eq!(db.get(""), None);
}

#[test]
fn new_store_is_empty() {
    let db = ShardedDatabase::new();
    assert_eq!(db.get("user1"), None);
    assert_eq!(db.get(""), None);
}

#[test]
fn shard_mut_gives_the_routed_shard() {
    let mut db = ShardedDatabase::new();
    db.shard_mut("user1").insert(s("user1"), s("Alice"));
    assert_eq!(db.get("user1"), Some(&s("Alice")));
    assert_eq!(db.shard_mut("user1").get("user1"), Some(&s("Alice")));
}

#[test]
fn shard_operations() {
    let mut shard = Shard::new();
    assert_eq!(shard.get("a"), None);
    shard.insert(s("a"), s("1"));
    shard.insert(s("b"), s("2"));
    assert_eq!(shard.get("a"), Some(&s("1")));
    assert_eq!(shard.update(s("a"), s("3")), Some(s("1")));
    assert_eq!(shard.update(s("c"), s("4")), None);
    assert_eq!(shard.delete("a"), Some(s("3")));
    assert_eq!(shard.delete("a"), None);
    assert_eq!(shard.get("b"), Some(&s("2")));
    assert_eq!(shard.get("c"), Some(&s("4")));
}

#[test]
fn keys_compare_by_text() {
    assert!(keys_equal("user1", "user1"));
    assert!(keys_equal("", ""));
    assert!(keys_equal("clé", "clé"));
    assert!(!keys_equal("user1", "user2"));
    assert!(!keys_equal("user", "user1"));
    assert!(!keys_equal("cle", "clé"));
}
