use shard_query::iter::{keys, Iter, IterMut};
use shard_query::query::{ExecutableQuery, Query};
use shard_query::shard_map::ShardMap;

fn insert(m: &mut ShardMap<u64>, k: u64, v: u64) -> Option<u64> {
    Query::new(m).insert(k, v).sync().exec()
}

fn get(m: &mut ShardMap<u64>, k: u64) -> Option<u64> {
    Query::new(m).get(&k).sync().exec().map(|g| *g.value())
}

fn len(m: &mut ShardMap<u64>) -> usize {
    Query::new(m).len().sync().exec()
}

#[test]
fn fresh_map_finds_nothing() {
    let mut m: ShardMap<u64> = ShardMap::new(4);
    for k in [0u64, 1, 2, 3, 17, u64::MAX] {
        assert!(get(&mut m, k).is_none());
    }
    assert_eq!(len(&mut m), 0);
}

#[test]
fn insert_fresh_key_then_get() {
    let mut m: ShardMap<u64> = ShardMap::new(4);
    assert_eq!(insert(&mut m, 7, 70), None);
    assert_eq!(get(&mut m, 7), Some(70));
    let g = Query::new(&mut m).get(&7).sync().exec().unwrap();
    assert_eq!(g.key(), 7);
    assert_eq!(g.pair(), (7, &70));
}

#[test]
fn insert_twice_replaces_value() {
    let mut m: ShardMap<u64> = ShardMap::new(4);
    assert_eq!(insert(&mut m, 5, 1), None);
    assert_eq!(insert(&mut m, 5, 2), Some(1));
    assert_eq!(get(&mut m, 5), Some(2));
    assert_eq!(len(&mut m), 1);
}

#[test]
fn remove_after_insert() {
    let mut m: ShardMap<u64> = ShardMap::new(4);
    insert(&mut m, 9, 90);
    assert_eq!(Query::new(&mut m).remove(&9).sync().exec(), Some((9, 90)));
    assert_eq!(get(&mut m, 9), None);
    assert_eq!(Query::new(&mut m).remove(&9).sync().exec(), None);
    assert_eq!(len(&mut m), 0);
}

#[test]
fn remove_keeps_other_keys_of_the_shard() {
    let mut m: ShardMap<u64> = ShardMap::new(2);
    for k in [0u64, 2, 4, 6] {
        insert(&mut m, k, k * 10);
    }
    assert_eq!(Query::new(&mut m).remove(&2).sync().exec(), Some((2, 20)));
    assert_eq!(get(&mut m, 0), Some(0));
    assert_eq!(get(&mut m, 4), Some(40));
    assert_eq!(get(&mut m, 6), Some(60));
    assert_eq!(len(&mut m), 3);
}

#[test]
fn len_counts_distinct_keys() {
    let mut m: ShardMap<u64> = ShardMap::new(3);
    for k in 0u64..10 {
        insert(&mut m, k, k);
    }
    for k in 0u64..5 {
        insert(&mut m, k, k + 100);
    }
    assert_eq!(len(&mut m), 10);
    assert_eq!(m.len(), 10);
}

#[test]
fn is_empty_matches_len() {
    let mut m: ShardMap<u64> = ShardMap::new(4);
    assert!(Query::new(&mut m).is_empty().sync().exec());
    insert(&mut m, 3, 3);
    assert!(!Query::new(&mut m).is_empty().sync().exec());
    assert_eq!(len(&mut m), 1);
    Query::new(&mut m).remove(&3).sync().exec();
    assert!(m.is_empty());
}

#[test]
fn clear_empties_every_shard() {
    let mut m: ShardMap<u64> = ShardMap::new(4);
    for k in 0u64..20 {
        insert(&mut m, k, k);
    }
    Query::new(&mut m).clear().sync().exec();
    assert_eq!(len(&mut m), 0);
    for k in 0u64..20 {
        assert_eq!(get(&mut m, k), None);
    }
    assert_eq!(m.shard_amount(), 4);
}

#[test]
fn alter_all_adds_one() {
    let mut m: ShardMap<u64> = ShardMap::new(4);
    insert(&mut m, 1, 1);
    insert(&mut m, 2, 2);
    let f = |_k: &u64, v: u64| v.wrapping_add(1);
    Query::new(&mut m).alter_all(f).sync().exec();
    assert_eq!(get(&mut m, 1), Some(2));
    assert_eq!(get(&mut m, 2), Some(3));
    assert_eq!(len(&mut m), 2);
    let mut ks = keys(&m);
    ks.sort();
    assert_eq!(ks, vec![1, 2]);
}

#[test]
fn alter_all_sees_keys() {
    let mut m: ShardMap<u64> = ShardMap::new(3);
    for k in 0u64..7 {
        insert(&mut m, k, 0);
    }
    m.alter_all(|k: &u64, v: u64| v + *k * 2);
    for k in 0u64..7 {
        assert_eq!(get(&mut m, k), Some(k * 2));
    }
}

#[test]
fn alter_all_on_empty_map() {
    let mut m: ShardMap<u64> = ShardMap::new(2);
    Query::new(&mut m).alter_all(|_k: &u64, v: u64| v + 1).sync().exec();
    assert_eq!(len(&mut m), 0);
}

#[test]
fn get_mutable_writes_through_guard() {
    let mut m: ShardMap<u64> = ShardMap::new(4);
    insert(&mut m, 11, 1);
    {
        let mut g = Query::new(&mut m).get(&11).mutable().sync().exec().unwrap();
        assert_eq!(g.key(), 11);
        assert_eq!(*g.value(), 1);
        assert_eq!(g.set(5), 1);
        assert_eq!(*g.value(), 5);
    }
    assert_eq!(get(&mut m, 11), Some(5));
    {
        let g = m.get_mut(11).unwrap();
        *g.value += 1;
    }
    assert_eq!(get(&mut m, 11), Some(6));
    assert!(Query::new(&mut m).get(&12).mutable().sync().exec().is_none());
    assert_eq!(len(&mut m), 1);
}

#[test]
fn iteration_visits_each_key_once() {
    let mut m: ShardMap<u64> = ShardMap::new(3);
    for k in [10u64, 11, 12, 13, 14, 15, 16] {
        insert(&mut m, k, k + 1);
    }
    Query::new(&mut m).remove(&13).sync().exec();
    let mut seen = Vec::new();
    {
        let mut it: Iter<u64> = Query::new(&mut m).iter().exec();
        while let Some(g) = it.next() {
            assert_eq!(*g.value(), g.key() + 1);
            seen.push(g.key());
        }
        assert!(it.next().is_none());
    }
    // shard after shard: 12, 15 | 10, 16 | 11, 14
    assert_eq!(seen, vec![12, 15, 10, 16, 11, 14]);
    assert_eq!(keys(&m), seen);
}

#[test]
fn iteration_over_empty_map() {
    let mut m: ShardMap<u64> = ShardMap::new(5);
    let mut it = Iter::new(&m);
    assert!(it.next().is_none());
    assert!(keys(&m).is_empty());
    let mut it = Query::new(&mut m).iter_mut().exec();
    assert!(it.next().is_none());
}

#[test]
fn mutable_iteration_updates_values() {
    let mut m: ShardMap<u64> = ShardMap::new(2);
    for k in 0u64..6 {
        insert(&mut m, k, k);
    }
    {
        let mut it: IterMut<u64> = Query::new(&mut m).iter_mut().exec();
        let mut n: usize = 0;
        while let Some(mut g) = it.next() {
            let v = *g.value();
            g.set(v * 100);
            n += 1;
        }
        assert_eq!(n, 6);
    }
    for k in 0u64..6 {
        assert_eq!(get(&mut m, k), Some(k * 100));
    }
    assert_eq!(len(&mut m), 6);
}

#[test]
fn keys_route_to_their_shard() {
    let m: ShardMap<u64> = ShardMap::new(4);
    assert_eq!(m.determine_map(0), 0);
    assert_eq!(m.determine_map(6), 2);
    assert_eq!(m.determine_map(u64::MAX), 3);
    let one: ShardMap<u64> = ShardMap::new(1);
    assert_eq!(one.determine_map(12345), 0);
}

#[test]
fn single_shard_map_holds_everything() {
    let mut m: ShardMap<u64> = ShardMap::new(1);
    for k in 0u64..8 {
        insert(&mut m, k, k);
    }
    assert_eq!(m.table_len(0), 8);
    assert_eq!(m.entry(0, 3), (3, &3));
    assert_eq!(len(&mut m), 8);
}

#[test]
fn largest_key_is_stored() {
    let mut m: ShardMap<u64> = ShardMap::new(7);
    assert_eq!(insert(&mut m, u64::MAX, 1), None);
    assert_eq!(insert(&mut m, 0, 2), None);
    assert_eq!(get(&mut m, u64::MAX), Some(1));
    assert_eq!(get(&mut m, 0), Some(2));
}

fn run<Q: ExecutableQuery>(q: Q) -> Q::Output {
    q.exec()
}

#[test]
fn queries_run_through_the_trait() {
    let mut m: ShardMap<u64> = ShardMap::new(4);
    assert_eq!(run(Query::new(&mut m).insert(1, 2).sync()), None);
    assert_eq!(run(Query::new(&mut m).insert(1, 3).sync()), Some(2));
    assert_eq!(run(Query::new(&mut m).len().sync()), 1);
    assert!(!run(Query::new(&mut m).is_empty().sync()));
    assert_eq!(run(Query::new(&mut m).get(&1).sync()).map(|g| *g.value()), Some(3));
    assert_eq!(run(Query::new(&mut m).remove(&1).sync()), Some((1, 3)));
    run(Query::new(&mut m).clear().sync());
    assert!(run(Query::new(&mut m).is_empty().sync()));
}

#[test]
fn string_values() {
    let mut m: ShardMap<String> = ShardMap::new(2);
    assert_eq!(Query::new(&mut m).insert(1, "a".to_string()).sync().exec(), None);
    let prev = Query::new(&mut m).insert(1, "b".to_string()).sync().exec();
    assert_eq!(prev.as_deref(), Some("a"));
    Query::new(&mut m)
        .alter_all(|_k: &u64, v: String| v + "!")
        .sync()
        .exec();
    let got = Query::new(&mut m).get(&1).sync().exec().map(|g| g.value().clone());
    assert_eq!(got.as_deref(), Some("b!"));
}

#[test]
fn insert_and_remove_touch_one_shard() {
    let mut m: ShardMap<u64> = ShardMap::new(3);
    for k in [0u64, 1, 2, 3, 4, 5] {
        insert(&mut m, k, k);
    }
    assert_eq!((m.table_len(0), m.table_len(1), m.table_len(2)), (2, 2, 2));
    insert(&mut m, 7, 70);
    assert_eq!((m.table_len(0), m.table_len(1), m.table_len(2)), (2, 3, 2));
    Query::new(&mut m).remove(&2).sync().exec();
    assert_eq!((m.table_len(0), m.table_len(1), m.table_len(2)), (2, 3, 1));
    assert_eq!(m.entry(1, 0), (1, &1));
    assert_eq!(m.entry(1, 2), (7, &70));
    Query::new(&mut m).clear().sync().exec();
    assert_eq!(m.shard_amount(), 3);
    assert_eq!((m.table_len(0), m.table_len(1), m.table_len(2)), (0, 0, 0));
}

#[test]
fn alter_all_keeps_every_slot() {
    let mut m: ShardMap<u64> = ShardMap::new(2);
    for k in [5u64, 3, 8, 1, 6] {
        insert(&mut m, k, k);
    }
    let before = keys(&m);
    Query::new(&mut m).alter_all(|k: &u64, v: u64| v + *k).sync().exec();
    assert_eq!(keys(&m), before);
    assert_eq!(m.entry(0, 0), (8, &16));
    assert_eq!(m.entry(0, 1), (6, &12));
    assert_eq!(m.entry(1, 0), (5, &10));
    assert_eq!(m.entry(1, 2), (1, &2));
    assert_eq!(m.shard_amount(), 2);
}
