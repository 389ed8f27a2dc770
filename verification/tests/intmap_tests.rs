use platsat::intmap::{IntMap, IntMapBool, IntSet};
use platsat::lits::Var;

fn v(i: u32) -> Var {
    Var::from_idx(i)
}

#[test]
fn map_reserve_pad_scenario() {
    // Reserving index 5 with pad 0 on an empty integer map gives length 6,
    // and every slot reads as the pad until written.
    let mut m: IntMap<Var, i32> = IntMap::new();
    assert_eq!(m.len(), 0);
    assert!(!m.has(v(5)));
    m.reserve(v(5), 0);
    assert_eq!(m.len(), 6);
    for i in 0..6 {
        assert!(m.has(v(i)));
        assert_eq!(*m.get(v(i)), 0);
    }
    m.set(v(5), 41);
    assert_eq!(*m.get(v(5)), 41);
    assert_eq!(*m.get(v(4)), 0);
}

#[test]
fn map_has_after_any_reserve_or_insert() {
    let mut m: IntMap<Var, u64> = IntMap::new();
    m.reserve(v(2), 7);
    m.insert(v(9), 100, 7);
    m.reserve_default(v(4));
    m.insert_default(v(0), 3);
    for i in [0u32, 2, 4, 9] {
        assert!(m.has(v(i)));
    }
    // Length is one more than the largest index ever reserved.
    assert_eq!(m.len(), 10);
    assert_eq!(*m.get(v(9)), 100);
    assert_eq!(*m.get(v(0)), 3);
    // Slots padded by the first reserve hold the pad.
    assert_eq!(*m.get(v(1)), 7);
    // Slots created by reserve_default hold the default.
    assert_eq!(*m.get(v(3)), 7);
}

#[test]
fn map_insert_overwrites_and_pads() {
    let mut m: IntMap<Var, i32> = IntMap::new();
    m.insert(v(3), 9, -1);
    assert_eq!(m.len(), 4);
    assert_eq!(*m.get(v(3)), 9);
    assert_eq!(*m.get(v(0)), -1);
    assert_eq!(*m.get(v(2)), -1);
    m.insert(v(1), 5, -1);
    assert_eq!(*m.get(v(1)), 5);
    assert_eq!(*m.get(v(3)), 9);
}

#[test]
fn map_clear_then_free_like_new() {
    let mut m: IntMap<Var, i32> = IntMap::new();
    m.insert(v(7), 1, 0);
    assert!(m.has(v(7)));
    m.clear();
    // After clear no key is covered until reserved again.
    for i in 0..10 {
        assert!(!m.has(v(i)));
    }
    assert_eq!(m.len(), 0);
    m.reserve(v(2), 4);
    assert!(m.has(v(2)));
    m.free();
    // After free the map behaves like a fresh one.
    let fresh: IntMap<Var, i32> = IntMap::new();
    assert_eq!(m.len(), fresh.len());
    assert!(!m.has(v(0)));
    m.insert(v(1), 8, 0);
    assert_eq!(*m.get(v(1)), 8);
    assert_eq!(m.len(), 2);
}

#[test]
fn map_iter_ascending_pairs() {
    let mut m: IntMap<Var, i32> = IntMap::new();
    m.insert(v(2), 20, 0);
    m.insert(v(0), 5, 0);
    let pairs = m.iter();
    assert_eq!(pairs.len(), 3);
    let expect = [(0u32, 5i32), (1, 0), (2, 20)];
    for (i, (k, val)) in pairs.iter().enumerate() {
        assert_eq!(k.idx(), expect[i].0);
        assert_eq!(*val, expect[i].1);
    }
}

#[test]
fn bitset_reserve_set_get() {
    let mut b: IntMapBool<Var> = IntMapBool::new();
    assert_eq!(b.len(), 0);
    assert!(!b.has(v(0)));
    b.reserve(v(40));
    assert_eq!(b.len(), 41);
    for i in 0..41 {
        assert!(b.has(v(i)));
        assert!(!b.get(v(i)));
    }
    b.set(v(33), true);
    assert!(b.get(v(33)));
    assert!(!b.get(v(32)));
    assert!(!b.get(v(34)));
    b.set(v(33), false);
    assert!(!b.get(v(33)));
}

#[test]
fn bitset_insert_and_clear() {
    let mut b: IntMapBool<Var> = IntMapBool::new();
    b.insert(v(3));
    assert!(b.has(v(3)));
    assert!(b.get(v(3)));
    assert!(!b.get(v(0)));
    b.insert(v(64));
    assert!(b.get(v(64)));
    assert!(b.get(v(3)));
    b.clear();
    assert_eq!(b.len(), 0);
    for i in 0..70 {
        assert!(!b.has(v(i)));
    }
    b.insert(v(1));
    assert!(b.get(v(1)));
    b.free();
    assert!(!b.has(v(1)));
}

#[test]
fn set_insertion_order_scenario() {
    // Insertions [3, 1, 3, 2] keep first-insertion order without repeats.
    let mut s: IntSet<Var> = IntSet::new();
    for i in [3u32, 1, 3, 2] {
        s.insert(v(i));
    }
    assert_eq!(s.len(), 3);
    let order: Vec<u32> = s.as_slice().iter().map(|k| k.idx()).collect();
    assert_eq!(order, vec![3, 1, 2]);
    assert!(s.has(v(3)));
    assert!(!s.has(v(5)));
}

#[test]
fn set_len_counts_distinct_keys() {
    let mut s: IntSet<Var> = IntSet::new();
    let inserts = [4u32, 4, 0, 9, 0, 9, 9, 2];
    for i in inserts {
        s.insert(v(i));
    }
    assert_eq!(s.len(), 4);
    for i in [4u32, 0, 9, 2] {
        assert!(s.has(v(i)));
    }
    assert_eq!(s.get_at(0).idx(), 4);
    assert_eq!(s.get_at(3).idx(), 2);
}

#[test]
fn set_clear_then_reinsert_fresh_order() {
    let mut s: IntSet<Var> = IntSet::new();
    s.insert(v(5));
    s.insert(v(1));
    s.clear();
    assert_eq!(s.len(), 0);
    assert!(!s.has(v(5)));
    assert!(!s.has(v(1)));
    s.insert(v(1));
    s.insert(v(5));
    let order: Vec<u32> = s.as_slice().iter().map(|k| k.idx()).collect();
    assert_eq!(order, vec![1, 5]);
}
