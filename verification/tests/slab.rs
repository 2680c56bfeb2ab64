use slacktor::slab::{Slab, SlabKey};

fn key(index: usize, generation: usize) -> SlabKey {
    SlabKey { index, generation }
}

#[test]
fn reuse_after_removal_moves_the_generation_on() {
    let mut slab: Slab<&str> = Slab::new(2);
    let x = slab.insert("X").unwrap();
    assert_eq!(x, key(0, 0));
    let y = slab.insert("Y").unwrap();
    assert_eq!(y, key(1, 0));
    slab.remove(&x);
    let z = slab.insert("Z").unwrap();
    assert_eq!(z, key(0, 1));
    assert_eq!(slab.get(&key(0, 0)), None);
    assert_eq!(slab.get(&key(0, 1)), Some(&"Z"));
}

#[test]
fn new_slab_is_empty_and_makes_no_slot() {
    let slab: Slab<u32> = Slab::new(4);
    assert_eq!(slab.len(), 0);
    assert!(slab.is_empty());
    assert_eq!(slab.capacity(), 4);
    assert_eq!(slab.get(&key(0, 0)), None);
    assert!(!slab.contains(&key(0, 0)));
    assert_eq!(slab.vacant_key(), key(0, 0));
    assert!(!slab.is_full());
}

#[test]
fn insert_beyond_capacity_stores_nothing() {
    let mut slab: Slab<u32> = Slab::new(2);
    let a = slab.insert(10).unwrap();
    let b = slab.insert(20).unwrap();
    assert!(slab.is_full());
    assert_eq!(slab.insert(30), None);
    assert_eq!(slab.len(), 2);
    assert_eq!(slab.get(&a), Some(&10));
    assert_eq!(slab.get(&b), Some(&20));
    assert_eq!(slab.get(&key(2, 0)), None);
}

#[test]
fn slab_without_capacity_is_full() {
    let mut slab: Slab<u32> = Slab::new(0);
    assert!(slab.is_full());
    assert_eq!(slab.insert(1), None);
    assert!(slab.is_empty());
}

#[test]
fn increase_capacity_makes_room_again() {
    let mut slab: Slab<u32> = Slab::new(1);
    let a = slab.insert(1).unwrap();
    assert_eq!(slab.insert(2), None);
    slab.increase_capacity(Some(2));
    assert_eq!(slab.capacity(), 3);
    assert_eq!(slab.insert(2), Some(key(1, 0)));
    assert_eq!(slab.insert(3), Some(key(2, 0)));
    assert_eq!(slab.insert(4), None);
    assert_eq!(slab.get(&a), Some(&1));
}

#[test]
fn increase_capacity_doubles_by_default() {
    let mut slab: Slab<u32> = Slab::new(3);
    slab.increase_capacity(None);
    assert_eq!(slab.capacity(), 6);
    slab.increase_capacity(None);
    assert_eq!(slab.capacity(), 12);
}

#[test]
fn increase_capacity_stops_at_the_greatest_number() {
    let mut slab: Slab<u32> = Slab::new(5);
    slab.increase_capacity(Some(usize::MAX));
    assert_eq!(slab.capacity(), usize::MAX);
    assert_eq!(slab.insert(7), Some(key(0, 0)));
}

#[test]
fn removed_key_finds_nothing_again() {
    let mut slab: Slab<String> = Slab::new(4);
    let a = slab.insert("a".to_string()).unwrap();
    let b = slab.insert("b".to_string()).unwrap();
    slab.remove(&a);
    assert_eq!(slab.get(&a), None);
    assert!(!slab.contains(&a));
    let c = slab.insert("c".to_string()).unwrap();
    assert_eq!(c.index, a.index);
    assert!(c.generation > a.generation);
    assert_eq!(slab.get(&a), None);
    assert_eq!(slab.get(&c), Some(&"c".to_string()));
    assert_eq!(slab.get(&b), Some(&"b".to_string()));
}

#[test]
fn removal_twice_is_removal_once() {
    let mut slab: Slab<u32> = Slab::new(4);
    let a = slab.insert(1).unwrap();
    let b = slab.insert(2).unwrap();
    slab.remove(&a);
    assert_eq!(slab.len(), 1);
    slab.remove(&a);
    assert_eq!(slab.len(), 1);
    assert_eq!(slab.get(&b), Some(&2));
    assert_eq!(slab.vacant_key(), key(0, 1));
    assert_eq!(slab.insert(3), Some(key(0, 1)));
    assert_eq!(slab.vacant_key(), key(2, 0));
}

#[test]
fn removal_of_a_key_that_names_nothing_changes_nothing() {
    let mut slab: Slab<u32> = Slab::new(4);
    let a = slab.insert(1).unwrap();
    slab.remove(&key(7, 0));
    slab.remove(&key(0, 3));
    assert_eq!(slab.len(), 1);
    assert_eq!(slab.get(&a), Some(&1));
    assert_eq!(slab.vacant_key(), key(1, 0));
}

#[test]
fn slots_are_reused_last_in_first_out() {
    let mut slab: Slab<u32> = Slab::new(4);
    let _z = slab.insert(0).unwrap();
    let a = slab.insert(1).unwrap();
    let b = slab.insert(2).unwrap();
    slab.remove(&a);
    slab.remove(&b);
    assert_eq!(slab.insert(3), Some(key(b.index, b.generation + 1)));
    assert_eq!(slab.insert(4), Some(key(a.index, a.generation + 1)));
    assert_eq!(slab.insert(5), Some(key(3, 0)));
}

#[test]
fn keys_of_live_values_are_all_different() {
    let mut slab: Slab<usize> = Slab::new(8);
    let mut live: Vec<SlabKey> = Vec::new();
    for round in 0..40 {
        if round % 3 == 2 {
            let gone = live.remove(round % live.len());
            slab.remove(&gone);
        } else if let Some(k) = slab.insert(round) {
            assert!(!live.contains(&k));
            live.push(k);
        }
        assert_eq!(slab.len(), live.len());
    }
    for (i, a) in live.iter().enumerate() {
        for b in live.iter().skip(i + 1) {
            assert_ne!(a, b);
            assert_ne!(a.index, b.index);
        }
    }
}

#[test]
fn get_mut_changes_the_value_in_place() {
    let mut slab: Slab<u32> = Slab::new(2);
    let a = slab.insert(1).unwrap();
    let b = slab.insert(2).unwrap();
    *slab.get_mut(&a).unwrap() = 11;
    assert_eq!(slab.get(&a), Some(&11));
    assert_eq!(slab.get(&b), Some(&2));
    assert_eq!(slab.len(), 2);
}

#[test]
fn get_mut_of_a_stale_key_finds_nothing() {
    let mut slab: Slab<u32> = Slab::new(2);
    let a = slab.insert(1).unwrap();
    slab.remove(&a);
    assert!(slab.get_mut(&a).is_none());
    assert!(slab.get_mut(&key(5, 0)).is_none());
    let c = slab.insert(3).unwrap();
    assert!(slab.get_mut(&a).is_none());
    assert_eq!(slab.get_mut(&c), Some(&mut 3));
}

#[test]
fn clear_goes_back_to_the_initial_capacity() {
    let mut slab: Slab<u32> = Slab::new(2);
    let a = slab.insert(1).unwrap();
    slab.increase_capacity(Some(5));
    slab.remove(&a);
    slab.clear();
    assert_eq!(slab.len(), 0);
    assert_eq!(slab.capacity(), 2);
    assert_eq!(slab.get(&a), None);
    assert_eq!(slab.insert(9), Some(key(0, 0)));
}

#[test]
fn deallocate_to_sets_a_new_initial_capacity() {
    let mut slab: Slab<u32> = Slab::new(2);
    slab.insert(1).unwrap();
    slab.deallocate_to(1);
    assert!(slab.is_empty());
    assert_eq!(slab.capacity(), 1);
    assert_eq!(slab.insert(5), Some(key(0, 0)));
    assert_eq!(slab.insert(6), None);
    slab.increase_capacity(Some(3));
    slab.clear();
    assert_eq!(slab.capacity(), 1);
}

#[test]
fn drain_hands_out_the_values_from_the_back() {
    let mut slab: Slab<u32> = Slab::new(4);
    slab.insert(1).unwrap();
    let b = slab.insert(2).unwrap();
    slab.insert(3).unwrap();
    slab.remove(&b);
    let values = slab.drain();
    assert_eq!(values, vec![3, 1]);
    assert!(slab.is_empty());
    assert_eq!(slab.capacity(), 4);
    assert_eq!(slab.vacant_key(), key(0, 0));
}

#[test]
fn shrink_to_fit_keeps_the_slots_and_their_generations() {
    let mut slab: Slab<u32> = Slab::new(8);
    let a = slab.insert(1).unwrap();
    let b = slab.insert(2).unwrap();
    slab.remove(&b);
    slab.shrink_to_fit();
    assert_eq!(slab.capacity(), 2);
    assert_eq!(slab.get(&a), Some(&1));
    assert_eq!(slab.get(&b), None);
    assert_eq!(slab.insert(3), Some(key(1, 1)));
    assert_eq!(slab.insert(4), None);
}

#[test]
fn a_key_of_another_generation_removes_nothing() {
    let mut slab: Slab<u32> = Slab::new(2);
    let a = slab.insert(1).unwrap();
    let mut forged = a;
    forged.generation = usize::MAX;
    slab.remove(&forged);
    assert_eq!(slab.get(&a), Some(&1));
    assert_eq!(slab.len(), 1);
}

#[test]
fn key_shows_its_index_and_generation() {
    let k = key(3, 7);
    assert_eq!(format!("{:?}", k), "SlabKey { index: 3, generation: 7 }");
    let copy = k;
    assert_eq!(copy, k);
    assert_ne!(k, key(3, 8));
    assert_ne!(k, key(4, 7));
}
