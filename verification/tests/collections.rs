use casper_dao::error::Error;
use casper_dao::indexed::{Hashed, Index, IndexedMapping};
use casper_dao::list::List;
use casper_dao::sequence::SequenceGenerator;
use std::hash::{Hash, Hasher};

fn std_hash<T: Hash>(v: T) -> u64 {
    let mut h = std::collections::hash_map::DefaultHasher::new();
    v.hash(&mut h);
    h.finish()
}

#[test]
fn hashes_match_default_hasher() {
    assert_eq!(7u32.calculate_hash(), std_hash(7u32));
    assert_eq!(9u64.calculate_hash(), std_hash(9u64));
    assert_ne!(7u32.calculate_hash(), 7u64);
}

#[test]
fn index_set_get_unset() {
    let mut index = Index::new("ids".to_string());
    assert_eq!(index.get(&5u32), None);
    index.set(3, &5u32);
    assert_eq!(index.get(&5u32), Some(3));
    index.unset(&5u32);
    assert_eq!(index.get(&5u32), None);
}

#[test]
fn indexed_mapping_set_remove() {
    let mut m: IndexedMapping<u64> = IndexedMapping::new("items".to_string());
    m.set(0, 40);
    m.set(1, 41);
    assert_eq!(m.get(0), Some(40));
    assert_eq!(m.index_of(&41), Some(1));
    assert!(m.contains(&40));
    assert_eq!(m.remove(40), (true, 0));
    assert_eq!(m.get(0), None);
    assert!(!m.contains(&40));
    // a second removal finds nothing
    assert_eq!(m.remove(40), (false, 0));
    // a value never stored
    assert_eq!(m.remove(99), (false, 0));
    m.unset(1);
    assert_eq!(m.get(1), None);
    // a cleared value is no longer found
    assert_eq!(m.index_of(&41), None);
    assert!(!m.contains(&41));
    assert_eq!(m.remove(41), (false, 0));
    assert_eq!(m.path(), "items");
}

#[test]
fn indexed_mapping_overwrite_forgets_the_former_value() {
    let mut m: IndexedMapping<u32> = IndexedMapping::new("m".to_string());
    m.set(0, 1);
    m.set(0, 2);
    assert_eq!(m.remove(1), (false, 0));
    assert_eq!(m.get(0), Some(2));
    assert!(m.contains(&2));
    assert_eq!(m.index_of(&2), Some(0));
    let mut n: IndexedMapping<u32> = IndexedMapping::new("n".to_string());
    n.set(3, 7);
    n.unset(3);
    assert_eq!(n.get(3), None);
    assert!(!n.contains(&7));
}

#[test]
fn list_add_is_idempotent_and_remove_swaps_last() {
    let mut l: List<u32> = List::new("members");
    l.init();
    l.add(10);
    l.add(20);
    l.add(30);
    l.add(20);
    assert_eq!(l.size(), 3);
    assert!(l.contains(&20));
    l.remove(10);
    assert_eq!(l.size(), 2);
    // the last item moved into the freed position
    assert_eq!(l.get(0), Ok(30));
    assert_eq!(l.get(1), Ok(20));
    assert_eq!(l.get(2), Err(Error::ValueNotAvailable));
    l.remove(20);
    assert_eq!(l.size(), 1);
    assert_eq!(l.get(0), Ok(30));
    l.remove(99);
    assert_eq!(l.size(), 1);
    l.init();
    assert_eq!(l.size(), 0);
}

#[test]
fn list_add_then_remove_restores() {
    let mut l: List<u32> = List::new("members");
    assert_eq!(l.get(0), Err(Error::ValueNotAvailable));
    l.add(1);
    l.add(2);
    l.add(3);
    l.remove(3);
    assert_eq!(l.size(), 2);
    assert_eq!(l.get(0), Ok(1));
    assert_eq!(l.get(1), Ok(2));
}

#[test]
fn sequence_generator_without_stored_value_stays_at_zero() {
    let mut g = SequenceGenerator::new();
    assert_eq!(g.get_current_value(), 0);
    assert_eq!(g.next_value(), 0);
    assert_eq!(g.next_value(), 0);
    assert_eq!(g.get_current_value(), 0);
}
