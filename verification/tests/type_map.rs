use plug_layer::TypeMap;
use std::any::TypeId;

#[test]
fn a_new_map_is_empty() {
    let map: TypeMap<u64> = TypeMap::new();

    assert_eq!(map.len(), 0);
    assert!(!map.contains_key(&TypeId::of::<u8>()));
    assert_eq!(map.get(&TypeId::of::<u8>()), None);
    assert_eq!(map.nth(0), None);
    assert_eq!(map.index_of(&TypeId::of::<u8>()), 0);
}

#[test]
fn insert_once_stores_under_a_free_key() {
    let mut map = TypeMap::new();

    assert_eq!(map.insert_once(TypeId::of::<u8>(), 8), None);
    assert_eq!(map.insert_once(TypeId::of::<u16>(), 16), None);

    assert_eq!(map.len(), 2);
    assert_eq!(map.get(&TypeId::of::<u8>()), Some(&8));
    assert_eq!(map.get(&TypeId::of::<u16>()), Some(&16));
    assert_eq!(map.get(&TypeId::of::<u32>()), None);
}

#[test]
fn insert_once_gives_back_what_a_taken_key_refuses() {
    let mut map = TypeMap::new();
    map.insert_once(TypeId::of::<u8>(), 8);

    assert_eq!(map.insert_once(TypeId::of::<u8>(), 80), Some(80));

    assert_eq!(map.len(), 1);
    assert_eq!(map.get(&TypeId::of::<u8>()), Some(&8));
}

#[test]
fn entries_stay_in_the_order_of_insertion() {
    let mut map = TypeMap::new();
    map.insert_once(TypeId::of::<u32>(), 32);
    map.insert_once(TypeId::of::<u8>(), 8);
    map.insert_once(TypeId::of::<u16>(), 16);

    assert_eq!(map.nth(0), Some(&32));
    assert_eq!(map.nth(1), Some(&8));
    assert_eq!(map.nth(2), Some(&16));
    assert_eq!(map.nth(3), None);
    assert_eq!(map.index_of(&TypeId::of::<u32>()), 0);
    assert_eq!(map.index_of(&TypeId::of::<u8>()), 1);
    assert_eq!(map.index_of(&TypeId::of::<u16>()), 2);
    assert_eq!(map.index_of(&TypeId::of::<u64>()), 3);
}

#[test]
fn remove_takes_the_entry_out_and_keeps_the_order_of_the_rest() {
    let mut map = TypeMap::new();
    map.insert_once(TypeId::of::<u32>(), 32);
    map.insert_once(TypeId::of::<u8>(), 8);
    map.insert_once(TypeId::of::<u16>(), 16);

    assert_eq!(map.remove(&TypeId::of::<u8>()), Some(8));

    assert_eq!(map.len(), 2);
    assert!(!map.contains_key(&TypeId::of::<u8>()));
    assert_eq!(map.nth(0), Some(&32));
    assert_eq!(map.nth(1), Some(&16));
    assert_eq!(map.remove(&TypeId::of::<u8>()), None);
    assert_eq!(map.len(), 2);
}

#[test]
fn remove_of_an_absent_key_changes_nothing() {
    let mut map = TypeMap::new();
    map.insert_once(TypeId::of::<u32>(), 32);

    assert_eq!(map.remove(&TypeId::of::<u64>()), None);

    assert_eq!(map.len(), 1);
    assert_eq!(map.get(&TypeId::of::<u32>()), Some(&32));
}
