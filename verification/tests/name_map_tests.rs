use devendra::name_map::NameMap;

#[test]
fn get_after_insert() {
    let mut m: NameMap<u32> = NameMap::new();
    m.insert("a".to_string(), 1);
    m.insert("b".to_string(), 2);
    assert_eq!(m.get(&"a".to_string()), Some(&1));
    assert_eq!(m.get(&"b".to_string()), Some(&2));
    assert_eq!(m.get(&"c".to_string()), None);
    assert!(m.contains_key(&"a".to_string()));
}

#[test]
fn insert_replaces() {
    let mut m: NameMap<u32> = NameMap::new();
    m.insert("a".to_string(), 1);
    m.insert("a".to_string(), 5);
    assert_eq!(m.get(&"a".to_string()), Some(&5));
    assert_eq!(m.entries().len(), 1);
}

#[test]
fn remove_hands_back_the_value() {
    let mut m: NameMap<u32> = NameMap::new();
    m.insert("a".to_string(), 1);
    m.insert("b".to_string(), 2);
    assert_eq!(m.remove(&"a".to_string()), Some(1));
    assert_eq!(m.remove(&"a".to_string()), None);
    assert_eq!(m.get(&"a".to_string()), None);
    assert_eq!(m.get(&"b".to_string()), Some(&2));
}
