use adbmdns::vec_map::{VecMap, VecSet};

#[test]
fn vec_map_insert_get_remove() {
    let mut m: VecMap<String, String> = VecMap::new();
    m.insert("a".to_string(), "1".to_string());
    m.insert("b".to_string(), "2".to_string());
    m.insert("a".to_string(), "3".to_string());
    assert_eq!(m.len(), 2);
    assert_eq!(m.get(&"a".to_string()), Some(&"3".to_string()));
    assert!(m.contains_key(&"b".to_string()));
    assert_eq!(m.remove(&"b".to_string()), Some("2".to_string()));
    assert_eq!(m.remove(&"b".to_string()), None);
    assert_eq!(m.len(), 1);
}

#[test]
fn vec_map_equality_ignores_order() {
    let mut m1: VecMap<String, String> = VecMap::new();
    m1.insert("a".to_string(), "1".to_string());
    m1.insert("b".to_string(), "2".to_string());
    let mut m2: VecMap<String, String> = VecMap::new();
    m2.insert("b".to_string(), "2".to_string());
    m2.insert("a".to_string(), "1".to_string());
    assert_eq!(m1, m2);
    m2.insert("a".to_string(), "9".to_string());
    assert_ne!(m1, m2);
}

#[test]
fn vec_set_basics() {
    let mut s: VecSet<u32> = VecSet::new();
    assert!(s.is_empty());
    s.insert(3);
    s.insert(3);
    s.insert(4);
    assert_eq!(s.len(), 2);
    assert!(s.contains(&4));
    s.remove(&3);
    assert!(!s.contains(&3));
    let mut t: VecSet<u32> = VecSet::new();
    t.insert(4);
    assert_eq!(s, t);
    assert_eq!(s.to_vec(), vec![4]);
}
