use ref_farming::str_map::{StrMap, StrSet};

#[test]
fn map_keeps_one_value_per_key() {
    let mut m: StrMap<u128> = StrMap::new();
    assert_eq!(m.len(), 0);
    assert_eq!(m.get(&String::from("a")), None);
    m.insert(String::from("a"), 1);
    m.insert(String::from("b"), 2);
    m.insert(String::from("a"), 3);
    assert_eq!(m.len(), 2);
    assert_eq!(m.get(&String::from("a")), Some(3));
    assert_eq!(m.get(&String::from("b")), Some(2));
    assert!(m.contains_key(&String::from("b")));
    assert!(!m.contains_key(&String::from("c")));
    assert_eq!(m.key_at(0), "a");
    assert_eq!(m.key_at(1), "b");
    assert_eq!(*m.value_at(1), 2);
    assert_eq!(m.find(&String::from("b")), Some(1));
}

#[test]
fn map_removes_keys() {
    let mut m: StrMap<u128> = StrMap::new();
    m.insert(String::from("a"), 1);
    m.insert(String::from("b"), 2);
    m.insert(String::from("c"), 3);
    assert_eq!(m.remove(&String::from("b")), Some(2));
    assert_eq!(m.remove(&String::from("b")), None);
    assert_eq!(m.len(), 2);
    assert_eq!(m.key_at(0), "a");
    assert_eq!(m.key_at(1), "c");
    assert_eq!(m.get(&String::from("c")), Some(3));
    let copy = m.clone_map();
    assert_eq!(copy.len(), 2);
    assert_eq!(copy.get(&String::from("a")), Some(1));
}

#[test]
fn set_holds_each_member_once() {
    let mut s = StrSet::new();
    s.insert(String::from("x"));
    s.insert(String::from("y"));
    s.insert(String::from("x"));
    assert_eq!(s.len(), 2);
    assert!(s.contains(&String::from("x")));
    assert!(!s.contains(&String::from("z")));
    assert!(s.remove(&String::from("x")));
    assert!(!s.remove(&String::from("x")));
    assert_eq!(s.len(), 1);
    assert_eq!(s.key_at(0), "y");
    let copy = s.clone();
    assert!(copy.contains(&String::from("y")));
}
