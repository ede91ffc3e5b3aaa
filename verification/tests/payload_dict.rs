use dht::bt::payload_dict::PayloadDict;

#[test]
fn new_dict_is_empty() {
    let d = PayloadDict::new();
    assert!(d.is_empty());
    assert_eq!(d.len(), 0);
    assert!(d.entries().is_empty());
    assert_eq!(d.get("a"), None);
    assert!(!d.contains_key("a"));
}

#[test]
fn insert_stores_and_replaces() {
    let mut d = PayloadDict::new();
    assert_eq!(d.insert("a".to_string(), vec![1]), None);
    assert_eq!(d.insert("b".to_string(), vec![2, 3]), None);
    assert_eq!(d.len(), 2);
    assert!(!d.is_empty());
    assert_eq!(d.get("a"), Some(&vec![1]));
    assert_eq!(d.get("b"), Some(&vec![2, 3]));
    assert_eq!(d.insert("a".to_string(), vec![9]), Some(vec![1]));
    assert_eq!(d.len(), 2);
    assert_eq!(d.get("a"), Some(&vec![9]));
    assert_eq!(d.get("b"), Some(&vec![2, 3]));
    assert!(d.contains_key("a"));
    assert!(!d.contains_key("c"));
}

#[test]
fn keys_are_told_apart_exactly() {
    let mut d = PayloadDict::new();
    d.insert("id".to_string(), vec![1]);
    d.insert("i".to_string(), vec![2]);
    d.insert("idd".to_string(), vec![3]);
    d.insert("ID".to_string(), vec![4]);
    d.insert("".to_string(), vec![5]);
    d.insert("\u{e9}".to_string(), vec![6]);
    assert_eq!(d.len(), 6);
    assert_eq!(d.get("id"), Some(&vec![1]));
    assert_eq!(d.get("i"), Some(&vec![2]));
    assert_eq!(d.get("idd"), Some(&vec![3]));
    assert_eq!(d.get("ID"), Some(&vec![4]));
    assert_eq!(d.get(""), Some(&vec![5]));
    assert_eq!(d.get("\u{e9}"), Some(&vec![6]));
    assert_eq!(d.get("e"), None);
}

#[test]
fn remove_drops_one_field() {
    let mut d = PayloadDict::new();
    d.insert("a".to_string(), vec![1]);
    d.insert("b".to_string(), vec![2]);
    d.insert("c".to_string(), vec![3]);
    assert_eq!(d.remove("b"), Some(vec![2]));
    assert_eq!(d.remove("b"), None);
    assert_eq!(d.len(), 2);
    assert_eq!(d.get("a"), Some(&vec![1]));
    assert_eq!(d.get("b"), None);
    assert_eq!(d.get("c"), Some(&vec![3]));
}

#[test]
fn entries_list_every_key_once() {
    let mut d = PayloadDict::new();
    d.insert("x".to_string(), vec![1]);
    d.insert("y".to_string(), vec![2]);
    d.insert("x".to_string(), vec![3]);
    let mut entries = d.entries().clone();
    entries.sort();
    assert_eq!(entries, vec![("x".to_string(), vec![3]), ("y".to_string(), vec![2])]);
}

#[test]
fn clone_keeps_the_fields() {
    let mut d = PayloadDict::new();
    d.insert("x".to_string(), vec![1]);
    d.insert("y".to_string(), vec![2]);
    let mut c = d.clone();
    assert_eq!(c.entries(), d.entries());
    c.insert("z".to_string(), vec![3]);
    assert_eq!(d.len(), 2);
    assert_eq!(c.len(), 3);
}

#[test]
fn equality_ignores_the_order_of_fields() {
    let mut a = PayloadDict::new();
    a.insert("x".to_string(), vec![1]);
    a.insert("y".to_string(), vec![2]);
    let mut b = PayloadDict::new();
    b.insert("y".to_string(), vec![2]);
    b.insert("x".to_string(), vec![1]);
    assert_eq!(a, b);
    assert!(a.is_part_of(&b));
    assert!(b.is_part_of(&a));
    b.insert("x".to_string(), vec![3]);
    assert_ne!(a, b);
    assert!(!a.is_part_of(&b));
    b.insert("x".to_string(), vec![1]);
    b.insert("z".to_string(), vec![]);
    assert_ne!(a, b);
    assert!(a.is_part_of(&b));
    assert!(!b.is_part_of(&a));
    assert_eq!(PayloadDict::new(), PayloadDict::new());
    assert!(PayloadDict::new().is_part_of(&a));
    assert_ne!(a, PayloadDict::new());
}
