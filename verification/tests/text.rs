use dht::text::push_number;
use dht::text::same_bytes;
use dht::text::same_text;

#[test]
fn bytes_are_compared_one_by_one() {
    assert!(same_bytes(&[], &[]));
    assert!(same_bytes(&[1, 2, 3], &[1, 2, 3]));
    assert!(!same_bytes(&[1, 2, 3], &[1, 2]));
    assert!(!same_bytes(&[1, 2], &[1, 2, 3]));
    assert!(!same_bytes(&[1, 2, 3], &[1, 2, 4]));
    assert!(!same_bytes(&[0, 2, 3], &[1, 2, 3]));
}

#[test]
fn texts_are_compared_exactly() {
    assert!(same_text("", ""));
    assert!(same_text("id", "id"));
    assert!(!same_text("id", "Id"));
    assert!(!same_text("id", "idd"));
    assert!(same_text("\u{e9}", "\u{e9}"));
    assert!(!same_text("\u{e9}", "e"));
}

#[test]
fn numbers_are_written_without_leading_zeros() {
    let mut text = String::from("n=");
    push_number(&mut text, 0, 10);
    assert_eq!(text, "n=0");
    let mut text = String::new();
    push_number(&mut text, 8008, 10);
    assert_eq!(text, "8008");
    let mut text = String::new();
    push_number(&mut text, 65535, 10);
    assert_eq!(text, "65535");
    let mut text = String::new();
    push_number(&mut text, 0xabcd, 16);
    assert_eq!(text, "abcd");
    let mut text = String::new();
    push_number(&mut text, 0x0f0, 16);
    assert_eq!(text, "f0");
    let mut text = String::new();
    push_number(&mut text, 5, 2);
    assert_eq!(text, "101");
}
