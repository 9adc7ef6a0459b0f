use personal::index::Key;
use personal::order::descending;
use personal::slugs::{hash, HASH_FACTOR, HASH_START};
use personal::text::{clone_strings, from_chars, to_chars};

#[test]
fn positions_are_ordered_by_key_largest_first() {
    assert_eq!(descending(&vec![1, 3, 2, 3]), vec![1, 3, 2, 0]);
    assert_eq!(descending(&vec![5, 5, 5]), vec![0, 1, 2]);
    assert_eq!(descending(&vec![-1, 0, i128::MAX, i128::MIN]), vec![2, 1, 0, 3]);
    assert_eq!(descending(&vec![42]), vec![0]);
    assert_eq!(descending(&Vec::new()), Vec::<usize>::new());
}

#[test]
fn the_hash_of_a_text() {
    assert_eq!(HASH_START, 7);
    assert_eq!(HASH_FACTOR, 31);
    assert_eq!(hash(""), 7);
    assert_eq!(hash("a"), 7 * 31 + 97);
    assert_eq!(hash("ab"), (7 * 31 + 97) * 31 + 98);
    assert_eq!(hash("é"), 7 * 31 + 233);
    let long = "a-slug-that-is-long-enough-to-wrap-the-hash-around";
    let mut expected: u64 = 7;
    for c in long.chars() {
        expected = expected.wrapping_mul(31).wrapping_add(c as u64);
    }
    assert_eq!(hash(long), expected);
    assert_ne!(hash("ab"), hash("ba"));
}

#[test]
fn keys_are_the_same_by_kind_and_content() {
    assert!(Key::Tag("a".to_owned()).same(&Key::Tag("a".to_owned())));
    assert!(!Key::Tag("a".to_owned()).same(&Key::Tag("b".to_owned())));
    assert!(!Key::Tag("a".to_owned()).same(&Key::Series("a".to_owned())));
    assert!(Key::Series("s".to_owned()).same(&Key::Series("s".to_owned())));
    assert!(Key::Month(2024, 1).same(&Key::Month(2024, 1)));
    assert!(!Key::Month(2024, 1).same(&Key::Month(2024, 2)));
    assert!(!Key::Month(2024, 1).same(&Key::Month(2023, 1)));
    assert!(!Key::Month(2024, 1).same(&Key::Tag("2024".to_owned())));
}

#[test]
fn texts_and_characters() {
    assert_eq!(to_chars("aé→"), vec!['a', 'é', '→']);
    assert_eq!(to_chars(""), Vec::<char>::new());
    let chars = vec!['h', 'e', 'l', 'l', 'o'];
    assert_eq!(from_chars(&chars, 1, 4), "ell");
    assert_eq!(from_chars(&chars, 0, 5), "hello");
    assert_eq!(from_chars(&chars, 2, 2), "");
    let list = vec!["a".to_owned(), "".to_owned(), "bc".to_owned()];
    assert_eq!(clone_strings(&list), list);
}
