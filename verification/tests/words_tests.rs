use scallop::traits::words_from_strs;
use scallop::traits::IntoVec;
use scallop::traits::IntoWords;
use scallop::traits::WordList;

fn strs(xs: &[&str]) -> Vec<String> {
    xs.iter().map(|s| s.to_string()).collect()
}

#[test]
fn marshal_round_trip_preserves_order() {
    let original = strs(&["first", "second", "", "third"]);
    let words = words_from_strs(&original, true);
    assert!(words.owned);
    assert_eq!(words.to_vec(), original);
    assert_eq!(words.into_vec(), original);
}

#[test]
fn marshal_round_trip_empty_sequence() {
    let original: Vec<String> = strs(&[]);
    let words = words_from_strs(&original, false);
    assert!(!words.owned);
    assert_eq!(words.to_vec(), original);
    assert_eq!(words.into_vec(), original);
}

#[test]
fn words_iterator_walks_in_order() {
    let words = words_from_strs(&strs(&["a", "b"]), false);
    let mut it = words.iter();
    assert_eq!(it.next().map(|s| s.as_str()), Some("a"));
    assert_eq!(it.next().map(|s| s.as_str()), Some("b"));
    assert!(it.next().is_none());
}

#[test]
fn into_words_keeps_the_ownership_marker() {
    let list = WordList::Null;
    let words = list.into_words(true);
    assert!(words.owned);
    assert_eq!(words.to_vec(), strs(&[]));
}
