//! Word pools: the built-in list, blob parsing, and filtering.

use makepass::util::Bounds;
use makepass::wordlists::{filter_wordlist, Wordlist, WordlistStorage};

#[test]
fn from_name_knows_the_default_list() {
    let storage = WordlistStorage::from_name("default").expect("built-in list");
    let list = storage.as_wordlist();
    let words = list.iter();
    assert_eq!(words.len(), 32);
    assert_eq!(words[0], "acorn");
    assert!(words.contains(&"ocean".to_string()));
    for i in 0..words.len() {
        assert!(4 <= words[i].len() && words[i].len() <= 8);
        for j in 0..i {
            assert_ne!(words[i], words[j]);
        }
    }
}

#[test]
fn from_name_rejects_unknown_names() {
    assert!(WordlistStorage::from_name("nope").is_none());
    assert!(WordlistStorage::from_name("Default").is_none());
    assert!(WordlistStorage::from_name("").is_none());
}

#[test]
fn runtime_blob_is_split_trimmed_and_filtered() {
    let blob = "  alpha \n#comment\n\nbeta\r\ngamma delta\n\t\nomega";
    let storage = WordlistStorage::from_stream(blob.to_string());
    let list = storage.as_wordlist();
    let words = list.iter();
    assert_eq!(
        words,
        vec![
            "alpha".to_string(),
            "beta".to_string(),
            "gamma delta".to_string(),
            "omega".to_string(),
        ]
    );
}

#[test]
fn runtime_blob_keeps_order_and_interior_hash() {
    let blob = "zeta\nc#sharp\n # spaced comment\n";
    let storage = WordlistStorage::from_stream(blob.to_string());
    let words = storage.as_wordlist().iter();
    assert_eq!(words, vec!["zeta".to_string(), "c#sharp".to_string()]);
}

#[test]
fn empty_blob_yields_no_words() {
    let storage = WordlistStorage::from_stream(String::new());
    assert_eq!(storage.as_wordlist().iter(), Vec::<String>::new());
}

#[test]
fn as_slice_matches_iter() {
    let storage = WordlistStorage::from_stream("one\ntwo\n".to_string());
    let list = storage.as_wordlist();
    assert_eq!(list.as_slice().to_vec(), list.iter());
    match list {
        Wordlist::Runtime(v) => assert_eq!(v.len(), 2),
        Wordlist::Static(_) => panic!("runtime storage must parse to a runtime list"),
    }
}

#[test]
fn filter_keeps_words_inside_byte_bounds_in_order() {
    let words: Vec<String> = ["aa", "bbbb", "cccccc", "dd", "eeee"]
        .iter()
        .map(|w| w.to_string())
        .collect();
    let bounds = Bounds { min: 2, max: 4 };
    let kept = filter_wordlist(&words, bounds, usize::MAX);
    assert_eq!(
        kept,
        vec![
            "aa".to_string(),
            "bbbb".to_string(),
            "dd".to_string(),
            "eeee".to_string(),
        ]
    );
}

#[test]
fn filter_truncates_to_the_top_words_after_filtering() {
    let words: Vec<String> = ["aa", "bbbb", "cccccc", "dd", "eeee"]
        .iter()
        .map(|w| w.to_string())
        .collect();
    let bounds = Bounds { min: 2, max: 4 };
    let kept = filter_wordlist(&words, bounds, 2);
    assert_eq!(kept, vec!["aa".to_string(), "bbbb".to_string()]);
    assert_eq!(filter_wordlist(&words, bounds, 0), Vec::<String>::new());
}

#[test]
fn filter_measures_bytes_not_characters() {
    // "éé" is two characters but four bytes.
    let words: Vec<String> = ["éé", "xy"].iter().map(|w| w.to_string()).collect();
    let bounds = Bounds { min: 3, max: 4 };
    let kept = filter_wordlist(&words, bounds, usize::MAX);
    assert_eq!(kept, vec!["éé".to_string()]);
}
