use primusdb::fulltext::{FullTextIndex, SearchMode};

fn test_index() -> FullTextIndex {
    let mut idx = FullTextIndex::new();
    idx.index_document(1, "The quick brown fox jumps over the lazy dog");
    idx.index_document(2, "A quick brown fox is fast");
    idx.index_document(3, "The lazy dog sleeps all day");
    idx
}

fn stop_list(words: &[&str]) -> Vec<String> {
    words.iter().map(|s| s.to_string()).collect()
}

#[test]
fn test_index_and_search() {
    let idx = test_index();
    let ids = idx.search_candidates("quick fox", SearchMode::And);
    assert!(!ids.is_empty(), "expected matches for quick AND fox");
    assert!(ids.contains(&1));
    assert!(ids.contains(&2));
}

#[test]
fn test_remove_document() {
    let mut idx = test_index();
    assert_eq!(idx.len(), 3);
    idx.remove_document(2);
    assert_eq!(idx.len(), 2);
    let ids = idx.search_candidates("quick", SearchMode::And);
    assert!(ids.contains(&1));
    assert!(!ids.contains(&2));
}

#[test]
fn test_and_mode() {
    let idx = test_index();
    let ids = idx.search_candidates("quick fox", SearchMode::And);
    for id in &ids {
        assert!(idx.term_count(*id, &"quick".to_string()).is_some(), "doc {} missing 'quick'", id);
        assert!(idx.term_count(*id, &"fox".to_string()).is_some(), "doc {} missing 'fox'", id);
    }
}

#[test]
fn test_or_mode() {
    let idx = test_index();
    let ids = idx.search_candidates("fast sleeps", SearchMode::Or);
    assert_eq!(ids.len(), 2);
    assert!(ids.contains(&2));
    assert!(ids.contains(&3));
}

#[test]
fn test_no_matches() {
    let idx = test_index();
    let ids = idx.search_candidates("xyznonexistent", SearchMode::And);
    assert!(ids.is_empty());
}

#[test]
fn test_empty_index() {
    let idx = FullTextIndex::new();
    let ids = idx.search_candidates("anything", SearchMode::And);
    assert!(ids.is_empty());
}

#[test]
fn test_tokenize() {
    let tokens = FullTextIndex::tokenize("Hello, World! It's nice.", None);
    assert_eq!(tokens, vec!["hello", "world", "it's", "nice"]);
}

#[test]
fn test_tokenize_empty() {
    let tokens = FullTextIndex::tokenize("   ", None);
    assert!(tokens.is_empty());
}

#[test]
fn test_tokenize_stop_words() {
    let stop = stop_list(&["the", "a", "is"]);
    let tokens = FullTextIndex::tokenize("The cat is on a mat", Some(&stop));
    assert_eq!(tokens, vec!["cat", "on", "mat"]);
}

#[test]
fn test_tf_idf_scoring() {
    let idx = test_index();
    let ids = idx.search_candidates("lazy dog", SearchMode::And);
    assert_eq!(ids.len(), 2);
    assert!(ids.contains(&1));
    assert!(ids.contains(&3));
}

#[test]
fn test_phrase_mode() {
    let idx = test_index();
    let ids = idx.search_candidates("lazy dog", SearchMode::Phrase);
    assert!(!ids.is_empty());
    assert!(ids.contains(&1));
    assert!(ids.contains(&3));
}

#[test]
fn test_with_stop_words_constructor() {
    let stop = stop_list(&["the", "a", "an"]);
    let mut idx = FullTextIndex::with_stop_words(stop);
    idx.index_document(1, "The cat and a dog");
    assert!(idx.term_count(1, &"the".to_string()).is_none());
    assert!(idx.term_count(1, &"a".to_string()).is_none());
    assert!(idx.term_count(1, &"cat".to_string()).is_some());
    assert!(idx.term_count(1, &"dog".to_string()).is_some());
}

#[test]
fn test_len_and_is_empty() {
    let mut idx = FullTextIndex::new();
    assert!(idx.is_empty());
    assert_eq!(idx.len(), 0);
    idx.index_document(1, "hello world");
    assert!(!idx.is_empty());
    assert_eq!(idx.len(), 1);
}

#[test]
fn test_unique_term_count() {
    let mut idx = FullTextIndex::new();
    assert_eq!(idx.unique_term_count(), 0);
    idx.index_document(1, "hello world hello");
    assert_eq!(idx.unique_term_count(), 2);
    idx.index_document(2, "hello everyone");
    assert_eq!(idx.unique_term_count(), 3);
}

#[test]
fn test_remove_nonexistent() {
    let mut idx = test_index();
    let len_before = idx.len();
    idx.remove_document(999);
    assert_eq!(idx.len(), len_before);
}

#[test]
fn test_reindex_document() {
    let mut idx = FullTextIndex::new();
    idx.index_document(1, "hello world");
    assert_eq!(idx.len(), 1);
    idx.index_document(1, "foo bar");
    let ids = idx.search_candidates("hello", SearchMode::And);
    assert!(ids.is_empty());
    let ids = idx.search_candidates("foo", SearchMode::And);
    assert_eq!(ids.len(), 1);
    assert_eq!(ids[0], 1);
}

#[test]
fn term_counts_follow_occurrences() {
    let mut idx = FullTextIndex::new();
    idx.index_document(7, "hello world hello");
    assert_eq!(idx.term_count(7, &"hello".to_string()), Some(2));
    assert_eq!(idx.term_count(7, &"world".to_string()), Some(1));
    assert_eq!(idx.term_count(8, &"hello".to_string()), None);
    assert_eq!(idx.document_frequency(&"hello".to_string()), 1);
    idx.index_document(8, "Hello again");
    assert_eq!(idx.document_frequency(&"hello".to_string()), 2);
    assert_eq!(idx.document_frequency(&"missing".to_string()), 0);
}

#[test]
fn and_mode_requires_every_query_term() {
    let idx = test_index();
    assert!(idx.search_candidates("quick xyznonexistent", SearchMode::And).is_empty());
    assert!(idx.search_candidates("quick xyznonexistent", SearchMode::Phrase).is_empty());
    let mut ids = idx.search_candidates("quick xyznonexistent", SearchMode::Or);
    ids.sort();
    assert_eq!(ids, vec![1, 2]);
}

#[test]
fn tokens_are_lowercased_beyond_ascii() {
    let tokens = FullTextIndex::tokenize("École ÉTÉ", None);
    assert_eq!(tokens, vec!["école".to_string(), "été".to_string()]);
}

#[test]
fn removed_document_is_never_found() {
    let mut idx = test_index();
    idx.remove_document(1);
    for mode in [SearchMode::And, SearchMode::Or, SearchMode::Phrase] {
        let ids = idx.search_candidates("quick lazy dog fox", mode);
        assert!(!ids.contains(&1));
    }
    assert_eq!(idx.term_count(1, &"quick".to_string()), None);
}

#[test]
fn indexed_term_finds_its_document() {
    let mut idx = FullTextIndex::new();
    idx.index_document(42, "Verified systems");
    for mode in [SearchMode::And, SearchMode::Or, SearchMode::Phrase] {
        assert_eq!(idx.search_candidates("systems", mode), vec![42]);
    }
}

#[test]
fn stop_words_are_not_indexed_or_searched() {
    let mut idx = FullTextIndex::with_stop_words(stop_list(&["the"]));
    idx.index_document(1, "the end");
    assert_eq!(idx.unique_term_count(), 1);
    assert!(idx.search_candidates("the", SearchMode::Or).is_empty());
}

#[test]
fn default_index_is_empty() {
    let idx = FullTextIndex::default();
    assert!(idx.is_empty());
    assert_eq!(idx.unique_term_count(), 0);
}
