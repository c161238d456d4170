use pebble::engine::FullTextSearch;
use pebble::errors::SearchError;
use pebble::tokenizer::JiebaTokenizer;

fn setup_search() -> FullTextSearch<JiebaTokenizer> {
    FullTextSearch::new(JiebaTokenizer::new())
}

fn ids(results: &[(i64, u128)]) -> Vec<i64> {
    results.iter().map(|&(id, _)| id).collect()
}

#[test]
fn smoke_test() {
    let mut fts = setup_search();

    fts.index(1, "测试文档 hello world").unwrap();
    assert!(fts.indexed(1));

    assert_eq!(fts.get_doc_count(), 1);

    let (_, results) = fts.search("hello", true, 300);
    assert_eq!(results.len(), 1);

    let (_, results) = fts.search("测试", true, 300);
    assert_eq!(results.len(), 1);

    let (_, results) = fts.search("hello rust", true, 300);
    assert_eq!(results.len(), 1);

    fts.clear_all_indexes();

    assert_eq!(fts.get_doc_count(), 0);
}

#[test]
fn test_basic_indexing_and_search() {
    let mut search = setup_search();

    search.index(1, "hello world").unwrap();
    search.index(2, "hello rust").unwrap();
    search.index(3, "world of rust programming").unwrap();

    let (tokens, results) = search.search("hello", false, 10);
    assert_eq!(tokens, vec!["hello"]);
    assert_eq!(results.len(), 2);
    assert!(results.iter().any(|(id, _)| *id == 1));
    assert!(results.iter().any(|(id, _)| *id == 2));

    // ranking: the shorter document wins
    let (_, results) = search.search("world", false, 10);
    assert_eq!(results.len(), 2);
    assert_eq!(results[0].0, 1);
}

#[test]
fn test_document_operations() {
    let mut search = setup_search();

    assert!(!search.indexed(1));
    assert_eq!(search.get_doc_count(), 0);

    search.index(1, "hello world").unwrap();
    assert!(search.indexed(1));
    assert_eq!(search.get_doc_count(), 1);

    search.reindex(1, "hello rust").unwrap();
    assert_eq!(search.get_doc_count(), 1);

    search.deindex(1).unwrap();
    assert!(!search.indexed(1));
    assert_eq!(search.get_doc_count(), 0);
}

#[test]
fn test_index_consistency() {
    let mut search = setup_search();

    search.index(1, "initial content").unwrap();
    let initial_count = search.get_doc_count();

    // indexing the same id again is an update, never a duplicate
    search.index(1, "updated content").unwrap();
    let updated_count = search.get_doc_count();
    assert_eq!(initial_count, updated_count);

    let (_, results) = search.search("initial", false, 10);
    assert_eq!(results.len(), 0);

    let (_, results) = search.search("updated", false, 10);
    assert_eq!(results.len(), 1);
    assert_eq!(results[0].0, 1);
}

#[test]
fn test_partial_match() {
    let mut partial_search = setup_search();

    partial_search.index(1, "Rust Programming").unwrap();
    partial_search.index(2, "Python Programming").unwrap();
    partial_search.index(3, "Go Language").unwrap();

    let (_, results) = partial_search.search("Rust Python", true, 10);
    assert_eq!(results.len(), 2);
    let mut got = ids(&results);
    got.sort();
    assert_eq!(got, vec![1, 2]);

    let (_, results) = partial_search.search("programming", true, 10);
    assert_eq!(results.len(), 2);

    // a single-token exact query is the posting set itself
    let (_, results) = partial_search.search("rust", false, 0);
    assert_eq!(ids(&results), vec![1]);
}

#[test]
fn test_edge_cases() {
    let mut search = setup_search();

    // empty, whitespace-only, punctuation-only and stop-word-only
    // documents never enter the index and leave the count alone
    search.index(1, "").unwrap();
    assert!(!search.indexed(1));
    search.index(2, "   ").unwrap();
    assert!(!search.indexed(2));
    search.index(3, ".,!?;:").unwrap();
    assert!(!search.indexed(3));
    search.index(4, "the and or").unwrap();
    assert!(!search.indexed(4));
    assert_eq!(search.get_doc_count(), 0);

    let long_text = "rust ".repeat(1000);
    search.index(5, &long_text).unwrap();
    let (_, results) = search.search("rust", false, 10);
    assert_eq!(results.len(), 1);

    search.index(6, "<p>Hello World</p><div>Rust</div>").unwrap();
    let (_, results) = search.search("hello world rust", false, 10);
    assert_eq!(results.len(), 1);

    search.index(7, "rust#programming$language@test").unwrap();
    let (_, results) = search.search("rust programming language test", false, 10);
    assert_eq!(results.len(), 1);

    search.index(8, "rust😀programming🚀language").unwrap();
    let (_, results) = search.search("rust programming language😀", false, 10);
    assert_eq!(results.len(), 1);
}

#[test]
fn test_cjk_support() {
    let mut search = setup_search();

    search.index(1, "rust编程语言教程").unwrap();
    search.index(2, "python开发指南").unwrap();

    let (_, results) = search.search("编程", false, 10);
    assert_eq!(results.len(), 1);
    assert_eq!(results[0].0, 1);

    search.index(3, "学习 rust 和 python programming").unwrap();
    let (_, results) = search.search("rust python", false, 10);
    assert_eq!(results.len(), 1);

    search.index(4, "rust（编程）语言，开发。教程！").unwrap();
    let (_, results) = search.search("编程 语言", false, 10);
    assert_eq!(results.len(), 2);
}

#[test]
fn test_ranking_and_relevance() {
    let mut partial_search = setup_search();

    partial_search.index(1, "rust programming").unwrap();
    partial_search.index(2, "rust programming guide").unwrap();
    partial_search.index(3, "rust programming complete tutorial").unwrap();
    partial_search.index(4, "rust").unwrap();
    partial_search.index(5, "rust rust rust").unwrap();

    let (_, results) = partial_search.search("rust programming", true, 10);

    assert_eq!(results.len(), 5);
    // the concise document containing every query term ranks first;
    // repeating one term does not
    assert_eq!(results[0].0, 1);
    assert_ne!(results[0].0, 5);
}

#[test]
fn test_error_recovery() {
    let mut search = setup_search();

    // deindexing something unknown reports NotFound
    let result = search.deindex(999);
    assert_eq!(result, Err(SearchError::NotFound));
    assert!(result
        .unwrap_err()
        .describe()
        .contains("not found"));

    // reindexing something unknown falls back to indexing it
    search.reindex(1, "test document").unwrap();
    assert!(search.indexed(1));

    // deindexing removes it and decrements the count; a second deindex fails
    let before = search.get_doc_count();
    search.deindex(1).unwrap();
    assert!(!search.indexed(1));
    assert_eq!(search.get_doc_count(), before - 1);
    let result = search.deindex(1);
    assert!(result.is_err());

    search.clear_all_indexes();
    let (_, results) = search.search("test", false, 10);
    assert_eq!(results.len(), 0);
}

#[test]
fn test_max_results_limit() {
    let mut limited_search = setup_search();

    for i in 1..=5 {
        limited_search.index(i, "test document").unwrap();
    }

    let (_, results) = limited_search.search("test", false, 3);
    assert_eq!(results.len(), 3);

    limited_search.index(6, "test").unwrap();
    limited_search.index(7, "test test test").unwrap();
    let (_, results) = limited_search.search("test", false, 3);
    assert_eq!(results.len(), 3);
}

#[test]
fn test_round_trip() {
    let mut search = setup_search();

    search.index(42, "verified search engine").unwrap();
    assert!(search.indexed(42));

    // every surviving token of the text finds the document
    let (tokens, _) = search.search("verified search engine", true, 0);
    assert!(!tokens.is_empty());
    for token in tokens {
        let (_, results) = search.search(&token, false, 0);
        assert!(results.iter().any(|(id, _)| *id == 42));
    }
}

#[test]
fn test_empty_query() {
    let mut search = setup_search();
    search.index(1, "hello world").unwrap();

    // a query with no surviving tokens is not an error and returns nothing
    let (tokens, results) = search.search("", false, 10);
    assert!(tokens.is_empty());
    assert!(results.is_empty());

    let (tokens, results) = search.search("the a an", true, 10);
    assert!(tokens.is_empty());
    assert!(results.is_empty());
}

#[test]
fn test_scores_are_reported() {
    let mut search = setup_search();
    search.index(1, "hello world").unwrap();
    search.index(2, "hello hello hello hello world world").unwrap();
    search.index(3, "unrelated text").unwrap();

    // full coverage on the short document beats term repetition on the long
    let (_, results) = search.search("hello world", false, 0);
    assert_eq!(results.len(), 2);
    assert!(results[0].1 >= results[1].1);
    assert!(results[1].1 > 0);
}
