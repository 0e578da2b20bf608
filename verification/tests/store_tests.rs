use wikigraph::filter::is_excluded;
use wikigraph::filter::is_title_excluded;
use wikigraph::store::Store;
use wikigraph::store::StoreError;

#[test]
fn redirects_and_disallowed_namespaces_are_excluded() {
    assert!(is_excluded("Anything", true));
    assert!(is_excluded("Category:Foo", false));
    assert!(is_excluded("Template:Box", false));
    assert!(is_excluded("File:X.png", false));
    assert!(is_excluded("Draft:New", false));
    assert!(is_excluded("Wikipedia:Help", false));
    assert!(!is_excluded("Ordinary title", false));
    // The match is a substring match, not a prefix match.
    assert!(is_title_excluded("See Category:Foo"));
    assert!(!is_title_excluded("Categorical"));
    assert!(!is_title_excluded(""));
}

#[test]
fn insert_page_adds_article_and_edges() {
    let mut store = Store::new();
    let links = vec!["B".to_string(), "C".to_string()];
    assert_eq!(store.insert_page(&"A".to_string(), &links), Ok(()));
    assert_eq!(store.article_count(), 1);
    assert_eq!(store.edge_count(), 2);
    assert_eq!(store.article_at(0).as_str(), "A");
    assert_eq!(store.edge_at(0).linker.as_str(), "A");
    assert_eq!(store.edge_at(0).linked.as_str(), "B");
    assert_eq!(store.edge_at(1).linker.as_str(), "A");
    assert_eq!(store.edge_at(1).linked.as_str(), "C");
}

#[test]
fn duplicate_title_changes_nothing() {
    // The atomic page write: a failing insert leaves no partial page.
    let mut store = Store::new();
    store.insert_page(&"A".to_string(), &vec!["B".to_string()]).unwrap();
    let r = store.insert_page(&"A".to_string(), &vec!["C".to_string(), "D".to_string()]);
    assert_eq!(r, Err(StoreError::DuplicateTitle));
    assert_eq!(store.article_count(), 1);
    assert_eq!(store.edge_count(), 1);
    assert_eq!(store.edge_at(0).linked.as_str(), "B");
}

#[test]
fn merge_grows_counts_by_exactly_the_shard_counts() {
    let mut final_store = Store::new();
    final_store.insert_page(&"A".to_string(), &vec!["B".to_string()]).unwrap();

    let mut shard = Store::new();
    shard.insert_page(&"B".to_string(), &vec!["A".to_string(), "C".to_string()]).unwrap();
    shard.insert_page(&"C".to_string(), &vec!["A".to_string()]).unwrap();

    let k = shard.article_count();
    let m = shard.edge_count();
    assert_eq!((k, m), (2, 3));

    assert_eq!(final_store.merge_from(&shard), Ok(()));
    assert_eq!(final_store.article_count(), 1 + k);
    assert_eq!(final_store.edge_count(), 1 + m);
    assert_eq!(final_store.article_at(1).as_str(), "B");
    assert_eq!(final_store.article_at(2).as_str(), "C");
    assert_eq!(final_store.edge_at(1).linker.as_str(), "B");
    assert_eq!(final_store.edge_at(3).linker.as_str(), "C");
}

#[test]
fn failed_merge_changes_nothing() {
    let mut final_store = Store::new();
    final_store.insert_page(&"A".to_string(), &vec!["B".to_string()]).unwrap();

    let mut shard = Store::new();
    shard.insert_page(&"C".to_string(), &vec!["D".to_string()]).unwrap();
    shard.insert_page(&"A".to_string(), &vec!["E".to_string()]).unwrap();

    assert_eq!(final_store.merge_from(&shard), Err(StoreError::DuplicateTitle));
    assert_eq!(final_store.article_count(), 1);
    assert_eq!(final_store.edge_count(), 1);
}

#[test]
fn merge_all_continues_past_a_failing_shard() {
    let mut final_store = Store::new();

    let mut s1 = Store::new();
    s1.insert_page(&"A".to_string(), &vec!["B".to_string()]).unwrap();
    let mut s2 = Store::new();
    s2.insert_page(&"A".to_string(), &vec!["C".to_string()]).unwrap();
    let mut s3 = Store::new();
    s3.insert_page(&"D".to_string(), &vec!["A".to_string()]).unwrap();

    let results = final_store.merge_all(&vec![s1, s2, s3]);
    // The second shard collides with the first and is left out entirely; the
    // merge still goes on with the third.
    assert_eq!(results, vec![true, false, true]);
    assert_eq!(final_store.article_count(), 2);
    assert_eq!(final_store.edge_count(), 2);
    assert_eq!(final_store.article_at(0).as_str(), "A");
    assert_eq!(final_store.article_at(1).as_str(), "D");
}
