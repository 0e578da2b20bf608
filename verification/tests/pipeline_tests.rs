use wikigraph::extract::extract_shard;
use wikigraph::extract::PARSE_BUDGET_MS;
use wikigraph::partition::partition_bytes;
use wikigraph::store::Store;

// The whole pipeline on a three-page dump: A links to B and C; B has no
// links and is dropped; C is a redirect and is excluded.  Split into two
// shards, extracted independently, merged into one final store.
#[test]
fn three_page_dump_across_two_shards() {
    let dump = "<mediawiki>\
        <page><title>A</title><text>[[B]] [[C]]</text></page>\
        <page><title>B</title><text>no links at all</text></page>\
        <page><title>C</title><redirect title=\"A\"/><text>[[A]]</text></page>\
        </mediawiki>";
    let shards = partition_bytes(&dump.as_bytes().to_vec(), &b"</page>".to_vec(), 2).unwrap();
    assert_eq!(shards.len(), 2);

    let config = parse_wiki_text_2::Configuration::default();
    let mut stores: Vec<Store> = Vec::new();
    let mut unparseable_titles: Vec<String> = Vec::new();
    for shard in &shards {
        let out = extract_shard(&config, shard, PARSE_BUDGET_MS).unwrap();
        stores.push(out.store);
        unparseable_titles.extend(out.unparseables);
    }

    let mut final_store = Store::new();
    let results = final_store.merge_all(&stores);
    assert_eq!(results, vec![true, true]);

    assert_eq!(final_store.article_count(), 1);
    assert_eq!(final_store.article_at(0).as_str(), "A");
    assert_eq!(final_store.edge_count(), 2);
    assert_eq!(final_store.edge_at(0).linker.as_str(), "A");
    assert_eq!(final_store.edge_at(0).linked.as_str(), "B");
    assert_eq!(final_store.edge_at(1).linker.as_str(), "A");
    assert_eq!(final_store.edge_at(1).linked.as_str(), "C");
    assert_eq!(unparseable_titles.len(), 0);
}
