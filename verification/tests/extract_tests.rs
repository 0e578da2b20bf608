use wikigraph::extract::extract_shard;
use wikigraph::extract::PARSE_BUDGET_MS;

fn run(xml: &str) -> wikigraph::extract::ShardOutput {
    let config = parse_wiki_text_2::Configuration::default();
    extract_shard(&config, xml.as_bytes(), PARSE_BUDGET_MS).unwrap()
}

#[test]
fn page_with_links_is_stored() {
    let out = run("<page><title>A</title><text>[[B]] and [[C]]</text></page>");
    assert_eq!(out.store.article_count(), 1);
    assert_eq!(out.store.article_at(0).as_str(), "A");
    assert_eq!(out.store.edge_count(), 2);
    assert_eq!(out.store.edge_at(0).linker.as_str(), "A");
    assert_eq!(out.store.edge_at(0).linked.as_str(), "B");
    assert_eq!(out.store.edge_at(1).linked.as_str(), "C");
    assert_eq!(out.unparseables.len(), 0);
}

#[test]
fn redirect_page_is_excluded() {
    let out = run(
        "<page><title>C</title><redirect title=\"A\"/><text>[[A]]</text></page>",
    );
    assert_eq!(out.store.article_count(), 0);
    assert_eq!(out.store.edge_count(), 0);
}

#[test]
fn disallowed_namespace_title_produces_no_rows() {
    // Filter correctness: a disallowed-namespace page never produces an
    // article row or edge rows, even with valid outbound links.
    let out = run("<page><title>Category:Foo</title><text>[[B]] [[C]]</text></page>");
    assert_eq!(out.store.article_count(), 0);
    assert_eq!(out.store.edge_count(), 0);
}

#[test]
fn page_without_links_is_dropped() {
    let out = run("<page><title>B</title><text>plain prose, no links</text></page>");
    assert_eq!(out.store.article_count(), 0);
    assert_eq!(out.store.edge_count(), 0);
}

#[test]
fn one_disallowed_target_drops_the_whole_page() {
    // A link into the Draft namespace stays an ordinary link to the grammar
    // parser, so the filter sees its raw target and drops the page whole,
    // the valid earlier link included.
    let out = run("<page><title>A</title><text>[[B]] [[Draft:X]]</text></page>");
    assert_eq!(out.store.article_count(), 0);
    assert_eq!(out.store.edge_count(), 0);
}

#[test]
fn duplicate_titles_keep_the_first_page() {
    let out = run(
        "<page><title>A</title><text>[[B]]</text></page>\
         <page><title>A</title><text>[[C]] [[D]]</text></page>",
    );
    assert_eq!(out.store.article_count(), 1);
    assert_eq!(out.store.edge_count(), 1);
    assert_eq!(out.store.edge_at(0).linked.as_str(), "B");
}

#[test]
fn entity_references_keep_their_escaped_form() {
    let out = run("<page><title>A&amp;B</title><text>[[C]]</text></page>");
    assert_eq!(out.store.article_count(), 1);
    assert_eq!(out.store.article_at(0).as_str(), "A&amp;B");
}

#[test]
fn tags_outside_pages_are_ignored() {
    let out = run(
        "<mediawiki><siteinfo><sitename>W</sitename></siteinfo>\
         <page><title>A</title><text>[[B]]</text></page>",
    );
    assert_eq!(out.store.article_count(), 1);
    assert_eq!(out.store.article_at(0).as_str(), "A");
}

#[test]
fn dangling_close_tag_of_the_enclosing_document_is_tolerated() {
    let out = run("<page><title>A</title><text>[[B]]</text></page></mediawiki>");
    assert_eq!(out.store.article_count(), 1);
}

#[test]
fn malformed_markup_is_fatal_with_an_offset() {
    let config = parse_wiki_text_2::Configuration::default();
    let r = extract_shard(&config, b"<page><!-- unclosed comment", PARSE_BUDGET_MS);
    assert!(r.is_err());
}
