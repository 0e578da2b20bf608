//! Trusted boundary to the wiki-markup grammar parser.  Only the calls are
//! made here; everything done with their results is verified code.

use vstd::prelude::*;

verus! {

#[verifier::external_type_specification]
#[verifier::external_body]
pub struct ExConfiguration(parse_wiki_text_2::Configuration);

#[verifier::external_type_specification]
#[verifier::external_body]
pub struct ExNode<'a>(parse_wiki_text_2::Node<'a>);

/// Relies on `parse_wiki_text_2::Configuration::parse_with_timeout`: it turns
/// markup text into a node tree (its top-level nodes are returned), or
/// reports that the cooperative time budget ran out.  Which of the two
/// happens can depend on the machine's speed, so nothing is promised of the
/// outcome; the verified code handles every value.
#[verifier::external_body]
pub fn parse_markup<'a>(
    config: &parse_wiki_text_2::Configuration,
    text: &'a str,
    budget_ms: u64,
) -> Option<Vec<parse_wiki_text_2::Node<'a>>> {
    match config.parse_with_timeout(text, std::time::Duration::from_millis(budget_ms)) {
        Ok(output) => Some(output.nodes),
        Err(_) => None,
    }
}

/// Relies on the shape of `parse_wiki_text_2::Node`: the `Link` variant
/// carries the link's raw target text, and no other variant is an internal
/// link.
#[verifier::external_body]
pub fn node_link_target(node: &parse_wiki_text_2::Node) -> Option<String> {
    match node {
        parse_wiki_text_2::Node::Link { target, .. } => Some((*target).to_string()),
        _ => None,
    }
}

} // verus!
