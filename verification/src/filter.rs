//! The namespace/redirect filter: which pages and link targets are excluded
//! from graph construction.

use vstd::prelude::*;

use crate::text::contains_sub;
use crate::text::str_contains;

verus! {

/// The title lies in a disallowed namespace: one of the configured prefixes
/// occurs in it (substring match, case-sensitive).
pub open spec fn title_excluded(title: Seq<char>) -> bool {
    ||| contains_sub(title, "Wikipedia:"@)
    ||| contains_sub(title, "Draft:"@)
    ||| contains_sub(title, "Template:"@)
    ||| contains_sub(title, "Category:"@)
    ||| contains_sub(title, "File:"@)
}

/// The page is excluded: it is a redirect, or its title lies in a disallowed
/// namespace.
pub open spec fn excluded(title: Seq<char>, is_redirect: bool) -> bool {
    is_redirect || title_excluded(title)
}

/// Decides whether a title lies in a disallowed namespace.
pub fn is_title_excluded(title: &str) -> (r: bool)
    ensures
        r == title_excluded(title@),
{
    str_contains(title, "Wikipedia:") || str_contains(title, "Draft:") || str_contains(
        title,
        "Template:",
    ) || str_contains(title, "Category:") || str_contains(title, "File:")
}

/// Decides whether a page is excluded from graph construction.
pub fn is_excluded(title: &str, is_redirect: bool) -> (r: bool)
    ensures
        r == excluded(title@, is_redirect),
{
    if is_redirect {
        return true;
    }
    is_title_excluded(title)
}

} // verus!
