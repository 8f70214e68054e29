//! Trusted boundary to the HTML parser: selecting elements by a CSS
//! selector and reading their `href` attributes.

use vstd::prelude::*;

verus! {

/// The `href` attributes, in document order, of the elements that the
/// given CSS selector matches in the given HTML text; `None` when the
/// selector text itself is malformed. Parsing never fails hard, so the
/// result is a function of the two texts alone.
pub uninterp spec fn hrefs_of(html: Seq<char>, selector: Seq<char>) -> Option<Seq<Seq<char>>>;

/// Relies on scraper's `Html::parse_document`, `Selector::parse` and
/// `Html::select`: the matched elements' `href` attributes come back in
/// document order and depend on the document text and the selector text
/// alone; a selector that does not parse yields `None`.
#[verifier::external_body]
pub fn select_hrefs(html: &str, selector: &str) -> (r: Option<Vec<String>>)
    ensures
        match r {
            Some(v) => hrefs_of(html@, selector@) == Some(v.deep_view()),
            None => hrefs_of(html@, selector@) is None,
        },
{
    let sel = match scraper::Selector::parse(selector) {
        Ok(sel) => sel,
        Err(_) => return None,
    };
    let doc = scraper::Html::parse_document(html);
    let hrefs = doc
        .select(&sel)
        .filter_map(|el| el.value().attr("href").map(str::to_string))
        .collect();
    Some(hrefs)
}

} // verus!
