//! Trusted boundary to URL resolution: joining a candidate href against
//! the index page's base URL.

use vstd::prelude::*;

verus! {

/// The absolute URL that standard URL-join semantics give for `href`
/// resolved against `base`; `None` when the base does not parse or the
/// join fails. Resolution depends on the two strings alone.
pub uninterp spec fn join_of(base: Seq<char>, href: Seq<char>) -> Option<Seq<char>>;

/// Relies on `url::Url::parse` and `url::Url::join`: resolving `href`
/// against `base` is a function of the two strings; an absolute href
/// passes through the join unchanged, a relative one is made absolute.
#[verifier::external_body]
pub fn resolve_url(base: &str, href: &str) -> (r: Option<String>)
    ensures
        match r {
            Some(s) => join_of(base@, href@) == Some(s@),
            None => join_of(base@, href@) is None,
        },
{
    let parsed = match url::Url::parse(base) {
        Ok(b) => b,
        Err(_) => return None,
    };
    match parsed.join(href) {
        Ok(u) => Some(u.as_str().to_string()),
        Err(_) => None,
    }
}

} // verus!
