//! The pipeline driver's decisions: from the fetched index page to a
//! terminal stage. Fetching the page itself and performing the downloads
//! happen outside; the driver decides, terminally in every path, whether
//! the run aborts, ends with no links, or proceeds to download.

use vstd::prelude::*;

use crate::extract::{extract, spec_extract};

verus! {

/// What follows the index-page fetch: a fatal abort when the page could
/// not be fetched, a non-error terminal state when it held no links, or
/// the list of links to download.
#[derive(Debug, Clone, PartialEq, Eq)]
pub enum Stage {
    /// The index page itself could not be fetched or read; the run
    /// terminates reporting this reason.
    Fatal { reason: String },
    /// The page was fetched but no rule yielded any link; a terminal,
    /// non-error condition.
    NoLinks,
    /// The extracted links, to be handed to the download executor.
    Download { links: Vec<String> },
}

/// Decides the stage after the index-page fetch: a fetch error is fatal
/// and carries its description; a fetched page is run through the link
/// extractor, and an empty result is the no-links terminal state rather
/// than an error.
pub fn plan_downloads(fetched: Result<String, String>, base_url: &str) -> (r: Stage)
    ensures
        match r {
            Stage::Fatal { reason } => fetched is Err && reason@ == fetched->Err_0@,
            Stage::NoLinks => fetched is Ok && spec_extract(fetched->Ok_0@, base_url@).len() == 0,
            Stage::Download { links } => fetched is Ok && links.deep_view() == spec_extract(
                fetched->Ok_0@,
                base_url@,
            ) && links@.len() > 0,
        },
{
    match fetched {
        Err(reason) => Stage::Fatal { reason },
        Ok(html) => {
            let links = extract(html.as_str(), base_url);
            if links.len() == 0 {
                Stage::NoLinks
            } else {
                Stage::Download { links }
            }
        },
    }
}

} // verus!
