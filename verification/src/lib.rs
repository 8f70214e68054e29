//! Discovery of data-file links on an HTML index page and bookkeeping for
//! their concurrent retrieval: a prioritized fallback chain of selection
//! rules extracts absolute URLs from the page, and a bounded-concurrency
//! download model tracks in-flight transfers, per-item outcomes and
//! progress under a fixed admission limit.

pub mod executor;
pub mod extract;
pub mod html;
pub mod pipeline;
pub mod progress;
pub mod resolve;
pub mod text;
