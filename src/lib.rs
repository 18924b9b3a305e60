//! Crawl-and-index engine of a web site audit: URL canonicalization and
//! domain classification, the per-URL record and its index, the outcome of a
//! page visit, the crawl state machine, and the merge of external link checks.

pub mod text;
pub mod normalize;
pub mod record;
pub mod index;
pub mod crawler;
pub mod external;
pub mod errors;
