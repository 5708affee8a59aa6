//! A verified pipeline that turns a stream of wiki-markup page records into
//! a normalized article graph: a page-identity index mapping every known
//! title (including redirect aliases) to a canonical article identity, an
//! edge list of article-to-article links, and an edge list of category
//! memberships.
//!
//! - [`chars`] holds the character classes and the conversions between
//!   `String` and `Vec<char>` that the scanners work on.
//! - [`canon`] is the title canonicalizer every stage shares; [`canon_laws`]
//!   proves its idempotence.
//! - [`markup`] classifies raw page text: comment stripping, the redirect
//!   directive, and the disambiguation and soft-redirect markers.
//! - [`extract`] scans for bracket link spans and captures link targets and
//!   category names, deduplicated per page.
//! - [`index`] is the page-identity index with its bounded two-hop redirect
//!   resolution.
//! - [`pipeline`] ties the stages into the per-record steps that a driving
//!   loop feeds; the loop itself, the dump decompression and the output
//!   sinks stay outside the library.

pub mod chars;
pub mod canon;
pub mod canon_laws;
pub mod markup;
pub mod extract;
pub mod index;
pub mod pipeline;
