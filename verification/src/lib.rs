//! Rewrites markdown links that name standard-library symbols into links to
//! the online documentation.
//!
//! The library collects candidate links from each document, serializes them
//! into a stub source file for an external resolver, and — once the caller has
//! run the resolver — maps the resolved URLs back onto the original byte spans
//! and splices the rewritten links into each document's text.

pub mod bytes;
pub mod collect;
pub mod extract;
pub mod link;
pub mod parse;
pub mod pipeline;
pub mod relative;
pub mod replace;
pub mod rewrite;
pub mod split;
pub mod stub;
