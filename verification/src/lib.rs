//! A static-site build pipeline: Markdown pages with embedded LaTeX and
//! front matter become rendered HTML, CSS, and a syndication feed.
//!
//! The crate verifies the pieces with design content: the LaTeX span
//! extractor, the Markdown event rewriter, the page loader, the feed entry
//! selection, the build-stage scheduler, and the watch-mode rebuild filter.
//! Disk and network plumbing lives outside the library.

use vstd::prelude::*;

pub mod config;
pub mod feed;
pub mod latex;
pub mod markdown;
pub mod page;
pub mod schedule;
pub mod watch;

verus! {

pub use config::default_theme;

} // verus!
