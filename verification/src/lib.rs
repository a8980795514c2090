//! Resolution of bibliographic identifiers (DOIs, arXiv ids, recognized
//! conference-presentation pages, generic webpages) into normalized
//! BibLaTeX records.

pub mod arxiv;
pub mod chars;
pub mod cli;
pub mod doi;
pub mod embedded;
pub mod extract;
pub mod html;
pub mod item;
pub mod json;
pub mod record;
pub mod resolver;
pub mod text;
pub mod translator;
pub mod urlweb;
pub mod usenix;
