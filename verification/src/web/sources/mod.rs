//! The individual academic sources.

pub mod arxiv;
pub mod core_ac;
pub mod crossref;
pub mod doaj;
pub mod openalex;
pub mod unpaywall;
