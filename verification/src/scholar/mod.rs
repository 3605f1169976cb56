//! The stand-alone scholar tool: paper search and fetch over public academic
//! APIs, with an open-access PDF cascade.

pub mod fetch;
pub mod retry;
pub mod sources;
