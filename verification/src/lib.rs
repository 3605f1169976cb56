//! Verified core of the Zotron command-line client.

pub mod text;
pub mod urlenc;
pub mod order;
pub mod plugins;
pub mod json;
pub mod paper;
pub mod web;
pub mod scholar;
pub mod http;
pub mod output;
pub mod render;
pub mod rpc;
pub mod cli;
pub mod ocr;
pub mod rag;
