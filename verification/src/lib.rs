//! Core logic of a small static blog generator: markdown post metadata,
//! post ordering, configuration, page data for templates and HTTP routing.

pub mod text;
pub mod posts;
pub mod paths;
pub mod markdown;
pub mod server;
pub mod config;
pub mod template;
pub mod command;
