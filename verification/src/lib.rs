//! A template engine for a feed aggregator: it finds `${name}` placeholders in
//! HTML templates, keeps the aggregated entries in a timeline and renders them
//! into a page, escaping every substituted value.

pub mod data;
pub mod dates;
pub mod escape;
pub mod feeds;
pub mod html;
pub mod lists;
pub mod logger;
pub mod render;
pub mod scanner;
pub mod sites;
pub mod specifier;
pub mod text;
pub mod timeline;

pub use crate::logger::LogLevel;
