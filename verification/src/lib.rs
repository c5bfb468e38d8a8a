//! A single-domain web crawler library: a verified crawl frontier with an
//! at-most-once admission guarantee, a verified streaming link extractor,
//! and the argument/URL validation in front of a crawl. Network I/O and the
//! worker pool live in the program around the library.

pub mod checker;
pub mod crawler;
pub mod html_parser;
pub mod text;
pub mod urls;
