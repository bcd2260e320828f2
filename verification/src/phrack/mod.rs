//! Reading the archive's pages.

pub mod html_parser;
pub mod links;
