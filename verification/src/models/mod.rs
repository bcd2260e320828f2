//! The entities that the archive is made of.

pub mod article;
pub mod issue;
pub mod phrack_pdf;
