//! Planning and bookkeeping core of a mirror for a numbered document archive.
//!
//! The archive is only browsable as HTML pages. This crate turns the links on
//! those pages into issues, articles and download jobs, decides what has to be
//! fetched, and keeps the books while the jobs run. Reading the network and
//! writing files is left to the caller, which is told step by step what to do.
//!
//! - [`phrack`] reads issues and their entries off pages: the link shapes in
//!   [`phrack::links`], the pages in [`phrack::html_parser`].
//! - [`models`] holds issues, articles and the companion PDF.
//! - [`downloader`] derives addresses, paths and jobs from the settings in
//!   [`config`].
//! - [`planner`] orders a run: which directory to look at, to prepare, which
//!   page to fetch, and in the end which jobs to run.
//! - [`executor`] keeps the books of the jobs while they run: how many may
//!   run at once, which results form a batch, and what is written or
//!   reported.
//! - [`export`], [`exit_code`] and [`phrack_downloader_error`] serve the
//!   program around the core; [`text`] holds what the others need to read and
//!   write numbers and to find one text in another.

pub mod config;
pub mod downloader;
pub mod executor;
pub mod exit_code;
pub mod export;
pub mod models;
pub mod phrack;
pub mod phrack_downloader_error;
pub mod planner;
pub mod text;
