//! The export to plain text.

use crate::export::{ExportOptions, Exporter};
use crate::models::issue::{Issue, IssueView};
use crate::phrack_downloader_error::{ErrorView, PhrackDownloaderError};
use crate::text::decimal;
use vstd::prelude::*;

verus! {

/// Exports issues as plain text.
#[derive(Clone, Copy, Debug)]
pub struct TxtExporter;

/// The line that tells the user of the export of issue `number`.
pub open spec fn export_line(number: u32, output_folder: Seq<char>) -> Seq<char> {
    "Exporting issue "@ + decimal(number as nat) + " to "@ + output_folder
}

impl Exporter for TxtExporter {
    open spec fn exported(&self, issue: IssueView, output_folder: Seq<char>) -> Result<
        Seq<char>,
        ErrorView,
    > {
        Ok(export_line(issue.issue_number, output_folder))
    }

    /// Announces the export of `issue`; it never fails.
    fn export(&self, issue: Issue, options: &ExportOptions) -> (r: Result<
        String,
        PhrackDownloaderError,
    >) {
        let mut line = "Exporting issue ".to_owned();
        line.append(issue.to_string().as_str());
        line.append(" to ");
        line.append(options.output_folder.as_str());
        Ok(line)
    }
}

} // verus!
