//! Exporting the issues that have been mirrored.

pub mod txt_export;

use crate::models::issue::{issues_view, texts_view, Issue, IssueView};
use crate::phrack::links::stands_at;
use crate::phrack_downloader_error::{ErrorView, PhrackDownloaderError};
use crate::text::chars_of;
use vstd::prelude::*;

verus! {

/// The formats that issues can be exported to.
#[derive(Clone, Copy, Debug, PartialEq, Eq, Structural)]
pub enum ExportFormat {
    /// Plain text.
    TXT,
}

/// The format that `name` stands for on the command line: `txt`, or `text`
/// for the same.
pub open spec fn format_named(name: Seq<char>) -> Option<ExportFormat> {
    if name == seq!['t', 'x', 't'] || name == seq!['t', 'e', 'x', 't'] {
        Some(ExportFormat::TXT)
    } else {
        None
    }
}

impl ExportFormat {
    /// The format that `name` stands for on the command line.
    pub fn from_arg(name: &str) -> (format: Option<ExportFormat>)
        ensures
            format == format_named(name@),
    {
        let given = chars_of(name);
        let mut txt: Vec<char> = Vec::new();
        txt.push('t');
        txt.push('x');
        txt.push('t');
        let mut text: Vec<char> = Vec::new();
        text.push('t');
        text.push('e');
        text.push('x');
        text.push('t');
        assert(txt@ =~= seq!['t', 'x', 't']);
        assert(text@ =~= seq!['t', 'e', 'x', 't']);
        let is_txt = given.len() == 3 && stands_at(&given, &txt, 0);
        let is_text = given.len() == 4 && stands_at(&given, &text, 0);
        proof {
            if given.len() == 3 {
                assert(given@.subrange(0, 3) =~= given@);
            }
            if given.len() == 4 {
                assert(given@.subrange(0, 4) =~= given@);
            }
        }
        if is_txt || is_text {
            Some(ExportFormat::TXT)
        } else {
            None
        }
    }
}

/// Where an export goes.
#[derive(Debug)]
pub struct ExportOptions {
    /// The folder that the exported files are written to.
    pub output_folder: String,
}

/// What exporting `issues` in order yields: the line of each issue, up to
/// the first issue whose export fails, which fails the whole.
pub open spec fn exported_all<E: Exporter>(
    exporter: &E,
    issues: Seq<IssueView>,
    output_folder: Seq<char>,
) -> Result<Seq<Seq<char>>, ErrorView>
    decreases issues.len(),
{
    if issues.len() == 0 {
        Ok(Seq::empty())
    } else {
        match exported_all(exporter, issues.drop_last(), output_folder) {
            Err(error) => Err(error),
            Ok(lines) => match exporter.exported(issues.last(), output_folder) {
                Err(error) => Err(error),
                Ok(line) => Ok(lines.push(line)),
            },
        }
    }
}

/// An export of issues to some format.
pub trait Exporter: Sized {
    /// What the export of `issue` to `output_folder` yields: the line that
    /// tells the user of it, or an error.
    spec fn exported(&self, issue: IssueView, output_folder: Seq<char>) -> Result<
        Seq<char>,
        ErrorView,
    >;

    /// Exports one issue and returns the line that tells the user of it.
    fn export(&self, issue: Issue, options: &ExportOptions) -> (r: Result<
        String,
        PhrackDownloaderError,
    >)
        ensures
            match self.exported(issue@, options.output_folder@) {
                Ok(line) => r is Ok && r->Ok_0@ == line,
                Err(error) => r is Err && r->Err_0@ == error,
            },
    ;
}

/// Exports the given issues in order and returns their lines. The first
/// export that fails ends the run with its error.
pub fn export_all<E: Exporter>(
    exporter: &E,
    issues: &Vec<Issue>,
    options: &ExportOptions,
) -> (r: Result<Vec<String>, PhrackDownloaderError>)
    ensures
        match exported_all(exporter, issues_view(issues@), options.output_folder@) {
            Ok(lines) => r is Ok && texts_view(r->Ok_0@) == lines,
            Err(error) => r is Err && r->Err_0@ == error,
        },
{
    let mut lines: Vec<String> = Vec::new();
    let mut i: usize = 0;
    proof {
        assert(issues_view(issues@).take(0) =~= Seq::empty());
        assert(texts_view(lines@) =~= Seq::empty());
    }
    while i < issues.len()
        invariant
            i <= issues.len(),
            exported_all(exporter, issues_view(issues@).take(i as int), options.output_folder@)
                == Ok::<Seq<Seq<char>>, ErrorView>(texts_view(lines@)),
        decreases issues.len() - i,
    {
        proof {
            let upto = issues_view(issues@).take(i + 1);
            assert(upto.drop_last() =~= issues_view(issues@).take(i as int));
            assert(upto.last() == issues@[i as int]@);
            lemma_exported_all_prefix_error(
                exporter,
                issues_view(issues@),
                options.output_folder@,
                i + 1,
            );
        }
        match exporter.export(issues[i].clone(), options) {
            Ok(line) => {
                let ghost before = texts_view(lines@);
                lines.push(line);
                assert(texts_view(lines@) =~= before.push(line@));
            },
            Err(error) => {
                return Err(error);
            },
        }
        i = i + 1;
    }
    proof {
        assert(issues_view(issues@).take(i as int) =~= issues_view(issues@));
    }
    Ok(lines)
}

/// Once the export of a prefix of the issues fails, the whole export fails in
/// the same way.
pub proof fn lemma_exported_all_prefix_error<E: Exporter>(
    exporter: &E,
    issues: Seq<IssueView>,
    output_folder: Seq<char>,
    n: int,
)
    requires
        0 <= n <= issues.len(),
    ensures
        exported_all(exporter, issues.take(n), output_folder) is Err ==> exported_all(
            exporter,
            issues,
            output_folder,
        ) == exported_all(exporter, issues.take(n), output_folder),
    decreases issues.len() - n,
{
    if n < issues.len() {
        lemma_exported_all_prefix_error(exporter, issues, output_folder, n + 1);
        assert(issues.take(n + 1).drop_last() =~= issues.take(n));
    } else {
        assert(issues.take(n) =~= issues);
    }
}

} // verus!
