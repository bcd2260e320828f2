//! Where things are in the archive, where they go on disk, and what has to be
//! fetched.

use crate::config::{Config, ConfigView};
use crate::models::article::{Article, ArticleView};
use crate::models::issue::{issues_view, Issue, IssueView};
use crate::models::phrack_pdf::PhrackPdfView;
use crate::phrack::links::{issue_dir_prefix, issues_prefix};
use crate::text::{
    decimal, is_digit, lemma_decimal_digits, lemma_decimal_injective, occurs_at, to_decimal,
};
use vstd::prelude::*;

verus! {

/// One file to fetch: where it is and where it goes.
#[derive(Debug, PartialEq, Eq)]
pub struct DownloadJob {
    /// The address to fetch.
    pub source_url: String,
    /// The file to write what was fetched to.
    pub destination_path: String,
}

/// The mathematical content of a [`DownloadJob`].
pub struct JobView {
    pub source_url: Seq<char>,
    pub destination_path: Seq<char>,
}

impl View for DownloadJob {
    type V = JobView;

    open spec fn view(&self) -> JobView {
        JobView { source_url: self.source_url@, destination_path: self.destination_path@ }
    }
}

impl Clone for DownloadJob {
    fn clone(&self) -> (copy: Self)
        ensures
            copy@ == self@,
    {
        DownloadJob {
            source_url: self.source_url.clone(),
            destination_path: self.destination_path.clone(),
        }
    }
}

/// The contents of a list of jobs.
pub open spec fn jobs_view(jobs: Seq<DownloadJob>) -> Seq<JobView> {
    jobs.map_values(|j: DownloadJob| j@)
}

/// What to do with the directory of an issue before its detail page is
/// fetched.
#[derive(Clone, Copy, Debug, PartialEq, Eq, Structural)]
pub enum DirectoryAction {
    /// The issue is there already: leave everything as it is and fetch nothing.
    Skip,
    /// The issue is not there: create its directory.
    Create,
    /// The issue is there and is to be fetched anew: remove its directory with
    /// all it holds, then create it.
    Recreate,
}

/// The policy for the directory of an issue: an issue that is there is left
/// alone unless a refresh is asked for.
pub open spec fn directory_policy(exists: bool, refresh: bool) -> DirectoryAction {
    if exists && !refresh {
        DirectoryAction::Skip
    } else if exists {
        DirectoryAction::Recreate
    } else {
        DirectoryAction::Create
    }
}

/// The address of the index page.
pub open spec fn issues_url_of(config: ConfigView) -> Seq<char> {
    config.phrack_archive_url + issues_prefix()
}

/// The address of the detail page of issue `number`.
pub open spec fn issue_url_of(config: ConfigView, number: u32) -> Seq<char> {
    config.phrack_archive_url + issue_dir_prefix(number)
}

/// The address of an article, given the link that its detail page gave.
pub open spec fn article_url_of(config: ConfigView, uri_path: Seq<char>) -> Seq<char> {
    config.phrack_archive_url + uri_path
}

/// The directory of issue `number`.
pub open spec fn issue_path_of(config: ConfigView, number: u32) -> Seq<char> {
    config.download_path + seq!['/'] + decimal(number as nat)
}

/// The file of article `article_number` of issue `issue_number`.
pub open spec fn article_path_of(config: ConfigView, issue_number: u32, article_number: u32) -> Seq<
    char,
> {
    issue_path_of(config, issue_number) + seq!['/'] + decimal(article_number as nat) + seq![
        '.',
        't',
        'x',
        't',
    ]
}

/// The address of a companion PDF, given the link that its detail page
/// gave.
pub open spec fn pdf_url_of(config: ConfigView, uri_path: Seq<char>) -> Seq<char> {
    config.phrack_archive_url + uri_path
}

/// The file of the companion PDF `filename` of issue `number`.
pub open spec fn pdf_path_of(config: ConfigView, number: u32, filename: Seq<char>) -> Seq<char> {
    issue_path_of(config, number) + seq!['/'] + filename
}

/// The job that fetches `article`.
pub open spec fn article_job(config: ConfigView, article: ArticleView) -> JobView {
    JobView {
        source_url: article_url_of(config, article.article_uri_path),
        destination_path: article_path_of(config, article.issue_number, article.article_number),
    }
}

/// The job that fetches the companion PDF `pdf` of issue `number`: from the
/// link as the page gave it, into the directory of the issue under its file
/// name.
pub open spec fn pdf_job(config: ConfigView, number: u32, pdf: PhrackPdfView) -> JobView {
    JobView {
        source_url: pdf_url_of(config, pdf.uri_path),
        destination_path: pdf_path_of(config, number, pdf.filename),
    }
}

/// The jobs of the companion PDF of an issue: one, or none.
pub open spec fn pdf_jobs(config: ConfigView, issue: IssueView) -> Seq<JobView> {
    match issue.phrack_pdf {
        Some(pdf) => seq![pdf_job(config, issue.issue_number, pdf)],
        None => Seq::empty(),
    }
}

/// The jobs of an issue: one for each article, in order, then the one for
/// its companion PDF, if it has one.
pub open spec fn issue_jobs(config: ConfigView, issue: IssueView) -> Seq<JobView> {
    issue.articles.map_values(|a: ArticleView| article_job(config, a)) + pdf_jobs(config, issue)
}

/// The jobs of a list of issues: those of each issue, issue after issue.
pub open spec fn all_jobs(config: ConfigView, issues: Seq<IssueView>) -> Seq<JobView>
    decreases issues.len(),
{
    if issues.len() == 0 {
        Seq::empty()
    } else {
        all_jobs(config, issues.drop_last()) + issue_jobs(config, issues.last())
    }
}

/// The notice that an issue is passed over.
pub open spec fn skip_notice(config: ConfigView, number: u32) -> Seq<char> {
    "Issue "@ + decimal(number as nat) + " already downloaded at "@ + issue_path_of(config, number)
        + ", skipping (use --refresh to re-download)"@
}

/// The directories of two different issues are apart: neither the directory
/// of the one nor anything below it is the directory of the other or lies
/// below that. Removing the one therefore leaves the other as it is.
pub proof fn lemma_issue_directories_are_apart(
    config: ConfigView,
    one: u32,
    other: u32,
    rest: Seq<char>,
)
    requires
        one != other,
    ensures
        issue_path_of(config, other) != issue_path_of(config, one),
        !occurs_at(issue_path_of(config, other), issue_path_of(config, one) + seq!['/'], 0),
        !occurs_at(
            issue_path_of(config, other) + seq!['/'] + rest,
            issue_path_of(config, one) + seq!['/'],
            0,
        ),
{
    let base = config.download_path + seq!['/'];
    let dn = decimal(one as nat);
    let dm = decimal(other as nat);
    lemma_decimal_digits(one as nat);
    lemma_decimal_digits(other as nat);
    let pattern = issue_path_of(config, one) + seq!['/'];
    let dir = issue_path_of(config, other);
    let below = dir + seq!['/'] + rest;
    let b = base.len() as int;
    let ln = dn.len() as int;
    let lm = dm.len() as int;
    assert(pattern.len() == b + ln + 1);
    assert(dir.len() == b + lm);
    assert forall|i: int| 0 <= i < ln implies #[trigger] pattern[b + i] == dn[i] && is_digit(
        dn[i],
    ) by {}
    assert forall|i: int| 0 <= i < lm implies #[trigger] dir[b + i] == dm[i] && below[b + i]
        == dm[i] && is_digit(dm[i]) by {}
    assert(pattern[b + ln] == '/');
    assert(below[b + lm] == '/');
    if dir == issue_path_of(config, one) {
        assert(dm =~= dn) by {
            assert forall|i: int| 0 <= i < ln implies dm[i] == dn[i] by {
                assert(dir[b + i] == dm[i]);
                assert(pattern[b + i] == dn[i]);
            }
        }
        lemma_decimal_injective(one as nat, other as nat);
    }
    if occurs_at(dir, pattern, 0) {
        assert(lm > ln);
        assert(dir.subrange(0, pattern.len() as int)[b + ln] == dir[b + ln]);
        assert(dir[b + ln] == dm[ln]);
        assert(is_digit(dm[ln]));
    }
    if occurs_at(below, pattern, 0) {
        let part = below.subrange(0, pattern.len() as int);
        if lm < ln {
            assert(part[b + lm] == below[b + lm]);
            assert(pattern[b + lm] == dn[lm]);
            assert(is_digit(dn[lm]));
        } else if lm > ln {
            assert(part[b + ln] == below[b + ln]);
            assert(below[b + ln] == dm[ln]);
            assert(is_digit(dm[ln]));
        } else {
            assert(dm =~= dn) by {
                assert forall|i: int| 0 <= i < ln implies dm[i] == dn[i] by {
                    assert(part[b + i] == below[b + i]);
                    assert(below[b + i] == dm[i]);
                    assert(pattern[b + i] == dn[i]);
                }
            }
            lemma_decimal_injective(one as nat, other as nat);
        }
    }
}

/// The files of an issue lie in the directory of that issue: the file of
/// each of its articles and that of its companion PDF are the directory, a
/// `/` and a file name.
pub proof fn lemma_files_lie_in_issue_directory(
    config: ConfigView,
    number: u32,
    article_number: u32,
    filename: Seq<char>,
)
    ensures
        article_path_of(config, number, article_number) == issue_path_of(config, number) + seq![
            '/',
        ] + (decimal(article_number as nat) + seq!['.', 't', 'x', 't']),
        pdf_path_of(config, number, filename) == issue_path_of(config, number) + seq!['/']
            + filename,
{
    assert(article_path_of(config, number, article_number) =~= issue_path_of(config, number)
        + seq!['/'] + (decimal(article_number as nat) + seq!['.', 't', 'x', 't']));
}

/// An issue has one job for each of its articles and one more if it has a
/// companion PDF, and each of them writes into the directory of that issue:
/// the destination of every job of a well-formed issue begins with the
/// directory of the issue and a `/`.
pub proof fn lemma_issue_jobs_fill_issue_directory(config: ConfigView, issue: IssueView, k: int)
    requires
        issue.wf(),
        0 <= k < issue_jobs(config, issue).len(),
    ensures
        issue_jobs(config, issue).len() == issue.articles.len() + if issue.phrack_pdf is Some {
            1nat
        } else {
            0nat
        },
        occurs_at(
            issue_jobs(config, issue)[k].destination_path,
            issue_path_of(config, issue.issue_number) + seq!['/'],
            0,
        ),
{
    let dir = issue_path_of(config, issue.issue_number) + seq!['/'];
    let destination = issue_jobs(config, issue)[k].destination_path;
    if k < issue.articles.len() {
        let article = issue.articles[k];
        assert(article.issue_number == issue.issue_number);
        lemma_files_lie_in_issue_directory(
            config,
            issue.issue_number,
            article.article_number,
            Seq::empty(),
        );
        assert(destination == article_path_of(
            config,
            issue.issue_number,
            article.article_number,
        ));
    } else {
        assert(destination == pdf_path_of(
            config,
            issue.issue_number,
            issue.phrack_pdf->0.filename,
        ));
    }
    assert(destination.subrange(0, dir.len() as int) =~= dir);
}

/// Knows the settings of a run and derives addresses, paths and jobs from
/// them.
#[derive(Debug)]
pub struct Downloader {
    config: Config,
}

impl View for Downloader {
    type V = ConfigView;

    closed spec fn view(&self) -> ConfigView {
        self.config@
    }
}

impl Downloader {
    /// A downloader with these settings.
    pub fn new(config: Config) -> (downloader: Self)
        ensures
            downloader@ == config@,
    {
        Self { config }
    }

    /// The address of the index page.
    pub fn issues_url(&self) -> (url: String)
        ensures
            url@ == issues_url_of(self@),
    {
        proof {
            reveal_strlit("/issues/");
            assert("/issues/"@ =~= issues_prefix());
        }
        let mut url = self.config.phrack_archive_url().to_owned();
        url.append("/issues/");
        url
    }

    /// The address of the detail page of `issue`.
    pub fn issue_url(&self, issue: &Issue) -> (url: String)
        ensures
            url@ == issue_url_of(self@, issue.issue_number),
    {
        proof {
            reveal_strlit("/");
            assert("/"@ =~= seq!['/']);
        }
        let mut url = self.issues_url();
        url.append(to_decimal(issue.issue_number as u64).as_str());
        url.append("/");
        assert(url@ =~= issue_url_of(self@, issue.issue_number));
        url
    }

    /// The address of `article`.
    pub fn article_url(&self, article: &Article) -> (url: String)
        ensures
            url@ == article_url_of(self@, article.article_uri_path@),
    {
        let mut url = self.config.phrack_archive_url().to_owned();
        url.append(article.article_uri_path.as_str());
        url
    }

    /// The directory of the issue of that number.
    pub fn issue_number_path(&self, number: u32) -> (path: String)
        ensures
            path@ == issue_path_of(self@, number),
    {
        proof {
            reveal_strlit("/");
            assert("/"@ =~= seq!['/']);
        }
        let mut path = self.config.download_path().to_owned();
        path.append("/");
        path.append(to_decimal(number as u64).as_str());
        path
    }

    /// The directory of `issue`.
    pub fn issue_path(&self, issue: &Issue) -> (path: String)
        ensures
            path@ == issue_path_of(self@, issue.issue_number),
    {
        self.issue_number_path(issue.issue_number)
    }

    /// The file of `article`.
    pub fn article_path(&self, article: &Article) -> (path: String)
        ensures
            path@ == article_path_of(self@, article.issue_number, article.article_number),
    {
        proof {
            reveal_strlit("/");
            assert("/"@ =~= seq!['/']);
            reveal_strlit(".txt");
            assert(".txt"@ =~= seq!['.', 't', 'x', 't']);
        }
        let mut path = self.issue_number_path(article.issue_number);
        path.append("/");
        path.append(to_decimal(article.article_number as u64).as_str());
        path.append(".txt");
        path
    }

    /// What to do with the directory of an issue, given whether it exists and
    /// whether a refresh is asked for. To be done before the detail page of
    /// the issue is fetched.
    pub fn continue_issue_download(&self, exists: bool, refresh: bool) -> (action: DirectoryAction)
        ensures
            action == directory_policy(exists, refresh),
    {
        if exists && !refresh {
            DirectoryAction::Skip
        } else if exists {
            DirectoryAction::Recreate
        } else {
            DirectoryAction::Create
        }
    }

    /// The notice that `issue` is passed over.
    pub fn skip_message(&self, issue: &Issue) -> (notice: String)
        ensures
            notice@ == skip_notice(self@, issue.issue_number),
    {
        let mut notice = "Issue ".to_owned();
        notice.append(issue.to_string().as_str());
        notice.append(" already downloaded at ");
        notice.append(self.issue_path(issue).as_str());
        notice.append(", skipping (use --refresh to re-download)");
        notice
    }

    /// The job that fetches `article`.
    pub fn article_job(&self, article: &Article) -> (job: DownloadJob)
        ensures
            job@ == article_job(self@, article@),
    {
        DownloadJob {
            source_url: self.article_url(article),
            destination_path: self.article_path(article),
        }
    }

    /// The job that fetches the companion PDF of `issue`, if it has one.
    pub fn phrack_pdf_job(&self, issue: &Issue) -> (job: Option<DownloadJob>)
        ensures
            match job {
                Some(j) => pdf_jobs(self@, issue@) == seq![j@],
                None => pdf_jobs(self@, issue@) == Seq::<JobView>::empty(),
            },
    {
        match &issue.phrack_pdf {
            None => None,
            Some(pdf) => {
                proof {
                    reveal_strlit("/");
                    assert("/"@ =~= seq!['/']);
                }
                let mut source_url = self.config.phrack_archive_url().to_owned();
                source_url.append(pdf.uri_path.as_str());
                let mut destination_path = self.issue_path(issue);
                destination_path.append("/");
                destination_path.append(pdf.filename.as_str());
                Some(DownloadJob { source_url, destination_path })
            },
        }
    }

    /// Adds the jobs of `issue` to `jobs`.
    pub fn push_issue_jobs(&self, issue: &Issue, jobs: &mut Vec<DownloadJob>)
        ensures
            jobs_view(final(jobs)@) == jobs_view(old(jobs)@) + issue_jobs(self@, issue@),
    {
        let ghost before = jobs_view(jobs@);
        let ghost texts = issue@.articles.map_values(|a: ArticleView| article_job(self@, a));
        let mut i: usize = 0;
        assert(jobs_view(jobs@) =~= before + texts.take(0));
        while i < issue.articles.len()
            invariant
                i <= issue.articles.len(),
                texts == issue@.articles.map_values(|a: ArticleView| article_job(self@, a)),
                jobs_view(jobs@) == before + texts.take(i as int),
            decreases issue.articles.len() - i,
        {
            let job = self.article_job(&issue.articles[i]);
            let ghost so_far = jobs_view(jobs@);
            jobs.push(job);
            assert(jobs_view(jobs@) =~= so_far.push(job@));
            assert(so_far.push(job@) =~= before + texts.take(i + 1));
            i = i + 1;
        }
        assert(texts.take(i as int) =~= texts);
        match self.phrack_pdf_job(issue) {
            Some(job) => {
                let ghost so_far = jobs_view(jobs@);
                jobs.push(job);
                assert(jobs_view(jobs@) =~= so_far.push(job@));
                assert(so_far.push(job@) =~= before + issue_jobs(self@, issue@));
            },
            None => {
                assert(jobs_view(jobs@) =~= before + issue_jobs(self@, issue@));
            },
        }
    }

    /// The jobs of a list of issues: those of each issue, issue after issue,
    /// and within an issue one for each article, in order, then the one for
    /// its companion PDF, if it has one.
    pub fn plan_jobs(&self, issues: &Vec<Issue>) -> (jobs: Vec<DownloadJob>)
        ensures
            jobs_view(jobs@) == all_jobs(self@, issues_view(issues@)),
    {
        let mut jobs: Vec<DownloadJob> = Vec::new();
        let mut i: usize = 0;
        assert(issues_view(issues@).take(0) =~= Seq::empty());
        assert(jobs_view(jobs@) =~= Seq::empty());
        while i < issues.len()
            invariant
                i <= issues.len(),
                jobs_view(jobs@) == all_jobs(self@, issues_view(issues@).take(i as int)),
            decreases issues.len() - i,
        {
            proof {
                let upto = issues_view(issues@).take(i + 1);
                assert(upto.drop_last() =~= issues_view(issues@).take(i as int));
                assert(upto.last() == issues@[i as int]@);
            }
            self.push_issue_jobs(&issues[i], &mut jobs);
            i = i + 1;
        }
        assert(issues_view(issues@).take(i as int) =~= issues_view(issues@));
        jobs
    }
}

} // verus!
