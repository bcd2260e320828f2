//! One numbered release of the archive.

use crate::models::article::{Article, ArticleView};
use crate::models::phrack_pdf::{PhrackPdf, PhrackPdfView};
use crate::phrack_downloader_error::{ErrorView, PhrackDownloaderError};
use crate::text::{chars_of, decimal, parse_u32, read_u32, to_decimal, IntErrorKind};
use vstd::prelude::*;
use vstd::std_specs::convert::{FromSpecImpl, TryFromSpecImpl};

verus! {

/// An issue: bare when it comes from the index page, enriched with its
/// articles and companion PDF once its detail page has been read.
#[derive(Debug, PartialEq, Eq)]
pub struct Issue {
    /// The number that identifies the issue.
    pub issue_number: u32,
    /// The articles of the issue, in the order of its detail page.
    pub articles: Vec<Article>,
    /// The companion PDF, if the detail page offered one.
    pub phrack_pdf: Option<PhrackPdf>,
}

/// The mathematical content of an [`Issue`].
pub struct IssueView {
    pub issue_number: u32,
    pub articles: Seq<ArticleView>,
    pub phrack_pdf: Option<PhrackPdfView>,
}

/// The contents of a list of articles.
pub open spec fn articles_view(articles: Seq<Article>) -> Seq<ArticleView> {
    articles.map_values(|a: Article| a@)
}

/// The issue `number` before its detail page has been read.
pub open spec fn bare_issue(number: u32) -> IssueView {
    IssueView { issue_number: number, articles: Seq::empty(), phrack_pdf: None }
}

impl IssueView {
    /// Every article belongs to this issue.
    pub open spec fn wf(self) -> bool {
        forall|i: int|
            0 <= i < self.articles.len() ==> (#[trigger] self.articles[i]).issue_number
                == self.issue_number
    }
}

impl View for Issue {
    type V = IssueView;

    open spec fn view(&self) -> IssueView {
        IssueView {
            issue_number: self.issue_number,
            articles: articles_view(self.articles@),
            phrack_pdf: match self.phrack_pdf {
                Some(pdf) => Some(pdf@),
                None => None,
            },
        }
    }
}

/// The bare issues that a list of directory names stands for, or the reason
/// why the first name that is no number is none.
pub open spec fn issues_named(names: Seq<Seq<char>>) -> Result<Seq<IssueView>, IntErrorKind>
    decreases names.len(),
{
    if names.len() == 0 {
        Ok(Seq::empty())
    } else {
        match issues_named(names.drop_last()) {
            Err(kind) => Err(kind),
            Ok(issues) => match parse_u32(names.last()) {
                Err(kind) => Err(kind),
                Ok(number) => Ok(issues.push(bare_issue(number))),
            },
        }
    }
}

/// The contents of a list of issues.
pub open spec fn issues_view(issues: Seq<Issue>) -> Seq<IssueView> {
    issues.map_values(|i: Issue| i@)
}

/// The contents of a list of texts.
pub open spec fn texts_view(texts: Seq<String>) -> Seq<Seq<char>> {
    texts.map_values(|t: String| t@)
}

impl Default for Issue {
    /// Issue 0, bare.
    fn default() -> (issue: Self)
        ensures
            issue@ == bare_issue(0),
    {
        let issue = Issue { issue_number: 0, articles: Vec::new(), phrack_pdf: None };
        assert(issue@.articles =~= Seq::empty());
        issue
    }
}

impl FromSpecImpl<u32> for Issue {
    open spec fn obeys_from_spec() -> bool {
        false
    }

    open spec fn from_spec(value: u32) -> Issue {
        arbitrary()
    }
}

impl From<u32> for Issue {
    /// The bare issue of that number.
    fn from(value: u32) -> (issue: Self)
        ensures
            issue@ == bare_issue(value),
    {
        let issue = Issue { issue_number: value, articles: Vec::new(), phrack_pdf: None };
        assert(issue@.articles =~= Seq::empty());
        issue
    }
}

impl TryFromSpecImpl<String> for Issue {
    open spec fn obeys_try_from_spec() -> bool {
        false
    }

    open spec fn try_from_spec(value: String) -> Result<Issue, PhrackDownloaderError> {
        arbitrary()
    }
}

impl TryFrom<String> for Issue {
    type Error = PhrackDownloaderError;

    /// The bare issue whose number `value` writes out.
    fn try_from(value: String) -> (r: Result<Self, PhrackDownloaderError>)
        ensures
            match parse_u32(value@) {
                Ok(number) => r is Ok && r->Ok_0@ == bare_issue(number),
                Err(kind) => r is Err && r->Err_0@ == ErrorView::ParseInt(kind),
            },
    {
        Issue::parse(value.as_str())
    }
}

impl Clone for Issue {
    fn clone(&self) -> (copy: Self)
        ensures
            copy@ == self@,
    {
        let mut articles: Vec<Article> = Vec::new();
        let mut i: usize = 0;
        while i < self.articles.len()
            invariant
                i <= self.articles.len(),
                articles@.len() == i,
                forall|j: int| 0 <= j < i ==> (#[trigger] articles@[j])@ == self.articles@[j]@,
            decreases self.articles.len() - i,
        {
            articles.push(self.articles[i].clone());
            i = i + 1;
        }
        assert(articles_view(articles@) =~= articles_view(self.articles@));
        let phrack_pdf = match &self.phrack_pdf {
            Some(pdf) => Some(pdf.clone()),
            None => None,
        };
        Issue { issue_number: self.issue_number, articles, phrack_pdf }
    }
}

impl Issue {
    /// Every article belongs to this issue.
    pub open spec fn wf(&self) -> bool {
        self@.wf()
    }

    /// The bare issue whose number `text` writes out.
    pub fn parse(text: &str) -> (r: Result<Issue, PhrackDownloaderError>)
        ensures
            match parse_u32(text@) {
                Ok(number) => r is Ok && r->Ok_0@ == bare_issue(number),
                Err(kind) => r is Err && r->Err_0@ == ErrorView::ParseInt(kind),
            },
    {
        let chars = chars_of(text);
        match read_u32(&chars) {
            Ok(number) => Ok(Issue::from(number)),
            Err(kind) => Err(PhrackDownloaderError::ParseInt(kind)),
        }
    }

    /// The issue alone in a list.
    pub fn into_list(self) -> (issues: Vec<Issue>)
        ensures
            issues_view(issues@) == seq![self@],
    {
        let ghost me = self@;
        let mut issues: Vec<Issue> = Vec::new();
        issues.push(self);
        assert(issues_view(issues@) =~= seq![me]);
        issues
    }

    /// The issue's number in decimal, as it is shown and as its directory is
    /// named.
    pub fn to_string(&self) -> (text: String)
        ensures
            text@ == decimal(self.issue_number as nat),
    {
        to_decimal(self.issue_number as u64)
    }

    /// The issues already mirrored, given the names of the entries of the
    /// download directory: one bare issue per name, in the order given.
    /// A name that is no number fails the whole listing.
    pub fn all_issues(names: &Vec<String>) -> (r: Result<Vec<Issue>, PhrackDownloaderError>)
        ensures
            match issues_named(texts_view(names@)) {
                Ok(issues) => r is Ok && issues_view(r->Ok_0@) == issues,
                Err(kind) => r is Err && r->Err_0@ == ErrorView::ParseInt(kind),
            },
    {
        let mut issues: Vec<Issue> = Vec::new();
        let mut i: usize = 0;
        proof {
            assert(texts_view(names@).take(0) =~= Seq::empty());
            assert(issues_view(issues@) =~= Seq::empty());
        }
        while i < names.len()
            invariant
                i <= names.len(),
                issues_named(texts_view(names@).take(i as int)) == Ok::<
                    Seq<IssueView>,
                    IntErrorKind,
                >(issues_view(issues@)),
            decreases names.len() - i,
        {
            let ghost upto = texts_view(names@).take(i + 1);
            proof {
                assert(upto.drop_last() =~= texts_view(names@).take(i as int));
                assert(upto.last() == names@[i as int]@);
                lemma_issues_named_prefix_error(texts_view(names@), i + 1);
            }
            match Issue::parse(names[i].as_str()) {
                Ok(issue) => {
                    let ghost before = issues_view(issues@);
                    issues.push(issue);
                    assert(issues_view(issues@) =~= before.push(issue@));
                },
                Err(error) => {
                    return Err(error);
                },
            }
            i = i + 1;
        }
        proof {
            assert(texts_view(names@).take(i as int) =~= texts_view(names@));
        }
        Ok(issues)
    }
}

/// Once a prefix of the names fails, the whole listing fails in the same way.
pub proof fn lemma_issues_named_prefix_error(names: Seq<Seq<char>>, n: int)
    requires
        0 <= n <= names.len(),
    ensures
        issues_named(names.take(n)) is Err ==> issues_named(names) == issues_named(names.take(n)),
    decreases names.len() - n,
{
    if n < names.len() {
        lemma_issues_named_prefix_error(names, n + 1);
        assert(names.take(n + 1).drop_last() =~= names.take(n));
    } else {
        assert(names.take(n) =~= names);
    }
}

} // verus!
