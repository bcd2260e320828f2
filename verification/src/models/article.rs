//! One text of an issue.

use vstd::prelude::*;

verus! {

/// An article, as the detail page of its issue lists it.
#[derive(Debug, PartialEq, Eq)]
pub struct Article {
    /// The number of the issue that the article belongs to.
    pub issue_number: u32,
    /// The article's number within its issue.
    pub article_number: u32,
    /// The link to the article as the page gave it, relative to the archive.
    pub article_uri_path: String,
}

/// The mathematical content of an [`Article`].
pub struct ArticleView {
    pub issue_number: u32,
    pub article_number: u32,
    pub article_uri_path: Seq<char>,
}

impl View for Article {
    type V = ArticleView;

    open spec fn view(&self) -> ArticleView {
        ArticleView {
            issue_number: self.issue_number,
            article_number: self.article_number,
            article_uri_path: self.article_uri_path@,
        }
    }
}

impl Clone for Article {
    fn clone(&self) -> (copy: Self)
        ensures
            copy@ == self@,
    {
        Article {
            issue_number: self.issue_number,
            article_number: self.article_number,
            article_uri_path: self.article_uri_path.clone(),
        }
    }
}

} // verus!
