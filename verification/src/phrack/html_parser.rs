//! Reading issues and their entries off the archive's pages.

use crate::models::article::{Article, ArticleView};
use crate::models::issue::{
    articles_view, bare_issue, issues_view, texts_view, Issue, IssueView,
};
use crate::models::phrack_pdf::{PhrackPdf, PhrackPdfView};
use crate::phrack::links::{
    classify_digits, classify_tokens, entry_ref, find_entry_ref, find_issue_ref, issue_dir_prefix,
    issue_ref, issues_prefix, issues_prefix_chars, lemma_entry_ref_is_link,
    lemma_issue_ref_is_link, pdf_suffix, slice_of, stands_at, txt_suffix, EntryKind,
};
use crate::phrack_downloader_error::{ErrorView, PhrackDownloaderError};
use crate::text::{
    chars_of, decimal, lemma_read_text_holds_decimal, occurs_at, occurs_in, parse_u32, read_u32,
    to_decimal, IntErrorKind,
};
use scraper::{Html, Selector};
use vstd::prelude::*;
use vstd::utf8::encode_utf8;

verus! {

/// What the HTML parser finds when it reads `html` as a document, selects the
/// elements that match the CSS selector `selector`, and looks up `attribute`
/// on each: one entry per element, in the order in which the parser built
/// the elements, `None` where the element lacks the attribute. `None` as a
/// whole where the selector is not valid CSS.
pub uninterp spec fn selected_attribute(
    html: Seq<char>,
    selector: Seq<char>,
    attribute: Seq<char>,
) -> Option<Seq<Option<Seq<char>>>>;

/// The contents of a list of attribute values.
pub open spec fn attributes_view(values: Seq<Option<String>>) -> Seq<Option<Seq<char>>> {
    values.map_values(
        |v: Option<String>|
            match v {
                Some(text) => Some(text@),
                None => None,
            },
    )
}

/// The longest page, in bytes, that is handed to the parser. The parser keeps
/// text in buffers whose length is a 32-bit number and gives up with a panic
/// where a buffer would outgrow it; a buffer can hold up to three times the
/// bytes of the page, since a NUL byte is replaced by a character of three.
/// This limit keeps every buffer under half of what the 32 bits allow.
pub const MAX_PAGE_BYTES: usize = 0x0FFF_FFFF;

/// Runs `scraper`: `Selector::parse` on `selector`, `Html::parse_document` on
/// `html`, `Html::select` with the selector, and `Element::attr` with
/// `attribute` on each element selected. The contract only names what comes
/// back; nothing is claimed about which elements a page holds. Pages over
/// [`MAX_PAGE_BYTES`] are kept out, because `Html::parse_document` panics on
/// text whose length does not fit its buffers.
#[verifier::external_body]
fn select_attribute(html: &str, selector: &str, attribute: &str) -> (found: Option<
    Vec<Option<String>>,
>)
    requires
        encode_utf8(html@).len() <= MAX_PAGE_BYTES,
    ensures
        match found {
            Some(values) => selected_attribute(html@, selector@, attribute@) == Some(
                attributes_view(values@),
            ),
            None => selected_attribute(html@, selector@, attribute@) is None,
        },
{
    let selector = Selector::parse(selector).ok()?;
    let document = Html::parse_document(html);
    Some(
        document.select(&selector).map(|e| e.value().attr(attribute).map(|v| v.to_string()))
            .collect(),
    )
}

/// What the link extractor reads of a page: the `href` of each anchor
/// element, `None` for an anchor without one. The anchors stand in the order
/// in which the parser built them, which is the order of the page unless its
/// markup is misnested.
#[derive(Debug, PartialEq, Eq)]
pub struct Document {
    pub anchors: Vec<Option<String>>,
}

impl View for Document {
    type V = Seq<Option<Seq<char>>>;

    open spec fn view(&self) -> Seq<Option<Seq<char>>> {
        attributes_view(self.anchors@)
    }
}

/// The `href` of each anchor of the page `html`, or nothing where the page
/// is longer than [`MAX_PAGE_BYTES`] or the parser rejects the selector `a`.
pub open spec fn page_anchors(html: Seq<char>) -> Option<Seq<Option<Seq<char>>>> {
    if encode_utf8(html).len() > MAX_PAGE_BYTES {
        None
    } else {
        selected_attribute(html, "a"@, "href"@)
    }
}

impl Document {
    /// Parses a page and keeps the `href` of each of its anchors. Fails with
    /// `Unknown` if the page is longer than [`MAX_PAGE_BYTES`], and otherwise
    /// only if the parser rejects the selector `a`.
    pub fn parse(html: &str) -> (r: Result<Document, PhrackDownloaderError>)
        ensures
            match page_anchors(html@) {
                Some(anchors) => r is Ok && r->Ok_0@ == anchors,
                None => r is Err && r->Err_0@ == ErrorView::Unknown,
            },
    {
        if html.as_bytes().len() > MAX_PAGE_BYTES {
            return Err(PhrackDownloaderError::Unknown);
        }
        match select_attribute(html, "a", "href") {
            Some(anchors) => Ok(Document { anchors }),
            None => Err(PhrackDownloaderError::Unknown),
        }
    }
}

/// What one anchor says about the index: nothing, an issue number, or digits
/// that are no issue number.
pub open spec fn anchor_issue(anchor: Option<Seq<char>>) -> Option<Result<u32, IntErrorKind>> {
    match anchor {
        None => None,
        Some(href) => match issue_ref(href) {
            None => None,
            Some(digits) => Some(parse_u32(digits)),
        },
    }
}

/// The issue numbers that the anchors of an index page name, in the order of
/// the anchors and with repetitions, or the reason why the first unreadable
/// number is none.
pub open spec fn issue_numbers(anchors: Seq<Option<Seq<char>>>) -> Result<Seq<u32>, IntErrorKind>
    decreases anchors.len(),
{
    if anchors.len() == 0 {
        Ok(Seq::empty())
    } else {
        match issue_numbers(anchors.drop_last()) {
            Err(kind) => Err(kind),
            Ok(numbers) => match anchor_issue(anchors.last()) {
                None => Ok(numbers),
                Some(Ok(number)) => Ok(numbers.push(number)),
                Some(Err(kind)) => Err(kind),
            },
        }
    }
}

/// What an index page yields: its issue numbers, or a parse error for the
/// first unreadable number.
pub open spec fn index_of(anchors: Seq<Option<Seq<char>>>) -> Result<Seq<u32>, ErrorView> {
    match issue_numbers(anchors) {
        Ok(numbers) => Ok(numbers),
        Err(kind) => Err(ErrorView::ParseInt(kind)),
    }
}

/// The bare issues of the given numbers.
pub open spec fn bare_issues(numbers: Seq<u32>) -> Seq<IssueView> {
    numbers.map_values(|n: u32| bare_issue(n))
}

/// The start of the file name of a companion PDF: `phrack-`.
pub open spec fn companion_prefix() -> Seq<char> {
    seq!['p', 'h', 'r', 'a', 'c', 'k', '-']
}

/// The ending of the file name of a companion PDF: `.pdf`.
pub open spec fn companion_suffix() -> Seq<char> {
    seq!['.', 'p', 'd', 'f']
}

/// What one anchor of a detail page contributes.
pub enum EntryView {
    /// An article of the issue.
    Article(ArticleView),
    /// The companion PDF.
    Companion(PhrackPdfView),
    /// A PDF that is not named like a companion, by its token.
    Unrecognized(Seq<char>),
    /// A link to an article whose token is no number.
    Malformed(IntErrorKind),
}

/// What the anchor `anchor` contributes to the detail page of issue `number`.
pub open spec fn anchor_entry(anchor: Option<Seq<char>>, number: u32) -> Option<EntryView> {
    match anchor {
        None => None,
        Some(href) => match entry_ref(href, number) {
            None => None,
            Some(link) => Some(
                match link.kind {
                    EntryKind::Text => match parse_u32(link.token) {
                        Ok(article_number) => EntryView::Article(
                            ArticleView {
                                issue_number: number,
                                article_number,
                                article_uri_path: href,
                            },
                        ),
                        Err(kind) => EntryView::Malformed(kind),
                    },
                    EntryKind::Pdf => if occurs_at(link.token, companion_prefix(), 0) {
                        EntryView::Companion(
                            PhrackPdfView {
                                filename: link.token + companion_suffix(),
                                uri_path: href,
                            },
                        )
                    } else {
                        EntryView::Unrecognized(link.token)
                    },
                },
            ),
        },
    }
}

/// The articles that the anchors of the detail page of issue `number` list,
/// in the order of the anchors, or the reason why the first malformed one is
/// none.
pub open spec fn articles_of(anchors: Seq<Option<Seq<char>>>, number: u32) -> Result<
    Seq<ArticleView>,
    IntErrorKind,
>
    decreases anchors.len(),
{
    if anchors.len() == 0 {
        Ok(Seq::empty())
    } else {
        match articles_of(anchors.drop_last(), number) {
            Err(kind) => Err(kind),
            Ok(articles) => match anchor_entry(anchors.last(), number) {
                Some(EntryView::Article(article)) => Ok(articles.push(article)),
                Some(EntryView::Malformed(kind)) => Err(kind),
                _ => Ok(articles),
            },
        }
    }
}

/// The companion PDF that the anchors offer: that of the last anchor that
/// offers one.
pub open spec fn companion_of(anchors: Seq<Option<Seq<char>>>, number: u32) -> Option<
    PhrackPdfView,
>
    decreases anchors.len(),
{
    if anchors.len() == 0 {
        None
    } else {
        match anchor_entry(anchors.last(), number) {
            Some(EntryView::Companion(pdf)) => Some(pdf),
            _ => companion_of(anchors.drop_last(), number),
        }
    }
}

/// The tokens of the PDF links that are passed over, in the order of the
/// anchors.
pub open spec fn unrecognized_of(anchors: Seq<Option<Seq<char>>>, number: u32) -> Seq<Seq<char>>
    decreases anchors.len(),
{
    if anchors.len() == 0 {
        Seq::empty()
    } else {
        match anchor_entry(anchors.last(), number) {
            Some(EntryView::Unrecognized(token)) => unrecognized_of(
                anchors.drop_last(),
                number,
            ).push(token),
            _ => unrecognized_of(anchors.drop_last(), number),
        }
    }
}

/// Issue `number` as its detail page describes it.
pub open spec fn detail_of(anchors: Seq<Option<Seq<char>>>, number: u32) -> Result<
    IssueView,
    IntErrorKind,
> {
    match articles_of(anchors, number) {
        Err(kind) => Err(kind),
        Ok(articles) => Ok(
            IssueView {
                issue_number: number,
                articles,
                phrack_pdf: companion_of(anchors, number),
            },
        ),
    }
}

/// What the detail page of issue `number` yields: the issue, or a parse
/// error for the first malformed article.
pub open spec fn detail_page_of(anchors: Seq<Option<Seq<char>>>, number: u32) -> Result<
    IssueView,
    ErrorView,
> {
    match detail_of(anchors, number) {
        Ok(detail) => Ok(detail),
        Err(kind) => Err(ErrorView::ParseInt(kind)),
    }
}

/// What one anchor of a detail page contributes.
#[derive(Debug, PartialEq, Eq)]
pub enum Entry {
    /// An article of the issue.
    Article(Article),
    /// The companion PDF.
    Companion(PhrackPdf),
    /// A PDF that is not named like a companion, by its token.
    Unrecognized(String),
    /// A link to an article whose token is no number.
    Malformed(IntErrorKind),
}

impl View for Entry {
    type V = EntryView;

    open spec fn view(&self) -> EntryView {
        match self {
            Entry::Article(article) => EntryView::Article(article@),
            Entry::Companion(pdf) => EntryView::Companion(pdf@),
            Entry::Unrecognized(token) => EntryView::Unrecognized(token@),
            Entry::Malformed(kind) => EntryView::Malformed(*kind),
        }
    }
}

/// The contents of what an anchor was read as.
pub open spec fn entry_view(entry: Option<Entry>) -> Option<EntryView> {
    match entry {
        Some(e) => Some(e@),
        None => None,
    }
}

/// The characters of the text in front of the file name in an entry link of
/// issue `number`.
pub fn issue_dir_prefix_chars(number: u32) -> (prefix: Vec<char>)
    ensures
        prefix@ == issue_dir_prefix(number),
{
    let mut prefix = issues_prefix_chars();
    let digits = chars_of(to_decimal(number as u64).as_str());
    let ghost start = prefix@;
    let mut i: usize = 0;
    while i < digits.len()
        invariant
            i <= digits.len(),
            prefix@ == start + digits@.take(i as int),
        decreases digits.len() - i,
    {
        prefix.push(digits[i]);
        assert(prefix@ =~= start + digits@.take(i + 1));
        i = i + 1;
    }
    prefix.push('/');
    assert(prefix@ =~= issue_dir_prefix(number)) by {
        assert(digits@.take(digits.len() as int) =~= digits@);
    }
    prefix
}

/// Reads one `href` of the detail page of issue `number`; `prefix` holds the
/// text in front of the file name in the issue's entry links.
pub fn read_entry(href: &String, prefix: &Vec<char>, number: u32) -> (entry: Option<Entry>)
    requires
        prefix@ == issue_dir_prefix(number),
    ensures
        entry_view(entry) == anchor_entry(Some(href@), number),
{
    let h = chars_of(href.as_str());
    let tokens = classify_tokens(href.as_str());
    match find_entry_ref(&h, &tokens, prefix) {
        None => None,
        Some(m) => {
            let token = slice_of(&h, m.start, m.end);
            match m.kind {
                EntryKind::Text => match read_u32(&token) {
                    Ok(article_number) => Some(
                        Entry::Article(
                            Article {
                                issue_number: number,
                                article_number,
                                article_uri_path: href.clone(),
                            },
                        ),
                    ),
                    Err(kind) => Some(Entry::Malformed(kind)),
                },
                EntryKind::Pdf => {
                    let mut marker: Vec<char> = Vec::new();
                    marker.push('p');
                    marker.push('h');
                    marker.push('r');
                    marker.push('a');
                    marker.push('c');
                    marker.push('k');
                    marker.push('-');
                    assert(marker@ =~= companion_prefix());
                    let mut name = href.as_str().substring_char(m.start, m.end).to_owned();
                    if stands_at(&token, &marker, 0) {
                        proof {
                            reveal_strlit(".pdf");
                            assert(".pdf"@ =~= companion_suffix());
                        }
                        name.append(".pdf");
                        Some(Entry::Companion(PhrackPdf { filename: name, uri_path: href.clone() }))
                    } else {
                        Some(Entry::Unrecognized(name))
                    }
                },
            }
        },
    }
}

/// Reads the issues that an index page lists: one bare issue for each anchor
/// whose `href` holds an issue link, in the order of the anchors, repetitions
/// kept.
/// Digits that are no 32-bit number fail the whole call.
pub fn parse_issues(document: &Document) -> (r: Result<Vec<Issue>, PhrackDownloaderError>)
    ensures
        match index_of(document@) {
            Ok(numbers) => r is Ok && issues_view(r->Ok_0@) == bare_issues(numbers),
            Err(error) => r is Err && r->Err_0@ == error,
        },
{
    let mut issues: Vec<Issue> = Vec::new();
    let ghost mut numbers: Seq<u32> = Seq::empty();
    let mut i: usize = 0;
    proof {
        assert(document@.take(0) =~= Seq::empty());
        assert(issues_view(issues@) =~= bare_issues(numbers));
    }
    while i < document.anchors.len()
        invariant
            i <= document.anchors.len(),
            issue_numbers(document@.take(i as int)) == Ok::<Seq<u32>, IntErrorKind>(numbers),
            issues_view(issues@) == bare_issues(numbers),
        decreases document.anchors.len() - i,
    {
        proof {
            let upto = document@.take(i + 1);
            assert(upto.drop_last() =~= document@.take(i as int));
            assert(upto.last() == document@[i as int]);
            lemma_issue_numbers_prefix_error(document@, i + 1);
        }
        match &document.anchors[i] {
            None => {},
            Some(href) => {
                let h = chars_of(href.as_str());
                let digits = classify_digits(href.as_str());
                match find_issue_ref(&h, &digits) {
                    None => {},
                    Some((start, end)) => {
                        let digits = slice_of(&h, start, end);
                        match read_u32(&digits) {
                            Ok(number) => {
                                let ghost before = issues_view(issues@);
                                let issue = Issue::from(number);
                                issues.push(issue);
                                proof {
                                    assert(issues_view(issues@) =~= before.push(
                                        bare_issue(number),
                                    ));
                                    assert(bare_issues(numbers.push(number)) =~= bare_issues(
                                        numbers,
                                    ).push(bare_issue(number)));
                                    numbers = numbers.push(number);
                                }
                            },
                            Err(kind) => {
                                return Err(PhrackDownloaderError::ParseInt(kind));
                            },
                        }
                    },
                }
            },
        }
        i = i + 1;
    }
    proof {
        assert(document@.take(i as int) =~= document@);
    }
    Ok(issues)
}

/// Reads the detail page of `issue`: the issue with one article for each
/// anchor that links to a text of this issue, in the order of the anchors,
/// and with the companion PDF that the page offers, if any. What `issue` held
/// before besides its number does not matter. A link to a text whose token is no
/// number fails the whole call.
pub fn parse_articles(document: &Document, issue: &Issue) -> (r: Result<
    Issue,
    PhrackDownloaderError,
>)
    ensures
        match detail_page_of(document@, issue.issue_number) {
            Ok(detail) => r is Ok && r->Ok_0@ == detail && r->Ok_0.wf(),
            Err(error) => r is Err && r->Err_0@ == error,
        },
{
    let number = issue.issue_number;
    let prefix = issue_dir_prefix_chars(number);
    let mut articles: Vec<Article> = Vec::new();
    let mut phrack_pdf: Option<PhrackPdf> = None;
    let mut i: usize = 0;
    proof {
        assert(document@.take(0) =~= Seq::empty());
        assert(articles_view(articles@) =~= Seq::empty());
    }
    while i < document.anchors.len()
        invariant
            i <= document.anchors.len(),
            number == issue.issue_number,
            prefix@ == issue_dir_prefix(number),
            articles_of(document@.take(i as int), number) == Ok::<Seq<ArticleView>, IntErrorKind>(
                articles_view(articles@),
            ),
            companion_of(document@.take(i as int), number) == match phrack_pdf {
                Some(pdf) => Some(pdf@),
                None => None,
            },
            forall|j: int|
                0 <= j < articles@.len() ==> (#[trigger] articles@[j]).issue_number == number,
        decreases document.anchors.len() - i,
    {
        proof {
            let upto = document@.take(i + 1);
            assert(upto.drop_last() =~= document@.take(i as int));
            assert(upto.last() == document@[i as int]);
            lemma_articles_of_prefix_error(document@, number, i + 1);
        }
        match &document.anchors[i] {
            None => {},
            Some(href) => match read_entry(href, &prefix, number) {
                Some(Entry::Article(article)) => {
                    let ghost before = articles_view(articles@);
                    articles.push(article);
                    assert(articles_view(articles@) =~= before.push(article@));
                },
                Some(Entry::Companion(pdf)) => {
                    phrack_pdf = Some(pdf);
                },
                Some(Entry::Malformed(kind)) => {
                    return Err(PhrackDownloaderError::ParseInt(kind));
                },
                _ => {},
            },
        }
        i = i + 1;
    }
    proof {
        assert(document@.take(i as int) =~= document@);
    }
    Ok(Issue { issue_number: number, articles, phrack_pdf })
}

/// The tokens of the PDF links on the detail page of `issue` that
/// [`parse_articles`] passes over because they are not named like a
/// companion, in the order of the anchors.
pub fn unrecognized_pdfs(document: &Document, issue: &Issue) -> (tokens: Vec<String>)
    ensures
        texts_view(tokens@) == unrecognized_of(document@, issue.issue_number),
{
    let number = issue.issue_number;
    let prefix = issue_dir_prefix_chars(number);
    let mut tokens: Vec<String> = Vec::new();
    let mut i: usize = 0;
    proof {
        assert(document@.take(0) =~= Seq::empty());
        assert(texts_view(tokens@) =~= Seq::empty());
    }
    while i < document.anchors.len()
        invariant
            i <= document.anchors.len(),
            prefix@ == issue_dir_prefix(number),
            texts_view(tokens@) == unrecognized_of(
                document@.take(i as int),
                number,
            ),
        decreases document.anchors.len() - i,
    {
        proof {
            let upto = document@.take(i + 1);
            assert(upto.drop_last() =~= document@.take(i as int));
            assert(upto.last() == document@[i as int]);
        }
        match &document.anchors[i] {
            None => {},
            Some(href) => match read_entry(href, &prefix, number) {
                Some(Entry::Unrecognized(token)) => {
                    let ghost before = texts_view(tokens@);
                    tokens.push(token);
                    assert(texts_view(tokens@) =~= before.push(token@));
                },
                _ => {},
            },
        }
        i = i + 1;
    }
    proof {
        assert(document@.take(i as int) =~= document@);
    }
    tokens
}

/// Whether `href` holds an issue link whose digits are read as `number`: it
/// then holds `/issues/`, those digits and `/` in a row, and with the digits
/// the decimal notation of `number`.
pub open spec fn names_issue(href: Seq<char>, number: u32) -> bool {
    &&& issue_ref(href) is Some
    &&& parse_u32(issue_ref(href)->0) == Ok::<u32, IntErrorKind>(number)
    &&& occurs_in(href, issues_prefix() + issue_ref(href)->0 + seq!['/'])
    &&& occurs_in(href, decimal(number as nat))
}

/// Whether `href` holds a link to article `article_number` of issue
/// `number`: it then holds `/issues/`, the decimal notation of `number`, `/`,
/// a token that is read as `article_number`, and `.txt` in a row.
pub open spec fn names_article(href: Seq<char>, number: u32, article_number: u32) -> bool {
    &&& entry_ref(href, number) is Some
    &&& entry_ref(href, number)->0.kind == EntryKind::Text
    &&& parse_u32(entry_ref(href, number)->0.token) == Ok::<u32, IntErrorKind>(article_number)
    &&& occurs_in(
        href,
        issue_dir_prefix(number) + entry_ref(href, number)->0.token + seq!['.'] + txt_suffix(),
    )
}

/// Whether `href` is the link of the companion PDF `pdf` of issue `number`:
/// the companion keeps the link as it is, the link holds `/issues/`, the
/// decimal notation of `number`, `/` and the file name in a row, and the file
/// name begins with `phrack-` and ends in `.pdf`.
pub open spec fn names_companion(href: Seq<char>, number: u32, pdf: PhrackPdfView) -> bool {
    &&& entry_ref(href, number) is Some
    &&& entry_ref(href, number)->0.kind == EntryKind::Pdf
    &&& pdf.uri_path == href
    &&& pdf.filename == entry_ref(href, number)->0.token + companion_suffix()
    &&& occurs_at(pdf.filename, companion_prefix(), 0)
    &&& occurs_in(href, issue_dir_prefix(number) + pdf.filename)
}

/// A text that stands in a part of `whole` stands in `whole`.
pub proof fn lemma_occurs_in_part(whole: Seq<char>, part: Seq<char>, inner: Seq<char>)
    requires
        occurs_in(whole, part),
        occurs_in(part, inner),
    ensures
        occurs_in(whole, inner),
{
    let at = choose|at: int| occurs_at(whole, part, at);
    let within = choose|within: int| occurs_at(part, inner, within);
    assert(whole.subrange(at + within, at + within + inner.len()) =~= inner) by {
        assert forall|i: int| 0 <= i < inner.len() implies whole[at + within + i] == inner[i] by {
            assert(part.subrange(within, within + inner.len())[i] == part[within + i]);
            assert(whole.subrange(at, at + part.len())[within + i] == whole[at + within + i]);
        }
    }
    assert(occurs_at(whole, inner, at + within));
}

/// An anchor that yields an issue number names that issue.
pub proof fn lemma_anchor_names_issue(href: Seq<char>, number: u32)
    requires
        anchor_issue(Some(href)) == Some(Ok::<u32, IntErrorKind>(number)),
    ensures
        names_issue(href, number),
{
    lemma_issue_ref_is_link(href);
    let digits = issue_ref(href)->0;
    lemma_read_text_holds_decimal(digits, number);
    let shape = issues_prefix() + digits + seq!['/'];
    assert(occurs_at(shape, digits, issues_prefix().len() as int)) by {
        assert(shape.subrange(
            issues_prefix().len() as int,
            (issues_prefix().len() + digits.len()) as int,
        ) =~= digits);
    }
    lemma_occurs_in_part(shape, digits, decimal(number as nat));
    lemma_occurs_in_part(href, shape, decimal(number as nat));
}

/// The index yields only numbers that an issue link names, and one for each
/// such link: the number at place `k` was read off the href of some anchor,
/// which holds `/issues/<digits>/` with digits that write that number.
pub proof fn lemma_issue_numbers_come_from_links(anchors: Seq<Option<Seq<char>>>, k: int)
    requires
        issue_numbers(anchors) is Ok,
        0 <= k < issue_numbers(anchors)->Ok_0.len(),
    ensures
        exists|j: int|
            0 <= j < anchors.len() && (#[trigger] anchors[j]) is Some && names_issue(
                anchors[j]->0,
                issue_numbers(anchors)->Ok_0[k],
            ),
    decreases anchors.len(),
{
    let front = anchors.drop_last();
    let numbers = issue_numbers(front)->Ok_0;
    if k < numbers.len() {
        lemma_issue_numbers_come_from_links(front, k);
        let j = choose|j: int|
            0 <= j < front.len() && (#[trigger] front[j]) is Some && names_issue(
                front[j]->0,
                numbers[k],
            );
        assert(anchors[j] == front[j]);
    } else {
        let j = anchors.len() - 1;
        lemma_anchor_names_issue(anchors[j]->0, issue_numbers(anchors)->Ok_0[k]);
    }
}

/// What two runs of anchors yield one after the other: what the first
/// yields followed by what the second yields, unless one of them fails.
pub open spec fn joined<T>(
    first: Result<Seq<T>, IntErrorKind>,
    second: Result<Seq<T>, IntErrorKind>,
) -> Result<Seq<T>, IntErrorKind> {
    match first {
        Err(kind) => Err(kind),
        Ok(front) => match second {
            Err(kind) => Err(kind),
            Ok(back) => Ok(front + back),
        },
    }
}

/// Each anchor of an index page is read by itself and the order of the
/// anchors is kept: what a page yields is what its first part yields followed
/// by what the rest yields.
pub proof fn lemma_issue_numbers_keep_order(
    first: Seq<Option<Seq<char>>>,
    second: Seq<Option<Seq<char>>>,
)
    ensures
        issue_numbers(first + second) == joined(issue_numbers(first), issue_numbers(second)),
    decreases second.len(),
{
    if second.len() == 0 {
        assert(first + second =~= first);
        if issue_numbers(first) is Ok {
            assert(issue_numbers(first)->Ok_0 + Seq::<u32>::empty() =~= issue_numbers(
                first,
            )->Ok_0);
        }
    } else {
        lemma_issue_numbers_keep_order(first, second.drop_last());
        assert((first + second).drop_last() =~= first + second.drop_last());
        assert((first + second).last() == second.last());
        if issue_numbers(first) is Ok && issue_numbers(second.drop_last()) is Ok {
            let front = issue_numbers(first)->Ok_0;
            let back = issue_numbers(second.drop_last())->Ok_0;
            match anchor_issue(second.last()) {
                Some(Ok(number)) => {
                    assert((front + back).push(number) =~= front + back.push(number));
                },
                _ => {},
            }
        }
    }
}

/// A page none of whose anchors holds an issue link yields no issue, and no
/// error either.
pub proof fn lemma_page_without_issue_links_is_empty(anchors: Seq<Option<Seq<char>>>)
    requires
        forall|j: int| 0 <= j < anchors.len() ==> anchor_issue(#[trigger] anchors[j]) is None,
    ensures
        issue_numbers(anchors) == Ok::<Seq<u32>, IntErrorKind>(Seq::empty()),
        index_of(anchors) == Ok::<Seq<u32>, ErrorView>(Seq::empty()),
    decreases anchors.len(),
{
    if anchors.len() > 0 {
        let front = anchors.drop_last();
        assert forall|j: int| 0 <= j < front.len() implies anchor_issue(
            #[trigger] front[j],
        ) is None by {
            assert(front[j] == anchors[j]);
        }
        lemma_page_without_issue_links_is_empty(front);
        assert(anchors.last() == anchors[anchors.len() - 1]);
    }
}

/// An anchor that holds no issue link adds nothing to what an index page
/// yields, wherever it stands.
pub proof fn lemma_other_links_are_ignored(
    before: Seq<Option<Seq<char>>>,
    anchor: Option<Seq<char>>,
    after: Seq<Option<Seq<char>>>,
)
    requires
        anchor_issue(anchor) is None,
    ensures
        issue_numbers(before + seq![anchor] + after) == issue_numbers(before + after),
{
    lemma_issue_numbers_keep_order(before + seq![anchor], after);
    lemma_issue_numbers_keep_order(before, seq![anchor]);
    lemma_issue_numbers_keep_order(before, after);
    assert(issue_numbers(seq![anchor]) == Ok::<Seq<u32>, IntErrorKind>(Seq::empty())) by {
        assert(seq![anchor].drop_last() =~= Seq::<Option<Seq<char>>>::empty());
        assert(seq![anchor].last() == anchor);
        assert(issue_numbers(Seq::<Option<Seq<char>>>::empty()) == Ok::<
            Seq<u32>,
            IntErrorKind,
        >(Seq::empty()));
    }
    if issue_numbers(before) is Ok {
        assert(issue_numbers(before)->Ok_0 + Seq::<u32>::empty() =~= issue_numbers(
            before,
        )->Ok_0);
    }
}

/// Each anchor of a detail page is read by itself and the order of the
/// anchors is kept: the articles of a page are those of its first part
/// followed by those of the rest.
pub proof fn lemma_articles_keep_order(
    first: Seq<Option<Seq<char>>>,
    second: Seq<Option<Seq<char>>>,
    number: u32,
)
    ensures
        articles_of(first + second, number) == joined(
            articles_of(first, number),
            articles_of(second, number),
        ),
    decreases second.len(),
{
    if second.len() == 0 {
        assert(first + second =~= first);
        if articles_of(first, number) is Ok {
            assert(articles_of(first, number)->Ok_0 + Seq::<ArticleView>::empty() =~= articles_of(
                first,
                number,
            )->Ok_0);
        }
    } else {
        lemma_articles_keep_order(first, second.drop_last(), number);
        assert((first + second).drop_last() =~= first + second.drop_last());
        assert((first + second).last() == second.last());
        if articles_of(first, number) is Ok && articles_of(second.drop_last(), number) is Ok {
            let front = articles_of(first, number)->Ok_0;
            let back = articles_of(second.drop_last(), number)->Ok_0;
            match anchor_entry(second.last(), number) {
                Some(EntryView::Article(article)) => {
                    assert((front + back).push(article) =~= front + back.push(article));
                },
                _ => {},
            }
        }
    }
}

/// Every article of a detail page belongs to the issue that the page was
/// read for, and its link names that issue and no other: the article at place
/// `k` carries the number of the issue, and its link is the href of some
/// anchor, which holds `/issues/<number>/<token>.txt` with the number of that
/// very issue.
pub proof fn lemma_articles_belong_to_issue(
    anchors: Seq<Option<Seq<char>>>,
    number: u32,
    k: int,
)
    requires
        articles_of(anchors, number) is Ok,
        0 <= k < articles_of(anchors, number)->Ok_0.len(),
    ensures
        articles_of(anchors, number)->Ok_0[k].issue_number == number,
        exists|j: int|
            0 <= j < anchors.len() && #[trigger] anchors[j] == Some(
                articles_of(anchors, number)->Ok_0[k].article_uri_path,
            ) && names_article(
                anchors[j]->0,
                number,
                articles_of(anchors, number)->Ok_0[k].article_number,
            ),
    decreases anchors.len(),
{
    let front = anchors.drop_last();
    let articles = articles_of(front, number)->Ok_0;
    if k < articles.len() {
        lemma_articles_belong_to_issue(front, number, k);
        let j = choose|j: int|
            0 <= j < front.len() && #[trigger] front[j] == Some(articles[k].article_uri_path)
                && names_article(front[j]->0, number, articles[k].article_number);
        assert(anchors[j] == front[j]);
    } else {
        let j = anchors.len() - 1;
        lemma_entry_ref_is_link(anchors[j]->0, number);
        assert(anchors[j] == Some(articles_of(anchors, number)->Ok_0[k].article_uri_path));
    }
}

/// The companion PDF of a detail page belongs to the issue that the page was
/// read for: its file name was read off the href of some anchor, which holds
/// `/issues/<number>/<filename>` with the number of that very issue.
pub proof fn lemma_companion_belongs_to_issue(anchors: Seq<Option<Seq<char>>>, number: u32)
    requires
        companion_of(anchors, number) is Some,
    ensures
        exists|j: int|
            0 <= j < anchors.len() && (#[trigger] anchors[j]) is Some && names_companion(
                anchors[j]->0,
                number,
                companion_of(anchors, number)->0,
            ),
    decreases anchors.len(),
{
    let front = anchors.drop_last();
    let last = anchors.len() - 1;
    match anchor_entry(anchors.last(), number) {
        Some(EntryView::Companion(pdf)) => {
            let filename = pdf.filename;
            let href = anchors[last]->0;
            lemma_entry_ref_is_link(href, number);
            let token = entry_ref(href, number)->0.token;
            assert(companion_suffix() =~= seq!['.'] + pdf_suffix());
            assert(issue_dir_prefix(number) + token + seq!['.'] + pdf_suffix() =~= issue_dir_prefix(
                number,
            ) + filename);
            assert(occurs_at(filename, companion_prefix(), 0)) by {
                assert(filename.subrange(0, companion_prefix().len() as int) =~= token.subrange(
                    0,
                    companion_prefix().len() as int,
                ));
            }
            assert(names_companion(anchors[last]->0, number, pdf));
        },
        _ => {
            lemma_companion_belongs_to_issue(front, number);
            let j = choose|j: int|
                0 <= j < front.len() && (#[trigger] front[j]) is Some && names_companion(
                    front[j]->0,
                    number,
                    companion_of(front, number)->0,
                );
            assert(anchors[j] == front[j]);
        },
    }
}

/// Once a prefix of the anchors fails, the whole index fails in the same way.
pub proof fn lemma_issue_numbers_prefix_error(anchors: Seq<Option<Seq<char>>>, n: int)
    requires
        0 <= n <= anchors.len(),
    ensures
        issue_numbers(anchors.take(n)) is Err ==> issue_numbers(anchors) == issue_numbers(
            anchors.take(n),
        ),
    decreases anchors.len() - n,
{
    if n < anchors.len() {
        lemma_issue_numbers_prefix_error(anchors, n + 1);
        assert(anchors.take(n + 1).drop_last() =~= anchors.take(n));
    } else {
        assert(anchors.take(n) =~= anchors);
    }
}

/// Once a prefix of the anchors fails, the whole detail page fails in the
/// same way.
pub proof fn lemma_articles_of_prefix_error(
    anchors: Seq<Option<Seq<char>>>,
    number: u32,
    n: int,
)
    requires
        0 <= n <= anchors.len(),
    ensures
        articles_of(anchors.take(n), number) is Err ==> articles_of(anchors, number)
            == articles_of(anchors.take(n), number),
    decreases anchors.len() - n,
{
    if n < anchors.len() {
        lemma_articles_of_prefix_error(anchors, number, n + 1);
        assert(anchors.take(n + 1).drop_last() =~= anchors.take(n));
    } else {
        assert(anchors.take(n) =~= anchors);
    }
}

} // verus!
