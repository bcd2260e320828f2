use phrack_downloader::models::article::Article;
use phrack_downloader::models::issue::Issue;
use phrack_downloader::models::phrack_pdf::PhrackPdf;
use phrack_downloader::phrack_downloader_error::PhrackDownloaderError;
use phrack_downloader::text::IntErrorKind;

fn names(list: &[&str]) -> Vec<String> {
    list.iter().map(|n| n.to_string()).collect()
}

#[test]
fn default_issue_is_bare_issue_zero() {
    let issue = Issue::default();
    assert_eq!(issue.issue_number, 0);
    assert!(issue.articles.is_empty());
    assert!(issue.phrack_pdf.is_none());
}

#[test]
fn issue_from_number_is_bare() {
    let issue = Issue::from(42);
    assert_eq!(issue, Issue { issue_number: 42, articles: vec![], phrack_pdf: None });
    let same: Issue = 42u32.into();
    assert_eq!(same, issue);
}

#[test]
fn issue_from_text() {
    assert_eq!(Issue::try_from("17".to_string()).unwrap(), Issue::from(17));
    assert_eq!(Issue::try_from("+17".to_string()).unwrap(), Issue::from(17));
    assert_eq!(Issue::parse("0").unwrap(), Issue::from(0));
}

#[test]
fn issue_from_text_that_is_no_number() {
    assert_eq!(
        Issue::try_from("".to_string()),
        Err(PhrackDownloaderError::ParseInt(IntErrorKind::Empty))
    );
    assert_eq!(
        Issue::try_from("seven".to_string()),
        Err(PhrackDownloaderError::ParseInt(IntErrorKind::InvalidDigit))
    );
    assert_eq!(
        Issue::parse("4294967296"),
        Err(PhrackDownloaderError::ParseInt(IntErrorKind::PosOverflow))
    );
}

#[test]
fn issue_is_shown_by_its_number() {
    assert_eq!(Issue::from(0).to_string(), "0");
    assert_eq!(Issue::from(69).to_string(), "69");
    assert_eq!(Issue::from(4294967295).to_string(), "4294967295");
}

#[test]
fn issue_alone_in_a_list() {
    assert_eq!(Issue::from(3).into_list(), vec![Issue::from(3)]);
}

#[test]
fn clone_keeps_everything() {
    let issue = Issue {
        issue_number: 9,
        articles: vec![
            Article { issue_number: 9, article_number: 1, article_uri_path: "/issues/9/1.txt".into() },
            Article { issue_number: 9, article_number: 2, article_uri_path: "/issues/9/2.txt".into() },
        ],
        phrack_pdf: Some(PhrackPdf {
            filename: "phrack-9.pdf".into(),
            uri_path: "/issues/9/phrack-9.pdf".into(),
        }),
    };
    assert_eq!(issue.clone(), issue);
    assert_eq!(issue.articles[1].clone(), issue.articles[1]);
    assert_eq!(Issue::from(1).clone(), Issue::from(1));
}

#[test]
fn all_issues_lists_one_bare_issue_per_name() {
    let issues = Issue::all_issues(&names(&["3", "1", "70", "1"])).unwrap();
    assert_eq!(issues, vec![Issue::from(3), Issue::from(1), Issue::from(70), Issue::from(1)]);
}

#[test]
fn all_issues_of_an_empty_directory() {
    assert_eq!(Issue::all_issues(&vec![]).unwrap(), vec![]);
}

#[test]
fn all_issues_fails_on_a_name_that_is_no_number() {
    assert_eq!(
        Issue::all_issues(&names(&["1", "notes", "2"])),
        Err(PhrackDownloaderError::ParseInt(IntErrorKind::InvalidDigit))
    );
    assert_eq!(
        Issue::all_issues(&names(&["1", "", "x"])),
        Err(PhrackDownloaderError::ParseInt(IntErrorKind::Empty))
    );
    assert_eq!(
        Issue::all_issues(&names(&["99999999999", "x"])),
        Err(PhrackDownloaderError::ParseInt(IntErrorKind::PosOverflow))
    );
}
