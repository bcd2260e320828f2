use phrack_downloader::config::Config;
use phrack_downloader::downloader::{DownloadJob, Downloader};
use phrack_downloader::models::issue::Issue;
use phrack_downloader::phrack::html_parser::Document;
use phrack_downloader::phrack_downloader_error::PhrackDownloaderError;
use phrack_downloader::planner::{Action, Event, Phase, Planner, Step, Target};
use phrack_downloader::text::IntErrorKind;

fn planner(target: Target, refresh: bool) -> Planner {
    let config = Config::new("/data".to_string(), "https://archive.example".to_string());
    Planner::new(Downloader::new(config), target, refresh)
}

fn page(links: &[&str]) -> Document {
    Document { anchors: links.iter().map(|l| Some(l.to_string())).collect() }
}

fn quiet(action: Action) -> Step {
    Step { notices: vec![], action }
}

fn probe(path: &str) -> Action {
    Action::Probe { path: path.to_string() }
}

fn job(source: &str, destination: &str) -> DownloadJob {
    DownloadJob { source_url: source.to_string(), destination_path: destination.to_string() }
}

fn skip_line(number: u32) -> String {
    format!(
        "Issue {} already downloaded at /data/{}, skipping (use --refresh to re-download)",
        number, number
    )
}

#[test]
fn a_new_plan_waits_for_the_beginning() {
    assert_eq!(planner(Target::AllIssues, false).phase(), Phase::Ready);
}

#[test]
fn a_downloader_makes_the_plans_of_its_runs() {
    let config = Config::new("/data".to_string(), "https://archive.example".to_string());
    let mut all = Downloader::new(config).download_all_issues(true);
    assert_eq!(
        all.step(Event::Begin),
        quiet(Action::FetchIndex { url: "https://archive.example/issues/".to_string() })
    );
    let config = Config::new("/data".to_string(), "https://archive.example".to_string());
    let mut one = Downloader::new(config).download_issue(&Issue::from(12), true);
    assert_eq!(one.step(Event::Begin), quiet(probe("/data/12")));
    assert_eq!(
        one.step(Event::Exists(true)),
        quiet(Action::Prepare { path: "/data/12".to_string(), remove_first: true })
    );
}

#[test]
fn one_issue_that_is_not_there_is_fetched() {
    let mut plan = planner(Target::Issue(5), false);
    assert_eq!(plan.step(Event::Begin), quiet(probe("/data/5")));
    assert_eq!(plan.phase(), Phase::AwaitProbe);
    assert_eq!(
        plan.step(Event::Exists(false)),
        quiet(Action::Prepare { path: "/data/5".to_string(), remove_first: false })
    );
    assert_eq!(plan.phase(), Phase::AwaitPrepared);
    assert_eq!(
        plan.step(Event::Prepared),
        quiet(Action::FetchDetail { url: "https://archive.example/issues/5/".to_string() })
    );
    assert_eq!(plan.phase(), Phase::AwaitDetail);
    let detail = page(&[
        "/issues/5/1.txt",
        "/issues/5/2.txt",
        "/issues/5/phrack-5.pdf",
        "/issues/5/readme.pdf",
    ]);
    assert_eq!(
        plan.step(Event::Page(detail)),
        Step {
            notices: vec!["Unrecognized PDF file: readme".to_string()],
            action: Action::Execute {
                jobs: vec![
                    job("https://archive.example/issues/5/1.txt", "/data/5/1.txt"),
                    job("https://archive.example/issues/5/2.txt", "/data/5/2.txt"),
                    job("https://archive.example/issues/5/phrack-5.pdf", "/data/5/phrack-5.pdf"),
                ]
            }
        }
    );
    assert_eq!(plan.phase(), Phase::Done);
}

#[test]
fn a_second_run_without_refresh_fetches_nothing() {
    let mut plan = planner(Target::Issue(5), false);
    assert_eq!(plan.step(Event::Begin), quiet(probe("/data/5")));
    assert_eq!(
        plan.step(Event::Exists(true)),
        Step { notices: vec![skip_line(5)], action: Action::Execute { jobs: vec![] } }
    );
    assert_eq!(plan.phase(), Phase::Done);
}

#[test]
fn a_refresh_removes_and_recreates_the_directory_of_the_issue_only() {
    let mut plan = planner(Target::Issue(5), true);
    assert_eq!(plan.step(Event::Begin), quiet(probe("/data/5")));
    assert_eq!(
        plan.step(Event::Exists(true)),
        quiet(Action::Prepare { path: "/data/5".to_string(), remove_first: true })
    );
    assert_eq!(
        plan.step(Event::Prepared),
        quiet(Action::FetchDetail { url: "https://archive.example/issues/5/".to_string() })
    );
    assert_eq!(
        plan.step(Event::Page(page(&["/issues/5/1.txt", "/issues/50/9.txt"]))),
        quiet(Action::Execute {
            jobs: vec![job("https://archive.example/issues/5/1.txt", "/data/5/1.txt")]
        })
    );
}

#[test]
fn a_refresh_of_an_issue_that_is_not_there_only_creates() {
    let mut plan = planner(Target::Issue(5), true);
    plan.step(Event::Begin);
    assert_eq!(
        plan.step(Event::Exists(false)),
        quiet(Action::Prepare { path: "/data/5".to_string(), remove_first: false })
    );
}

#[test]
fn all_issues_are_planned_one_after_the_other() {
    let mut plan = planner(Target::AllIssues, false);
    assert_eq!(
        plan.step(Event::Begin),
        quiet(Action::FetchIndex { url: "https://archive.example/issues/".to_string() })
    );
    assert_eq!(plan.phase(), Phase::AwaitIndex);
    assert_eq!(
        plan.step(Event::Page(page(&["/issues/1/", "/issues/2/", "/other/", "/issues/3/"]))),
        Step { notices: vec!["Found 3 issues".to_string()], action: probe("/data/1") }
    );
    assert_eq!(
        plan.step(Event::Exists(false)),
        quiet(Action::Prepare { path: "/data/1".to_string(), remove_first: false })
    );
    assert_eq!(
        plan.step(Event::Prepared),
        quiet(Action::FetchDetail { url: "https://archive.example/issues/1/".to_string() })
    );
    assert_eq!(
        plan.step(Event::Page(page(&["/issues/1/1.txt", "/issues/1/phrack-1.pdf"]))),
        quiet(probe("/data/2"))
    );
    assert_eq!(
        plan.step(Event::Exists(true)),
        Step { notices: vec![skip_line(2)], action: probe("/data/3") }
    );
    assert_eq!(
        plan.step(Event::Exists(false)),
        quiet(Action::Prepare { path: "/data/3".to_string(), remove_first: false })
    );
    assert_eq!(
        plan.step(Event::Prepared),
        quiet(Action::FetchDetail { url: "https://archive.example/issues/3/".to_string() })
    );
    assert_eq!(
        plan.step(Event::Page(page(&["/issues/3/7.txt", "/issues/3/a.pdf", "/issues/3/b.pdf"]))),
        Step {
            notices: vec![
                "Unrecognized PDF file: a".to_string(),
                "Unrecognized PDF file: b".to_string()
            ],
            action: Action::Execute {
                jobs: vec![
                    job("https://archive.example/issues/1/1.txt", "/data/1/1.txt"),
                    job("https://archive.example/issues/1/phrack-1.pdf", "/data/1/phrack-1.pdf"),
                    job("https://archive.example/issues/3/7.txt", "/data/3/7.txt"),
                ]
            }
        }
    );
    assert_eq!(plan.phase(), Phase::Done);
}

#[test]
fn an_index_without_issues_ends_the_plan_with_no_job() {
    let mut plan = planner(Target::AllIssues, false);
    plan.step(Event::Begin);
    assert_eq!(
        plan.step(Event::Page(page(&["/about/", "/issues/"]))),
        Step { notices: vec!["Found 0 issues".to_string()], action: Action::Execute { jobs: vec![] } }
    );
    assert_eq!(plan.phase(), Phase::Done);
}

#[test]
fn an_issue_listed_twice_is_planned_twice() {
    let mut plan = planner(Target::AllIssues, false);
    plan.step(Event::Begin);
    assert_eq!(
        plan.step(Event::Page(page(&["/issues/4/", "/issues/4/"]))),
        Step { notices: vec!["Found 2 issues".to_string()], action: probe("/data/4") }
    );
    plan.step(Event::Exists(false));
    plan.step(Event::Prepared);
    assert_eq!(plan.step(Event::Page(page(&["/issues/4/1.txt"]))), quiet(probe("/data/4")));
    assert_eq!(
        plan.step(Event::Exists(true)),
        Step {
            notices: vec![skip_line(4)],
            action: Action::Execute {
                jobs: vec![job("https://archive.example/issues/4/1.txt", "/data/4/1.txt")]
            }
        }
    );
}

#[test]
fn an_index_with_an_unreadable_number_gives_the_plan_up() {
    let mut plan = planner(Target::AllIssues, false);
    plan.step(Event::Begin);
    assert_eq!(
        plan.step(Event::Page(page(&["/issues/1/", "/issues/99999999999/"]))),
        quiet(Action::Abort { error: PhrackDownloaderError::ParseInt(IntErrorKind::PosOverflow) })
    );
    assert_eq!(plan.phase(), Phase::Done);
}

#[test]
fn a_detail_page_with_a_malformed_article_gives_the_plan_up() {
    let mut plan = planner(Target::Issue(5), false);
    plan.step(Event::Begin);
    plan.step(Event::Exists(false));
    plan.step(Event::Prepared);
    assert_eq!(
        plan.step(Event::Page(page(&["/issues/5/1.txt", "/issues/5/index.txt"]))),
        quiet(Action::Abort { error: PhrackDownloaderError::ParseInt(IntErrorKind::InvalidDigit) })
    );
    assert_eq!(plan.phase(), Phase::Done);
}

#[test]
fn a_failure_gives_the_plan_up_with_its_error() {
    let mut plan = planner(Target::AllIssues, false);
    plan.step(Event::Begin);
    assert_eq!(
        plan.step(Event::Failed(PhrackDownloaderError::Reqwest("no route to host".to_string()))),
        quiet(Action::Abort {
            error: PhrackDownloaderError::Reqwest("no route to host".to_string())
        })
    );
    assert_eq!(plan.phase(), Phase::Done);

    let mut plan = planner(Target::Issue(5), true);
    plan.step(Event::Begin);
    plan.step(Event::Exists(true));
    assert_eq!(
        plan.step(Event::Failed(PhrackDownloaderError::Io("permission denied".to_string()))),
        quiet(Action::Abort { error: PhrackDownloaderError::Io("permission denied".to_string()) })
    );
    assert_eq!(plan.phase(), Phase::Done);
}

#[test]
fn an_event_that_is_not_awaited_gives_the_plan_up() {
    let unknown = quiet(Action::Abort { error: PhrackDownloaderError::Unknown });

    let mut plan = planner(Target::AllIssues, false);
    assert_eq!(plan.step(Event::Prepared), unknown);
    assert_eq!(plan.phase(), Phase::Done);

    let mut plan = planner(Target::AllIssues, false);
    plan.step(Event::Begin);
    assert_eq!(plan.step(Event::Exists(true)), unknown);

    let mut plan = planner(Target::Issue(1), false);
    plan.step(Event::Begin);
    assert_eq!(plan.step(Event::Page(page(&[]))), unknown);

    let mut plan = planner(Target::Issue(1), false);
    plan.step(Event::Begin);
    assert_eq!(plan.step(Event::Begin), unknown);

    let mut plan = planner(Target::Issue(1), false);
    plan.step(Event::Begin);
    plan.step(Event::Exists(true));
    assert_eq!(plan.phase(), Phase::Done);
    assert_eq!(plan.step(Event::Exists(true)), unknown);
    assert_eq!(plan.step(Event::Begin), unknown);
}

#[test]
fn anchors_without_href_are_passed_over() {
    let mut plan = planner(Target::AllIssues, false);
    plan.step(Event::Begin);
    let index = Document { anchors: vec![None, Some("/issues/8/".to_string()), None] };
    assert_eq!(
        plan.step(Event::Page(index)),
        Step { notices: vec!["Found 1 issues".to_string()], action: probe("/data/8") }
    );
}
