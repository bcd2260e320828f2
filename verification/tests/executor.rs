use phrack_downloader::downloader::DownloadJob;
use phrack_downloader::executor::{
    Completion, Executor, JobStatus, Outcome, WriteStep, BATCH_SIZE, BATCH_WINDOW, MAX_IN_FLIGHT,
};

fn jobs(n: usize) -> Vec<DownloadJob> {
    (0..n)
        .map(|i| DownloadJob {
            source_url: format!("http://h/{}", i),
            destination_path: format!("/d/{}", i),
        })
        .collect()
}

fn fetched(i: usize) -> Outcome {
    Outcome::Fetched(format!("payload {}", i))
}

fn statuses(executor: &Executor) -> Vec<JobStatus> {
    (0..executor.len()).map(|i| executor.status(i)).collect()
}

fn batches(executor: &Executor) -> Vec<Vec<usize>> {
    let mut from = 0;
    let mut all = Vec::new();
    for &cut in executor.cuts() {
        all.push(executor.results()[from..cut].iter().map(|c| c.job).collect());
        from = cut;
    }
    all
}

fn run_in_order(n: usize, fails: &[usize]) -> Executor {
    let mut executor = Executor::new(jobs(n), 0);
    let mut running = Vec::new();
    loop {
        while let Some(i) = executor.start_next() {
            running.push(i);
        }
        if running.is_empty() {
            break;
        }
        let i = running.remove(0);
        let outcome = if fails.contains(&i) {
            Outcome::Failed("connection reset".to_string())
        } else {
            fetched(i)
        };
        assert!(executor.complete(i, outcome, 1));
    }
    executor.finish();
    executor
}

fn drain(executor: &mut Executor) -> Vec<WriteStep> {
    let mut steps = Vec::new();
    while let Some(step) = executor.next_write() {
        steps.push(step);
    }
    steps
}

#[test]
fn limits() {
    assert_eq!(MAX_IN_FLIGHT, 3);
    assert_eq!(BATCH_SIZE, 3);
    assert_eq!(BATCH_WINDOW, 20);
}

#[test]
fn new_run_has_every_job_queued() {
    let executor = Executor::new(jobs(4), 100);
    assert_eq!(executor.len(), 4);
    assert_eq!(statuses(&executor), vec![JobStatus::Queued; 4]);
    assert_eq!(executor.in_flight(), 0);
    assert!(executor.results().is_empty());
    assert!(executor.cuts().is_empty());
    assert_eq!(executor.deadline(), 120);
    assert!(!executor.fetching_done());
    assert_eq!(executor.job(2).source_url, "http://h/2");
    assert_eq!(executor.job(2).destination_path, "/d/2");
}

#[test]
fn run_without_jobs_is_done_at_once() {
    let mut executor = Executor::new(vec![], 0);
    assert!(executor.fetching_done());
    assert_eq!(executor.start_next(), None);
    executor.finish();
    assert!(executor.cuts().is_empty());
    assert_eq!(executor.next_write(), None);
}

#[test]
fn no_more_than_three_fetches_run_at_a_time() {
    let mut executor = Executor::new(jobs(10), 0);
    assert_eq!(executor.start_next(), Some(0));
    assert_eq!(executor.start_next(), Some(1));
    assert_eq!(executor.start_next(), Some(2));
    assert_eq!(executor.start_next(), None);
    assert_eq!(executor.start_next(), None);
    assert_eq!(executor.in_flight(), 3);
    assert_eq!(
        statuses(&executor)[..4],
        [JobStatus::InFlight, JobStatus::InFlight, JobStatus::InFlight, JobStatus::Queued]
    );
    assert!(executor.complete(1, fetched(1), 1));
    assert_eq!(executor.in_flight(), 2);
    assert_eq!(executor.start_next(), Some(3));
    assert_eq!(executor.start_next(), None);
    assert_eq!(executor.in_flight(), 3);
}

#[test]
fn large_job_lists_are_throttled_not_rejected() {
    let mut executor = run_in_order(100, &[]);
    assert!(executor.fetching_done());
    assert_eq!(executor.results().len(), 100);
    assert_eq!(drain(&mut executor).len(), 100);
}

#[test]
fn jobs_start_in_the_order_of_the_list() {
    let mut executor = Executor::new(jobs(2), 0);
    assert_eq!(executor.start_next(), Some(0));
    assert_eq!(executor.start_next(), Some(1));
    assert_eq!(executor.start_next(), None);
    assert!(!executor.fetching_done());
}

#[test]
fn results_are_kept_in_the_order_of_arrival() {
    let mut executor = Executor::new(jobs(3), 0);
    while executor.start_next().is_some() {}
    assert!(executor.complete(2, fetched(2), 1));
    assert!(executor.complete(0, Outcome::Failed("timeout".to_string()), 2));
    assert!(executor.complete(1, fetched(1), 3));
    assert_eq!(
        executor.results(),
        &vec![
            Completion { job: 2, outcome: fetched(2) },
            Completion { job: 0, outcome: Outcome::Failed("timeout".to_string()) },
            Completion { job: 1, outcome: fetched(1) },
        ]
    );
    assert_eq!(
        statuses(&executor),
        vec![JobStatus::Failed, JobStatus::Completed, JobStatus::Completed]
    );
    assert!(executor.fetching_done());
}

#[test]
fn a_batch_closes_with_three_results() {
    let mut executor = Executor::new(jobs(7), 0);
    while executor.start_next().is_some() {}
    assert!(executor.complete(0, fetched(0), 1));
    assert!(executor.complete(1, fetched(1), 2));
    assert!(batches(&executor).is_empty());
    assert!(executor.complete(2, fetched(2), 3));
    assert_eq!(batches(&executor), vec![vec![0, 1, 2]]);
    assert_eq!(executor.deadline(), 23);
    while executor.start_next().is_some() {}
    assert!(executor.complete(5, fetched(5), 4));
    assert!(executor.complete(3, fetched(3), 5));
    assert!(executor.complete(4, fetched(4), 6));
    assert_eq!(batches(&executor), vec![vec![0, 1, 2], vec![5, 3, 4]]);
    assert_eq!(executor.start_next(), Some(6));
    assert!(executor.complete(6, fetched(6), 7));
    assert_eq!(batches(&executor).len(), 2);
    executor.finish();
    assert_eq!(batches(&executor), vec![vec![0, 1, 2], vec![5, 3, 4], vec![6]]);
}

#[test]
fn a_batch_closes_when_its_window_has_passed() {
    let mut executor = Executor::new(jobs(3), 10);
    while executor.start_next().is_some() {}
    assert!(executor.complete(0, fetched(0), 11));
    executor.tick(29);
    assert!(batches(&executor).is_empty());
    assert!(!executor.window_passed(29));
    assert!(executor.window_passed(30));
    executor.tick(30);
    assert_eq!(batches(&executor), vec![vec![0]]);
    assert_eq!(executor.deadline(), 50);
    assert!(executor.complete(1, fetched(1), 31));
    assert!(executor.complete(2, fetched(2), 32));
    executor.finish();
    assert_eq!(batches(&executor), vec![vec![0], vec![1, 2]]);
}

#[test]
fn a_result_that_arrives_after_the_window_opens_the_next_batch() {
    let mut executor = Executor::new(jobs(2), 0);
    while executor.start_next().is_some() {}
    assert!(executor.complete(0, fetched(0), 5));
    assert!(executor.complete(1, fetched(1), 20));
    assert_eq!(batches(&executor), vec![vec![0]]);
    executor.finish();
    assert_eq!(batches(&executor), vec![vec![0], vec![1]]);
}

#[test]
fn an_empty_window_yields_an_empty_batch() {
    let mut executor = Executor::new(jobs(1), 0);
    assert_eq!(executor.start_next(), Some(0));
    executor.tick(19);
    assert!(batches(&executor).is_empty());
    executor.tick(20);
    assert_eq!(batches(&executor), vec![Vec::<usize>::new()]);
    executor.tick(39);
    executor.tick(40);
    assert_eq!(batches(&executor), vec![Vec::<usize>::new(), Vec::<usize>::new()]);
    assert_eq!(executor.in_flight(), 1);
    assert!(executor.complete(0, fetched(0), 41));
    executor.finish();
    assert_eq!(batches(&executor), vec![vec![], vec![], vec![0]]);
}

#[test]
fn a_slow_fetch_is_never_failed_by_the_window() {
    let mut executor = Executor::new(jobs(1), 0);
    assert_eq!(executor.start_next(), Some(0));
    executor.tick(1000);
    executor.tick(100000);
    assert_eq!(executor.status(0), JobStatus::InFlight);
    assert_eq!(executor.in_flight(), 1);
    assert!(!executor.fetching_done());
}

#[test]
fn a_clock_that_runs_backwards_closes_nothing() {
    let mut executor = Executor::new(jobs(1), 100);
    executor.tick(5);
    assert!(!executor.window_passed(0));
    assert!(batches(&executor).is_empty());
    assert_eq!(Executor::new(jobs(1), u64::MAX - 3).deadline(), u64::MAX);
}

#[test]
fn finish_with_an_empty_open_batch_changes_nothing() {
    let mut executor = run_in_order(3, &[]);
    assert_eq!(batches(&executor), vec![vec![0, 1, 2]]);
    executor.finish();
    assert_eq!(batches(&executor), vec![vec![0, 1, 2]]);
}

#[test]
fn results_of_jobs_that_do_not_run_are_refused() {
    let mut executor = Executor::new(jobs(3), 0);
    assert!(!executor.complete(0, fetched(0), 1));
    assert_eq!(executor.start_next(), Some(0));
    assert!(!executor.complete(1, fetched(1), 1));
    assert!(!executor.complete(3, fetched(3), 1));
    assert!(!executor.complete(usize::MAX, fetched(0), 1));
    assert!(executor.is_in_flight(0));
    assert!(!executor.is_in_flight(1));
    assert!(!executor.is_in_flight(3));
    assert!(executor.complete(0, fetched(0), 1));
    assert!(!executor.complete(0, fetched(0), 2));
    assert_eq!(executor.results().len(), 1);
    assert_eq!(
        statuses(&executor),
        vec![JobStatus::Completed, JobStatus::Queued, JobStatus::Queued]
    );
}

#[test]
fn one_failure_among_five_jobs_leaves_the_other_four() {
    let mut executor = run_in_order(5, &[1]);
    assert!(executor.fetching_done());
    assert_eq!(
        statuses(&executor),
        vec![
            JobStatus::Completed,
            JobStatus::Failed,
            JobStatus::Completed,
            JobStatus::Completed,
            JobStatus::Completed,
        ]
    );
    let steps = drain(&mut executor);
    assert_eq!(steps.len(), 5);
    let mut written = Vec::new();
    let mut reported = Vec::new();
    for step in steps {
        match step {
            WriteStep::Persist { job, destination_path, payload } => {
                assert_eq!(destination_path, format!("/d/{}", job));
                assert_eq!(payload, format!("payload {}", job));
                assert!(executor.persisted(job));
                written.push(job);
            }
            WriteStep::Report { job, line } => reported.push((job, line)),
        }
    }
    assert_eq!(written, vec![0, 2, 3, 4]);
    assert_eq!(
        reported,
        vec![(1, "Error in download job http://h/1: connection reset".to_string())]
    );
    assert_eq!(
        statuses(&executor),
        vec![
            JobStatus::Persisted,
            JobStatus::Failed,
            JobStatus::Persisted,
            JobStatus::Persisted,
            JobStatus::Persisted,
        ]
    );
}

#[test]
fn every_job_failing_is_no_reason_to_stop() {
    let mut executor = run_in_order(4, &[0, 1, 2, 3]);
    assert!(executor.fetching_done());
    let steps = drain(&mut executor);
    assert_eq!(steps.len(), 4);
    assert!(steps.iter().all(|s| matches!(s, WriteStep::Report { .. })));
}

#[test]
fn nothing_is_handed_out_while_fetches_run() {
    let mut executor = Executor::new(jobs(2), 0);
    assert_eq!(executor.start_next(), Some(0));
    assert_eq!(executor.start_next(), Some(1));
    assert!(executor.complete(0, fetched(0), 1));
    assert_eq!(executor.next_write(), None);
    assert!(executor.complete(1, fetched(1), 2));
    assert!(executor.next_write().is_some());
}

#[test]
fn results_are_handed_out_in_the_order_of_arrival() {
    let mut executor = Executor::new(jobs(3), 0);
    while executor.start_next().is_some() {}
    assert!(executor.complete(2, fetched(2), 1));
    assert!(executor.complete(1, Outcome::Failed("gone".to_string()), 2));
    assert!(executor.complete(0, fetched(0), 3));
    executor.finish();
    assert_eq!(
        drain(&mut executor),
        vec![
            WriteStep::Persist {
                job: 2,
                destination_path: "/d/2".to_string(),
                payload: "payload 2".to_string()
            },
            WriteStep::Report {
                job: 1,
                line: "Error in download job http://h/1: gone".to_string()
            },
            WriteStep::Persist {
                job: 0,
                destination_path: "/d/0".to_string(),
                payload: "payload 0".to_string()
            },
        ]
    );
    assert_eq!(executor.next_write(), None);
}

#[test]
fn only_a_payload_can_be_recorded_as_written() {
    let mut executor = run_in_order(3, &[1]);
    assert!(!executor.persisted(1));
    assert!(!executor.persisted(3));
    assert!(executor.persisted(0));
    assert!(!executor.persisted(0));
    assert_eq!(
        statuses(&executor),
        vec![JobStatus::Persisted, JobStatus::Failed, JobStatus::Completed]
    );
    let mut fresh = Executor::new(jobs(1), 0);
    assert!(!fresh.persisted(0));
    assert_eq!(fresh.start_next(), Some(0));
    assert!(!fresh.persisted(0));
}

#[test]
fn a_write_that_fails_is_reported_and_the_run_goes_on() {
    let mut executor = run_in_order(2, &[]);
    let first = executor.next_write().unwrap();
    assert!(matches!(first, WriteStep::Persist { job: 0, .. }));
    assert_eq!(executor.write_failed(0, "disk full"), "Error writing /d/0: disk full");
    assert_eq!(executor.status(0), JobStatus::Completed);
    let second = executor.next_write().unwrap();
    assert!(matches!(second, WriteStep::Persist { job: 1, .. }));
    assert!(executor.persisted(1));
    assert_eq!(executor.next_write(), None);
}
