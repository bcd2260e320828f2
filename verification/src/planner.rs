//! The order of a run, step by step.
//!
//! The planner never touches the network or the disk. It says what is to be
//! done next, and is told what came of it; the caller does the work between
//! two steps. For each issue it first asks whether the issue's directory
//! exists, then has the directory prepared, and only then has the detail page
//! fetched. An issue that is there already is passed over unless a refresh is
//! asked for. Issues are planned one after the other, and whatever fails on
//! the way ends the plan.

use crate::config::ConfigView;
use crate::downloader::{
    all_jobs, directory_policy, issue_path_of, issue_url_of, issues_url_of, jobs_view,
    lemma_issue_directories_are_apart, skip_notice, DirectoryAction, DownloadJob, Downloader,
    JobView,
};
use crate::models::issue::{bare_issue, issues_view, texts_view, Issue, IssueView};
use crate::phrack::html_parser::{
    bare_issues, detail_page_of, index_of, parse_articles, parse_issues, unrecognized_of,
    unrecognized_pdfs, Document,
};
use crate::phrack_downloader_error::{ErrorView, PhrackDownloaderError};
use crate::text::{decimal, occurs_at, to_decimal};
use vstd::prelude::*;

verus! {

/// What a run is to fetch.
#[derive(Clone, Copy, Debug, PartialEq, Eq, Structural)]
pub enum Target {
    /// Every issue that the index page lists.
    AllIssues,
    /// The issue of this number.
    Issue(u32),
}

/// What the planner is waiting for.
#[derive(Clone, Copy, Debug, PartialEq, Eq, Structural)]
pub enum Phase {
    /// Nothing has been asked for yet.
    Ready,
    /// The index page.
    AwaitIndex,
    /// Whether the directory of the current issue exists.
    AwaitProbe,
    /// That the directory of the current issue has been prepared.
    AwaitPrepared,
    /// The detail page of the current issue.
    AwaitDetail,
    /// Nothing: the plan has ended.
    Done,
}

/// What the caller tells the planner.
#[derive(Debug)]
pub enum Event {
    /// The run begins.
    Begin,
    /// The page that was asked for has been fetched and parsed.
    Page(Document),
    /// Whether the directory that was asked about exists.
    Exists(bool),
    /// The directory has been prepared as asked.
    Prepared,
    /// What was asked for could not be done.
    Failed(PhrackDownloaderError),
}

/// The mathematical content of an [`Event`].
pub enum EventView {
    Begin,
    Page(Seq<Option<Seq<char>>>),
    Exists(bool),
    Prepared,
    Failed(ErrorView),
}

impl View for Event {
    type V = EventView;

    open spec fn view(&self) -> EventView {
        match self {
            Event::Begin => EventView::Begin,
            Event::Page(document) => EventView::Page(document@),
            Event::Exists(exists) => EventView::Exists(*exists),
            Event::Prepared => EventView::Prepared,
            Event::Failed(error) => EventView::Failed(error@),
        }
    }
}

/// What the planner asks the caller to do.
#[derive(Debug, PartialEq, Eq)]
pub enum Action {
    /// Fetch the index page at `url` and answer with `Page`.
    FetchIndex { url: String },
    /// Look whether the directory `path` exists and answer with `Exists`.
    Probe { path: String },
    /// Create the directory `path`, after removing it with all it holds if
    /// `remove_first` is set, and answer with `Prepared`.
    Prepare { path: String, remove_first: bool },
    /// Fetch the detail page at `url` and answer with `Page`.
    FetchDetail { url: String },
    /// Run these jobs. The plan has ended.
    Execute { jobs: Vec<DownloadJob> },
    /// Give up with this error. The plan has ended.
    Abort { error: PhrackDownloaderError },
}

/// The mathematical content of an [`Action`].
pub enum ActionView {
    FetchIndex { url: Seq<char> },
    Probe { path: Seq<char> },
    Prepare { path: Seq<char>, remove_first: bool },
    FetchDetail { url: Seq<char> },
    Execute { jobs: Seq<JobView> },
    Abort { error: ErrorView },
}

impl View for Action {
    type V = ActionView;

    open spec fn view(&self) -> ActionView {
        match self {
            Action::FetchIndex { url } => ActionView::FetchIndex { url: url@ },
            Action::Probe { path } => ActionView::Probe { path: path@ },
            Action::Prepare { path, remove_first } => ActionView::Prepare {
                path: path@,
                remove_first: *remove_first,
            },
            Action::FetchDetail { url } => ActionView::FetchDetail { url: url@ },
            Action::Execute { jobs } => ActionView::Execute { jobs: jobs_view(jobs@) },
            Action::Abort { error } => ActionView::Abort { error: error@ },
        }
    }
}

/// One step of the plan: lines to show to the user, then something to do.
#[derive(Debug, PartialEq, Eq)]
pub struct Step {
    /// What to tell the user before acting, line by line.
    pub notices: Vec<String>,
    /// What to do.
    pub action: Action,
}

/// The mathematical content of a [`Step`].
pub struct StepView {
    pub notices: Seq<Seq<char>>,
    pub action: ActionView,
}

impl View for Step {
    type V = StepView;

    open spec fn view(&self) -> StepView {
        StepView { notices: texts_view(self.notices@), action: self.action@ }
    }
}

/// The line that says how many issues the index page lists.
pub open spec fn found_notice(count: nat) -> Seq<char> {
    "Found "@ + decimal(count) + " issues"@
}

/// The line that says that a PDF was passed over.
pub open spec fn unrecognized_notice(token: Seq<char>) -> Seq<char> {
    "Unrecognized PDF file: "@ + token
}

/// The state of a plan, as mathematics.
pub struct PlannerView {
    /// The settings of the run.
    pub config: ConfigView,
    /// What the run is to fetch.
    pub target: Target,
    /// Whether issues that are there already are fetched anew.
    pub refresh: bool,
    /// What the planner is waiting for.
    pub phase: Phase,
    /// The issues to plan, in order.
    pub issues: Seq<IssueView>,
    /// How many of them have been dealt with.
    pub cursor: nat,
    /// The issues to fetch, with their articles, in order.
    pub planned: Seq<IssueView>,
}

impl PlannerView {
    /// The state and its invariant: while the planner waits for something
    /// about an issue, there is such an issue.
    pub open spec fn wf(self) -> bool {
        &&& self.cursor <= self.issues.len()
        &&& (self.phase == Phase::AwaitProbe || self.phase == Phase::AwaitPrepared || self.phase
            == Phase::AwaitDetail) ==> self.cursor < self.issues.len()
    }

    /// The plan before its first step.
    pub open spec fn start(config: ConfigView, target: Target, refresh: bool) -> PlannerView {
        PlannerView {
            config,
            target,
            refresh,
            phase: Phase::Ready,
            issues: Seq::empty(),
            cursor: 0,
            planned: Seq::empty(),
        }
    }

    /// The number of the issue that is being dealt with.
    pub open spec fn current(self) -> u32 {
        self.issues[self.cursor as int].issue_number
    }

    /// Turns to the next issue: asks about its directory, or, when no issue
    /// is left, hands out the jobs of the issues to fetch.
    pub open spec fn advance(self, notices: Seq<Seq<char>>) -> (PlannerView, StepView) {
        if self.cursor < self.issues.len() {
            (
                PlannerView { phase: Phase::AwaitProbe, ..self },
                StepView {
                    notices,
                    action: ActionView::Probe { path: issue_path_of(self.config, self.current()) },
                },
            )
        } else {
            (
                PlannerView { phase: Phase::Done, ..self },
                StepView {
                    notices,
                    action: ActionView::Execute { jobs: all_jobs(self.config, self.planned) },
                },
            )
        }
    }

    /// Ends the plan with `error`.
    pub open spec fn abort(self, error: ErrorView) -> (PlannerView, StepView) {
        (
            PlannerView { phase: Phase::Done, ..self },
            StepView { notices: Seq::empty(), action: ActionView::Abort { error } },
        )
    }

    /// The state after `event`, and the step that answers it. An event that
    /// the planner is not waiting for ends the plan with `Unknown`.
    pub open spec fn step(self, event: EventView) -> (PlannerView, StepView) {
        match (self.phase, event) {
            (_, EventView::Failed(error)) => self.abort(error),
            (Phase::Ready, EventView::Begin) => match self.target {
                Target::AllIssues => (
                    PlannerView { phase: Phase::AwaitIndex, ..self },
                    StepView {
                        notices: Seq::empty(),
                        action: ActionView::FetchIndex { url: issues_url_of(self.config) },
                    },
                ),
                Target::Issue(number) => (PlannerView {
                    issues: seq![bare_issue(number)],
                    cursor: 0,
                    ..self
                }).advance(Seq::empty()),
            },
            (Phase::AwaitIndex, EventView::Page(anchors)) => match index_of(anchors) {
                Err(error) => self.abort(error),
                Ok(numbers) => (PlannerView {
                    issues: bare_issues(numbers),
                    cursor: 0,
                    ..self
                }).advance(seq![found_notice(numbers.len())]),
            },
            (Phase::AwaitProbe, EventView::Exists(exists)) => match directory_policy(
                exists,
                self.refresh,
            ) {
                DirectoryAction::Skip => (PlannerView {
                    cursor: self.cursor + 1,
                    ..self
                }).advance(seq![skip_notice(self.config, self.current())]),
                DirectoryAction::Create => (
                    PlannerView { phase: Phase::AwaitPrepared, ..self },
                    StepView {
                        notices: Seq::empty(),
                        action: ActionView::Prepare {
                            path: issue_path_of(self.config, self.current()),
                            remove_first: false,
                        },
                    },
                ),
                DirectoryAction::Recreate => (
                    PlannerView { phase: Phase::AwaitPrepared, ..self },
                    StepView {
                        notices: Seq::empty(),
                        action: ActionView::Prepare {
                            path: issue_path_of(self.config, self.current()),
                            remove_first: true,
                        },
                    },
                ),
            },
            (Phase::AwaitPrepared, EventView::Prepared) => (
                PlannerView { phase: Phase::AwaitDetail, ..self },
                StepView {
                    notices: Seq::empty(),
                    action: ActionView::FetchDetail {
                        url: issue_url_of(self.config, self.current()),
                    },
                },
            ),
            (Phase::AwaitDetail, EventView::Page(anchors)) => match detail_page_of(
                anchors,
                self.current(),
            ) {
                Err(error) => self.abort(error),
                Ok(detail) => (PlannerView {
                    planned: self.planned.push(detail),
                    cursor: self.cursor + 1,
                    ..self
                }).advance(
                    unrecognized_of(anchors, self.current()).map_values(
                        |token: Seq<char>| unrecognized_notice(token),
                    ),
                ),
            },
            _ => self.abort(ErrorView::Unknown),
        }
    }
}

impl Downloader {
    /// The plan of a run that downloads every issue that the index page
    /// lists. Issues that are there already are passed over unless `refresh`
    /// is set.
    pub fn download_all_issues(self, refresh: bool) -> (plan: Planner)
        ensures
            plan@ == PlannerView::start(self@, Target::AllIssues, refresh),
            plan.wf(),
    {
        Planner::new(self, Target::AllIssues, refresh)
    }

    /// The plan of a run that downloads `issue`. If the issue is there
    /// already it is passed over unless `refresh` is set.
    pub fn download_issue(self, issue: &Issue, refresh: bool) -> (plan: Planner)
        ensures
            plan@ == PlannerView::start(self@, Target::Issue(issue.issue_number), refresh),
            plan.wf(),
    {
        Planner::new(self, Target::Issue(issue.issue_number), refresh)
    }
}

/// Every step leaves the plan in a state that fits its invariant.
pub proof fn lemma_step_keeps_wf(s: PlannerView, event: EventView)
    requires
        s.wf(),
    ensures
        s.step(event).0.wf(),
{
}

/// An issue whose directory exists is passed over unless a refresh is asked
/// for: the user is told so, the issue is not added to those to fetch, and
/// the plan turns to the next issue or, with none left, to the jobs; nothing
/// is removed, created or fetched for it.
pub proof fn lemma_present_issue_is_passed_over(s: PlannerView)
    requires
        s.wf(),
        s.phase == Phase::AwaitProbe,
        !s.refresh,
    ensures
        ({
            let (next, step) = s.step(EventView::Exists(true));
            &&& next.planned == s.planned
            &&& next.issues == s.issues
            &&& next.cursor == s.cursor + 1
            &&& step.notices == seq![skip_notice(s.config, s.current())]
            &&& step.action is Probe || step.action is Execute
        }),
{
}

/// A run for one issue that is there already, without refresh, ends after
/// the look at its directory, with no job at all: no page and no article is
/// fetched, and nothing on disk is touched.
pub proof fn lemma_rerun_fetches_nothing(config: ConfigView, number: u32)
    ensures
        ({
            let begun = PlannerView::start(config, Target::Issue(number), false).step(
                EventView::Begin,
            );
            let probed = begun.0.step(EventView::Exists(true));
            &&& begun.1.action == (ActionView::Probe { path: issue_path_of(config, number) })
            &&& probed.1.action == (ActionView::Execute { jobs: Seq::empty() })
            &&& probed.0.phase == Phase::Done
        }),
{
    let begun = PlannerView::start(config, Target::Issue(number), false).step(EventView::Begin);
    let probed = begun.0.step(EventView::Exists(true));
    assert(probed.0.planned =~= Seq::empty());
    assert(all_jobs(config, probed.0.planned) =~= Seq::empty());
}

/// The directories on disk after the caller has done what `action` asks
/// for, given those before: preparing a directory puts it there, after taking
/// away it and all below it where the action says so; nothing else adds or
/// removes a directory.
pub open spec fn dirs_after(dirs: Set<Seq<char>>, action: ActionView) -> Set<Seq<char>> {
    match action {
        ActionView::Prepare { path, remove_first } => if remove_first {
            Set::new(
                |d: Seq<char>| dirs.contains(d) && d != path && !occurs_at(d, path + seq!['/'], 0),
            ).insert(path)
        } else {
            dirs.insert(path)
        },
        _ => dirs,
    }
}

/// The answer that the caller gives to `action` where the action is a look
/// at a directory, given the directories on disk.
pub open spec fn answer_to_probe(dirs: Set<Seq<char>>, action: ActionView) -> EventView {
    EventView::Exists(dirs.contains(action->Probe_path))
}

/// Whether `action` asks for nothing that changes the disk: no directory is
/// prepared and no job is run.
pub open spec fn leaves_disk(action: ActionView) -> bool {
    match action {
        ActionView::Prepare { .. } => false,
        ActionView::Execute { jobs } => jobs.len() == 0,
        _ => true,
    }
}

/// A run without refresh never takes a directory away: whatever the event,
/// the run stays one without refresh, and every directory that was there is
/// there after the step.
pub proof fn lemma_run_without_refresh_removes_nothing(
    s: PlannerView,
    event: EventView,
    dirs: Set<Seq<char>>,
)
    requires
        !s.refresh,
    ensures
        !s.step(event).0.refresh,
        dirs.subset_of(dirs_after(dirs, s.step(event).1.action)),
{
}

/// Running the plan for one issue twice without refresh: whatever the disk
/// held before the first run, after the look at the directory and the step
/// that answers it the directory of the issue is there, and by the law above
/// it stays there to the end of that run. A second run on any disk that holds
/// the directory asks for the same look, is answered that the directory is
/// there, and ends at once with no job: none of its steps changes the disk,
/// so the file tree is after the second run what it was after the first.
pub proof fn lemma_second_run_leaves_the_disk(
    config: ConfigView,
    number: u32,
    before: Set<Seq<char>>,
    between: Set<Seq<char>>,
)
    requires
        between.contains(issue_path_of(config, number)),
    ensures
        ({
            let start = PlannerView::start(config, Target::Issue(number), false);
            let directory = issue_path_of(config, number);
            let looked = start.step(EventView::Begin);
            let answered = looked.0.step(answer_to_probe(before, looked.1.action));
            let again = looked.0.step(answer_to_probe(between, looked.1.action));
            &&& looked.1.action == (ActionView::Probe { path: directory })
            &&& leaves_disk(looked.1.action)
            &&& dirs_after(before, answered.1.action).contains(directory)
            &&& again.1.action == (ActionView::Execute { jobs: Seq::empty() })
            &&& again.0.phase == Phase::Done
            &&& leaves_disk(again.1.action)
            &&& dirs_after(between, again.1.action) == between
        }),
{
    let start = PlannerView::start(config, Target::Issue(number), false);
    let looked = start.step(EventView::Begin);
    let again = looked.0.step(answer_to_probe(between, looked.1.action));
    assert(again.0.planned =~= Seq::empty());
    assert(all_jobs(config, again.0.planned) =~= Seq::empty());
}

/// With a refresh, an issue whose directory exists has that directory
/// removed and created anew before anything else is done for it. The
/// directory named is that of the issue itself; the directory of any other
/// issue, and whatever lies below it, is neither that directory nor below it.
pub proof fn lemma_refresh_recreates_only_its_issue(s: PlannerView, other: u32, rest: Seq<char>)
    requires
        s.wf(),
        s.phase == Phase::AwaitProbe,
        s.refresh,
        other != s.current(),
    ensures
        ({
            let (next, step) = s.step(EventView::Exists(true));
            let removed = issue_path_of(s.config, s.current());
            &&& step.action == (ActionView::Prepare { path: removed, remove_first: true })
            &&& next.phase == Phase::AwaitPrepared
            &&& issue_path_of(s.config, other) != removed
            &&& !occurs_at(issue_path_of(s.config, other), removed + seq!['/'], 0)
            &&& !occurs_at(
                issue_path_of(s.config, other) + seq!['/'] + rest,
                removed + seq!['/'],
                0,
            )
        }),
{
    lemma_issue_directories_are_apart(s.config, s.current(), other, rest);
}

/// A refresh of one issue keeps what belongs to the others: the directory of
/// any other issue, and any directory below it, that was on disk before the
/// directory of the refreshed issue was removed and made anew is there
/// afterwards.
pub proof fn lemma_refresh_keeps_siblings(
    s: PlannerView,
    other: u32,
    rest: Seq<char>,
    dirs: Set<Seq<char>>,
)
    requires
        s.wf(),
        s.phase == Phase::AwaitProbe,
        s.refresh,
        other != s.current(),
    ensures
        ({
            let action = s.step(EventView::Exists(true)).1.action;
            let sibling = issue_path_of(s.config, other);
            &&& dirs.contains(sibling) ==> dirs_after(dirs, action).contains(sibling)
            &&& dirs.contains(sibling + seq!['/'] + rest) ==> dirs_after(dirs, action).contains(
                sibling + seq!['/'] + rest,
            )
            &&& dirs_after(dirs, action).contains(issue_path_of(s.config, s.current()))
        }),
{
    lemma_issue_directories_are_apart(s.config, s.current(), other, rest);
    let removed = issue_path_of(s.config, s.current());
    let sibling = issue_path_of(s.config, other);
    let below = sibling + seq!['/'] + rest;
    if below == removed {
        assert(occurs_at(removed, sibling + seq!['/'], 0)) by {
            assert(below.subrange(0, (sibling + seq!['/']).len() as int) =~= sibling + seq!['/']);
        }
        lemma_issue_directories_are_apart(s.config, other, s.current(), rest);
    }
}

/// The detail page of an issue is fetched only once its directory has been
/// prepared, and the directory is prepared only after it was looked at: a
/// page is asked for only in answer to `Prepared`, and preparing only in
/// answer to `Exists`.
pub proof fn lemma_directory_comes_before_detail(s: PlannerView, event: EventView)
    ensures
        s.step(event).1.action is FetchDetail ==> s.phase == Phase::AwaitPrepared && event
            == EventView::Prepared,
        s.step(event).1.action is Prepare ==> s.phase == Phase::AwaitProbe && event is Exists,
{
}

/// What one issue's step does depends on no other issue: the answer to the
/// look at a directory is decided by the issue at hand, whether it is there,
/// and whether a refresh is asked for.
pub proof fn lemma_issues_are_planned_independently(a: PlannerView, b: PlannerView, exists: bool)
    requires
        a.wf(),
        b.wf(),
        a.phase == Phase::AwaitProbe,
        b.phase == Phase::AwaitProbe,
        a.config == b.config,
        a.refresh == b.refresh,
        a.current() == b.current(),
        directory_policy(exists, a.refresh) != DirectoryAction::Skip,
    ensures
        a.step(EventView::Exists(exists)).1 == b.step(EventView::Exists(exists)).1,
{
}

/// The order of a run, step by step.
#[derive(Debug)]
pub struct Planner {
    downloader: Downloader,
    target: Target,
    refresh: bool,
    phase: Phase,
    issues: Vec<Issue>,
    cursor: usize,
    planned: Vec<Issue>,
}

impl View for Planner {
    type V = PlannerView;

    closed spec fn view(&self) -> PlannerView {
        PlannerView {
            config: self.downloader@,
            target: self.target,
            refresh: self.refresh,
            phase: self.phase,
            issues: issues_view(self.issues@),
            cursor: self.cursor as nat,
            planned: issues_view(self.planned@),
        }
    }
}

impl Planner {
    /// The state and its invariant.
    pub open spec fn wf(&self) -> bool {
        self@.wf()
    }

    /// A plan for `target` that has not begun.
    pub fn new(downloader: Downloader, target: Target, refresh: bool) -> (planner: Planner)
        ensures
            planner@ == PlannerView::start(downloader@, target, refresh),
            planner.wf(),
    {
        let planner = Planner {
            downloader,
            target,
            refresh,
            phase: Phase::Ready,
            issues: Vec::new(),
            cursor: 0,
            planned: Vec::new(),
        };
        proof {
            assert(planner@.issues =~= Seq::empty());
            assert(planner@.planned =~= Seq::empty());
        }
        planner
    }

    /// What the planner is waiting for.
    pub fn phase(&self) -> (phase: Phase)
        ensures
            phase == self@.phase,
    {
        self.phase
    }

    /// Turns to the next issue.
    fn advance(&mut self, notices: Vec<String>) -> (step: Step)
        requires
            old(self)@.cursor <= old(self)@.issues.len(),
        ensures
            (final(self)@, step@) == old(self)@.advance(texts_view(notices@)),
            final(self).wf(),
    {
        if self.cursor < self.issues.len() {
            self.phase = Phase::AwaitProbe;
            let path = self.downloader.issue_path(&self.issues[self.cursor]);
            Step { notices, action: Action::Probe { path } }
        } else {
            self.phase = Phase::Done;
            let jobs = self.downloader.plan_jobs(&self.planned);
            Step { notices, action: Action::Execute { jobs } }
        }
    }

    /// Ends the plan with `error`.
    fn abort(&mut self, error: PhrackDownloaderError) -> (step: Step)
        requires
            old(self)@.cursor <= old(self)@.issues.len(),
        ensures
            (final(self)@, step@) == old(self)@.abort(error@),
            final(self).wf(),
    {
        self.phase = Phase::Done;
        let step = Step { notices: Vec::new(), action: Action::Abort { error } };
        assert(step@.notices =~= Seq::empty());
        step
    }

    /// Takes what the caller reports and says what is to be done next.
    pub fn step(&mut self, event: Event) -> (step: Step)
        requires
            old(self).wf(),
        ensures
            final(self).wf(),
            (final(self)@, step@) == old(self)@.step(event@),
    {
        match event {
            Event::Failed(error) => self.abort(error),
            Event::Begin => {
                if self.phase != Phase::Ready {
                    return self.abort(PhrackDownloaderError::Unknown);
                }
                match self.target {
                    Target::AllIssues => {
                        self.phase = Phase::AwaitIndex;
                        let step = Step {
                            notices: Vec::new(),
                            action: Action::FetchIndex { url: self.downloader.issues_url() },
                        };
                        assert(step@.notices =~= Seq::empty());
                        step
                    },
                    Target::Issue(number) => {
                        self.issues = Issue::from(number).into_list();
                        self.cursor = 0;
                        let notices: Vec<String> = Vec::new();
                        assert(texts_view(notices@) =~= Seq::empty());
                        self.advance(notices)
                    },
                }
            },
            Event::Page(document) => {
                if self.phase == Phase::AwaitIndex {
                    match parse_issues(&document) {
                        Err(error) => self.abort(error),
                        Ok(issues) => {
                            let mut line = "Found ".to_owned();
                            line.append(to_decimal(issues.len() as u64).as_str());
                            line.append(" issues");
                            let mut notices: Vec<String> = Vec::new();
                            notices.push(line);
                            proof {
                                let numbers = index_of(document@)->Ok_0;
                                assert(bare_issues(numbers).len() == numbers.len());
                                assert(texts_view(notices@) =~= seq![found_notice(numbers.len())]);
                            }
                            self.issues = issues;
                            self.cursor = 0;
                            self.advance(notices)
                        },
                    }
                } else if self.phase == Phase::AwaitDetail {
                    match parse_articles(&document, &self.issues[self.cursor]) {
                        Err(error) => self.abort(error),
                        Ok(detail) => {
                            let tokens = unrecognized_pdfs(&document, &self.issues[self.cursor]);
                            let mut notices: Vec<String> = Vec::new();
                            let mut i: usize = 0;
                            while i < tokens.len()
                                invariant
                                    i <= tokens.len(),
                                    notices@.len() == i,
                                    forall|j: int|
                                        0 <= j < i ==> (#[trigger] notices@[j])@
                                            == unrecognized_notice(tokens@[j]@),
                                decreases tokens.len() - i,
                            {
                                let mut line = "Unrecognized PDF file: ".to_owned();
                                line.append(tokens[i].as_str());
                                notices.push(line);
                                i = i + 1;
                            }
                            proof {
                                assert(texts_view(notices@) =~= unrecognized_of(
                                    document@,
                                    self@.current(),
                                ).map_values(|token: Seq<char>| unrecognized_notice(token)));
                            }
                            let ghost before = issues_view(self.planned@);
                            self.planned.push(detail);
                            assert(issues_view(self.planned@) =~= before.push(detail@));
                            assert(self.cursor < self.issues.len());
                            self.cursor = self.cursor + 1;
                            self.advance(notices)
                        },
                    }
                } else {
                    self.abort(PhrackDownloaderError::Unknown)
                }
            },
            Event::Exists(exists) => {
                if self.phase != Phase::AwaitProbe {
                    return self.abort(PhrackDownloaderError::Unknown);
                }
                match self.downloader.continue_issue_download(exists, self.refresh) {
                    DirectoryAction::Skip => {
                        let mut notices: Vec<String> = Vec::new();
                        notices.push(self.downloader.skip_message(&self.issues[self.cursor]));
                        assert(texts_view(notices@) =~= seq![
                            skip_notice(self@.config, self@.current()),
                        ]);
                        assert(self.cursor < self.issues.len());
                        self.cursor = self.cursor + 1;
                        self.advance(notices)
                    },
                    DirectoryAction::Create => {
                        self.phase = Phase::AwaitPrepared;
                        let path = self.downloader.issue_path(&self.issues[self.cursor]);
                        let step = Step {
                            notices: Vec::new(),
                            action: Action::Prepare { path, remove_first: false },
                        };
                        assert(step@.notices =~= Seq::empty());
                        step
                    },
                    DirectoryAction::Recreate => {
                        self.phase = Phase::AwaitPrepared;
                        let path = self.downloader.issue_path(&self.issues[self.cursor]);
                        let step = Step {
                            notices: Vec::new(),
                            action: Action::Prepare { path, remove_first: true },
                        };
                        assert(step@.notices =~= Seq::empty());
                        step
                    },
                }
            },
            Event::Prepared => {
                if self.phase != Phase::AwaitPrepared {
                    return self.abort(PhrackDownloaderError::Unknown);
                }
                self.phase = Phase::AwaitDetail;
                let url = self.downloader.issue_url(&self.issues[self.cursor]);
                let step = Step { notices: Vec::new(), action: Action::FetchDetail { url } };
                assert(step@.notices =~= Seq::empty());
                step
            },
        }
    }
}

} // verus!
