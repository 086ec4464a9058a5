//! The snapshot worker as a machine: a queue of requests, at most one
//! request in work, and for every report of the caller the next action.
//!
//! The caller owns the thread and the channel. It hands every request it
//! receives to `enqueue`, carries out the action that `step` returns, and
//! reports the outcome to the next `step`. The worker takes requests in the
//! order of their arrival and takes the next only when the one in work has
//! run through.
//!
//! A worker without a browser goes on all the same: it takes every request,
//! and the request runs through without a screenshot and without a
//! document.
use vstd::prelude::*;
use vstd::string::*;

use crate::dom::fix_html_references;
use crate::dom::fixed;
use crate::dom::Node;
use crate::dom::NodeView;
use crate::downloader::cache_directory;
use crate::downloader::cache_directory_path;
use crate::downloader::crop;
use crate::downloader::crop_frame;
use crate::downloader::dump_command;
use crate::downloader::dump_command_for;
use crate::downloader::html_filename;
use crate::downloader::origin;
use crate::downloader::page_path;
use crate::downloader::parsed_uri;
use crate::downloader::request_views;
use crate::downloader::screenshot_command;
use crate::downloader::screenshot_command_for;
use crate::downloader::screenshot_file;
use crate::downloader::server_url;
use crate::downloader::thumbnail;
use crate::downloader::thumbnail_filename;
use crate::downloader::thumbnail_frame;
use crate::downloader::thumbnail_path;
use crate::downloader::BrowserCommand;
use crate::downloader::CommandView;
use crate::downloader::DownloadRequest;
use crate::downloader::Frame;
use crate::downloader::RequestView;
use crate::pins::is_safe_name;
use crate::pins::optional_view;
use crate::pins::safe_name;

verus! {

/// Where a request stands: the action that is under way for it.
#[derive(Debug, Clone, Copy, PartialEq, Eq, Structural)]
pub enum Stage {
    /// The user's snapshot directory is being made.
    CacheDirectory,
    /// An old screenshot is being removed.
    StaleScreenshot,
    /// The browser is taking the screenshot.
    Screenshot,
    /// The thumbnail is being made of the screenshot.
    Thumbnail,
    /// The browser is dumping the rendered document.
    Document,
    /// The rewritten document is being written.
    Page,
}

impl Stage {
    /// The place of a stage in the pipeline.
    pub open spec fn rank(self) -> int {
        match self {
            Stage::CacheDirectory => 0,
            Stage::StaleScreenshot => 1,
            Stage::Screenshot => 2,
            Stage::Thumbnail => 3,
            Stage::Document => 4,
            Stage::Page => 5,
        }
    }
}

/// The request in work and its stage.
#[derive(Debug)]
pub struct Job {
    pub request: DownloadRequest,
    pub stage: Stage,
}

/// A job as plain text.
pub ghost struct JobView {
    pub request: RequestView,
    pub stage: Stage,
}

impl View for Job {
    type V = JobView;

    open spec fn view(&self) -> JobView {
        JobView { request: self.request@, stage: self.stage }
    }
}

/// How the last action went.
#[derive(Debug)]
pub enum Outcome {
    /// It was carried out.
    Done,
    /// It could not be carried out; for a browser: it could not be
    /// started.
    Failed,
    /// The browser ran and ended with this exit code; `None` where it
    /// ended without one.
    Exited { code: Option<i32> },
    /// The browser ran, ended with this exit code, and printed this
    /// document.
    Dumped { code: Option<i32>, document: Node },
}

/// An outcome as plain text.
pub ghost enum OutcomeView {
    Done,
    Failed,
    Exited { code: Option<i32> },
    Dumped { code: Option<i32>, document: NodeView },
}

impl View for Outcome {
    type V = OutcomeView;

    open spec fn view(&self) -> OutcomeView {
        match self {
            Outcome::Done => OutcomeView::Done,
            Outcome::Failed => OutcomeView::Failed,
            Outcome::Exited { code } => OutcomeView::Exited { code: *code },
            Outcome::Dumped { code, document } => OutcomeView::Dumped {
                code: *code,
                document: document@,
            },
        }
    }
}

/// A run of the browser succeeded: it ended with the exit code zero.
pub open spec fn exit_ok(code: Option<i32>) -> bool {
    code == Some(0i32)
}

/// The browser took the screenshot.
pub open spec fn captured(outcome: OutcomeView) -> bool {
    outcome matches OutcomeView::Exited { code } && exit_ok(code)
}

/// Whether a run of the browser succeeded.
pub fn succeeded(code: Option<i32>) -> (yes: bool)
    ensures
        yes == exit_ok(code),
{
    match code {
        Some(code) => code == 0,
        None => false,
    }
}

/// What the caller is to do next.
#[derive(Debug)]
pub enum Action {
    /// Nothing is in work: wait for the next request.
    Wait,
    /// Make the directory and those above it.
    CreateDirectory { path: String },
    /// Remove the file if it exists; it does not matter whether it did.
    RemoveFile { path: String },
    /// Run the command; the browser writes the screenshot.
    Capture { command: BrowserCommand },
    /// Open the image `source`, keep `crop` of it from the top left corner,
    /// scale that to `size` and save it as `target`.
    Thumbnail { source: String, crop: Frame, size: Frame, target: String },
    /// Run the command and parse what it prints as a document.
    Dump { command: BrowserCommand },
    /// Write the document to the file.
    WritePage { path: String, document: Node },
}

/// An action as plain text.
pub ghost enum ActionView {
    Wait,
    CreateDirectory { path: Seq<char> },
    RemoveFile { path: Seq<char> },
    Capture { command: CommandView },
    Thumbnail { source: Seq<char>, crop: Frame, size: Frame, target: Seq<char> },
    Dump { command: CommandView },
    WritePage { path: Seq<char>, document: NodeView },
}

impl View for Action {
    type V = ActionView;

    open spec fn view(&self) -> ActionView {
        match self {
            Action::Wait => ActionView::Wait,
            Action::CreateDirectory { path } => ActionView::CreateDirectory { path: path@ },
            Action::RemoveFile { path } => ActionView::RemoveFile { path: path@ },
            Action::Capture { command } => ActionView::Capture { command: command@ },
            Action::Thumbnail { source, crop, size, target } => ActionView::Thumbnail {
                source: source@,
                crop: *crop,
                size: *size,
                target: target@,
            },
            Action::Dump { command } => ActionView::Dump { command: command@ },
            Action::WritePage { path, document } => ActionView::WritePage {
                path: path@,
                document: document@,
            },
        }
    }
}

/// The worker: the browser it runs, if one is installed, the requests that
/// wait, in the order of their arrival, and the job in work.
#[derive(Debug)]
pub struct Worker {
    pub browser: Option<String>,
    pub queue: Vec<DownloadRequest>,
    pub job: Option<Job>,
}

/// A worker as plain text.
pub ghost struct WorkerView {
    pub browser: Option<Seq<char>>,
    pub queue: Seq<RequestView>,
    pub job: Option<JobView>,
}

/// An optional job as plain text.
pub open spec fn optional_job(job: Option<Job>) -> Option<JobView> {
    match job {
        Some(job) => Some(job@),
        None => None,
    }
}

impl View for Worker {
    type V = WorkerView;

    open spec fn view(&self) -> WorkerView {
        WorkerView {
            browser: optional_view(self.browser),
            queue: request_views(self.queue@),
            job: optional_job(self.job),
        }
    }
}

/// The first action for a request.
pub open spec fn first_action(request: RequestView) -> ActionView {
    ActionView::CreateDirectory { path: cache_directory_path(request.username) }
}

/// The start of the document branch: the dump of the page. Without a
/// browser, and for an address that has no server, there is no dump, which
/// ends the request.
pub open spec fn document_branch(browser: Option<Seq<char>>, request: RequestView) -> Option<
    (JobView, ActionView),
> {
    match (browser, origin(parsed_uri(request.url))) {
        (Some(browser), Ok(_)) => Some(
            (
                JobView { request, stage: Stage::Document },
                ActionView::Dump { command: dump_command_for(browser, request.url) },
            ),
        ),
        _ => None,
    }
}

/// The start of the screenshot: the run of the browser. Without a browser
/// there is no screenshot, and the document branch follows.
pub open spec fn screenshot_branch(browser: Option<Seq<char>>, request: RequestView) -> Option<
    (JobView, ActionView),
> {
    match browser {
        Some(browser) => Some(
            (
                JobView { request, stage: Stage::Screenshot },
                ActionView::Capture { command: screenshot_command_for(browser, request.url) },
            ),
        ),
        None => document_branch(browser, request),
    }
}

/// How a job goes on after the outcome of its action: the job in its next
/// stage with the next action, or `None` where the request has run
/// through.
///
/// A directory that cannot be made ends the screenshot branch, and so does
/// a browser that is missing, cannot be started or ends in failure; the
/// document branch follows in any case. The removal of an old screenshot
/// and the making of the thumbnail may fail without consequence. The
/// document branch ends where the browser is missing, cannot be started or
/// ends in failure, and after the write.
pub open spec fn continued(browser: Option<Seq<char>>, job: JobView, outcome: OutcomeView) -> Option<
    (JobView, ActionView),
> {
    let request = job.request;
    match job.stage {
        Stage::CacheDirectory => if outcome is Failed {
            document_branch(browser, request)
        } else {
            Some(
                (
                    JobView { request, stage: Stage::StaleScreenshot },
                    ActionView::RemoveFile { path: screenshot_file() },
                ),
            )
        },
        Stage::StaleScreenshot => screenshot_branch(browser, request),
        Stage::Screenshot => if captured(outcome) {
            Some(
                (
                    JobView { request, stage: Stage::Thumbnail },
                    ActionView::Thumbnail {
                        source: screenshot_file(),
                        crop: crop_frame(),
                        size: thumbnail_frame(),
                        target: thumbnail_path(request),
                    },
                ),
            )
        } else {
            document_branch(browser, request)
        },
        Stage::Thumbnail => document_branch(browser, request),
        Stage::Document => match (outcome, origin(parsed_uri(request.url))) {
            (OutcomeView::Dumped { code, document }, Ok(server)) => if exit_ok(code) {
                Some(
                    (
                        JobView { request, stage: Stage::Page },
                        ActionView::WritePage {
                            path: page_path(request),
                            document: fixed(document, server),
                        },
                    ),
                )
            } else {
                None
            },
            _ => None,
        },
        Stage::Page => None,
    }
}

/// An idle worker takes the request that has waited longest, or waits.
pub open spec fn begun(worker: WorkerView) -> (WorkerView, ActionView) {
    if worker.queue.len() > 0 {
        let request = worker.queue[0];
        (
            WorkerView {
                browser: worker.browser,
                queue: worker.queue.drop_first(),
                job: Some(JobView { request, stage: Stage::CacheDirectory }),
            },
            first_action(request),
        )
    } else {
        (WorkerView { browser: worker.browser, queue: worker.queue, job: None }, ActionView::Wait)
    }
}

/// One step of the worker. A worker with a job goes on with it; where the
/// job has run through, and where there was none, it begins anew. The
/// outcome counts only for a worker with a job.
pub open spec fn stepped(worker: WorkerView, outcome: OutcomeView) -> (WorkerView, ActionView) {
    match worker.job {
        Some(job) => match continued(worker.browser, job, outcome) {
            Some((next, action)) => (
                WorkerView { browser: worker.browser, queue: worker.queue, job: Some(next) },
                action,
            ),
            None => begun(worker),
        },
        None => begun(worker),
    }
}

/// A request that the worker takes in: the names of its user and of its pin
/// are safe names, so that the files made for it lie in the user's
/// directory.
pub open spec fn admitted(request: RequestView) -> bool {
    safe_name(request.username) && safe_name(request.pin_id)
}

/// A worker after the arrival of a request: a request that is admitted
/// waits behind all that came before it; any other is dropped.
pub open spec fn enqueued(worker: WorkerView, request: RequestView) -> WorkerView {
    if admitted(request) {
        WorkerView { browser: worker.browser, queue: worker.queue.push(request), job: worker.job }
    } else {
        worker
    }
}

/// A job and an action as plain text.
pub open spec fn optional_move(next: Option<(Job, Action)>) -> Option<(JobView, ActionView)> {
    match next {
        Some((job, action)) => Some((job@, action@)),
        None => None,
    }
}

/// Starts the document branch of a request.
fn start_document(browser: &Option<String>, request: DownloadRequest) -> (next: Option<
    (Job, Action),
>)
    ensures
        optional_move(next) == document_branch(optional_view(*browser), request@),
{
    let program = match browser {
        Some(program) => program,
        None => {
            return None;
        },
    };
    match server_url(request.url.as_str()) {
        Ok(_) => {
            let command = dump_command(program.as_str(), &request);
            Some((Job { request, stage: Stage::Document }, Action::Dump { command }))
        },
        Err(_) => None,
    }
}

/// Starts the screenshot of a request.
fn start_screenshot(browser: &Option<String>, request: DownloadRequest) -> (next: Option<
    (Job, Action),
>)
    ensures
        optional_move(next) == screenshot_branch(optional_view(*browser), request@),
{
    match browser {
        Some(program) => {
            let command = screenshot_command(program.as_str(), &request);
            Some((Job { request, stage: Stage::Screenshot }, Action::Capture { command }))
        },
        None => start_document(browser, request),
    }
}

/// Goes on with a job after the outcome of its action.
pub fn continue_job(browser: &Option<String>, job: Job, outcome: Outcome) -> (next: Option<
    (Job, Action),
>)
    ensures
        optional_move(next) == continued(optional_view(*browser), job@, outcome@),
{
    let Job { request, stage } = job;
    match stage {
        Stage::CacheDirectory => {
            match outcome {
                Outcome::Failed => start_document(browser, request),
                _ => Some(
                    (
                        Job { request, stage: Stage::StaleScreenshot },
                        Action::RemoveFile { path: String::from_str("screenshot.png") },
                    ),
                ),
            }
        },
        Stage::StaleScreenshot => start_screenshot(browser, request),
        Stage::Screenshot => {
            let taken = match outcome {
                Outcome::Exited { code } => succeeded(code),
                _ => false,
            };
            if taken {
                let action = Action::Thumbnail {
                    source: String::from_str("screenshot.png"),
                    crop: crop(),
                    size: thumbnail(),
                    target: thumbnail_filename(&request),
                };
                Some((Job { request, stage: Stage::Thumbnail }, action))
            } else {
                start_document(browser, request)
            }
        },
        Stage::Thumbnail => start_document(browser, request),
        Stage::Document => {
            match outcome {
                Outcome::Dumped { code, document } => {
                    match server_url(request.url.as_str()) {
                        Ok(server) => {
                            if succeeded(code) {
                                let action = Action::WritePage {
                                    path: html_filename(&request),
                                    document: fix_html_references(document, server.as_str()),
                                };
                                Some((Job { request, stage: Stage::Page }, action))
                            } else {
                                None
                            }
                        },
                        Err(_) => None,
                    }
                },
                _ => None,
            }
        },
        Stage::Page => None,
    }
}

impl Worker {
    /// An idle worker without requests. `browser` is the browser to run,
    /// or `None` where none is installed.
    pub fn new(browser: Option<String>) -> (worker: Worker)
        ensures
            worker@ == (WorkerView {
                browser: optional_view(browser),
                queue: Seq::empty(),
                job: None,
            }),
    {
        let worker = Worker { browser, queue: Vec::new(), job: None };
        assert(worker@.queue =~= Seq::empty());
        worker
    }

    /// Takes in a request that arrived, and says whether it was admitted. A
    /// request whose user name or pin id is no safe name is dropped.
    pub fn enqueue(&mut self, request: DownloadRequest) -> (taken: bool)
        ensures
            final(self)@ == enqueued(old(self)@, request@),
            taken == admitted(request@),
    {
        if !is_safe_name(request.username.as_str()) || !is_safe_name(request.pin_id.as_str()) {
            return false;
        }
        self.queue.push(request);
        assert(final(self)@.queue =~= old(self)@.queue.push(request@));
        true
    }

    /// Takes the next request, if one waits.
    fn begin(&mut self) -> (action: Action)
        ensures
            (final(self)@, action@) == begun(old(self)@),
    {
        if self.queue.len() > 0 {
            let request = self.queue.remove(0);
            let action = Action::CreateDirectory {
                path: cache_directory(request.username.as_str()),
            };
            self.job = Some(Job { request, stage: Stage::CacheDirectory });
            assert(final(self)@.queue =~= old(self)@.queue.drop_first());
            action
        } else {
            self.job = None;
            Action::Wait
        }
    }

    /// Takes the outcome of the last action and returns the next. For a
    /// worker without a job the outcome does not count.
    pub fn step(&mut self, outcome: Outcome) -> (action: Action)
        ensures
            (final(self)@, action@) == stepped(old(self)@, outcome@),
    {
        let current = self.job.take();
        if let Some(job) = current {
            if let Some((next, action)) = continue_job(&self.browser, job, outcome) {
                self.job = Some(next);
                return action;
            }
        }
        self.begin()
    }
}

/// The requests that a worker still owes, in the order in which it serves
/// them: the one in work, then those that wait.
pub open spec fn backlog(worker: WorkerView) -> Seq<RequestView> {
    match worker.job {
        Some(job) => seq![job.request] + worker.queue,
        None => worker.queue,
    }
}

/// The action is one of the pipeline of `request`. Where it runs a
/// program, the program is the worker's browser.
pub open spec fn serves(action: ActionView, browser: Option<Seq<char>>, request: RequestView) -> bool {
    match action {
        ActionView::Wait => false,
        ActionView::CreateDirectory { path } => path == cache_directory_path(request.username),
        ActionView::RemoveFile { path } => path == screenshot_file(),
        ActionView::Capture { command } => browser matches Some(program) && command
            == screenshot_command_for(program, request.url),
        ActionView::Thumbnail { source, crop, size, target } => source == screenshot_file()
            && target == thumbnail_path(request),
        ActionView::Dump { command } => browser matches Some(program) && command
            == dump_command_for(program, request.url),
        ActionView::WritePage { path, document } => path == page_path(request),
    }
}

/// A worker without a browser that has only made the directory and removed
/// the old screenshot for its job, if it has one.
pub open spec fn idles_without_browser(worker: WorkerView) -> bool {
    &&& worker.browser is None
    &&& worker.job matches Some(job) ==> job.stage == Stage::CacheDirectory || job.stage
        == Stage::StaleScreenshot
}

/// A worker without a browser goes on and runs nothing. A new worker
/// without a browser idles without one, and so it does after every step:
/// no action of it is a run of a program, every request is taken in its
/// turn, and every job ends once the old screenshot was removed.
pub proof fn lemma_no_browser_runs_nothing(worker: WorkerView, outcome: OutcomeView)
    requires
        idles_without_browser(worker),
    ensures
        idles_without_browser(stepped(worker, outcome).0),
        !(stepped(worker, outcome).1 is Capture),
        !(stepped(worker, outcome).1 is Dump),
        !(stepped(worker, outcome).1 is Thumbnail),
        !(stepped(worker, outcome).1 is WritePage),
        worker.job matches Some(job) && job.stage == Stage::StaleScreenshot ==> ends_job(
            worker,
            outcome,
        ),
{
}

/// The step ends the job in work: it has run through.
pub open spec fn ends_job(worker: WorkerView, outcome: OutcomeView) -> bool {
    worker.job matches Some(job) && continued(worker.browser, job, outcome) is None
}

/// The step takes a request from the queue.
pub open spec fn takes_request(worker: WorkerView, outcome: OutcomeView) -> bool {
    (worker.job is None || ends_job(worker, outcome)) && worker.queue.len() > 0
}

/// What one step does to the order of service.
///
/// The worker works on one request at a time and to the end: after a step
/// the job is the job before it in a later stage, or, where that job has
/// run through or there was none, the request that waited longest, in its
/// first stage. The action of the step belongs to the job after it; the
/// worker waits only where it owes nothing. What the worker owes is what it
/// owed, less the request that ran through.
pub proof fn lemma_step_serves_in_order(worker: WorkerView, outcome: OutcomeView)
    ensures
        ({
            let (next, action) = stepped(worker, outcome);
            &&& next.browser == worker.browser
            &&& match next.job {
                Some(job) => {
                    &&& serves(action, worker.browser, job.request)
                    &&& job.request == backlog(next)[0]
                    &&& if takes_request(worker, outcome) {
                        job.request == worker.queue[0] && job.stage == Stage::CacheDirectory
                    } else {
                        worker.job matches Some(before) && job.request == before.request
                            && before.stage.rank() < job.stage.rank()
                    }
                },
                None => action is Wait && backlog(next).len() == 0,
            }
            &&& backlog(next) == if ends_job(worker, outcome) {
                backlog(worker).drop_first()
            } else {
                backlog(worker)
            }
        }),
{
    let (next, action) = stepped(worker, outcome);
    match worker.job {
        Some(job) => {
            match continued(worker.browser, job, outcome) {
                Some(_) => {
                    assert(backlog(next) =~= backlog(worker));
                },
                None => {
                    assert(backlog(worker).drop_first() =~= worker.queue);
                    if worker.queue.len() > 0 {
                        assert(backlog(next) =~= worker.queue);
                    }
                },
            }
        },
        None => {
            if worker.queue.len() > 0 {
                assert(backlog(next) =~= worker.queue);
            }
        },
    }
}

/// What reaches a worker: a request that arrives, or the report of an
/// outcome.
pub ghost enum Input {
    Arrival(RequestView),
    Report(OutcomeView),
}

/// The worker after one input.
pub open spec fn after(worker: WorkerView, input: Input) -> WorkerView {
    match input {
        Input::Arrival(request) => enqueued(worker, request),
        Input::Report(outcome) => stepped(worker, outcome).0,
    }
}

/// The worker after a run of inputs.
pub open spec fn run(worker: WorkerView, inputs: Seq<Input>) -> WorkerView
    decreases inputs.len(),
{
    if inputs.len() == 0 {
        worker
    } else {
        after(run(worker, inputs.drop_last()), inputs.last())
    }
}

/// The requests that arrive in a run of inputs and are admitted, in order.
pub open spec fn arrivals(inputs: Seq<Input>) -> Seq<RequestView>
    decreases inputs.len(),
{
    if inputs.len() == 0 {
        Seq::empty()
    } else {
        match inputs.last() {
            Input::Arrival(request) => if admitted(request) {
                arrivals(inputs.drop_last()).push(request)
            } else {
                arrivals(inputs.drop_last())
            },
            Input::Report(_) => arrivals(inputs.drop_last()),
        }
    }
}

/// The requests that have run through in a run of inputs, in the order in
/// which they did.
pub open spec fn finished(worker: WorkerView, inputs: Seq<Input>) -> Seq<RequestView>
    decreases inputs.len(),
{
    if inputs.len() == 0 {
        Seq::empty()
    } else {
        let before = run(worker, inputs.drop_last());
        match inputs.last() {
            Input::Report(outcome) => if ends_job(before, outcome) {
                finished(worker, inputs.drop_last()).push(before.job->0.request)
            } else {
                finished(worker, inputs.drop_last())
            },
            Input::Arrival(_) => finished(worker, inputs.drop_last()),
        }
    }
}

/// First in, first out. Whatever arrives and whatever is reported, the
/// requests that have run through, followed by those that the worker still
/// owes, are the requests that it owed at the start followed by those that
/// arrived and were admitted: requests run through one after the other in
/// the order of their arrival, and none is lost or served twice.
pub proof fn lemma_first_in_first_out(worker: WorkerView, inputs: Seq<Input>)
    ensures
        finished(worker, inputs) + backlog(run(worker, inputs)) == backlog(worker) + arrivals(
            inputs,
        ),
    decreases inputs.len(),
{
    if inputs.len() == 0 {
        assert(finished(worker, inputs) + backlog(worker) =~= backlog(worker) + arrivals(inputs));
    } else {
        let rest = inputs.drop_last();
        let before = run(worker, rest);
        lemma_first_in_first_out(worker, rest);
        match inputs.last() {
            Input::Arrival(request) => if admitted(request) {
                assert(backlog(enqueued(before, request)) =~= backlog(before).push(request));
                assert(finished(worker, rest) + backlog(before).push(request) =~= (finished(
                    worker,
                    rest,
                ) + backlog(before)).push(request));
                assert((backlog(worker) + arrivals(rest)).push(request) =~= backlog(worker)
                    + arrivals(rest).push(request));
            },
            Input::Report(outcome) => {
                lemma_step_serves_in_order(before, outcome);
                if ends_job(before, outcome) {
                    let done = before.job->0.request;
                    assert(backlog(before) =~= seq![done] + backlog(before).drop_first());
                    assert(finished(worker, rest).push(done) + backlog(before).drop_first()
                        =~= finished(worker, rest) + backlog(before));
                }
            },
        }
    }
}

/// A run of one input.
proof fn lemma_single_input(worker: WorkerView, input: Input)
    ensures
        run(worker, seq![input]) == after(worker, input),
        finished(worker, seq![input]) == match input {
            Input::Report(outcome) => if ends_job(worker, outcome) {
                seq![worker.job->0.request]
            } else {
                Seq::empty()
            },
            Input::Arrival(_) => Seq::empty(),
        },
{
    reveal_with_fuel(run, 2);
    reveal_with_fuel(finished, 2);
    let one = seq![input];
    assert(one.drop_last() =~= Seq::<Input>::empty());
    assert(one.last() == input);
    assert(run(worker, one.drop_last()) == worker);
    assert(finished(worker, one.drop_last()) =~= Seq::<RequestView>::empty());
    match input {
        Input::Report(outcome) => {
            if ends_job(worker, outcome) {
                assert(Seq::<RequestView>::empty().push(worker.job->0.request) =~= seq![
                    worker.job->0.request,
                ]);
            }
        },
        Input::Arrival(_) => {},
    }
}

/// A run of inputs, taken apart at its first input.
pub proof fn lemma_run_from_the_front(worker: WorkerView, first: Input, rest: Seq<Input>)
    ensures
        run(worker, seq![first] + rest) == run(after(worker, first), rest),
        finished(worker, seq![first] + rest) == finished(worker, seq![first]) + finished(
            after(worker, first),
            rest,
        ),
    decreases rest.len(),
{
    let all = seq![first] + rest;
    lemma_single_input(worker, first);
    if rest.len() == 0 {
        assert(all =~= seq![first]);
        assert(finished(worker, seq![first]) + finished(after(worker, first), rest) =~= finished(
            worker,
            seq![first],
        ));
    } else {
        lemma_run_from_the_front(worker, first, rest.drop_last());
        assert(all.drop_last() =~= seq![first] + rest.drop_last());
        assert(all.last() == rest.last());
        let before = run(after(worker, first), rest.drop_last());
        let head = finished(worker, seq![first]);
        let tail = finished(after(worker, first), rest.drop_last());
        match rest.last() {
            Input::Report(outcome) => {
                if ends_job(before, outcome) {
                    assert((head + tail).push(before.job->0.request) =~= head + tail.push(
                        before.job->0.request,
                    ));
                }
            },
            Input::Arrival(_) => {},
        }
    }
}

/// The reports of a run of outcomes.
pub open spec fn reports(outcomes: Seq<OutcomeView>) -> Seq<Input> {
    outcomes.map_values(|outcome: OutcomeView| Input::Report(outcome))
}

/// A request in work runs through. Whatever is reported, a job that stands
/// in a stage of rank `r` has run through after `6 - r` reports at the
/// latest, and it is the first to do so.
pub proof fn lemma_job_runs_through(worker: WorkerView, outcomes: Seq<OutcomeView>)
    requires
        worker.job is Some,
        outcomes.len() >= 6 - worker.job->0.stage.rank(),
    ensures
        finished(worker, reports(outcomes)).len() >= 1,
        finished(worker, reports(outcomes))[0] == worker.job->0.request,
    decreases 6 - worker.job->0.stage.rank(),
{
    let job = worker.job->0;
    let first = Input::Report(outcomes[0]);
    let rest = reports(outcomes.drop_first());
    assert(reports(outcomes) =~= seq![first] + rest);
    lemma_run_from_the_front(worker, first, rest);
    lemma_single_input(worker, first);
    if ends_job(worker, outcomes[0]) {
        assert(finished(worker, seq![first]) =~= seq![job.request]);
    } else {
        assert(finished(worker, seq![first]) =~= Seq::<RequestView>::empty());
        lemma_step_serves_in_order(worker, outcomes[0]);
        let next = after(worker, first);
        lemma_job_runs_through(next, outcomes.drop_first());
        assert(finished(worker, seq![first]) + finished(next, rest) =~= finished(next, rest));
    }
}

} // verus!
