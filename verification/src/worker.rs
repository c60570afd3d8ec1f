//! The worker that runs sed: it serves the latest request, drops a preview that a newer request
//! has overtaken, and reports what it found. Each step takes what came of the last action and
//! says what to do next.
use vstd::prelude::*;
use vstd::utf8::{decode_utf8, valid_utf8};

use crate::diff_view::{comparable, diff_lines, diff_view, diffable};
use crate::path::{copy_bytes, path_views, FilePath};
use crate::preview::{
    load_preview_file, loaded, preview_views, unreadable, FilePreview, FilePreviewView,
};
use crate::sed::{
    apply_args, apply_error, apply_failure, arg_views, filter_args, filter_output, filter_result,
    run_apply, spawn_error, spawn_failure, stdin_args, SedExit, SedExitView,
};
use crate::styled::{
    append_lines, bold_style, line_views, push_line, raw_line, styled_line, Color, Line, LineView,
    Style,
};
use crate::text::{blank, is_blank, opt_text, same_text, text, utf8_lossy_text, utf8_strict};

verus! {

/// How many unchanged lines are shown around a change.
pub const DIFF_CONTEXT: usize = 3;

/// What the worker is asked to do.
#[allow(inconsistent_fields)]
#[derive(Debug)]
pub enum WorkerRequest {
    Preview { generation: u64, expression: String, files: Vec<FilePreview> },
    Apply {
        generation: u64,
        expression: String,
        files: Vec<FilePath>,
        backup_suffix: Option<String>,
    },
    Shutdown,
}

/// The model of [`WorkerRequest`].
#[allow(inconsistent_fields)]
#[verifier::ext_equal]
pub enum RequestView {
    Preview { generation: u64, expression: Seq<char>, files: Seq<FilePreviewView> },
    Apply {
        generation: u64,
        expression: Seq<char>,
        files: Seq<Seq<u8>>,
        backup_suffix: Option<Seq<char>>,
    },
    Shutdown,
}

impl View for WorkerRequest {
    type V = RequestView;

    open spec fn view(&self) -> RequestView {
        match self {
            WorkerRequest::Preview { generation, expression, files } => RequestView::Preview {
                generation: *generation,
                expression: expression@,
                files: preview_views(files@),
            },
            WorkerRequest::Apply { generation, expression, files, backup_suffix } =>
                RequestView::Apply {
                generation: *generation,
                expression: expression@,
                files: path_views(files@),
                backup_suffix: opt_text(*backup_suffix),
            },
            WorkerRequest::Shutdown => RequestView::Shutdown,
        }
    }
}

/// What the worker reports.
#[derive(Debug)]
pub enum WorkerEvent {
    PreviewReady {
        generation: u64,
        lines: Vec<Line>,
        truncated: bool,
        /// How many files the expression changes.
        changed: usize,
        /// How many of the changed files the lines show.
        shown: usize,
        /// How many files were run through sed.
        scanned: usize,
        /// Whether this is the last report on the preview.
        done: bool,
        error: Option<String>,
    },
    ApplyFinished { generation: u64, error: Option<String> },
}

/// The model of [`WorkerEvent`].
#[verifier::ext_equal]
pub enum EventView {
    PreviewReady {
        generation: u64,
        lines: Seq<LineView>,
        truncated: bool,
        changed: nat,
        shown: nat,
        scanned: nat,
        done: bool,
        error: Option<Seq<char>>,
    },
    ApplyFinished { generation: u64, error: Option<Seq<char>> },
}

impl View for WorkerEvent {
    type V = EventView;

    open spec fn view(&self) -> EventView {
        match self {
            WorkerEvent::PreviewReady {
                generation,
                lines,
                truncated,
                changed,
                shown,
                scanned,
                done,
                error,
            } => EventView::PreviewReady {
                generation: *generation,
                lines: line_views(lines@),
                truncated: *truncated,
                changed: *changed as nat,
                shown: *shown as nat,
                scanned: *scanned as nat,
                done: *done,
                error: opt_text(*error),
            },
            WorkerEvent::ApplyFinished { generation, error } => EventView::ApplyFinished {
                generation: *generation,
                error: opt_text(*error),
            },
        }
    }
}

/// The two lines that name a file above its diff.
pub open spec fn file_header(path: Seq<u8>) -> Seq<LineView> {
    seq![
        styled_line("--- "@ + utf8_lossy_text(path), bold_style(Color::Yellow)),
        styled_line("+++ "@ + utf8_lossy_text(path), bold_style(Color::Yellow)),
    ]
}

/// What a preview shows: for each file its name and the diff from its content to what sed made
/// of it, with an empty line before every file but the first.
pub open spec fn preview_lines(files: Seq<FilePreviewView>, outputs: Seq<Seq<char>>) -> Seq<LineView>
    decreases outputs.len(),
{
    if outputs.len() == 0 {
        seq![]
    } else {
        let k = outputs.len() - 1;
        let gap: Seq<LineView> = if k > 0 {
            seq![seq![]]
        } else {
            seq![]
        };
        preview_lines(files, outputs.drop_last()) + gap + file_header(files[k].path) + diff_view(
            files[k].content,
            outputs[k],
            DIFF_CONTEXT as nat,
        )
    }
}

/// How many of the files sed changed.
pub open spec fn changed_files(files: Seq<FilePreviewView>, outputs: Seq<Seq<char>>) -> nat
    decreases outputs.len(),
{
    if outputs.len() == 0 {
        0
    } else {
        let k = outputs.len() - 1;
        changed_files(files, outputs.drop_last()) + if files[k].content != outputs[k] {
            1nat
        } else {
            0nat
        }
    }
}

/// One of the first `n` files was cut for the preview.
pub open spec fn any_truncated(files: Seq<FilePreviewView>, n: int) -> bool {
    exists|k: int| 0 <= k < n && (#[trigger] files[k]).truncated
}

/// The report of a preview of all files, from what sed made of each.
pub open spec fn ready_event(
    generation: u64,
    files: Seq<FilePreviewView>,
    outputs: Seq<Seq<char>>,
) -> EventView {
    EventView::PreviewReady {
        generation,
        lines: preview_lines(files, outputs),
        truncated: any_truncated(files, outputs.len() as int),
        changed: changed_files(files, outputs),
        shown: changed_files(files, outputs),
        scanned: outputs.len(),
        done: true,
        error: None,
    }
}

/// The report of a preview that has only a remark to show.
pub open spec fn remark_event(generation: u64, remark: Seq<char>) -> EventView {
    EventView::PreviewReady {
        generation,
        lines: seq![raw_line(remark)],
        truncated: false,
        changed: 0,
        shown: 0,
        scanned: 0,
        done: true,
        error: None,
    }
}

/// The report of a preview that failed.
pub open spec fn failed_event(generation: u64, error: Seq<char>) -> EventView {
    EventView::PreviewReady {
        generation,
        lines: seq![],
        truncated: false,
        changed: 0,
        shown: 0,
        scanned: 0,
        done: true,
        error: Some(error),
    }
}

/// The remark shown while there is no expression.
pub open spec fn type_remark() -> Seq<char> {
    " Type a sed expression to preview changes"@
}

/// The remark shown while there are no files.
pub open spec fn no_files_remark() -> Seq<char> {
    " No files found under . (or pass FILE args)"@
}

fn preview_remark(generation: u64, remark: &str) -> (e: WorkerEvent)
    ensures
        e@ == remark_event(generation, remark@),
{
    let mut lines: Vec<Line> = Vec::new();
    push_line(&mut lines, Line::raw(remark));
    assert(line_views(lines@) == seq![raw_line(remark@)]);
    WorkerEvent::PreviewReady {
        generation,
        lines,
        truncated: false,
        changed: 0,
        shown: 0,
        scanned: 0,
        done: true,
        error: None,
    }
}

/// The report of a preview that failed.
pub fn preview_failed(generation: u64, error: String) -> (e: WorkerEvent)
    ensures
        e@ == failed_event(generation, error@),
{
    let lines: Vec<Line> = Vec::new();
    assert(line_views(lines@) == Seq::<LineView>::empty());
    WorkerEvent::PreviewReady {
        generation,
        lines,
        truncated: false,
        changed: 0,
        shown: 0,
        scanned: 0,
        done: true,
        error: Some(error),
    }
}

/// A preview under way: the request, and what the finished files add to the report.
pub struct Job {
    generation: u64,
    expression: String,
    files: Vec<FilePreview>,
    finished: usize,
    lines: Vec<Line>,
    truncated: bool,
    changed: usize,
    outputs: Ghost<Seq<Seq<char>>>,
}

/// The model of [`Job`]: the request, and what sed made of the files that are finished.
#[verifier::ext_equal]
pub struct JobView {
    pub generation: u64,
    pub expression: Seq<char>,
    pub files: Seq<FilePreviewView>,
    pub outputs: Seq<Seq<char>>,
}

impl View for Job {
    type V = JobView;

    closed spec fn view(&self) -> JobView {
        JobView {
            generation: self.generation,
            expression: self.expression@,
            files: preview_views(self.files@),
            outputs: self.outputs@,
        }
    }
}

impl JobView {
    /// The file whose turn it is.
    pub open spec fn current(self) -> FilePreviewView {
        self.files[self.outputs.len() as int]
    }

    /// The job after sed made `output` of the current file.
    pub open spec fn with_output(self, output: Seq<char>) -> JobView {
        JobView { outputs: self.outputs.push(output), ..self }
    }
}

impl Job {
    /// The collected report belongs to the finished files, and some file is left.
    #[verifier::type_invariant]
    spec fn in_order(self) -> bool {
        &&& self.finished == self.outputs@.len()
        &&& self.finished < self.files@.len()
        &&& line_views(self.lines@) == preview_lines(self@.files, self@.outputs)
        &&& self.truncated == any_truncated(self@.files, self.finished as int)
        &&& self.changed == changed_files(self@.files, self@.outputs)
    }
}

/// Where the worker stands.
pub enum Phase {
    /// Waiting for a request.
    Receiving,
    /// Looking whether a newer request has come in place of this one.
    Coalescing(WorkerRequest),
    /// Looking whether a newer request has come before the next file.
    BeforeFile(Job),
    /// A newer request has come: looking for a still newer one. Where sed runs, it is stopped
    /// after that.
    Superseding { latest: WorkerRequest, running: bool },
    /// Starting sed for a file.
    Spawning(Job),
    /// Writing a file's content to sed.
    Feeding(Job),
    /// Looking whether a newer request has come while sed runs.
    Watching(Job),
    /// Looking whether sed has ended.
    Checking(Job),
    /// Pausing before the next look.
    Resting(Job),
    /// Stopping sed for the sake of a newer request.
    Dropping(WorkerRequest),
    /// Stopping sed after an error.
    Failing { generation: u64, error: String },
    /// Running sed on the files in place.
    Applying { generation: u64 },
    /// Handing over a report.
    Reporting,
    /// Done for good.
    Stopped,
}

/// The model of [`Phase`].
#[verifier::ext_equal]
pub enum PhaseView {
    Receiving,
    Coalescing(RequestView),
    BeforeFile(JobView),
    Superseding { latest: RequestView, running: bool },
    Spawning(JobView),
    Feeding(JobView),
    Watching(JobView),
    Checking(JobView),
    Resting(JobView),
    Dropping(RequestView),
    Failing { generation: u64, error: Seq<char> },
    Applying { generation: u64 },
    Reporting,
    Stopped,
}

impl View for Phase {
    type V = PhaseView;

    open spec fn view(&self) -> PhaseView {
        match self {
            Phase::Receiving => PhaseView::Receiving,
            Phase::Coalescing(r) => PhaseView::Coalescing(r@),
            Phase::BeforeFile(j) => PhaseView::BeforeFile(j@),
            Phase::Superseding { latest, running } => PhaseView::Superseding {
                latest: latest@,
                running: *running,
            },
            Phase::Spawning(j) => PhaseView::Spawning(j@),
            Phase::Feeding(j) => PhaseView::Feeding(j@),
            Phase::Watching(j) => PhaseView::Watching(j@),
            Phase::Checking(j) => PhaseView::Checking(j@),
            Phase::Resting(j) => PhaseView::Resting(j@),
            Phase::Dropping(r) => PhaseView::Dropping(r@),
            Phase::Failing { generation, error } => PhaseView::Failing {
                generation: *generation,
                error: error@,
            },
            Phase::Applying { generation } => PhaseView::Applying { generation: *generation },
            Phase::Reporting => PhaseView::Reporting,
            Phase::Stopped => PhaseView::Stopped,
        }
    }
}

/// What the worker wants done.
#[derive(Debug)]
pub enum WorkerAction {
    /// Wait for a request.
    Receive,
    /// Look for a request without waiting.
    Poll,
    /// Hand over a report.
    Send(WorkerEvent),
    /// Start sed with these arguments, its input and outputs piped.
    SpawnSed(Vec<Vec<u8>>),
    /// Write this to sed's input, close it, and start to collect both outputs.
    FeedSed(String),
    /// Look whether sed has ended.
    CheckSed,
    /// Pause for a moment.
    Rest,
    /// Kill sed, wait for it, and drop its outputs.
    KillSed,
    /// Run sed with these arguments, without input, to its end.
    RunSed(Vec<Vec<u8>>),
    /// End.
    Stop,
}

/// The model of [`WorkerAction`].
#[verifier::ext_equal]
pub enum ActionView {
    Receive,
    Poll,
    Send(EventView),
    SpawnSed(Seq<Seq<u8>>),
    FeedSed(Seq<char>),
    CheckSed,
    Rest,
    KillSed,
    RunSed(Seq<Seq<u8>>),
    Stop,
}

impl View for WorkerAction {
    type V = ActionView;

    open spec fn view(&self) -> ActionView {
        match self {
            WorkerAction::Receive => ActionView::Receive,
            WorkerAction::Poll => ActionView::Poll,
            WorkerAction::Send(e) => ActionView::Send(e@),
            WorkerAction::SpawnSed(a) => ActionView::SpawnSed(arg_views(a@)),
            WorkerAction::FeedSed(s) => ActionView::FeedSed(s@),
            WorkerAction::CheckSed => ActionView::CheckSed,
            WorkerAction::Rest => ActionView::Rest,
            WorkerAction::KillSed => ActionView::KillSed,
            WorkerAction::RunSed(a) => ActionView::RunSed(arg_views(a@)),
            WorkerAction::Stop => ActionView::Stop,
        }
    }
}

/// What came of an action.
#[derive(Debug)]
pub enum WorkerInput {
    /// A request was there.
    Request(WorkerRequest),
    /// No request was there.
    Empty,
    /// No request can come any more.
    Closed,
    Sent,
    /// Nobody takes reports any more.
    NotSent,
    Spawned,
    SpawnFailed,
    Fed,
    /// Writing failed, with what the system says of it.
    FeedFailed(String),
    NoStdout,
    NoStderr,
    Running,
    Exited(SedExit),
    /// Looking failed, with what the system says of it.
    WaitFailed(String),
    Rested,
    Killed,
}

/// The model of [`WorkerInput`].
#[verifier::ext_equal]
pub enum InputView {
    Request(RequestView),
    Empty,
    Closed,
    Sent,
    NotSent,
    Spawned,
    SpawnFailed,
    Fed,
    FeedFailed(Seq<char>),
    NoStdout,
    NoStderr,
    Running,
    Exited(SedExitView),
    WaitFailed(Seq<char>),
    Rested,
    Killed,
}

impl View for WorkerInput {
    type V = InputView;

    open spec fn view(&self) -> InputView {
        match self {
            WorkerInput::Request(r) => InputView::Request(r@),
            WorkerInput::Empty => InputView::Empty,
            WorkerInput::Closed => InputView::Closed,
            WorkerInput::Sent => InputView::Sent,
            WorkerInput::NotSent => InputView::NotSent,
            WorkerInput::Spawned => InputView::Spawned,
            WorkerInput::SpawnFailed => InputView::SpawnFailed,
            WorkerInput::Fed => InputView::Fed,
            WorkerInput::FeedFailed(e) => InputView::FeedFailed(e@),
            WorkerInput::NoStdout => InputView::NoStdout,
            WorkerInput::NoStderr => InputView::NoStderr,
            WorkerInput::Running => InputView::Running,
            WorkerInput::Exited(x) => InputView::Exited(x@),
            WorkerInput::WaitFailed(e) => InputView::WaitFailed(e@),
            WorkerInput::Rested => InputView::Rested,
            WorkerInput::Killed => InputView::Killed,
        }
    }
}

/// The answer of a look for requests.
pub open spec fn polled(input: InputView) -> bool {
    input is Request || input is Empty || input is Closed
}

impl PhaseView {
    /// The input answers the last action. Of an output of sed, that it can be compared with the
    /// file's content line by line.
    pub open spec fn accepts(self, input: InputView) -> bool {
        match self {
            PhaseView::Receiving => input is Request || input is Closed,
            PhaseView::Coalescing(_) => polled(input),
            PhaseView::BeforeFile(_) => polled(input),
            PhaseView::Superseding { .. } => polled(input),
            PhaseView::Spawning(_) => input is Spawned || input is SpawnFailed,
            PhaseView::Feeding(_) => input is Fed || input is FeedFailed || input is NoStdout
                || input is NoStderr,
            PhaseView::Watching(_) => polled(input),
            PhaseView::Checking(job) => match input {
                InputView::Running => true,
                InputView::WaitFailed(_) => true,
                InputView::Exited(exit) => exit.success && valid_utf8(exit.stdout) ==> diffable(
                    job.current().content,
                    decode_utf8(exit.stdout),
                ),
                _ => false,
            },
            PhaseView::Resting(_) => input is Rested,
            PhaseView::Dropping(_) => input is Killed,
            PhaseView::Failing { .. } => input is Killed,
            PhaseView::Applying { .. } => input is Exited || input is SpawnFailed,
            PhaseView::Reporting => input is Sent || input is NotSent,
            PhaseView::Stopped => false,
        }
    }

    /// The worker after the answer, and what it wants done then.
    pub open spec fn next(self, sed_bin: Seq<u8>, input: InputView) -> (PhaseView, ActionView) {
        match self {
            PhaseView::Receiving => match input {
                InputView::Request(r) => (PhaseView::Coalescing(r), ActionView::Poll),
                _ => stopped(),
            },
            PhaseView::Coalescing(r) => match input {
                InputView::Request(newer) => (PhaseView::Coalescing(newer), ActionView::Poll),
                _ => served(r),
            },
            PhaseView::BeforeFile(job) => match input {
                InputView::Request(r) => superseding(r, false),
                InputView::Closed => (
                    PhaseView::Coalescing(RequestView::Shutdown),
                    ActionView::Poll,
                ),
                _ => (
                    PhaseView::Spawning(job),
                    ActionView::SpawnSed(filter_args(job.expression)),
                ),
            },
            PhaseView::Superseding { latest, running } => match input {
                InputView::Request(newer) => superseding(newer, running),
                _ => if running {
                    (PhaseView::Dropping(latest), ActionView::KillSed)
                } else {
                    (PhaseView::Coalescing(latest), ActionView::Poll)
                },
            },
            PhaseView::Spawning(job) => match input {
                InputView::Spawned => (
                    PhaseView::Feeding(job),
                    ActionView::FeedSed(job.current().content),
                ),
                _ => report(failed_event(job.generation, spawn_failure(sed_bin))),
            },
            PhaseView::Feeding(job) => match input {
                InputView::Fed => (PhaseView::Watching(job), ActionView::Poll),
                InputView::FeedFailed(e) => failing(
                    job.generation,
                    "failed writing to sed stdin: "@ + e,
                ),
                InputView::NoStdout => report(
                    failed_event(job.generation, "sed stdout missing"@),
                ),
                _ => report(failed_event(job.generation, "sed stderr missing"@)),
            },
            PhaseView::Watching(job) => match input {
                InputView::Request(r) => superseding(r, true),
                InputView::Closed => (
                    PhaseView::Dropping(RequestView::Shutdown),
                    ActionView::KillSed,
                ),
                _ => (PhaseView::Checking(job), ActionView::CheckSed),
            },
            PhaseView::Checking(job) => match input {
                InputView::Exited(exit) => match filter_result(exit) {
                    Ok(output) => after_file(job.with_output(output)),
                    Err(e) => report(failed_event(job.generation, e)),
                },
                InputView::WaitFailed(e) => failing(
                    job.generation,
                    "failed waiting for sed: "@ + e,
                ),
                _ => (PhaseView::Resting(job), ActionView::Rest),
            },
            PhaseView::Resting(job) => (PhaseView::Watching(job), ActionView::Poll),
            PhaseView::Dropping(latest) => (PhaseView::Coalescing(latest), ActionView::Poll),
            PhaseView::Failing { generation, error } => report(failed_event(generation, error)),
            PhaseView::Applying { generation } => report(
                EventView::ApplyFinished {
                    generation,
                    error: match input {
                        InputView::Exited(exit) => apply_failure(exit),
                        _ => Some(spawn_failure(sed_bin)),
                    },
                },
            ),
            PhaseView::Reporting => match input {
                InputView::Sent => (PhaseView::Receiving, ActionView::Receive),
                _ => stopped(),
            },
            PhaseView::Stopped => stopped(),
        }
    }
}

/// The end.
pub open spec fn stopped() -> (PhaseView, ActionView) {
    (PhaseView::Stopped, ActionView::Stop)
}

/// A report is handed over.
pub open spec fn report(event: EventView) -> (PhaseView, ActionView) {
    (PhaseView::Reporting, ActionView::Send(event))
}

/// A newer request has overtaken the preview.
pub open spec fn superseding(latest: RequestView, running: bool) -> (PhaseView, ActionView) {
    (PhaseView::Superseding { latest, running }, ActionView::Poll)
}

/// Sed is stopped after an error.
pub open spec fn failing(generation: u64, error: Seq<char>) -> (PhaseView, ActionView) {
    (PhaseView::Failing { generation, error }, ActionView::KillSed)
}

/// A job with one more file finished: the next file, or the report.
pub open spec fn after_file(job: JobView) -> (PhaseView, ActionView) {
    if job.outputs.len() < job.files.len() {
        (PhaseView::BeforeFile(job), ActionView::Poll)
    } else {
        report(ready_event(job.generation, job.files, job.outputs))
    }
}

/// A request is served.
pub open spec fn served(request: RequestView) -> (PhaseView, ActionView) {
    match request {
        RequestView::Shutdown => stopped(),
        RequestView::Preview { generation, expression, files } => if blank(expression) {
            report(remark_event(generation, type_remark()))
        } else if files.len() == 0 {
            report(remark_event(generation, no_files_remark()))
        } else {
            (
                PhaseView::BeforeFile(JobView { generation, expression, files, outputs: seq![] }),
                ActionView::Poll,
            )
        },
        RequestView::Apply { generation, expression, files, backup_suffix } => if blank(
            expression,
        ) {
            report(
                EventView::ApplyFinished { generation, error: Some("empty sed expression"@) },
            )
        } else if files.len() == 0 {
            report(EventView::ApplyFinished { generation, error: Some("no files to apply"@) })
        } else {
            (
                PhaseView::Applying { generation },
                ActionView::RunSed(apply_args(expression, files, backup_suffix)),
            )
        },
    }
}

/// The worker.
pub struct Worker {
    sed_bin: FilePath,
    phase: Phase,
}

/// The model of [`Worker`].
#[verifier::ext_equal]
pub struct WorkerView {
    pub sed_bin: Seq<u8>,
    pub phase: PhaseView,
}

impl View for Worker {
    type V = WorkerView;

    closed spec fn view(&self) -> WorkerView {
        WorkerView { sed_bin: self.sed_bin@, phase: self.phase@ }
    }
}

/// Serves a preview request.
fn run_preview(generation: u64, expression: String, files: Vec<FilePreview>) -> (r: (
    Phase,
    WorkerAction,
))
    ensures
        (r.0@, r.1@) == served(
            RequestView::Preview {
                generation,
                expression: expression@,
                files: preview_views(files@),
            },
        ),
{
    if is_blank(expression.as_str()) {
        return (
            Phase::Reporting,
            WorkerAction::Send(
                preview_remark(generation, " Type a sed expression to preview changes"),
            ),
        );
    }
    if files.len() == 0 {
        return (
            Phase::Reporting,
            WorkerAction::Send(
                preview_remark(generation, " No files found under . (or pass FILE args)"),
            ),
        );
    }
    let lines: Vec<Line> = Vec::new();
    assert(line_views(lines@) == Seq::<LineView>::empty());
    let job = Job {
        generation,
        expression,
        files,
        finished: 0,
        lines,
        truncated: false,
        changed: 0,
        outputs: Ghost(Seq::empty()),
    };
    (Phase::BeforeFile(job), WorkerAction::Poll)
}

/// Serves a request.
fn serve(request: WorkerRequest) -> (r: (Phase, WorkerAction))
    ensures
        (r.0@, r.1@) == served(request@),
{
    match request {
        WorkerRequest::Shutdown => (Phase::Stopped, WorkerAction::Stop),
        WorkerRequest::Preview { generation, expression, files } => run_preview(
            generation,
            expression,
            files,
        ),
        WorkerRequest::Apply { generation, expression, files, backup_suffix } => {
            match run_apply(expression.as_str(), &files, &backup_suffix) {
                Ok(args) => (Phase::Applying { generation }, WorkerAction::RunSed(args)),
                Err(e) => (
                    Phase::Reporting,
                    WorkerAction::Send(WorkerEvent::ApplyFinished { generation, error: Some(e) }),
                ),
            }
        },
    }
}

/// Adds what sed made of the current file to the report, and goes on to the next file or to
/// the report.
fn finish_file(job: Job, output: String) -> (r: (Phase, WorkerAction))
    requires
        diffable(job@.current().content, output@),
    ensures
        (r.0@, r.1@) == after_file(job@.with_output(output@)),
{
    proof {
        use_type_invariant(&job);
    }
    let ghost before = job@;
    let ghost after = job@.with_output(output@);
    let Job { generation, expression, files, finished: k, mut lines, truncated, changed, .. } = job;
    let total: usize = files.len();
    proof {
        assert(after.outputs.drop_last() == before.outputs);
        assert(before.files[k as int] == files@[k as int]@);
        lemma_changed_bound(before.files, before.outputs);
        lemma_any_truncated(after.files, k as int);
    }
    if k > 0 {
        push_line(&mut lines, Line::empty());
    }
    let shown = files[k].path.display();
    let mut name = text("--- ");
    name.append(shown.as_str());
    push_line(&mut lines, Line::styled(name, Style::bold(Color::Yellow)));
    let mut name = text("+++ ");
    name.append(shown.as_str());
    push_line(&mut lines, Line::styled(name, Style::bold(Color::Yellow)));
    let diff = diff_lines(files[k].content.as_str(), output.as_str(), DIFF_CONTEXT);
    append_lines(&mut lines, diff);
    assert(line_views(lines@) == preview_lines(after.files, after.outputs));
    let same = same_text(files[k].content.as_str(), output.as_str());
    let changed: usize = if same {
        changed
    } else {
        changed + 1
    };
    let truncated = truncated || files[k].truncated;
    let finished: usize = k + 1;
    if finished < total {
        let job = Job {
            generation,
            expression,
            files,
            finished,
            lines,
            truncated,
            changed,
            outputs: Ghost(after.outputs),
        };
        (Phase::BeforeFile(job), WorkerAction::Poll)
    } else {
        (
            Phase::Reporting,
            WorkerAction::Send(
                WorkerEvent::PreviewReady {
                    generation,
                    lines,
                    truncated,
                    changed,
                    shown: changed,
                    scanned: finished,
                    done: true,
                    error: None,
                },
            ),
        )
    }
}

/// Looks at what a look for a newer request found. `None` where there was none; else the
/// preview is given up, and where sed runs it is to be stopped.
fn take_pending(input: WorkerInput, running: bool) -> (r: Option<(Phase, WorkerAction)>)
    requires
        polled(input@),
    ensures
        r is None <==> input@ is Empty,
        r matches Some(step) ==> (step.0@, step.1@) == match input@ {
            InputView::Request(newer) => superseding(newer, running),
            _ => if running {
                (PhaseView::Dropping(RequestView::Shutdown), ActionView::KillSed)
            } else {
                (PhaseView::Coalescing(RequestView::Shutdown), ActionView::Poll)
            },
        },
{
    match input {
        WorkerInput::Request(newer) => Some(
            (Phase::Superseding { latest: newer, running }, WorkerAction::Poll),
        ),
        WorkerInput::Closed => {
            if running {
                Some((Phase::Dropping(WorkerRequest::Shutdown), WorkerAction::KillSed))
            } else {
                Some((Phase::Coalescing(WorkerRequest::Shutdown), WorkerAction::Poll))
            }
        },
        _ => None,
    }
}

/// A failed preview is reported.
fn fail(generation: u64, error: String) -> (r: (Phase, WorkerAction))
    ensures
        (r.0@, r.1@) == report(failed_event(generation, error@)),
{
    (Phase::Reporting, WorkerAction::Send(preview_failed(generation, error)))
}

/// Sed is stopped after an error, of which `reason` and what the system says of it will be told.
fn stop_failed(generation: u64, reason: &str, detail: String) -> (r: (Phase, WorkerAction))
    ensures
        (r.0@, r.1@) == failing(generation, reason@ + detail@),
{
    let mut error = text(reason);
    error.append(detail.as_str());
    (Phase::Failing { generation, error }, WorkerAction::KillSed)
}

/// One step of a run of sed on one file.
fn run_sed_stdin(sed_bin: &FilePath, phase: Phase, input: WorkerInput) -> (r: (
    Phase,
    WorkerAction,
))
    requires
        phase@ is Spawning || phase@ is Feeding || phase@ is Watching || phase@ is Checking
            || phase@ is Resting,
        phase@.accepts(input@),
    ensures
        (r.0@, r.1@) == phase@.next(sed_bin@, input@),
{
    match phase {
        Phase::Spawning(job) => match input {
            WorkerInput::Spawned => {
                proof {
                    use_type_invariant(&job);
                }
                let content = job.files[job.finished].content.clone();
                (Phase::Feeding(job), WorkerAction::FeedSed(content))
            },
            _ => fail(job.generation, spawn_error(sed_bin)),
        },
        Phase::Feeding(job) => match input {
            WorkerInput::Fed => (Phase::Watching(job), WorkerAction::Poll),
            WorkerInput::FeedFailed(e) => stop_failed(
                job.generation,
                "failed writing to sed stdin: ",
                e,
            ),
            WorkerInput::NoStdout => fail(job.generation, text("sed stdout missing")),
            _ => fail(job.generation, text("sed stderr missing")),
        },
        Phase::Watching(job) => match take_pending(input, true) {
            Some(step) => step,
            None => (Phase::Checking(job), WorkerAction::CheckSed),
        },
        Phase::Checking(job) => match input {
            WorkerInput::Exited(exit) => match filter_output(exit) {
                Ok(output) => finish_file(job, output),
                Err(e) => fail(job.generation, e),
            },
            WorkerInput::WaitFailed(e) => stop_failed(
                job.generation,
                "failed waiting for sed: ",
                e,
            ),
            _ => (Phase::Resting(job), WorkerAction::Rest),
        },
        Phase::Resting(job) => (Phase::Watching(job), WorkerAction::Poll),
        other => (other, WorkerAction::Stop),
    }
}

impl Worker {
    /// A worker that runs the sed at `sed_bin`. It first waits for a request.
    pub fn new(sed_bin: FilePath) -> (r: Worker)
        ensures
            r@ == (WorkerView { sed_bin: sed_bin@, phase: PhaseView::Receiving }),
    {
        Worker { sed_bin, phase: Phase::Receiving }
    }

    /// Whether the end of sed can be taken in: where its output is used, it has to be comparable
    /// with the file's content.
    pub fn takes(&self, exit: &SedExit) -> (b: bool)
        requires
            self@.phase is Checking,
        ensures
            b == self@.phase.accepts(InputView::Exited(exit@)),
    {
        if !exit.success {
            return true;
        }
        match &self.phase {
            Phase::Checking(job) => {
                proof {
                    use_type_invariant(job);
                }
                match utf8_strict(copy_bytes(&exit.stdout)) {
                    Some(output) => comparable(
                        job.files[job.finished].content.as_str(),
                        output.as_str(),
                    ),
                    None => true,
                }
            },
            _ => true,
        }
    }

    /// Takes what came of the last action, and says what to do next.
    pub fn worker_loop(&mut self, input: WorkerInput) -> (action: WorkerAction)
        requires
            old(self)@.phase.accepts(input@),
        ensures
            final(self)@.sed_bin == old(self)@.sed_bin,
            (final(self)@.phase, action@) == old(self)@.phase.next(old(self)@.sed_bin, input@),
    {
        let mut phase = Phase::Stopped;
        std::mem::swap(&mut phase, &mut self.phase);
        let (next, action) = match phase {
            Phase::Receiving => match input {
                WorkerInput::Request(r) => (Phase::Coalescing(r), WorkerAction::Poll),
                _ => (Phase::Stopped, WorkerAction::Stop),
            },
            Phase::Coalescing(r) => match input {
                WorkerInput::Request(newer) => (Phase::Coalescing(newer), WorkerAction::Poll),
                _ => serve(r),
            },
            Phase::BeforeFile(job) => match take_pending(input, false) {
                Some(step) => step,
                None => {
                    let args = stdin_args(job.expression.as_str());
                    (Phase::Spawning(job), WorkerAction::SpawnSed(args))
                },
            },
            Phase::Superseding { latest, running } => match input {
                WorkerInput::Request(newer) => (
                    Phase::Superseding { latest: newer, running },
                    WorkerAction::Poll,
                ),
                _ => {
                    if running {
                        (Phase::Dropping(latest), WorkerAction::KillSed)
                    } else {
                        (Phase::Coalescing(latest), WorkerAction::Poll)
                    }
                },
            },
            Phase::Dropping(latest) => (Phase::Coalescing(latest), WorkerAction::Poll),
            Phase::Failing { generation, error } => fail(generation, error),
            Phase::Applying { generation } => {
                let error = match input {
                    WorkerInput::Exited(exit) => apply_error(&exit),
                    _ => Some(spawn_error(&self.sed_bin)),
                };
                (
                    Phase::Reporting,
                    WorkerAction::Send(WorkerEvent::ApplyFinished { generation, error }),
                )
            },
            Phase::Reporting => match input {
                WorkerInput::Sent => (Phase::Receiving, WorkerAction::Receive),
                _ => (Phase::Stopped, WorkerAction::Stop),
            },
            other => run_sed_stdin(&self.sed_bin, other, input),
        };
        self.phase = next;
        action
    }
}

proof fn lemma_any_truncated(files: Seq<FilePreviewView>, n: int)
    requires
        0 <= n < files.len(),
    ensures
        any_truncated(files, n + 1) == (any_truncated(files, n) || files[n].truncated),
{
    if any_truncated(files, n) {
        let k = choose|k: int| 0 <= k < n && (#[trigger] files[k]).truncated;
        assert(files[k].truncated);
    }
    if any_truncated(files, n + 1) && !files[n].truncated {
        let k = choose|k: int| 0 <= k < n + 1 && (#[trigger] files[k]).truncated;
        assert(files[k].truncated);
    }
}

proof fn lemma_changed_bound(files: Seq<FilePreviewView>, outputs: Seq<Seq<char>>)
    ensures
        changed_files(files, outputs) <= outputs.len(),
    decreases outputs.len(),
{
    if outputs.len() > 0 {
        lemma_changed_bound(files, outputs.drop_last());
    }
}

/// The first file that could not be read, or the number of files.
pub open spec fn first_unread(contents: Seq<Option<Seq<u8>>>) -> nat
    decreases contents.len(),
{
    if contents.len() == 0 || contents[0] is None {
        0
    } else {
        1 + first_unread(contents.skip(1))
    }
}

/// What becomes of a preview, from what the files to be shown hold: a request for the worker,
/// or the report that a file could not be read.
pub open spec fn preview_order(
    generation: u64,
    expression: Seq<char>,
    paths: Seq<Seq<u8>>,
    contents: Seq<Option<Seq<u8>>>,
) -> Result<RequestView, EventView> {
    let k = first_unread(contents);
    if k < contents.len() {
        Err(failed_event(generation, "reading "@ + utf8_lossy_text(paths[k as int])))
    } else {
        Ok(
            RequestView::Preview {
                generation,
                expression,
                files: Seq::new(contents.len(), |i: int| loaded(paths[i], contents[i]->Some_0)),
            },
        )
    }
}

/// The view of what a file holds, where it could be read.
pub open spec fn content_views(v: Seq<Option<Vec<u8>>>) -> Seq<Option<Seq<u8>>> {
    v.map_values(
        |c: Option<Vec<u8>>|
            match c {
                Some(raw) => Some(raw@),
                None => None,
            },
    )
}

proof fn lemma_first_unread(contents: Seq<Option<Seq<u8>>>, k: int)
    requires
        0 <= k <= contents.len(),
        forall|i: int| 0 <= i < k ==> contents[i] is Some,
        k < contents.len() ==> contents[k] is None,
    ensures
        first_unread(contents) == k,
    decreases k,
{
    if k > 0 {
        lemma_first_unread(contents.skip(1), k - 1);
    }
}

/// Makes a preview request of what the files hold, with `None` for a file that could not be
/// read. Where there is such a file, the report that says so of the first.
pub fn preview_request(
    generation: u64,
    expression: String,
    paths: Vec<FilePath>,
    contents: Vec<Option<Vec<u8>>>,
) -> (r: Result<WorkerRequest, WorkerEvent>)
    requires
        paths@.len() == contents@.len(),
    ensures
        ({
            let order = preview_order(
                generation,
                expression@,
                path_views(paths@),
                content_views(contents@),
            );
            &&& r matches Ok(request) ==> order == Ok::<RequestView, EventView>(request@)
            &&& r matches Err(event) ==> order == Err::<RequestView, EventView>(event@)
        }),
{
    let ghost all = content_views(contents@);
    let ghost names = path_views(paths@);
    let mut files: Vec<FilePreview> = Vec::new();
    let mut rest = contents;
    let n: usize = paths.len();
    let mut k: usize = 0;
    while k < n
        invariant
            k <= n == paths@.len() == all.len(),
            names == path_views(paths@),
            all == content_views(contents@),
            content_views(rest@) == all.skip(k as int),
            forall|i: int| 0 <= i < k ==> all[i] is Some,
            preview_views(files@) == Seq::new(k as nat, |i: int| loaded(names[i], all[i]->Some_0)),
        decreases n - k,
    {
        assert(content_views(rest@).len() == rest@.len());
        assert(content_views(rest@)[0] == all[k as int]);
        assert(content_views(rest@.remove(0)) == all.skip(k + 1)) by {
            assert(content_views(rest@.remove(0)) == content_views(rest@).skip(1));
        }
        match rest.remove(0) {
            Some(raw) => {
                let ghost before = preview_views(files@);
                assert(all[k as int] == Some(raw@));
                files.push(load_preview_file(paths[k].clone(), raw));
                assert(preview_views(files@) == before.push(loaded(names[k as int], raw@)));
            },
            None => {
                proof {
                    lemma_first_unread(all, k as int);
                }
                return Err(preview_failed(generation, unreadable(&paths[k])));
            },
        }
        k = k + 1;
    }
    proof {
        lemma_first_unread(all, n as int);
    }
    Ok(WorkerRequest::Preview { generation, expression, files })
}

} // verus!
