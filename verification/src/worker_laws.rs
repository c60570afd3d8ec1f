//! What holds of the worker over whole series of answers.
use vstd::prelude::*;
use vstd::utf8::{
    decode_utf8_encode_utf8, encode_utf8, encode_utf8_decode_utf8, encode_utf8_valid_utf8,
    valid_utf8,
};

use crate::diff_laws::{law_hunk_stretches, shown_lines};
use crate::diff_view::{
    diff_view, diffable, equal_lines, joined_up, line_tokens, op_lines, side, similar_grouped_ops,
    within,
};
use crate::path::path_views;
use crate::preview::{loaded, preview_views, FilePreview, FilePreviewView};
use crate::sed::{apply_args, filter_args, filter_result, SedExitView};
use crate::sed_laws::{code_text, law_filter_outcome};
use crate::styled::{line_views, raw_line, Color, LineView, SpanView, Style};
use crate::text::{blank, opt_text, trimmed, utf8_lossy_text};
use crate::worker::{
    after_file, any_truncated, changed_files, content_views, first_unread, preview_lines,
    preview_order, ready_event, report, served, stopped, superseding, ActionView, EventView,
    InputView, JobView, PhaseView, RequestView, WorkerEvent, WorkerRequest,
};

verus! {

/// The steps of the worker over a series of answers, from where it stands and what it wants done.
pub open spec fn walk(
    at: (PhaseView, ActionView),
    sed_bin: Seq<u8>,
    inputs: Seq<InputView>,
) -> (PhaseView, ActionView)
    decreases inputs.len(),
{
    if inputs.len() == 0 {
        at
    } else {
        walk(at.0.next(sed_bin, inputs[0]), sed_bin, inputs.skip(1))
    }
}

/// Each answer of a series is one to the action before it.
pub open spec fn answered(phase: PhaseView, sed_bin: Seq<u8>, inputs: Seq<InputView>) -> bool
    decreases inputs.len(),
{
    inputs.len() > 0 ==> {
        &&& phase.accepts(inputs[0])
        &&& answered(phase.next(sed_bin, inputs[0]).0, sed_bin, inputs.skip(1))
    }
}

/// The reports that the worker hands over in the course of a series of answers.
pub open spec fn reports(phase: PhaseView, sed_bin: Seq<u8>, inputs: Seq<InputView>) -> Seq<
    EventView,
>
    decreases inputs.len(),
{
    if inputs.len() == 0 {
        seq![]
    } else {
        let (next, action) = phase.next(sed_bin, inputs[0]);
        let first: Seq<EventView> = match action {
            ActionView::Send(event) => seq![event],
            _ => seq![],
        };
        first + reports(next, sed_bin, inputs.skip(1))
    }
}

/// Requests that come one after the other.
pub open spec fn arriving(requests: Seq<RequestView>) -> Seq<InputView> {
    Seq::new(requests.len(), |k: int| InputView::Request(requests[k]))
}

proof fn lemma_walk_on(
    at: (PhaseView, ActionView),
    sed_bin: Seq<u8>,
    a: Seq<InputView>,
    b: Seq<InputView>,
)
    ensures
        walk(at, sed_bin, a + b) == walk(walk(at, sed_bin, a), sed_bin, b),
        reports(at.0, sed_bin, a + b) == reports(at.0, sed_bin, a) + reports(
            walk(at, sed_bin, a).0,
            sed_bin,
            b,
        ),
        answered(at.0, sed_bin, a + b) == (answered(at.0, sed_bin, a) && answered(
            walk(at, sed_bin, a).0,
            sed_bin,
            b,
        )),
    decreases a.len(),
{
    if a.len() == 0 {
        assert(a + b == b);
    } else {
        assert((a + b)[0] == a[0]);
        assert((a + b).skip(1) == a.skip(1) + b);
        lemma_walk_on(at.0.next(sed_bin, a[0]), sed_bin, a.skip(1), b);
    }
}

proof fn lemma_walk_one(at: (PhaseView, ActionView), sed_bin: Seq<u8>, input: InputView)
    ensures
        walk(at, sed_bin, seq![input]) == at.0.next(sed_bin, input),
        answered(at.0, sed_bin, seq![input]) == at.0.accepts(input),
        reports(at.0, sed_bin, seq![input]) == match at.0.next(sed_bin, input).1 {
            ActionView::Send(event) => seq![event],
            _ => seq![],
        },
{
    reveal_with_fuel(walk, 2);
    reveal_with_fuel(answered, 2);
    reveal_with_fuel(reports, 2);
    assert(seq![input].skip(1) == Seq::<InputView>::empty());
}

/// The latest request wins: of requests that wait together only the last is served.
pub proof fn law_latest_request_wins(sed_bin: Seq<u8>, requests: Seq<RequestView>)
    requires
        requests.len() > 0,
    ensures
        answered(PhaseView::Receiving, sed_bin, arriving(requests).push(InputView::Empty)),
        walk(
            (PhaseView::Receiving, ActionView::Receive),
            sed_bin,
            arriving(requests).push(InputView::Empty),
        ) == served(requests.last()),
{
    let at = (PhaseView::Receiving, ActionView::Receive);
    lemma_coalesce(sed_bin, requests);
    lemma_walk_on(at, sed_bin, arriving(requests), seq![InputView::Empty]);
    lemma_walk_one(walk(at, sed_bin, arriving(requests)), sed_bin, InputView::Empty);
    assert(arriving(requests).push(InputView::Empty) == arriving(requests) + seq![
        InputView::Empty,
    ]);
}

proof fn lemma_coalesce(sed_bin: Seq<u8>, requests: Seq<RequestView>)
    requires
        requests.len() > 0,
    ensures
        answered(PhaseView::Receiving, sed_bin, arriving(requests)),
        walk((PhaseView::Receiving, ActionView::Receive), sed_bin, arriving(requests)) == (
            PhaseView::Coalescing(requests.last()),
            ActionView::Poll,
        ),
    decreases requests.len(),
{
    let at = (PhaseView::Receiving, ActionView::Receive);
    let input = InputView::Request(requests.last());
    let before = requests.drop_last();
    assert(arriving(requests) == arriving(before) + seq![input]);
    if before.len() > 0 {
        lemma_coalesce(sed_bin, before);
    } else {
        assert(arriving(before) == Seq::<InputView>::empty());
    }
    lemma_walk_on(at, sed_bin, arriving(before), seq![input]);
    lemma_walk_one(walk(at, sed_bin, arriving(before)), sed_bin, input);
}

proof fn lemma_overtake(phase: PhaseView, sed_bin: Seq<u8>, requests: Seq<RequestView>)
    requires
        requests.len() > 0,
        phase is BeforeFile || phase is Watching,
    ensures
        answered(phase, sed_bin, arriving(requests)),
        walk((phase, ActionView::Poll), sed_bin, arriving(requests)) == superseding(
            requests.last(),
            phase is Watching,
        ),
        reports(phase, sed_bin, arriving(requests)) == Seq::<EventView>::empty(),
    decreases requests.len(),
{
    let at = (phase, ActionView::Poll);
    let input = InputView::Request(requests.last());
    let before = requests.drop_last();
    assert(arriving(requests) == arriving(before) + seq![input]);
    if before.len() > 0 {
        lemma_overtake(phase, sed_bin, before);
    } else {
        assert(arriving(before) == Seq::<InputView>::empty());
    }
    lemma_walk_on(at, sed_bin, arriving(before), seq![input]);
    lemma_walk_one(walk(at, sed_bin, arriving(before)), sed_bin, input);
}

/// What follows on requests that overtake a preview: a look that finds no more, and the end of
/// sed where it runs.
pub open spec fn settling(phase: PhaseView) -> Seq<InputView> {
    if phase is Watching {
        seq![InputView::Empty, InputView::Killed]
    } else {
        seq![InputView::Empty]
    }
}

/// A preview that newer requests overtake, between files or while sed runs, reports nothing:
/// the worker stops sed where it runs, and turns to the last of the requests.
pub proof fn law_overtaken_preview_is_silent(
    phase: PhaseView,
    sed_bin: Seq<u8>,
    requests: Seq<RequestView>,
)
    requires
        requests.len() > 0,
        phase is BeforeFile || phase is Watching,
    ensures
        answered(phase, sed_bin, arriving(requests) + settling(phase)),
        reports(phase, sed_bin, arriving(requests) + settling(phase)) == Seq::<EventView>::empty(),
        walk((phase, ActionView::Poll), sed_bin, arriving(requests) + settling(phase)) == (
            PhaseView::Coalescing(requests.last()),
            ActionView::Poll,
        ),
        phase is Watching ==> walk(
            (phase, ActionView::Poll),
            sed_bin,
            arriving(requests).push(InputView::Empty),
        ).1 == ActionView::KillSed,
{
    let at = (phase, ActionView::Poll);
    lemma_overtake(phase, sed_bin, requests);
    let over = walk(at, sed_bin, arriving(requests));
    lemma_walk_on(at, sed_bin, arriving(requests), settling(phase));
    lemma_walk_on(at, sed_bin, arriving(requests), seq![InputView::Empty]);
    lemma_walk_one(over, sed_bin, InputView::Empty);
    assert(arriving(requests).push(InputView::Empty) == arriving(requests) + seq![
        InputView::Empty,
    ]);
    if phase is Watching {
        lemma_walk_on(over, sed_bin, seq![InputView::Empty], seq![InputView::Killed]);
        lemma_walk_one(
            over.0.next(sed_bin, InputView::Empty),
            sed_bin,
            InputView::Killed,
        );
        assert(settling(phase) == seq![InputView::Empty] + seq![InputView::Killed]);
    }
}

/// A run of sed that `looks` looks find still at work and that then ends well.
pub open spec fn rounds(looks: nat) -> Seq<InputView>
    decreases looks,
{
    if looks == 0 {
        seq![]
    } else {
        seq![InputView::Running, InputView::Rested, InputView::Empty] + rounds(
            (looks - 1) as nat,
        )
    }
}

/// How the worker is answered over one file where no newer request comes and sed ends well
/// after `looks` looks.
pub open spec fn quiet_file(looks: nat, exit: SedExitView) -> Seq<InputView> {
    seq![InputView::Empty, InputView::Spawned, InputView::Fed, InputView::Empty] + rounds(looks)
        + seq![InputView::Exited(exit)]
}

/// How the worker is answered over the files of a preview, one after the other.
pub open spec fn quiet_run(looks: Seq<nat>, exits: Seq<SedExitView>) -> Seq<InputView>
    decreases exits.len(),
{
    if exits.len() == 0 {
        seq![]
    } else {
        quiet_file(looks[0], exits[0]) + quiet_run(looks.skip(1), exits.skip(1))
    }
}

/// The runs of sed end well, and give `outputs`.
pub open spec fn good_exits(
    files: Seq<FilePreviewView>,
    exits: Seq<SedExitView>,
    outputs: Seq<Seq<char>>,
) -> bool {
    &&& exits.len() == files.len()
    &&& outputs.len() == files.len()
    &&& forall|k: int|
        0 <= k < files.len() ==> {
            &&& #[trigger] filter_result(exits[k]) == Ok::<Seq<char>, Seq<char>>(outputs[k])
            &&& diffable(files[k].content, outputs[k])
        }
}

proof fn lemma_rounds(job: JobView, sed_bin: Seq<u8>, looks: nat)
    ensures
        walk((PhaseView::Checking(job), ActionView::CheckSed), sed_bin, rounds(looks)) == (
            PhaseView::Checking(job),
            ActionView::CheckSed,
        ),
        answered(PhaseView::Checking(job), sed_bin, rounds(looks)),
        reports(PhaseView::Checking(job), sed_bin, rounds(looks)) == Seq::<EventView>::empty(),
    decreases looks,
{
    if looks > 0 {
        let at = (PhaseView::Checking(job), ActionView::CheckSed);
        let first = seq![InputView::Running, InputView::Rested, InputView::Empty];
        lemma_rounds(job, sed_bin, (looks - 1) as nat);
        lemma_walk_on(at, sed_bin, first, rounds((looks - 1) as nat));
        lemma_walk_on(
            at,
            sed_bin,
            seq![InputView::Running],
            seq![InputView::Rested, InputView::Empty],
        );
        assert(first == seq![InputView::Running] + seq![InputView::Rested, InputView::Empty]);
        lemma_walk_one(at, sed_bin, InputView::Running);
        let at = at.0.next(sed_bin, InputView::Running);
        lemma_walk_on(at, sed_bin, seq![InputView::Rested], seq![InputView::Empty]);
        assert(seq![InputView::Rested, InputView::Empty] == seq![InputView::Rested] + seq![
            InputView::Empty,
        ]);
        lemma_walk_one(at, sed_bin, InputView::Rested);
        lemma_walk_one(at.0.next(sed_bin, InputView::Rested), sed_bin, InputView::Empty);
    }
}

proof fn lemma_quiet_file(job: JobView, sed_bin: Seq<u8>, looks: nat, exit: SedExitView)
    requires
        filter_result(exit) matches Ok(output) && diffable(job.current().content, output),
    ensures
        walk((PhaseView::BeforeFile(job), ActionView::Poll), sed_bin, quiet_file(looks, exit))
            == after_file(job.with_output(filter_result(exit)->Ok_0)),
        answered(PhaseView::BeforeFile(job), sed_bin, quiet_file(looks, exit)),
        reports(PhaseView::BeforeFile(job), sed_bin, quiet_file(looks, exit)) == match after_file(
            job.with_output(filter_result(exit)->Ok_0),
        ).1 {
            ActionView::Send(event) => seq![event],
            _ => seq![],
        },
{
    let start = (PhaseView::BeforeFile(job), ActionView::Poll);
    let opening = seq![InputView::Empty, InputView::Spawned, InputView::Fed, InputView::Empty];
    let checking = (PhaseView::Checking(job), ActionView::CheckSed);
    assert(walk(start, sed_bin, opening) == checking && answered(start.0, sed_bin, opening)
        && reports(start.0, sed_bin, opening) == Seq::<EventView>::empty()) by {
        let o1 = seq![InputView::Spawned, InputView::Fed, InputView::Empty];
        let o2 = seq![InputView::Fed, InputView::Empty];
        assert(opening == seq![InputView::Empty] + o1);
        assert(o1 == seq![InputView::Spawned] + o2);
        assert(o2 == seq![InputView::Fed] + seq![InputView::Empty]);
        let s1 = start.0.next(sed_bin, InputView::Empty);
        let s2 = s1.0.next(sed_bin, InputView::Spawned);
        let s3 = s2.0.next(sed_bin, InputView::Fed);
        lemma_walk_on(start, sed_bin, seq![InputView::Empty], o1);
        lemma_walk_one(start, sed_bin, InputView::Empty);
        lemma_walk_on(s1, sed_bin, seq![InputView::Spawned], o2);
        lemma_walk_one(s1, sed_bin, InputView::Spawned);
        lemma_walk_on(s2, sed_bin, seq![InputView::Fed], seq![InputView::Empty]);
        lemma_walk_one(s2, sed_bin, InputView::Fed);
        lemma_walk_one(s3, sed_bin, InputView::Empty);
    }
    lemma_rounds(job, sed_bin, looks);
    lemma_walk_on(start, sed_bin, opening, rounds(looks));
    lemma_walk_on(start, sed_bin, opening + rounds(looks), seq![InputView::Exited(exit)]);
    lemma_walk_one(checking, sed_bin, InputView::Exited(exit));
}

/// A preview that no newer request overtakes, and in which every run of sed ends well, makes one
/// report: for every file, in order, the diff from its content to what sed made of it.
pub proof fn law_quiet_preview_reports_all(
    sed_bin: Seq<u8>,
    generation: u64,
    expression: Seq<char>,
    files: Seq<FilePreviewView>,
    looks: Seq<nat>,
    exits: Seq<SedExitView>,
    outputs: Seq<Seq<char>>,
)
    requires
        !blank(expression),
        files.len() > 0,
        looks.len() == files.len(),
        good_exits(files, exits, outputs),
    ensures
        ({
            let start = served(RequestView::Preview { generation, expression, files });
            &&& answered(start.0, sed_bin, quiet_run(looks, exits))
            &&& reports(start.0, sed_bin, quiet_run(looks, exits)) == seq![
                ready_event(generation, files, outputs),
            ]
            &&& walk(start, sed_bin, quiet_run(looks, exits)) == report(
                ready_event(generation, files, outputs),
            )
        }),
{
    let job = JobView { generation, expression, files, outputs: seq![] };
    assert(outputs.take(0) == Seq::<Seq<char>>::empty());
    assert(looks.skip(0) == looks);
    assert(exits.skip(0) == exits);
    lemma_quiet_rest(sed_bin, job, looks, exits, outputs, 0);
}

proof fn lemma_quiet_rest(
    sed_bin: Seq<u8>,
    job: JobView,
    looks: Seq<nat>,
    exits: Seq<SedExitView>,
    outputs: Seq<Seq<char>>,
    k: int,
)
    requires
        0 <= k < job.files.len(),
        looks.len() == job.files.len(),
        good_exits(job.files, exits, outputs),
        job.outputs == outputs.take(k),
    ensures
        answered(PhaseView::BeforeFile(job), sed_bin, quiet_run(looks.skip(k), exits.skip(k))),
        reports(PhaseView::BeforeFile(job), sed_bin, quiet_run(looks.skip(k), exits.skip(k)))
            == seq![ready_event(job.generation, job.files, outputs)],
        walk(
            (PhaseView::BeforeFile(job), ActionView::Poll),
            sed_bin,
            quiet_run(looks.skip(k), exits.skip(k)),
        ) == report(ready_event(job.generation, job.files, outputs)),
    decreases job.files.len() - k,
{
    let start = (PhaseView::BeforeFile(job), ActionView::Poll);
    let next = job.with_output(outputs[k]);
    assert(filter_result(exits[k]) == Ok::<Seq<char>, Seq<char>>(outputs[k]));
    assert(next.outputs == outputs.take(k + 1));
    assert(looks.skip(k).skip(1) == looks.skip(k + 1));
    assert(exits.skip(k).skip(1) == exits.skip(k + 1));
    let rest = quiet_run(looks.skip(k + 1), exits.skip(k + 1));
    lemma_quiet_file(job, sed_bin, looks[k], exits[k]);
    lemma_walk_on(start, sed_bin, quiet_file(looks[k], exits[k]), rest);
    if k + 1 < job.files.len() {
        lemma_quiet_rest(sed_bin, next, looks, exits, outputs, k + 1);
    } else {
        assert(outputs.take(k + 1) == outputs);
        assert(rest == Seq::<InputView>::empty());
    }
}

impl RequestView {
    /// The number of the request.
    pub open spec fn generation(self) -> Option<u64> {
        match self {
            RequestView::Preview { generation, .. } => Some(generation),
            RequestView::Apply { generation, .. } => Some(generation),
            RequestView::Shutdown => None,
        }
    }
}

impl EventView {
    /// The number of the request that the report answers.
    pub open spec fn generation(self) -> u64 {
        match self {
            EventView::PreviewReady { generation, .. } => generation,
            EventView::ApplyFinished { generation, .. } => generation,
        }
    }
}

impl PhaseView {
    /// The number of the request that the worker works on.
    pub open spec fn generation(self) -> Option<u64> {
        match self {
            PhaseView::Coalescing(r) => r.generation(),
            PhaseView::Superseding { latest, .. } => latest.generation(),
            PhaseView::Dropping(r) => r.generation(),
            PhaseView::BeforeFile(job) => Some(job.generation),
            PhaseView::Spawning(job) => Some(job.generation),
            PhaseView::Feeding(job) => Some(job.generation),
            PhaseView::Watching(job) => Some(job.generation),
            PhaseView::Checking(job) => Some(job.generation),
            PhaseView::Resting(job) => Some(job.generation),
            PhaseView::Failing { generation, .. } => Some(generation),
            PhaseView::Applying { generation } => Some(generation),
            PhaseView::Receiving => None,
            PhaseView::Reporting => None,
            PhaseView::Stopped => None,
        }
    }
}

/// Every report carries the number of the request that the worker works on, and that number
/// changes only as a newer request comes, or as the work ends.
pub proof fn law_reports_answer_requests(phase: PhaseView, sed_bin: Seq<u8>, input: InputView)
    requires
        phase.accepts(input),
    ensures
        phase.next(sed_bin, input).1 matches ActionView::Send(event) ==> phase.generation() == Some(
            event.generation(),
        ),
        match input {
            InputView::Request(r) => phase.next(sed_bin, input).0.generation() == r.generation(),
            _ => phase.next(sed_bin, input).0.generation() is None || phase.next(
                sed_bin,
                input,
            ).0.generation() == phase.generation(),
        },
{
}

/// A preview that failed shows no lines.
pub proof fn law_failure_shows_no_lines(phase: PhaseView, sed_bin: Seq<u8>, input: InputView)
    ensures
        phase.next(sed_bin, input).1 matches ActionView::Send(
            EventView::PreviewReady { lines, truncated, error, .. },
        ) ==> (error is Some ==> lines.len() == 0 && !truncated),
{
}

/// Files are changed only where an apply request is served: sed is run in place then and only
/// then, and a preview runs it as a filter.
pub proof fn law_only_apply_edits_files(phase: PhaseView, sed_bin: Seq<u8>, input: InputView)
    ensures
        phase.next(sed_bin, input).1 matches ActionView::RunSed(args) ==> {
            &&& phase matches PhaseView::Coalescing(
                RequestView::Apply { expression, files, backup_suffix, .. },
            )
            &&& !blank(expression)
            &&& files.len() > 0
            &&& args == apply_args(expression, files, backup_suffix)
        },
        phase.next(sed_bin, input).1 matches ActionView::SpawnSed(args) ==> {
            &&& phase matches PhaseView::BeforeFile(job)
            &&& args == filter_args(job.expression)
        },
{
}

/// A worker that is told to end, or that no request can reach any more, ends: at once, or after
/// sed is stopped where it runs.
pub proof fn law_shutdown(phase: PhaseView, sed_bin: Seq<u8>, last: InputView)
    requires
        last is Empty || last is Closed,
    ensures
        PhaseView::Receiving.next(sed_bin, InputView::Closed) == stopped(),
        PhaseView::Coalescing(RequestView::Shutdown).next(sed_bin, last) == stopped(),
        phase is BeforeFile ==> walk(
            (phase, ActionView::Poll),
            sed_bin,
            seq![InputView::Closed, last],
        ) == stopped(),
        phase is Watching ==> walk(
            (phase, ActionView::Poll),
            sed_bin,
            seq![InputView::Closed, InputView::Killed, last],
        ) == stopped(),
{
    let at = (phase, ActionView::Poll);
    let closed = seq![InputView::Closed];
    lemma_walk_one(at, sed_bin, InputView::Closed);
    let next = at.0.next(sed_bin, InputView::Closed);
    lemma_walk_on(at, sed_bin, closed, seq![last]);
    lemma_walk_one(next, sed_bin, last);
    assert(seq![InputView::Closed, last] == closed + seq![last]);
    let rest = seq![InputView::Killed, last];
    lemma_walk_on(at, sed_bin, closed, rest);
    assert(seq![InputView::Closed, InputView::Killed, last] == closed + rest);
    lemma_walk_on(next, sed_bin, seq![InputView::Killed], seq![last]);
    assert(rest == seq![InputView::Killed] + seq![last]);
    lemma_walk_one(next, sed_bin, InputView::Killed);
    lemma_walk_one(next.0.next(sed_bin, InputView::Killed), sed_bin, last);
}

/// The requests that come in the course of a series of answers.
pub open spec fn requested(inputs: Seq<InputView>) -> Seq<RequestView>
    decreases inputs.len(),
{
    if inputs.len() == 0 {
        seq![]
    } else {
        match inputs.last() {
            InputView::Request(r) => requested(inputs.drop_last()).push(r),
            _ => requested(inputs.drop_last()),
        }
    }
}

/// The report answers the request: it carries its number, and is of its kind.
pub open spec fn answers(request: RequestView, event: EventView) -> bool {
    match request {
        RequestView::Preview { generation, .. } => event matches EventView::PreviewReady {
            generation: told,
            ..
        } && told == generation,
        RequestView::Apply { generation, .. } => event matches EventView::ApplyFinished {
            generation: told,
            ..
        } && told == generation,
        RequestView::Shutdown => false,
    }
}

/// The places of the requests that the reports answer: one for each report, and each later than
/// the one before.
pub open spec fn in_turn(
    at: Seq<int>,
    events: Seq<EventView>,
    requests: Seq<RequestView>,
) -> bool {
    &&& at.len() == events.len()
    &&& forall|k: int|
        0 <= k < at.len() ==> 0 <= #[trigger] at[k] < requests.len() && answers(
            requests[at[k]],
            events[k],
        )
    &&& forall|j: int, k: int| 0 <= j < k < at.len() ==> #[trigger] at[j] < #[trigger] at[k]
}

/// The worker has nothing to do, or hands over a report, or has ended.
pub open spec fn idle(phase: PhaseView) -> bool {
    phase is Receiving || phase is Reporting || phase is Stopped
}

/// The preview under way, if there is one.
pub open spec fn job_of(phase: PhaseView) -> Option<JobView> {
    match phase {
        PhaseView::BeforeFile(job) => Some(job),
        PhaseView::Spawning(job) => Some(job),
        PhaseView::Feeding(job) => Some(job),
        PhaseView::Watching(job) => Some(job),
        PhaseView::Checking(job) => Some(job),
        PhaseView::Resting(job) => Some(job),
        _ => None,
    }
}

/// The worker works on the request, or is about to end.
pub open spec fn works_on(phase: PhaseView, request: RequestView) -> bool {
    match phase {
        PhaseView::Coalescing(r) => r == request || r is Shutdown,
        PhaseView::Superseding { latest, .. } => latest == request,
        PhaseView::Dropping(r) => r == request || r is Shutdown,
        PhaseView::Failing { generation, .. } => request matches RequestView::Preview {
            generation: number,
            ..
        } && number == generation,
        PhaseView::Applying { generation } => request matches RequestView::Apply {
            generation: number,
            ..
        } && number == generation,
        _ => job_of(phase) matches Some(job) ==> request matches RequestView::Preview {
            generation: number,
            ..
        } && number == job.generation,
    }
}

/// Where a worker stands after a series of answers, of which the reports and the requests are
/// those given.
spec fn standing(
    at: Seq<int>,
    phase: PhaseView,
    events: Seq<EventView>,
    requests: Seq<RequestView>,
) -> bool {
    &&& in_turn(at, events, requests)
    &&& idle(phase) || {
        &&& requests.len() > 0
        &&& works_on(phase, requests.last())
        &&& forall|k: int| 0 <= k < at.len() ==> #[trigger] at[k] < requests.len() - 1
    }
    &&& job_of(phase) matches Some(job) ==> job.outputs.len() < job.files.len()
}

proof fn lemma_standing(sed_bin: Seq<u8>, inputs: Seq<InputView>) -> (at: Seq<int>)
    requires
        answered(PhaseView::Receiving, sed_bin, inputs),
    ensures
        standing(
            at,
            after(sed_bin, inputs).0,
            reports(PhaseView::Receiving, sed_bin, inputs),
            requested(inputs),
        ),
    decreases inputs.len(),
{
    if inputs.len() == 0 {
        seq![]
    } else {
        let front = inputs.drop_last();
        let input = inputs.last();
        lemma_last_step(sed_bin, inputs);
        let before = lemma_standing(sed_bin, front);
        let phase = after(sed_bin, front).0;
        let requests = requested(front);
        let events = reports(PhaseView::Receiving, sed_bin, front);
        let now = reports(PhaseView::Receiving, sed_bin, inputs);
        match phase.next(sed_bin, input).1 {
            ActionView::Send(event) => {
                let at = before.push(requests.len() - 1);
                assert(now == events.push(event));
                assert(requested(inputs) == requests);
                assert(answers(requests.last(), event));
                assert forall|k: int| 0 <= k < at.len() implies 0 <= #[trigger] at[k]
                    < requests.len() && answers(requests[at[k]], now[k]) by {
                    if k < before.len() {
                        assert(at[k] == before[k]);
                        assert(now[k] == events[k]);
                    }
                }
                assert forall|j: int, k: int| 0 <= j < k < at.len() implies #[trigger] at[j]
                    < #[trigger] at[k] by {
                    assert(at[j] == before[j]);
                    if k < before.len() {
                        assert(at[k] == before[k]);
                    }
                }
                at
            },
            _ => {
                assert(now == events);
                assert forall|k: int| 0 <= k < before.len() implies 0 <= #[trigger] before[k]
                    < requested(inputs).len() && answers(
                    requested(inputs)[before[k]],
                    now[k],
                ) by {}
                before
            },
        }
    }
}

/// Where the worker stands after a series of answers from the start on, and what it wants done.
pub open spec fn after(sed_bin: Seq<u8>, inputs: Seq<InputView>) -> (PhaseView, ActionView) {
    walk((PhaseView::Receiving, ActionView::Receive), sed_bin, inputs)
}

proof fn lemma_last_step(sed_bin: Seq<u8>, inputs: Seq<InputView>)
    requires
        inputs.len() > 0,
        answered(PhaseView::Receiving, sed_bin, inputs),
    ensures
        answered(PhaseView::Receiving, sed_bin, inputs.drop_last()),
        after(sed_bin, inputs.drop_last()).0.accepts(inputs.last()),
        after(sed_bin, inputs) == after(sed_bin, inputs.drop_last()).0.next(
            sed_bin,
            inputs.last(),
        ),
        reports(PhaseView::Receiving, sed_bin, inputs) == match after(
            sed_bin,
            inputs.drop_last(),
        ).0.next(sed_bin, inputs.last()).1 {
            ActionView::Send(event) => reports(
                PhaseView::Receiving,
                sed_bin,
                inputs.drop_last(),
            ).push(event),
            _ => reports(PhaseView::Receiving, sed_bin, inputs.drop_last()),
        },
{
    let start = (PhaseView::Receiving, ActionView::Receive);
    let front = inputs.drop_last();
    let one = seq![inputs.last()];
    assert(inputs == front + one);
    lemma_walk_on(start, sed_bin, front, one);
    lemma_walk_one(after(sed_bin, front), sed_bin, inputs.last());
    let events = reports(PhaseView::Receiving, sed_bin, front);
    assert(events + Seq::<EventView>::empty() == events);
}

/// Over a whole run the reports answer requests in the order in which these came: each report
/// answers one, of its kind and under its number, and a later report answers a later request. So
/// no request is answered twice.
pub proof fn law_reports_in_order(sed_bin: Seq<u8>, inputs: Seq<InputView>)
    requires
        answered(PhaseView::Receiving, sed_bin, inputs),
    ensures
        exists|at: Seq<int>|
            in_turn(at, reports(PhaseView::Receiving, sed_bin, inputs), requested(inputs)),
{
    let at = lemma_standing(sed_bin, inputs);
    assert(in_turn(at, reports(PhaseView::Receiving, sed_bin, inputs), requested(inputs)));
}

/// Where the requests have different numbers, so have the reports.
pub proof fn law_no_number_reported_twice(sed_bin: Seq<u8>, inputs: Seq<InputView>, j: int, k: int)
    requires
        answered(PhaseView::Receiving, sed_bin, inputs),
        forall|a: int, b: int|
            0 <= a < b < requested(inputs).len() ==> (#[trigger] requested(inputs)[a]).generation()
                != (#[trigger] requested(inputs)[b]).generation(),
        0 <= j < k < reports(PhaseView::Receiving, sed_bin, inputs).len(),
    ensures
        reports(PhaseView::Receiving, sed_bin, inputs)[j].generation() != reports(
            PhaseView::Receiving,
            sed_bin,
            inputs,
        )[k].generation(),
{
    let at = lemma_standing(sed_bin, inputs);
    let requests = requested(inputs);
    assert(at[j] < at[k]);
    assert(requests[at[j]].generation() != requests[at[k]].generation());
}

/// A report is made only on the latest request that has come. A request that a newer one has
/// replaced, before it was served or in the course of its preview, is not reported on any more.
pub proof fn law_only_latest_is_reported(
    sed_bin: Seq<u8>,
    inputs: Seq<InputView>,
    input: InputView,
)
    requires
        answered(PhaseView::Receiving, sed_bin, inputs.push(input)),
    ensures
        after(sed_bin, inputs.push(input)).1 matches ActionView::Send(event) ==> requested(
            inputs,
        ).len() > 0 && answers(requested(inputs).last(), event),
{
    assert(inputs.push(input).drop_last() == inputs);
    assert(inputs.push(input).last() == input);
    lemma_last_step(sed_bin, inputs.push(input));
    let at = lemma_standing(sed_bin, inputs);
}

/// No request comes, the way of requests and that of reports stay open.
pub open spec fn quiet(inputs: Seq<InputView>) -> bool {
    forall|k: int|
        0 <= k < inputs.len() ==> !((#[trigger] inputs[k]) is Request) && !(inputs[k] is Closed)
            && !(inputs[k] is NotSent)
}

/// Neither way is closed, and the worker is not told to end.
pub open spec fn open_ways(inputs: Seq<InputView>) -> bool {
    forall|k: int|
        0 <= k < inputs.len() ==> !((#[trigger] inputs[k]) is Closed) && !(inputs[k] is NotSent)
            && inputs[k] != InputView::Request(RequestView::Shutdown)
}

proof fn lemma_answered_when_idle(sed_bin: Seq<u8>, inputs: Seq<InputView>)
    requires
        answered(PhaseView::Receiving, sed_bin, inputs),
        open_ways(inputs),
    ensures
        ({
            let phase = after(sed_bin, inputs).0;
            let requests = requested(inputs);
            let events = reports(PhaseView::Receiving, sed_bin, inputs);
            &&& !(phase is Stopped)
            &&& !(phase matches PhaseView::Coalescing(r) && r is Shutdown)
            &&& !(phase matches PhaseView::Superseding { latest, .. } && latest is Shutdown)
            &&& !(phase matches PhaseView::Dropping(r) && r is Shutdown)
            &&& idle(phase) && requests.len() > 0 ==> events.len() > 0 && answers(
                requests.last(),
                events.last(),
            )
        }),
    decreases inputs.len(),
{
    if inputs.len() > 0 {
        let front = inputs.drop_last();
        assert forall|k: int| 0 <= k < front.len() implies !((#[trigger] front[k]) is Closed) && !(
        front[k] is NotSent) && front[k] != InputView::Request(RequestView::Shutdown) by {
            assert(front[k] == inputs[k]);
        }
        lemma_last_step(sed_bin, inputs);
        lemma_answered_when_idle(sed_bin, front);
        let at = lemma_standing(sed_bin, front);
        assert(inputs[inputs.len() - 1] == inputs.last());
    }
}

/// As long as the ways stay open, a worker that has come to rest has answered the last request:
/// its last report is on that one.
pub proof fn law_last_request_is_answered(sed_bin: Seq<u8>, inputs: Seq<InputView>)
    requires
        answered(PhaseView::Receiving, sed_bin, inputs),
        open_ways(inputs),
        requested(inputs).len() > 0,
        idle(after(sed_bin, inputs).0),
    ensures
        reports(PhaseView::Receiving, sed_bin, inputs).len() > 0,
        answers(
            requested(inputs).last(),
            reports(PhaseView::Receiving, sed_bin, inputs).last(),
        ),
{
    lemma_answered_when_idle(sed_bin, inputs);
}

/// How many looks find sed still at work.
pub open spec fn waits(inputs: Seq<InputView>) -> nat
    decreases inputs.len(),
{
    if inputs.len() == 0 {
        0
    } else {
        waits(inputs.drop_last()) + if inputs.last() is Running {
            1nat
        } else {
            0nat
        }
    }
}

/// How many steps are left to a request, apart from waiting for sed.
pub open spec fn work_for(request: RequestView) -> int {
    match request {
        RequestView::Preview { files, .. } => 7 * (files.len() as int) + 3,
        _ => 3,
    }
}

/// How many steps are left to the worker, apart from waiting for sed.
pub open spec fn work_left(phase: PhaseView) -> int {
    match phase {
        PhaseView::Receiving => 0,
        PhaseView::Stopped => 0,
        PhaseView::Reporting => 1,
        PhaseView::Failing { .. } => 2,
        PhaseView::Applying { .. } => 2,
        PhaseView::Coalescing(r) => work_for(r),
        PhaseView::Dropping(r) => work_for(r) + 1,
        PhaseView::Superseding { latest, .. } => work_for(latest) + 2,
        PhaseView::BeforeFile(job) => 7 * (job.files.len() - job.outputs.len()),
        PhaseView::Spawning(job) => 7 * (job.files.len() - job.outputs.len()) - 1,
        PhaseView::Feeding(job) => 7 * (job.files.len() - job.outputs.len()) - 2,
        PhaseView::Watching(job) => 7 * (job.files.len() - job.outputs.len()) - 3,
        PhaseView::Checking(job) => 7 * (job.files.len() - job.outputs.len()) - 4,
        PhaseView::Resting(job) => 7 * (job.files.len() - job.outputs.len()) - 2,
    }
}

/// Left in peace, the worker comes to rest: from wherever it stands it takes no more steps than
/// are left to it, and three for each look that finds sed still at work. So where every sed
/// ends, the last request is answered in the end.
pub proof fn law_worker_comes_to_rest(
    sed_bin: Seq<u8>,
    inputs: Seq<InputView>,
    more: Seq<InputView>,
)
    requires
        answered(PhaseView::Receiving, sed_bin, inputs + more),
        quiet(more),
    ensures
        more.len() + work_left(after(sed_bin, inputs + more).0) <= work_left(
            after(sed_bin, inputs).0,
        ) + 3 * waits(more),
        work_left(after(sed_bin, inputs + more).0) >= 0,
        work_left(after(sed_bin, inputs + more).0) == 0 <==> after(
            sed_bin,
            inputs + more,
        ).0 is Receiving || after(sed_bin, inputs + more).0 is Stopped,
    decreases more.len(),
{
    let all = inputs + more;
    let at = lemma_standing(sed_bin, all);
    if more.len() == 0 {
        assert(all == inputs);
    } else {
        let front = more.drop_last();
        assert(all.drop_last() == inputs + front);
        assert(all.last() == more.last());
        assert forall|k: int| 0 <= k < front.len() implies !((#[trigger] front[k]) is Request) && !(
        front[k] is Closed) && !(front[k] is NotSent) by {
            assert(front[k] == more[k]);
        }
        lemma_last_step(sed_bin, all);
        law_worker_comes_to_rest(sed_bin, inputs, front);
        assert(more[more.len() - 1] == more.last());
        let before = lemma_standing(sed_bin, inputs + front);
    }
}

/// What a preview shows of a file, from its content and what sed made of it: its name twice, in
/// bold yellow, and the diff from the one to the other, below an empty line unless it is the
/// first.
pub open spec fn block(file: FilePreviewView, output: Seq<char>, first: bool) -> Seq<LineView> {
    let yellow = Style { fg: Some(Color::Yellow), bg: None, bold: true };
    let gap: Seq<LineView> = if first {
        Seq::empty()
    } else {
        seq![Seq::<SpanView>::empty()]
    };
    gap + seq![
        seq![SpanView { content: "--- "@ + utf8_lossy_text(file.path), style: yellow }],
        seq![SpanView { content: "+++ "@ + utf8_lossy_text(file.path), style: yellow }],
    ] + diff_view(file.content, output, 3)
}

/// The places cut the lines into one block for each file: the block of a file is the part of the
/// lines from its place to the next.
pub open spec fn cut_into_blocks(
    shown: Seq<LineView>,
    places: Seq<int>,
    files: Seq<FilePreviewView>,
    outputs: Seq<Seq<char>>,
) -> bool {
    &&& places.len() == outputs.len() + 1
    &&& places[0] == 0
    &&& places[outputs.len() as int] == shown.len()
    &&& forall|k: int|
        0 <= k < outputs.len() ==> 0 <= #[trigger] places[k] <= places[k + 1] <= shown.len()
            && shown.subrange(places[k], places[k + 1]) == block(files[k], outputs[k], k == 0)
}

/// A preview shows every file in turn, the first and the last alike, each by the diff from its
/// content, as the old text, to what sed made of it, as the new one.
pub proof fn law_preview_blocks(files: Seq<FilePreviewView>, outputs: Seq<Seq<char>>)
    ensures
        exists|places: Seq<int>|
            #[trigger] cut_into_blocks(preview_lines(files, outputs), places, files, outputs),
{
    let places = lemma_blocks(files, outputs);
    assert(cut_into_blocks(preview_lines(files, outputs), places, files, outputs));
}

proof fn lemma_blocks(files: Seq<FilePreviewView>, outputs: Seq<Seq<char>>) -> (places: Seq<int>)
    ensures
        cut_into_blocks(preview_lines(files, outputs), places, files, outputs),
    decreases outputs.len(),
{
    let shown = preview_lines(files, outputs);
    if outputs.len() == 0 {
        seq![0int]
    } else {
        let n = outputs.len() - 1;
        let front = outputs.drop_last();
        let before = preview_lines(files, front);
        let earlier = lemma_blocks(files, front);
        let last = block(files[n], outputs[n], n == 0);
        let places = earlier.push(shown.len() as int);
        assert(shown == before + last);
        assert(shown.subrange(before.len() as int, shown.len() as int) == last);
        assert forall|k: int| 0 <= k < outputs.len() implies 0 <= #[trigger] places[k] <= places[k
            + 1] <= shown.len() && shown.subrange(places[k], places[k + 1]) == block(
            files[k],
            outputs[k],
            k == 0,
        ) by {
            if k < n {
                assert(places[k] == earlier[k] && places[k + 1] == earlier[k + 1]);
                assert(shown.subrange(places[k], places[k + 1]) == before.subrange(
                    earlier[k],
                    earlier[k + 1],
                ));
            }
        }
        places
    }
}

/// In the block of a file, the lines not marked `+` are stretches of the file's own lines, and
/// those not marked `-` stretches of the lines that sed made of it.
pub proof fn law_block_sides(file: FilePreviewView, output: Seq<char>, g: int)
    requires
        0 <= g < similar_grouped_ops(file.content, output, 3).len(),
        joined_up(similar_grouped_ops(file.content, output, 3)[g]),
        ({
            let group = similar_grouped_ops(file.content, output, 3)[g];
            forall|k: int|
                0 <= k < group.len() ==> within(
                    #[trigger] group[k],
                    line_tokens(file.content).len() as int,
                    line_tokens(output).len() as int,
                ) && equal_lines(group[k], line_tokens(file.content), line_tokens(output))
        }),
    ensures
        ({
            let group = similar_grouped_ops(file.content, output, 3)[g];
            let own = line_tokens(file.content);
            let made = line_tokens(output);
            &&& exists|from: int, to: int|
                0 <= from <= to <= own.len() && side(op_lines(group, own, made), '+')
                    == shown_lines(#[trigger] own.subrange(from, to))
            &&& exists|from: int, to: int|
                0 <= from <= to <= made.len() && side(op_lines(group, own, made), '-')
                    == shown_lines(#[trigger] made.subrange(from, to))
        }),
{
    law_hunk_stretches(
        similar_grouped_ops(file.content, output, 3)[g],
        line_tokens(file.content),
        line_tokens(output),
    );
}

/// A finished file counts as changed where sed made something else of it, and as truncated where
/// it was cut for the preview.
pub proof fn law_counts(files: Seq<FilePreviewView>, outputs: Seq<Seq<char>>, output: Seq<char>)
    ensures
        changed_files(files, Seq::empty()) == 0,
        changed_files(files, outputs.push(output)) == changed_files(files, outputs) + (if output
            == files[outputs.len() as int].content {
            0int
        } else {
            1int
        }),
        any_truncated(files, outputs.len() as int) <==> !(forall|k: int|
            0 <= k < outputs.len() ==> !(#[trigger] files[k]).truncated),
{
    assert(outputs.push(output).drop_last() == outputs);
}

/// The report of a finished preview: all its lines, how many files were changed and run through
/// sed, and whether one of them was cut.
pub proof fn law_ready(generation: u64, files: Seq<FilePreviewView>, outputs: Seq<Seq<char>>)
    ensures
        ready_event(generation, files, outputs) == (EventView::PreviewReady {
            generation,
            lines: preview_lines(files, outputs),
            truncated: !(forall|k: int|
                0 <= k < outputs.len() ==> !(#[trigger] files[k]).truncated),
            changed: changed_files(files, outputs),
            shown: changed_files(files, outputs),
            scanned: outputs.len(),
            done: true,
            error: None,
        }),
{
    law_counts(files, outputs, Seq::empty());
}

/// The arguments that make sed a filter for the expression.
pub open spec fn filters(args: Seq<Seq<u8>>, expression: Seq<char>) -> bool {
    &&& args.len() == 2
    &&& args[0] == encode_utf8("-e"@)
    &&& args[1] == encode_utf8(expression)
}

/// The arguments that make sed edit the files in place.
pub open spec fn edits(
    args: Seq<Seq<u8>>,
    expression: Seq<char>,
    files: Seq<Seq<u8>>,
    suffix: Option<Seq<char>>,
) -> bool {
    &&& args.len() == 4 + files.len()
    &&& suffix is None ==> args[0] == encode_utf8("-i"@)
    &&& suffix matches Some(s) ==> args[0] == encode_utf8("-i"@ + s)
    &&& args[1] == encode_utf8("-e"@)
    &&& args[2] == encode_utf8(expression)
    &&& args[3] == encode_utf8("--"@)
    &&& forall|k: int| 0 <= k < files.len() ==> args[4 + k] == #[trigger] files[k]
}

/// What sed is run with: in a preview the expression, for each file in its turn that file's own
/// content, and in an apply the expression and all the files.
pub proof fn law_handed_to_sed(phase: PhaseView, sed_bin: Seq<u8>, input: InputView)
    ensures
        ({
            let (next, action) = phase.next(sed_bin, input);
            &&& phase matches PhaseView::BeforeFile(job) ==> input is Empty ==> {
                &&& next == PhaseView::Spawning(job)
                &&& action matches ActionView::SpawnSed(args)
                &&& filters(args, job.expression)
            }
            &&& phase matches PhaseView::Spawning(job) ==> input is Spawned ==> {
                &&& next == PhaseView::Feeding(job)
                &&& action == ActionView::FeedSed(job.files[job.outputs.len() as int].content)
            }
            &&& phase matches PhaseView::Coalescing(
                RequestView::Apply { generation, expression, files, backup_suffix },
            ) ==> (input is Empty || input is Closed) && !blank(expression) && files.len() > 0 ==> {
                &&& next == (PhaseView::Applying { generation })
                &&& action matches ActionView::RunSed(args)
                &&& edits(args, expression, files, backup_suffix)
            }
            &&& action is SpawnSed ==> phase is BeforeFile
            &&& action is FeedSed ==> phase is Spawning
            &&& action is RunSed ==> phase is Coalescing
        }),
{
}

/// A report of a preview that shows no diff.
pub open spec fn bare_report(
    generation: u64,
    lines: Seq<LineView>,
    error: Option<Seq<char>>,
) -> ActionView {
    ActionView::Send(
        EventView::PreviewReady {
            generation,
            lines,
            truncated: false,
            changed: 0,
            shown: 0,
            scanned: 0,
            done: true,
            error,
        },
    )
}

/// A failed preview is told with what went wrong: sed not starting, its input or an output
/// missing, waiting for it failing, its exit code and what it wrote, or output that is no text.
pub proof fn law_failures_are_told(phase: PhaseView, sed_bin: Seq<u8>, input: InputView)
    ensures
        ({
            let (next, action) = phase.next(sed_bin, input);
            let none = Seq::<LineView>::empty();
            &&& phase matches PhaseView::Spawning(job) ==> input is SpawnFailed ==> {
                &&& next is Reporting
                &&& action == bare_report(
                    job.generation,
                    none,
                    Some("failed to spawn "@ + utf8_lossy_text(sed_bin)),
                )
            }
            &&& phase matches PhaseView::Feeding(job) ==> {
                &&& input is NoStdout ==> next is Reporting && action == bare_report(
                    job.generation,
                    none,
                    Some("sed stdout missing"@),
                )
                &&& input is NoStderr ==> next is Reporting && action == bare_report(
                    job.generation,
                    none,
                    Some("sed stderr missing"@),
                )
                &&& input matches InputView::FeedFailed(e) ==> action is KillSed && next
                    == (PhaseView::Failing {
                    generation: job.generation,
                    error: "failed writing to sed stdin: "@ + e,
                })
            }
            &&& phase matches PhaseView::Checking(job) ==> {
                &&& input matches InputView::WaitFailed(e) ==> action is KillSed && next
                    == (PhaseView::Failing {
                    generation: job.generation,
                    error: "failed waiting for sed: "@ + e,
                })
                &&& input matches InputView::Exited(exit) ==> !exit.success ==> next is Reporting
                    && action == bare_report(
                    job.generation,
                    none,
                    Some(
                        "sed exited "@ + code_text(exit.code) + ": "@ + trimmed(
                            utf8_lossy_text(exit.stderr),
                        ),
                    ),
                )
                &&& input matches InputView::Exited(exit) ==> exit.success && !valid_utf8(
                    exit.stdout,
                ) ==> next is Reporting && action == bare_report(
                    job.generation,
                    none,
                    Some("sed stdout was not valid UTF-8"@),
                )
            }
            &&& phase matches PhaseView::Failing { generation, error } ==> input is Killed ==> {
                &&& next is Reporting
                &&& action == bare_report(generation, none, Some(error))
            }
        }),
{
}

/// A run of sed that ends well counts for the file whose turn it is, with all that sed wrote;
/// the next file follows, and after the last one the report, and nothing comes between.
pub proof fn law_files_follow(job: JobView, sed_bin: Seq<u8>, exit: SedExitView)
    requires
        job.outputs.len() < job.files.len(),
        exit.success,
        valid_utf8(exit.stdout),
    ensures
        exists|output: Seq<char>|
            {
                &&& #[trigger] encode_utf8(output) == exit.stdout
                &&& PhaseView::Checking(job).next(sed_bin, InputView::Exited(exit)) == if (
                job.outputs.len() + 1 < job.files.len()) {
                    (
                        PhaseView::BeforeFile(
                            JobView { outputs: job.outputs.push(output), ..job },
                        ),
                        ActionView::Poll,
                    )
                } else {
                    (
                        PhaseView::Reporting,
                        ActionView::Send(
                            ready_event(job.generation, job.files, job.outputs.push(output)),
                        ),
                    )
                }
            },
{
    decode_utf8_encode_utf8(exit.stdout);
    let output = filter_result(exit)->Ok_0;
    assert(encode_utf8(output) == exit.stdout);
}

/// While sed runs, the worker looks for requests and for sed's end in turn, and rests between.
pub proof fn law_watching(job: JobView, sed_bin: Seq<u8>)
    ensures
        PhaseView::Feeding(job).next(sed_bin, InputView::Fed) == (
            PhaseView::Watching(job),
            ActionView::Poll,
        ),
        PhaseView::Watching(job).next(sed_bin, InputView::Empty) == (
            PhaseView::Checking(job),
            ActionView::CheckSed,
        ),
        PhaseView::Checking(job).next(sed_bin, InputView::Running) == (
            PhaseView::Resting(job),
            ActionView::Rest,
        ),
        PhaseView::Resting(job).next(sed_bin, InputView::Rested) == (
            PhaseView::Watching(job),
            ActionView::Poll,
        ),
{
}

/// After a report the worker waits for the next request, or ends where nobody takes reports.
pub proof fn law_after_report(sed_bin: Seq<u8>)
    ensures
        PhaseView::Reporting.next(sed_bin, InputView::Sent) == (
            PhaseView::Receiving,
            ActionView::Receive,
        ),
        PhaseView::Reporting.next(sed_bin, InputView::NotSent) == (
            PhaseView::Stopped,
            ActionView::Stop,
        ),
{
}

/// How an apply ends: with no error where sed ends well, else with what sed or its start failed
/// by.
pub proof fn law_apply_is_told(generation: u64, sed_bin: Seq<u8>, exit: SedExitView)
    ensures
        (PhaseView::Applying { generation }).next(sed_bin, InputView::Exited(exit)) == (
            PhaseView::Reporting,
            ActionView::Send(
                EventView::ApplyFinished {
                    generation,
                    error: if exit.success {
                        None
                    } else {
                        Some(
                            "sed apply failed ("@ + code_text(exit.code) + "): "@ + trimmed(
                                utf8_lossy_text(exit.stderr),
                            ),
                        )
                    },
                },
            ),
        ),
        (PhaseView::Applying { generation }).next(sed_bin, InputView::SpawnFailed) == (
            PhaseView::Reporting,
            ActionView::Send(
                EventView::ApplyFinished {
                    generation,
                    error: Some("failed to spawn "@ + utf8_lossy_text(sed_bin)),
                },
            ),
        ),
{
}

/// How a request is taken up: a preview without an expression or without files is answered by a
/// remark and an apply by an error, each naming what is missing; else the work starts, for a
/// preview with the first file.
pub proof fn law_request_is_taken_up(
    generation: u64,
    expression: Seq<char>,
    files: Seq<FilePreviewView>,
    paths: Seq<Seq<u8>>,
    suffix: Option<Seq<char>>,
)
    ensures
        ({
            let preview = served(RequestView::Preview { generation, expression, files });
            let apply = served(
                RequestView::Apply { generation, expression, files: paths, backup_suffix: suffix },
            );
            &&& blank(expression) ==> preview.0 is Reporting && preview.1 == bare_report(
                generation,
                seq![raw_line(" Type a sed expression to preview changes"@)],
                None,
            )
            &&& !blank(expression) && files.len() == 0 ==> preview.0 is Reporting && preview.1
                == bare_report(
                generation,
                seq![raw_line(" No files found under . (or pass FILE args)"@)],
                None,
            )
            &&& !blank(expression) && files.len() > 0 ==> preview == (
                PhaseView::BeforeFile(
                    JobView { generation, expression, files, outputs: Seq::empty() },
                ),
                ActionView::Poll,
            )
            &&& blank(expression) ==> apply == (
                PhaseView::Reporting,
                ActionView::Send(
                    EventView::ApplyFinished { generation, error: Some("empty sed expression"@) },
                ),
            )
            &&& !blank(expression) && paths.len() == 0 ==> apply == (
                PhaseView::Reporting,
                ActionView::Send(
                    EventView::ApplyFinished { generation, error: Some("no files to apply"@) },
                ),
            )
            &&& !blank(expression) && paths.len() > 0 ==> {
                &&& apply.0 == (PhaseView::Applying { generation })
                &&& apply.1 matches ActionView::RunSed(args)
                &&& edits(args, expression, paths, suffix)
            }
            &&& served(RequestView::Shutdown) == (PhaseView::Stopped, ActionView::Stop)
        }),
{
}

/// What is read for a preview is what it shows: every file's content in its place, or, where one
/// could not be read, a failure that names the first such.
pub proof fn law_preview_order(
    generation: u64,
    expression: Seq<char>,
    paths: Seq<Seq<u8>>,
    contents: Seq<Option<Seq<u8>>>,
    k: int,
)
    requires
        0 <= k <= contents.len(),
        forall|i: int| 0 <= i < k ==> (#[trigger] contents[i]) is Some,
        k < contents.len() ==> contents[k] is None,
    ensures
        k == contents.len() ==> {
            &&& preview_order(generation, expression, paths, contents) matches Ok(
                RequestView::Preview { generation: g, expression: e, files },
            )
            &&& g == generation
            &&& e == expression
            &&& files.len() == contents.len()
            &&& forall|i: int|
                0 <= i < contents.len() ==> #[trigger] files[i] == loaded(
                    paths[i],
                    contents[i]->Some_0,
                )
        },
        k < contents.len() ==> preview_order(generation, expression, paths, contents) == Err::<
            RequestView,
            EventView,
        >(
            EventView::PreviewReady {
                generation,
                lines: Seq::empty(),
                truncated: false,
                changed: 0,
                shown: 0,
                scanned: 0,
                done: true,
                error: Some("reading "@ + utf8_lossy_text(paths[k])),
            },
        ),
{
    lemma_unread(contents, k);
}

proof fn lemma_unread(contents: Seq<Option<Seq<u8>>>, k: int)
    requires
        0 <= k <= contents.len(),
        forall|i: int| 0 <= i < k ==> (#[trigger] contents[i]) is Some,
        k < contents.len() ==> contents[k] is None,
    ensures
        first_unread(contents) == k,
    decreases k,
{
    if k > 0 {
        assert(contents[0] is Some);
        assert forall|i: int| 0 <= i < k - 1 implies (#[trigger] contents.skip(1)[i]) is Some by {
            assert(contents.skip(1)[i] == contents[i + 1]);
        }
        lemma_unread(contents.skip(1), k - 1);
    }
}

/// The views of requests, reports and files are what these hold.
pub proof fn law_request_views(
    request: WorkerRequest,
    event: WorkerEvent,
    file: FilePreview,
    files: Seq<FilePreview>,
    raw: Seq<Option<Vec<u8>>>,
)
    ensures
        request matches WorkerRequest::Preview { generation, expression, files } ==> request@
            == (RequestView::Preview {
            generation,
            expression: expression@,
            files: preview_views(files@),
        }),
        request matches WorkerRequest::Apply { generation, expression, files, backup_suffix }
            ==> request@ == (RequestView::Apply {
            generation,
            expression: expression@,
            files: path_views(files@),
            backup_suffix: opt_text(backup_suffix),
        }),
        request is Shutdown <==> request@ is Shutdown,
        event matches WorkerEvent::PreviewReady {
            generation,
            lines,
            truncated,
            changed,
            shown,
            scanned,
            done,
            error,
        } ==> event@ == (EventView::PreviewReady {
            generation,
            lines: line_views(lines@),
            truncated,
            changed: changed as nat,
            shown: shown as nat,
            scanned: scanned as nat,
            done,
            error: opt_text(error),
        }),
        event matches WorkerEvent::ApplyFinished { generation, error } ==> event@
            == (EventView::ApplyFinished { generation, error: opt_text(error) }),
        file@ == (FilePreviewView {
            path: file.path.bytes@,
            content: file.content@,
            truncated: file.truncated,
        }),
        preview_views(files).len() == files.len(),
        forall|i: int| 0 <= i < files.len() ==> #[trigger] preview_views(files)[i] == files[i]@,
        content_views(raw).len() == raw.len(),
        forall|i: int|
            0 <= i < raw.len() ==> (raw[i] matches Some(bytes) ==> #[trigger] content_views(raw)[i]
                == Some(bytes@)),
        forall|i: int|
            0 <= i < raw.len() && raw[i] is None ==> #[trigger] content_views(raw)[i] is None,
{
}

/// How requests are looked for: one that comes is taken up once no newer one is there; one that
/// comes before a file's turn or while sed runs takes the place of the preview, and sed is stopped
/// where it runs.
pub proof fn law_requests_are_looked_for(
    r: RequestView,
    newer: RequestView,
    job: JobView,
    running: bool,
    sed_bin: Seq<u8>,
    last: InputView,
)
    requires
        last is Empty || last is Closed,
    ensures
        PhaseView::Receiving.next(sed_bin, InputView::Request(r)) == (
            PhaseView::Coalescing(r),
            ActionView::Poll,
        ),
        PhaseView::Coalescing(r).next(sed_bin, InputView::Request(newer)) == (
            PhaseView::Coalescing(newer),
            ActionView::Poll,
        ),
        PhaseView::Coalescing(r).next(sed_bin, last) == served(r),
        PhaseView::BeforeFile(job).next(sed_bin, InputView::Request(newer)) == (
            (PhaseView::Superseding { latest: newer, running: false }),
            ActionView::Poll,
        ),
        PhaseView::Watching(job).next(sed_bin, InputView::Request(newer)) == (
            (PhaseView::Superseding { latest: newer, running: true }),
            ActionView::Poll,
        ),
        (PhaseView::Superseding { latest: r, running }).next(sed_bin, InputView::Request(newer))
            == ((PhaseView::Superseding { latest: newer, running }), ActionView::Poll),
        (PhaseView::Superseding { latest: r, running: true }).next(sed_bin, last) == (
            PhaseView::Dropping(r),
            ActionView::KillSed,
        ),
        (PhaseView::Superseding { latest: r, running: false }).next(sed_bin, last) == (
            PhaseView::Coalescing(r),
            ActionView::Poll,
        ),
        PhaseView::Dropping(r).next(sed_bin, InputView::Killed) == (
            PhaseView::Coalescing(r),
            ActionView::Poll,
        ),
        PhaseView::Watching(job).next(sed_bin, InputView::Closed) == (
            PhaseView::Dropping(RequestView::Shutdown),
            ActionView::KillSed,
        ),
        PhaseView::BeforeFile(job).next(sed_bin, InputView::Closed) == (
            PhaseView::Coalescing(RequestView::Shutdown),
            ActionView::Poll,
        ),
{
}

/// The worker takes every answer to what it wanted done.
pub proof fn law_worker_accepts(phase: PhaseView, input: InputView)
    ensures
        ({
            let looked = input is Request || input is Empty || input is Closed;
            &&& phase is Receiving && (input is Request || input is Closed) ==> phase.accepts(input)
            &&& (phase is Coalescing || phase is BeforeFile || phase is Superseding
                || phase is Watching) && looked ==> phase.accepts(input)
            &&& phase is Spawning && (input is Spawned || input is SpawnFailed) ==> phase.accepts(
                input,
            )
            &&& phase is Feeding && (input is Fed || input is FeedFailed || input is NoStdout
                || input is NoStderr) ==> phase.accepts(input)
            &&& phase is Checking && (input is Running || input is WaitFailed) ==> phase.accepts(
                input,
            )
            &&& input matches InputView::Exited(exit) ==> phase is Checking && !exit.success
                ==> phase.accepts(input)
            &&& phase is Resting && input is Rested ==> phase.accepts(input)
            &&& (phase is Dropping || phase is Failing) && input is Killed ==> phase.accepts(input)
            &&& phase is Applying && (input is Exited || input is SpawnFailed) ==> phase.accepts(
                input,
            )
            &&& phase is Reporting && (input is Sent || input is NotSent) ==> phase.accepts(input)
        }),
{
}

/// What is told is one report, the last one, of all files, and it shows each of them by the diff
/// from its content to its output.
pub open spec fn shows_every_file(
    told: Seq<EventView>,
    files: Seq<FilePreviewView>,
    outputs: Seq<Seq<char>>,
) -> bool {
    &&& told.len() == 1
    &&& told[0] matches EventView::PreviewReady { lines, scanned, done, error, .. }
    &&& scanned == files.len()
    &&& done
    &&& error is None
    &&& exists|places: Seq<int>| #[trigger] cut_into_blocks(lines, places, files, outputs)
}

proof fn lemma_ready_shows(generation: u64, files: Seq<FilePreviewView>, outputs: Seq<Seq<char>>)
    requires
        outputs.len() == files.len(),
    ensures
        shows_every_file(seq![ready_event(generation, files, outputs)], files, outputs),
{
    let told = seq![ready_event(generation, files, outputs)];
    assert(told[0] == ready_event(generation, files, outputs));
    let places = lemma_blocks(files, outputs);
    assert(told[0]->lines == preview_lines(files, outputs));
    assert(cut_into_blocks(told[0]->lines, places, files, outputs));
}

proof fn lemma_outputs(
    files: Seq<FilePreviewView>,
    exits: Seq<SedExitView>,
    outputs: Seq<Seq<char>>,
)
    requires
        good_exits(files, exits, outputs),
    ensures
        outputs.len() == files.len(),
        forall|k: int|
            0 <= k < files.len() ==> encode_utf8(#[trigger] outputs[k]) == exits[k].stdout,
{
    assert forall|k: int| 0 <= k < files.len() implies encode_utf8(#[trigger] outputs[k])
        == exits[k].stdout by {
        assert(filter_result(exits[k]) == Ok::<Seq<char>, Seq<char>>(outputs[k]));
        law_filter_outcome(exits[k]);
    }
}

/// A preview that nothing overtakes and in which every run of sed ends well is reported once, and
/// the report shows every file by the diff from its content to what sed wrote for it.
pub proof fn law_finished_preview_shows_every_file(
    sed_bin: Seq<u8>,
    request: RequestView,
    looks: Seq<nat>,
    exits: Seq<SedExitView>,
    outputs: Seq<Seq<char>>,
)
    requires
        request matches RequestView::Preview { expression, files, .. } && !blank(expression)
            && files.len() > 0 && looks.len() == files.len() && good_exits(files, exits, outputs),
    ensures
        request matches RequestView::Preview { files, .. } ==> shows_every_file(
            reports(served(request).0, sed_bin, quiet_run(looks, exits)),
            files,
            outputs,
        ) && forall|k: int|
            0 <= k < files.len() ==> encode_utf8(#[trigger] outputs[k]) == exits[k].stdout,
{
    match request {
        RequestView::Preview { generation, expression, files } => {
            lemma_outputs(files, exits, outputs);
            lemma_ready_shows(generation, files, outputs);
            law_quiet_preview_reports_all(
                sed_bin,
                generation,
                expression,
                files,
                looks,
                exits,
                outputs,
            );
        },
        _ => {},
    }
}

/// What sed wrote is taken where it can be compared with the file's own content, and else only
/// where there is nothing to compare: sed failed, or what it wrote is no text.
pub proof fn law_output_is_taken(job: JobView, exit: SedExitView, output: Seq<char>)
    requires
        encode_utf8(output) == exit.stdout,
    ensures
        PhaseView::Checking(job).accepts(InputView::Exited(exit)) <==> (exit.success ==> diffable(
            job.files[job.outputs.len() as int].content,
            output,
        )),
{
    encode_utf8_valid_utf8(output);
    encode_utf8_decode_utf8(output);
}

/// Output that is no text is taken, to be told of.
pub proof fn law_broken_output_is_taken(job: JobView, exit: SedExitView)
    requires
        !valid_utf8(exit.stdout),
    ensures
        PhaseView::Checking(job).accepts(InputView::Exited(exit)),
{
}

} // verus!
