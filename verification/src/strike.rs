//! The strike as a run of steps. Each step names one thing to do outside
//! (run a program, look at a directory, write a file); its outcome, handed
//! back as an event, decides the next step. The first failure ends the run.

use crate::constraints::all_legal;
use crate::error::{verdict_view, StrikeError, StrikeErrorView};
use crate::pipeline::{check_gforth, succeeded, ProcessOutcome, ProcessOutcomeView, StrikePayload};
use crate::protocol::{data_fragment, directive_text, execution_directive, fragment_text};
use crate::validate::{
    first_contaminated, lemma_first_contaminated_is_least, validate_strict, violation,
};
use vstd::prelude::*;
use vstd::string::StringExecFns;

verus! {

/// What is to be done outside next.
#[derive(Debug, PartialEq, Eq)]
pub enum StrikeAction {
    /// Run `program` with the one `argument` and report how it ended.
    ProbeInterpreter { program: String, argument: String },
    /// Report whether `directory` exists.
    LocateKernel { directory: String },
    /// Create the directory that holds `destination`, with those above it.
    PrepareDestination { destination: String },
    /// Write `source` to the file at `path`, replacing what is there.
    WriteFragment { path: String, source: String },
    /// Run `program` with `arguments`, wait, and report how it ended.
    RunInterpreter { program: String, arguments: Vec<String> },
    /// Nothing more: the strike has ended with this result.
    Finish(Result<(), StrikeError>),
}

/// The outcome of a step.
#[derive(Debug, PartialEq, Eq)]
pub enum StrikeEvent {
    /// The interpreter was run with its version argument.
    Probed(ProcessOutcome),
    /// The kernel directory was looked for.
    KernelLocated { present: bool },
    /// The destination's directory was created, or the system's diagnostic.
    DestinationPrepared(Result<(), String>),
    /// The fragment was written, or the system's diagnostic.
    FragmentWritten(Result<(), String>),
    /// The interpreter was run on the fragment.
    InterpreterReturned(ProcessOutcome),
}

/// A step with its texts as character sequences.
pub enum StrikeActionView {
    ProbeInterpreter { program: Seq<char>, argument: Seq<char> },
    LocateKernel { directory: Seq<char> },
    PrepareDestination { destination: Seq<char> },
    WriteFragment { path: Seq<char>, source: Seq<char> },
    RunInterpreter { program: Seq<char>, arguments: Seq<Seq<char>> },
    Finish(Result<(), StrikeErrorView>),
}

/// An event with its texts as character sequences.
pub enum StrikeEventView {
    Probed(ProcessOutcomeView),
    KernelLocated { present: bool },
    DestinationPrepared(Result<(), Seq<char>>),
    FragmentWritten(Result<(), Seq<char>>),
    InterpreterReturned(ProcessOutcomeView),
}

/// The texts of a list, each as a character sequence.
pub open spec fn text_views(texts: Seq<String>) -> Seq<Seq<char>> {
    Seq::new(texts.len(), |i: int| texts[i]@)
}

/// The outcome of a file operation with its diagnostic as a character
/// sequence.
pub open spec fn file_outcome_view(outcome: Result<(), String>) -> Result<(), Seq<char>> {
    match outcome {
        Ok(()) => Ok(()),
        Err(diagnostic) => Err(diagnostic@),
    }
}

impl View for StrikeAction {
    type V = StrikeActionView;

    open spec fn view(&self) -> StrikeActionView {
        match *self {
            StrikeAction::ProbeInterpreter { program, argument } => StrikeActionView::ProbeInterpreter {
                program: program@,
                argument: argument@,
            },
            StrikeAction::LocateKernel { directory } => StrikeActionView::LocateKernel {
                directory: directory@,
            },
            StrikeAction::PrepareDestination { destination } => StrikeActionView::PrepareDestination {
                destination: destination@,
            },
            StrikeAction::WriteFragment { path, source } => StrikeActionView::WriteFragment {
                path: path@,
                source: source@,
            },
            StrikeAction::RunInterpreter { program, arguments } => StrikeActionView::RunInterpreter {
                program: program@,
                arguments: text_views(arguments@),
            },
            StrikeAction::Finish(result) => StrikeActionView::Finish(verdict_view(result)),
        }
    }
}

impl View for StrikeEvent {
    type V = StrikeEventView;

    open spec fn view(&self) -> StrikeEventView {
        match *self {
            StrikeEvent::Probed(outcome) => StrikeEventView::Probed(outcome@),
            StrikeEvent::KernelLocated { present } => StrikeEventView::KernelLocated { present },
            StrikeEvent::DestinationPrepared(outcome) => StrikeEventView::DestinationPrepared(
                file_outcome_view(outcome),
            ),
            StrikeEvent::FragmentWritten(outcome) => StrikeEventView::FragmentWritten(
                file_outcome_view(outcome),
            ),
            StrikeEvent::InterpreterReturned(outcome) => StrikeEventView::InterpreterReturned(
                outcome@,
            ),
        }
    }
}

/// Where a run stands: which outcome it waits for, or how it ended.
pub enum StageView {
    Probing,
    Locating,
    Preparing,
    Writing,
    Running,
    Finished(Result<(), StrikeErrorView>),
}

/// A run: the request, and where it stands.
pub struct StrikeRunView {
    pub bytes: Seq<u8>,
    pub path: Seq<char>,
    pub stage: StageView,
}

/// The run of a new request. A buffer that fails the strict gate ends it at
/// once, with the error of its first offending byte; any other waits for the
/// probe.
pub open spec fn start(bytes: Seq<u8>, path: Seq<char>) -> StrikeRunView {
    StrikeRunView {
        bytes,
        path,
        stage: match first_contaminated(bytes) {
            Some(i) => StageView::Finished(Err(violation(bytes[i], i))),
            None => StageView::Probing,
        },
    }
}

/// The stage that follows `stage` on `event`. An event that does not answer
/// the step of `stage` changes nothing.
pub open spec fn next_stage(stage: StageView, event: StrikeEventView) -> StageView {
    match (stage, event) {
        (StageView::Probing, StrikeEventView::Probed(outcome)) => if succeeded(outcome) {
            StageView::Locating
        } else {
            StageView::Finished(Err(StrikeErrorView::GforthNotFound))
        },
        (StageView::Locating, StrikeEventView::KernelLocated { present }) => if present {
            StageView::Preparing
        } else {
            StageView::Finished(Err(StrikeErrorView::FileError("kernel/ directory not found"@)))
        },
        (StageView::Preparing, StrikeEventView::DestinationPrepared(outcome)) => match outcome {
            Ok(()) => StageView::Writing,
            Err(diagnostic) => StageView::Finished(Err(StrikeErrorView::FileError(diagnostic))),
        },
        (StageView::Writing, StrikeEventView::FragmentWritten(outcome)) => match outcome {
            Ok(()) => StageView::Running,
            Err(diagnostic) => StageView::Finished(Err(StrikeErrorView::FileError(diagnostic))),
        },
        (StageView::Running, StrikeEventView::InterpreterReturned(outcome)) => match outcome {
            ProcessOutcomeView::Exited { success } => if success {
                StageView::Finished(Ok(()))
            } else {
                StageView::Finished(
                    Err(StrikeErrorView::ForthError("Forth kernel returned non-zero exit code"@)),
                )
            },
            ProcessOutcomeView::NotStarted { diagnostic } => StageView::Finished(
                Err(StrikeErrorView::ForthError(diagnostic)),
            ),
        },
        (stage, _) => stage,
    }
}

/// The run after `event`.
pub open spec fn step(run: StrikeRunView, event: StrikeEventView) -> StrikeRunView {
    StrikeRunView { bytes: run.bytes, path: run.path, stage: next_stage(run.stage, event) }
}

/// The step that a run asks for.
pub open spec fn action_of(run: StrikeRunView) -> StrikeActionView {
    match run.stage {
        StageView::Probing => StrikeActionView::ProbeInterpreter {
            program: "gforth"@,
            argument: "--version"@,
        },
        StageView::Locating => StrikeActionView::LocateKernel { directory: "kernel"@ },
        StageView::Preparing => StrikeActionView::PrepareDestination { destination: run.path },
        StageView::Writing => StrikeActionView::WriteFragment {
            path: "kernel/data.fth"@,
            source: fragment_text(run.bytes),
        },
        StageView::Running => StrikeActionView::RunInterpreter {
            program: "gforth"@,
            arguments: seq![
                "kernel/striker.fth"@,
                "kernel/data.fth"@,
                "-e"@,
                directive_text(run.path, run.bytes.len()),
            ],
        },
        StageView::Finished(result) => StrikeActionView::Finish(result),
    }
}

#[derive(Debug, PartialEq, Eq)]
enum Stage {
    Probing,
    Locating,
    Preparing,
    Writing,
    Running,
    Finished(Result<(), StrikeError>),
}

impl View for Stage {
    type V = StageView;

    closed spec fn view(&self) -> StageView {
        match *self {
            Stage::Probing => StageView::Probing,
            Stage::Locating => StageView::Locating,
            Stage::Preparing => StageView::Preparing,
            Stage::Writing => StageView::Writing,
            Stage::Running => StageView::Running,
            Stage::Finished(result) => StageView::Finished(verdict_view(result)),
        }
    }
}

/// A strike under way. A run that has not ended holds a buffer that has
/// passed the strict gate.
#[derive(Debug)]
pub struct StrikeRun {
    request: StrikePayload,
    stage: Stage,
}

impl View for StrikeRun {
    type V = StrikeRunView;

    closed spec fn view(&self) -> StrikeRunView {
        StrikeRunView { bytes: self.request.bytes@, path: self.request.path@, stage: self.stage@ }
    }
}

/// Starts the strike of `bytes` onto the substrate at `path`: the strict
/// gate is passed first, and nothing outside is asked for unless it was.
pub fn execute_forth_strike(bytes: Vec<u8>, path: String) -> (run: StrikeRun)
    ensures
        run@ == start(bytes@, path@),
{
    let stage = match validate_strict(bytes.as_slice()) {
        Ok(()) => Stage::Probing,
        Err(e) => Stage::Finished(Err(e)),
    };
    StrikeRun { request: StrikePayload { bytes, path }, stage }
}

impl StrikeRun {
    #[verifier::type_invariant]
    spec fn gated(self) -> bool {
        self.stage is Finished || all_legal(self.request.bytes@)
    }

    /// The step that the run asks for.
    pub fn action(&self) -> (action: StrikeAction)
        ensures
            action@ == action_of(self@),
    {
        proof {
            use_type_invariant(self);
        }
        match &self.stage {
            Stage::Probing => StrikeAction::ProbeInterpreter {
                program: String::from_str("gforth"),
                argument: String::from_str("--version"),
            },
            Stage::Locating => StrikeAction::LocateKernel { directory: String::from_str("kernel") },
            Stage::Preparing => StrikeAction::PrepareDestination {
                destination: self.request.path.clone(),
            },
            Stage::Writing => StrikeAction::WriteFragment {
                path: String::from_str("kernel/data.fth"),
                source: data_fragment(self.request.bytes.as_slice()),
            },
            Stage::Running => {
                let mut arguments: Vec<String> = Vec::new();
                arguments.push(String::from_str("kernel/striker.fth"));
                arguments.push(String::from_str("kernel/data.fth"));
                arguments.push(String::from_str("-e"));
                arguments.push(
                    execution_directive(self.request.path.as_str(), self.request.bytes.len()),
                );
                assert(text_views(arguments@) =~= seq![
                    "kernel/striker.fth"@,
                    "kernel/data.fth"@,
                    "-e"@,
                    directive_text(self.request.path@, self.request.bytes@.len()),
                ]);
                StrikeAction::RunInterpreter { program: String::from_str("gforth"), arguments }
            },
            Stage::Finished(result) => StrikeAction::Finish(
                match result {
                    Ok(()) => Ok(()),
                    Err(e) => Err(e.duplicate()),
                },
            ),
        }
    }

    /// Takes the outcome of the step that the run asked for, and moves on.
    /// An event that does not answer that step leaves the run as it is.
    pub fn advance(self, event: StrikeEvent) -> (next: StrikeRun)
        ensures
            next@ == step(self@, event@),
    {
        proof {
            use_type_invariant(&self);
        }
        let StrikeRun { request, stage } = self;
        let stage = match (stage, event) {
            (Stage::Probing, StrikeEvent::Probed(outcome)) => {
                if check_gforth(&outcome) {
                    Stage::Locating
                } else {
                    Stage::Finished(Err(StrikeError::GforthNotFound))
                }
            },
            (Stage::Locating, StrikeEvent::KernelLocated { present }) => {
                if present {
                    Stage::Preparing
                } else {
                    Stage::Finished(
                        Err(StrikeError::FileError(String::from_str("kernel/ directory not found"))),
                    )
                }
            },
            (Stage::Preparing, StrikeEvent::DestinationPrepared(outcome)) => match outcome {
                Ok(()) => Stage::Writing,
                Err(diagnostic) => Stage::Finished(Err(StrikeError::FileError(diagnostic))),
            },
            (Stage::Writing, StrikeEvent::FragmentWritten(outcome)) => match outcome {
                Ok(()) => Stage::Running,
                Err(diagnostic) => Stage::Finished(Err(StrikeError::FileError(diagnostic))),
            },
            (Stage::Running, StrikeEvent::InterpreterReturned(outcome)) => match outcome {
                ProcessOutcome::Exited { success } => {
                    if success {
                        Stage::Finished(Ok(()))
                    } else {
                        Stage::Finished(
                            Err(
                                StrikeError::ForthError(
                                    String::from_str("Forth kernel returned non-zero exit code"),
                                ),
                            ),
                        )
                    }
                },
                ProcessOutcome::NotStarted { diagnostic } => Stage::Finished(
                    Err(StrikeError::ForthError(diagnostic)),
                ),
            },
            (stage, _) => stage,
        };
        StrikeRun { request, stage }
    }
}

/// The run is guarded: it has ended, or its buffer has passed the strict
/// gate.
pub open spec fn gate_holds(run: StrikeRunView) -> bool {
    run.stage is Finished || all_legal(run.bytes)
}

/// The run of a request after the events, taken in their order.
pub open spec fn run_after(
    bytes: Seq<u8>,
    path: Seq<char>,
    events: Seq<StrikeEventView>,
) -> StrikeRunView
    decreases events.len(),
{
    if events.len() == 0 {
        start(bytes, path)
    } else {
        step(run_after(bytes, path, events.drop_last()), events.last())
    }
}

/// The event says that the interpreter answered the probe with success.
pub open spec fn probe_passed(event: StrikeEventView) -> bool {
    event matches StrikeEventView::Probed(outcome) && succeeded(outcome)
}

/// The event says that the interpreter ran the strike and exited with
/// status zero.
pub open spec fn strike_completed(event: StrikeEventView) -> bool {
    event matches StrikeEventView::InterpreterReturned(outcome) && succeeded(outcome)
}

/// The step goes beyond the probe: it looks at, writes to or runs something
/// on behalf of the strike.
pub open spec fn beyond_probe(action: StrikeActionView) -> bool {
    action is LocateKernel || action is PrepareDestination || action is WriteFragment
        || action is RunInterpreter
}

/// The event is the outcome of the step.
pub open spec fn answers(action: StrikeActionView, event: StrikeEventView) -> bool {
    match action {
        StrikeActionView::ProbeInterpreter { .. } => event is Probed,
        StrikeActionView::LocateKernel { .. } => event is KernelLocated,
        StrikeActionView::PrepareDestination { .. } => event is DestinationPrepared,
        StrikeActionView::WriteFragment { .. } => event is FragmentWritten,
        StrikeActionView::RunInterpreter { .. } => event is InterpreterReturned,
        StrikeActionView::Finish(_) => false,
    }
}

/// The most steps that a run at `stage` can still ask for.
pub open spec fn steps_left(stage: StageView) -> nat {
    match stage {
        StageView::Probing => 5,
        StageView::Locating => 4,
        StageView::Preparing => 3,
        StageView::Writing => 2,
        StageView::Running => 1,
        StageView::Finished(_) => 0,
    }
}

/// A run that has ended stays as it is, whatever is handed to it: the first
/// failure is the result.
pub proof fn lemma_finished_is_final(run: StrikeRunView, event: StrikeEventView)
    requires
        run.stage is Finished,
    ensures
        step(run, event) == run,
{
}

/// Each outcome of the step that was asked for brings the run nearer to its
/// end, so a strike takes five steps at most; any other event changes
/// nothing.
pub proof fn lemma_every_answer_moves_on(run: StrikeRunView, event: StrikeEventView)
    ensures
        answers(action_of(run), event) ==> steps_left(step(run, event).stage) < steps_left(
            run.stage,
        ),
        !answers(action_of(run), event) ==> step(run, event) == run,
        steps_left(run.stage) == 0 <==> action_of(run) is Finish,
{
}

/// No contaminated buffer passes: whatever the events, a run keeps its
/// request, and it asks for a step outside only on behalf of a buffer of
/// which every byte may be struck.
pub proof fn lemma_gate_guards_every_step(
    bytes: Seq<u8>,
    path: Seq<char>,
    events: Seq<StrikeEventView>,
)
    ensures
        run_after(bytes, path, events).bytes == bytes,
        run_after(bytes, path, events).path == path,
        gate_holds(run_after(bytes, path, events)),
        !(action_of(run_after(bytes, path, events)) is Finish) ==> all_legal(bytes),
    decreases events.len(),
{
    if events.len() == 0 {
        lemma_first_contaminated_is_least(bytes);
    } else {
        lemma_gate_guards_every_step(bytes, path, events.drop_last());
    }
}

/// Nothing is looked at, written or run on behalf of the strike, and the
/// strike does not succeed, unless the interpreter has answered the probe
/// with success before.
pub proof fn lemma_probe_comes_first(bytes: Seq<u8>, path: Seq<char>, events: Seq<StrikeEventView>)
    requires
        beyond_probe(action_of(run_after(bytes, path, events))) || run_after(
            bytes,
            path,
            events,
        ).stage == StageView::Finished(Ok(())),
    ensures
        exists|i: int| 0 <= i < events.len() && probe_passed(#[trigger] events[i]),
    decreases events.len(),
{
    if events.len() > 0 {
        let init = events.drop_last();
        let before = run_after(bytes, path, init);
        if beyond_probe(action_of(before)) || before.stage == StageView::Finished(Ok(())) {
            lemma_probe_comes_first(bytes, path, init);
            let i = choose|i: int| 0 <= i < init.len() && probe_passed(#[trigger] init[i]);
            assert(events[i] == init[i]);
        } else {
            assert(probe_passed(events[events.len() - 1]));
        }
    }
}

/// A strike succeeds only when the interpreter has run it and exited with
/// status zero.
pub proof fn lemma_success_needs_completion(
    bytes: Seq<u8>,
    path: Seq<char>,
    events: Seq<StrikeEventView>,
)
    requires
        run_after(bytes, path, events).stage == StageView::Finished(Ok(())),
    ensures
        exists|i: int| 0 <= i < events.len() && strike_completed(#[trigger] events[i]),
    decreases events.len(),
{
    if events.len() > 0 {
        let init = events.drop_last();
        let before = run_after(bytes, path, init);
        if before.stage == StageView::Finished(Ok(())) {
            lemma_success_needs_completion(bytes, path, init);
            let i = choose|i: int| 0 <= i < init.len() && strike_completed(#[trigger] init[i]);
            assert(events[i] == init[i]);
        } else {
            assert(strike_completed(events[events.len() - 1]));
        }
    }
}

} // verus!
