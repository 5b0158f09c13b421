//! Running a command, step by step.
//!
//! An [`Execution`] says at every moment which operation is due next. Its owner
//! performs the operation, tells what came of it with [`Execution::step`], and goes
//! on until the stage is [`Stage::Done`].

use crate::command::{CommandLine, CommandView};
use crate::error::{ErrorView, PerlError};
use crate::outside;
use crate::path::FilePath;
use std::borrow::Cow;
use vstd::prelude::*;

verus! {

/// How a process ended.
#[derive(Debug, Clone, Copy, PartialEq, Eq, Structural)]
pub enum ExitStatus {
    /// It exited with this code.
    Exited(i32),
    /// It was terminated by this signal.
    Signaled(i32),
}

/// Whether a process ended successfully: it exited, and with status zero.
pub open spec fn succeeded(status: ExitStatus) -> bool {
    status == ExitStatus::Exited(0)
}

/// The code that a process exited with, if it was not terminated by a signal.
pub open spec fn exit_code(status: ExitStatus) -> Option<i32> {
    match status {
        ExitStatus::Exited(code) => Some(code),
        ExitStatus::Signaled(_) => None,
    }
}

impl ExitStatus {
    /// Whether the process exited with status zero.
    pub fn success(&self) -> (b: bool)
        ensures
            b == succeeded(*self),
            b <==> (*self matches ExitStatus::Exited(code) && code == 0),
    {
        match self {
            ExitStatus::Exited(code) => *code == 0,
            ExitStatus::Signaled(_) => false,
        }
    }

    /// The exit code, or `None` when the process was terminated by a signal.
    pub fn code(&self) -> (code: Option<i32>)
        ensures
            code == exit_code(*self),
            *self matches ExitStatus::Exited(c) ==> code == Some(c),
            *self is Signaled ==> code is None,
    {
        match self {
            ExitStatus::Exited(code) => Some(*code),
            ExitStatus::Signaled(_) => None,
        }
    }
}

/// The outcome of running a command, as mathematical values.
#[verifier::ext_equal]
pub struct ResultView {
    /// How the process ended.
    pub status: ExitStatus,
    /// Whether it ended successfully.
    pub is_success: bool,
    /// Its exit code.
    pub code: Option<i32>,
    /// What it wrote, if that was captured.
    pub output: Option<Seq<u8>>,
}

/// The outcome of a process that ended with `status` and of which `output` was
/// captured.
pub open spec fn result_of(status: ExitStatus, output: Option<Seq<u8>>) -> ResultView {
    ResultView { status, is_success: succeeded(status), code: exit_code(status), output }
}

/// The outcome of running `perl` or `make`.
#[derive(Debug, PartialEq, Eq)]
#[non_exhaustive]
pub struct ExecuteResult {
    /// The process exit status.
    pub status: ExitStatus,
    /// `true` when the process exited with status zero.
    pub is_success: bool,
    /// The exit code, or `None` when the process was terminated by a signal.
    pub code: Option<i32>,
    /// The child's merged stdout and stderr, captured only when the `Perl` wrapper had
    /// `capture_output` set; `None` when the child inherited this process's streams.
    pub output: Option<Vec<u8>>,
}

impl View for ExecuteResult {
    type V = ResultView;

    open spec fn view(&self) -> ResultView {
        ResultView {
            status: self.status,
            is_success: self.is_success,
            code: self.code,
            output: crate::command::optional_bytes(self.output),
        }
    }
}

impl DeepView for ExecuteResult {
    type V = ResultView;

    open spec fn deep_view(&self) -> ResultView {
        self@
    }
}

impl Clone for ExecuteResult {
    fn clone(&self) -> (copy: Self)
        ensures
            copy@ == self@,
    {
        let output = match &self.output {
            Some(bytes) => Some(vstd::slice::slice_to_vec(bytes.as_slice())),
            None => None,
        };
        ExecuteResult { status: self.status, is_success: self.is_success, code: self.code, output }
    }
}

impl ExecuteResult {
    /// The outcome of a process that ended with `status` and of which `output` was
    /// captured.
    pub fn new(status: ExitStatus, output: Option<Vec<u8>>) -> (result: Self)
        ensures
            result@ == result_of(status, crate::command::optional_bytes(output)),
            result.status == status,
            result.is_success <==> result.code == Some(0i32),
            result.output == output,
    {
        ExecuteResult { status, is_success: status.success(), code: status.code(), output }
    }

    /// The captured output decoded as UTF-8, with invalid sequences replaced. `None`
    /// when output was not captured.
    pub fn output_lossy(&self) -> (text: Option<Cow<'_, str>>)
        ensures
            text is Some <==> self@.output is Some,
            text matches Some(t) ==> t@ == outside::utf8_lossy(self@.output->0),
            text matches Some(t) ==> vstd::utf8::valid_utf8(self@.output->0) ==> t@
                == vstd::utf8::decode_utf8(self@.output->0),
    {
        match &self.output {
            Some(bytes) => Some(String::from_utf8_lossy(bytes.as_slice())),
            None => None,
        }
    }
}

/// The operation that an execution waits for, as mathematical values.
pub enum StageView {
    /// See `Stage::Run`.
    Run,
    /// See `Stage::Pipe`.
    Pipe,
    /// See `Stage::Share`.
    Share,
    /// See `Stage::Spawn`.
    Spawn,
    /// See `Stage::Read`.
    Read,
    /// See `Stage::Wait`.
    Wait(Seq<u8>),
    /// See `Stage::Done`.
    Done(Result<ResultView, ErrorView>),
}

/// The operation that an execution waits for.
#[derive(Debug, PartialEq, Eq)]
pub enum Stage {
    /// Run the command to its end with the streams of this process.
    Run,
    /// Make the pipe that collects the output.
    Pipe,
    /// Make a second handle for the write end of the pipe, so that stdout and stderr
    /// both go to it and keep the order in which the child wrote its lines.
    Share,
    /// Start the command with its output going to the pipe, and close this process's
    /// copies of the write end, so that reading reaches the end once the child exits.
    Spawn,
    /// Read the pipe to its end.
    Read,
    /// Wait for the child to end; holds what was read.
    Wait(Vec<u8>),
    /// Nothing more to do.
    Done(Result<ExecuteResult, PerlError>),
}

impl View for Stage {
    type V = StageView;

    open spec fn view(&self) -> StageView {
        match self {
            Stage::Run => StageView::Run,
            Stage::Pipe => StageView::Pipe,
            Stage::Share => StageView::Share,
            Stage::Spawn => StageView::Spawn,
            Stage::Read => StageView::Read,
            Stage::Wait(output) => StageView::Wait(output@),
            Stage::Done(Ok(result)) => StageView::Done(Ok(result@)),
            Stage::Done(Err(error)) => StageView::Done(Err(error@)),
        }
    }
}

/// What came of an operation, as mathematical values.
pub enum EventView {
    /// See `Event::Ready`.
    Ready,
    /// See `Event::Output`.
    Output(Seq<u8>),
    /// See `Event::Ended`.
    Ended(ExitStatus),
    /// See `Event::Failed`.
    Failed,
}

/// What came of an operation.
#[derive(Debug, PartialEq, Eq)]
pub enum Event {
    /// The pipe was made or shared, or the child was started.
    Ready,
    /// This is all the child wrote.
    Output(Vec<u8>),
    /// The child ended.
    Ended(ExitStatus),
    /// The operation failed.
    Failed,
}

impl View for Event {
    type V = EventView;

    open spec fn view(&self) -> EventView {
        match self {
            Event::Ready => EventView::Ready,
            Event::Output(output) => EventView::Output(output@),
            Event::Ended(status) => EventView::Ended(*status),
            Event::Failed => EventView::Failed,
        }
    }
}

/// The error that the failure of the operation due at `stage` amounts to.
pub open spec fn failure(stage: StageView, program: Seq<u8>) -> ErrorView {
    match stage {
        StageView::Pipe => ErrorView::Pipe,
        StageView::Share => ErrorView::Capture,
        StageView::Read => ErrorView::Read,
        StageView::Wait(_) => ErrorView::Wait,
        _ => ErrorView::Run(program),
    }
}

/// The stage after `stage` when `event` came of its operation. An event that cannot
/// come of the operation changes nothing, and neither does any event at the end.
pub open spec fn next_stage(stage: StageView, program: Seq<u8>, event: EventView) -> StageView {
    match (stage, event) {
        (StageView::Done(_), _) => stage,
        (_, EventView::Failed) => StageView::Done(Err(failure(stage, program))),
        (StageView::Run, EventView::Ended(status)) => StageView::Done(Ok(result_of(status, None))),
        (StageView::Pipe, EventView::Ready) => StageView::Share,
        (StageView::Share, EventView::Ready) => StageView::Spawn,
        (StageView::Spawn, EventView::Ready) => StageView::Read,
        (StageView::Read, EventView::Output(output)) => StageView::Wait(output),
        (StageView::Wait(output), EventView::Ended(status)) => StageView::Done(
            Ok(result_of(status, Some(output))),
        ),
        _ => stage,
    }
}

/// A command being run, as mathematical values.
pub struct ExecutionView {
    /// What is run.
    pub command: CommandView,
    /// How error messages call the program.
    pub program: Seq<u8>,
    /// The operation that is due.
    pub stage: StageView,
}

/// A command being run.
#[derive(Debug, PartialEq, Eq)]
pub struct Execution {
    /// What is run.
    pub command: CommandLine,
    /// How error messages call the program.
    pub program: FilePath,
    /// The operation that is due.
    pub stage: Stage,
}

impl View for Execution {
    type V = ExecutionView;

    open spec fn view(&self) -> ExecutionView {
        ExecutionView { command: self.command@, program: self.program@, stage: self.stage@ }
    }
}

/// The stage at which a command starts.
pub open spec fn first_stage(capture: bool) -> StageView {
    if capture {
        StageView::Pipe
    } else {
        StageView::Run
    }
}

impl Execution {
    /// Takes in what came of the operation that was due.
    pub fn step(self, event: Event) -> (next: Self)
        ensures
            next@ == (ExecutionView {
                stage: next_stage(self@.stage, self@.program, event@),
                ..self@
            }),
    {
        let Execution { command, program, stage } = self;
        let stage = match (stage, event) {
            (Stage::Done(result), _) => Stage::Done(result),
            (Stage::Pipe, Event::Failed) => Stage::Done(Err(PerlError::Pipe)),
            (Stage::Share, Event::Failed) => Stage::Done(Err(PerlError::Capture)),
            (Stage::Read, Event::Failed) => Stage::Done(Err(PerlError::Read)),
            (Stage::Wait(_), Event::Failed) => Stage::Done(Err(PerlError::Wait)),
            (_, Event::Failed) => Stage::Done(Err(PerlError::Run(program.clone()))),
            (Stage::Run, Event::Ended(status)) => Stage::Done(Ok(ExecuteResult::new(status, None))),
            (Stage::Pipe, Event::Ready) => Stage::Share,
            (Stage::Share, Event::Ready) => Stage::Spawn,
            (Stage::Spawn, Event::Ready) => Stage::Read,
            (Stage::Read, Event::Output(output)) => Stage::Wait(output),
            (Stage::Wait(output), Event::Ended(status)) => Stage::Done(
                Ok(ExecuteResult::new(status, Some(output))),
            ),
            (stage, _) => stage,
        };
        Execution { command, program, stage }
    }
}

/// The stage that an execution is at after `events`.
pub open spec fn stage_after(
    start: StageView,
    program: Seq<u8>,
    events: Seq<EventView>,
) -> StageView
    decreases events.len(),
{
    if events.len() == 0 {
        start
    } else {
        next_stage(
            stage_after(start, program, events.drop_last()),
            program,
            events.last(),
        )
    }
}

/// Whatever happens, an execution that ends with a result has captured output exactly
/// when it was asked to, and reports what was read and the status with which the process
/// ended, as a success exactly if the exit code is zero; one that ends with an error does so
/// because an operation failed, never because of the status.
pub proof fn law_outcome(capture: bool, program: Seq<u8>, events: Seq<EventView>)
    ensures
        match stage_after(first_stage(capture), program, events) {
            StageView::Done(Ok(result)) => {
                &&& (result.output is Some) == capture
                &&& result == result_of(result.status, result.output)
                &&& events.contains(EventView::Ended(result.status))
                &&& result.output matches Some(output) ==> events.contains(
                    EventView::Output(output),
                )
                &&& result.is_success <==> result.code == Some(0i32)
                &&& result.code is None <==> result.status is Signaled
                &&& result.status matches ExitStatus::Exited(code) ==> result.code == Some(code)
            },
            StageView::Done(Err(_)) => events.contains(EventView::Failed),
            StageView::Run => !capture,
            StageView::Wait(output) => capture && events.contains(EventView::Output(output)),
            _ => capture,
        },
    decreases events.len(),
{
    if events.len() > 0 {
        let before = events.drop_last();
        law_outcome(capture, program, before);
        assert(events[events.len() - 1] == events.last());
        assert forall|e: EventView| before.contains(e) implies events.contains(e) by {
            let i = choose|i: int| 0 <= i < before.len() && before[i] == e;
            assert(events[i] == e);
        }
    }
}

/// A run that inherits the streams reports how the process ended, and has no output.
pub proof fn law_inherited_run(program: Seq<u8>, status: ExitStatus)
    ensures
        stage_after(first_stage(false), program, seq![EventView::Ended(status)])
            == StageView::Done(Ok(result_of(status, None))),
{
    reveal_with_fuel(stage_after, 2);
}

/// A captured run in which nothing fails reports all that was read from the pipe, and
/// how the process ended.
pub proof fn law_captured_run(program: Seq<u8>, output: Seq<u8>, status: ExitStatus)
    ensures
        stage_after(
            first_stage(true),
            program,
            seq![
                EventView::Ready,
                EventView::Ready,
                EventView::Ready,
                EventView::Output(output),
                EventView::Ended(status),
            ],
        ) == StageView::Done(Ok(result_of(status, Some(output)))),
{
    let all = seq![
        EventView::Ready,
        EventView::Ready,
        EventView::Ready,
        EventView::Output(output),
        EventView::Ended(status),
    ];
    reveal_with_fuel(stage_after, 6);
    assert(all.drop_last() == all.take(4));
    assert(all.take(4).drop_last() == all.take(3));
    assert(all.take(3).drop_last() == all.take(2));
    assert(all.take(2).drop_last() == all.take(1));
    assert(all.take(1).drop_last() == all.take(0));
}

/// An execution that has ended stays as it is.
pub proof fn law_end_is_final(
    outcome: Result<ResultView, ErrorView>,
    program: Seq<u8>,
    events: Seq<EventView>,
)
    ensures
        stage_after(StageView::Done(outcome), program, events) == StageView::Done(outcome),
    decreases events.len(),
{
    if events.len() > 0 {
        law_end_is_final(outcome, program, events.drop_last());
    }
}

/// A result keeps the status and the output. It is a success exactly if its code is zero,
/// and it has a code exactly if the process was not terminated by a signal.
pub proof fn law_result_fields(status: ExitStatus, output: Option<Seq<u8>>)
    ensures
        ({
            let result = result_of(status, output);
            &&& result.status == status
            &&& result.output == output
            &&& result.is_success <==> result.code == Some(0i32)
            &&& result.code is None <==> status is Signaled
            &&& status matches ExitStatus::Exited(code) ==> result.code == Some(code)
        }),
{
}

/// The operation of a captured run that fails decides the error that the run ends with:
/// making the pipe, sharing it, starting the program, reading, or waiting. A run that
/// inherits the streams fails as one that cannot start the program.
pub proof fn law_failures(program: Seq<u8>, output: Seq<u8>)
    ensures
        stage_after(first_stage(false), program, seq![EventView::Failed]) == StageView::Done(
            Err(ErrorView::Run(program)),
        ),
        stage_after(first_stage(true), program, seq![EventView::Failed]) == StageView::Done(
            Err(ErrorView::Pipe),
        ),
        stage_after(first_stage(true), program, seq![EventView::Ready, EventView::Failed])
            == StageView::Done(Err(ErrorView::Capture)),
        stage_after(
            first_stage(true),
            program,
            seq![EventView::Ready, EventView::Ready, EventView::Failed],
        ) == StageView::Done(Err(ErrorView::Run(program))),
        stage_after(
            first_stage(true),
            program,
            seq![EventView::Ready, EventView::Ready, EventView::Ready, EventView::Failed],
        ) == StageView::Done(Err(ErrorView::Read)),
        stage_after(
            first_stage(true),
            program,
            seq![
                EventView::Ready,
                EventView::Ready,
                EventView::Ready,
                EventView::Output(output),
                EventView::Failed,
            ],
        ) == StageView::Done(Err(ErrorView::Wait)),
{
    let none = Seq::<EventView>::empty();
    let one = none.push(EventView::Ready);
    let two = one.push(EventView::Ready);
    let three = two.push(EventView::Ready);
    let four = three.push(EventView::Output(output));
    let failed = EventView::Failed;
    lemma_next_event(first_stage(false), program, none, failed);
    lemma_next_event(first_stage(true), program, none, failed);
    lemma_next_event(first_stage(true), program, none, EventView::Ready);
    lemma_next_event(first_stage(true), program, one, failed);
    lemma_next_event(first_stage(true), program, one, EventView::Ready);
    lemma_next_event(first_stage(true), program, two, failed);
    lemma_next_event(first_stage(true), program, two, EventView::Ready);
    lemma_next_event(first_stage(true), program, three, failed);
    lemma_next_event(first_stage(true), program, three, EventView::Output(output));
    lemma_next_event(first_stage(true), program, four, failed);
    assert(none.push(failed) == seq![failed]);
    assert(one.push(failed) == seq![EventView::Ready, failed]);
    assert(two.push(failed) == seq![EventView::Ready, EventView::Ready, failed]);
    assert(three.push(failed) == seq![
        EventView::Ready,
        EventView::Ready,
        EventView::Ready,
        failed,
    ]);
    assert(four.push(failed) == seq![
        EventView::Ready,
        EventView::Ready,
        EventView::Ready,
        EventView::Output(output),
        failed,
    ]);
}

proof fn lemma_next_event(
    start: StageView,
    program: Seq<u8>,
    events: Seq<EventView>,
    event: EventView,
)
    ensures
        stage_after(start, program, events.push(event)) == next_stage(
            stage_after(start, program, events),
            program,
            event,
        ),
{
    assert(events.push(event).drop_last() == events);
}

/// An event that cannot come of the operation that is due changes nothing.
pub proof fn law_unexpected_events(
    program: Seq<u8>,
    read: Seq<u8>,
    output: Seq<u8>,
    status: ExitStatus,
)
    ensures
        next_stage(StageView::Run, program, EventView::Ready) == StageView::Run,
        next_stage(StageView::Run, program, EventView::Output(output)) == StageView::Run,
        next_stage(StageView::Pipe, program, EventView::Output(output)) == StageView::Pipe,
        next_stage(StageView::Pipe, program, EventView::Ended(status)) == StageView::Pipe,
        next_stage(StageView::Share, program, EventView::Output(output)) == StageView::Share,
        next_stage(StageView::Share, program, EventView::Ended(status)) == StageView::Share,
        next_stage(StageView::Spawn, program, EventView::Output(output)) == StageView::Spawn,
        next_stage(StageView::Spawn, program, EventView::Ended(status)) == StageView::Spawn,
        next_stage(StageView::Read, program, EventView::Ready) == StageView::Read,
        next_stage(StageView::Read, program, EventView::Ended(status)) == StageView::Read,
        next_stage(StageView::Wait(read), program, EventView::Ready) == StageView::Wait(read),
        next_stage(StageView::Wait(read), program, EventView::Output(output)) == StageView::Wait(
            read,
        ),
{
}

/// What results, stages, events and executions stand for is what they hold.
pub proof fn law_execution_views(
    result: ExecuteResult,
    stage: Stage,
    event: Event,
    execution: Execution,
)
    ensures
        result@.status == result.status,
        result@.is_success == result.is_success,
        result@.code == result.code,
        result@.output is Some <==> result.output is Some,
        result.output matches Some(bytes) ==> result@.output == Some(bytes@),
        result.deep_view() == result@,
        match stage {
            Stage::Run => stage@ is Run,
            Stage::Pipe => stage@ is Pipe,
            Stage::Share => stage@ is Share,
            Stage::Spawn => stage@ is Spawn,
            Stage::Read => stage@ is Read,
            Stage::Wait(output) => stage@ == StageView::Wait(output@),
            Stage::Done(Ok(result)) => stage@ == StageView::Done(Ok(result@)),
            Stage::Done(Err(error)) => stage@ == StageView::Done(Err(error@)),
        },
        match event {
            Event::Ready => event@ is Ready,
            Event::Output(output) => event@ == EventView::Output(output@),
            Event::Ended(status) => event@ == EventView::Ended(status),
            Event::Failed => event@ is Failed,
        },
        execution@.command == execution.command@,
        execution@.program == execution.program.bytes@,
        execution@.stage == execution.stage@,
{
}

} // verus!
