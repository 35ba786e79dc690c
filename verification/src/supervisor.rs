//! The process supervisor: what a session's commands mean for start-up, and
//! which long-running processes the session has to terminate when it ends.
//!
//! The supervisor starts nothing itself. Its caller starts a command as
//! [`SpawnHelper::plan`] says and reports what came of it; the supervisor
//! decides what that means and keeps the record of the processes that run.

use crate::command::{plan_command, plan_of, SpawnPlan};
use crate::teardown::{
    lemma_teardown_attempts_every_process, Teardown, TeardownView, TerminationView,
};
use vstd::prelude::*;

verus! {

/// How a process ended.
#[derive(Clone, Copy, Debug, PartialEq, Eq, Structural)]
pub enum ExitStatus {
    /// It exited by itself, with this code.
    Exited(i32),
    /// A signal with this number ended it.
    Signaled(i32),
}

impl ExitStatus {
    /// A process succeeds by exiting with code zero.
    pub open spec fn is_success(self) -> bool {
        self == ExitStatus::Exited(0)
    }

    /// Whether the process succeeded.
    pub fn success(&self) -> (b: bool)
        ensures
            b == self.is_success(),
    {
        match self {
            ExitStatus::Exited(code) => *code == 0,
            ExitStatus::Signaled(_) => false,
        }
    }
}

/// Why a command did not start.
#[derive(Clone, Debug, PartialEq, Eq)]
pub enum SpawnCause {
    /// The command line holds no word, and so names no program.
    NoProgram,
    /// The operating system refused, with this message.
    Os(String),
}

/// A `SpawnCause` as mathematical values.
pub enum SpawnCauseView {
    NoProgram,
    Os(Seq<char>),
}

impl View for SpawnCause {
    type V = SpawnCauseView;

    open spec fn view(&self) -> SpawnCauseView {
        match self {
            SpawnCause::NoProgram => SpawnCauseView::NoProgram,
            SpawnCause::Os(message) => SpawnCauseView::Os(message@),
        }
    }
}

/// Why a command failed.
#[derive(Clone, Debug, PartialEq, Eq)]
pub enum SpawnError {
    /// The process could not be created, or could not be waited for.
    SpawnFailed { command: String, cause: SpawnCause },
    /// The command ran to its end and did not succeed.
    NonZeroExit { command: String, status: ExitStatus },
}

/// A `SpawnError` as mathematical values.
pub enum SpawnErrorView {
    SpawnFailed { command: Seq<char>, cause: SpawnCauseView },
    NonZeroExit { command: Seq<char>, status: ExitStatus },
}

impl View for SpawnError {
    type V = SpawnErrorView;

    open spec fn view(&self) -> SpawnErrorView {
        match self {
            SpawnError::SpawnFailed { command, cause } => SpawnErrorView::SpawnFailed {
                command: command@,
                cause: cause@,
            },
            SpawnError::NonZeroExit { command, status } => SpawnErrorView::NonZeroExit {
                command: command@,
                status: *status,
            },
        }
    }
}

/// What came of running a command to its end.
#[derive(Clone, Debug, PartialEq, Eq)]
pub enum Completion {
    /// The process ran and ended with this status.
    Exited(ExitStatus),
    /// The process could not be created or waited for; the message says why.
    Failed(String),
}

/// A `Completion` as mathematical values.
pub enum CompletionView {
    Exited(ExitStatus),
    Failed(Seq<char>),
}

impl View for Completion {
    type V = CompletionView;

    open spec fn view(&self) -> CompletionView {
        match self {
            Completion::Exited(status) => CompletionView::Exited(*status),
            Completion::Failed(message) => CompletionView::Failed(message@),
        }
    }
}

/// What came of starting a command in the background.
#[derive(Clone, Debug, PartialEq, Eq)]
pub enum Launch {
    /// The process runs, under this process identifier.
    Started(u32),
    /// The process could not be created; the message says why.
    Failed(String),
}

/// A `Launch` as mathematical values.
pub enum LaunchView {
    Started(u32),
    Failed(Seq<char>),
}

impl View for Launch {
    type V = LaunchView;

    open spec fn view(&self) -> LaunchView {
        match self {
            Launch::Started(pid) => LaunchView::Started(*pid),
            Launch::Failed(message) => LaunchView::Failed(message@),
        }
    }
}

/// The name under which the supervisor keeps a process: the command line
/// that started it. Two processes may share a name.
#[derive(Clone, Debug, PartialEq, Eq)]
pub struct ProcessId {
    pub label: String,
}

impl View for ProcessId {
    type V = Seq<char>;

    open spec fn view(&self) -> Seq<char> {
        self.label@
    }
}

/// A long-running process that the supervisor has to terminate.
#[derive(Clone, Debug, PartialEq, Eq)]
pub struct ManagedProcess {
    /// The command line that started it.
    pub label: String,
    /// The operating system's identifier of the process.
    pub pid: u32,
    /// The file that receives its output, if its output is kept.
    pub output_sink: Option<String>,
}

/// A `ManagedProcess` as mathematical values.
pub struct ManagedProcessView {
    pub label: Seq<char>,
    pub pid: u32,
    pub output_sink: Option<Seq<char>>,
}

impl View for ManagedProcess {
    type V = ManagedProcessView;

    open spec fn view(&self) -> ManagedProcessView {
        ManagedProcessView {
            label: self.label@,
            pid: self.pid,
            output_sink: match self.output_sink {
                Some(path) => Some(path@),
                None => None,
            },
        }
    }
}

impl DeepView for ManagedProcess {
    type V = ManagedProcessView;

    open spec fn deep_view(&self) -> ManagedProcessView {
        self@
    }
}

/// What running `command` to its end means, given what came of it: success
/// where the command names a program and the process exited with code zero.
pub open spec fn completion_result(command: Seq<char>, outcome: CompletionView) -> Result<
    (),
    SpawnErrorView,
> {
    if plan_of(command) is None {
        Err(SpawnErrorView::SpawnFailed { command, cause: SpawnCauseView::NoProgram })
    } else {
        match outcome {
            CompletionView::Failed(message) => Err(
                SpawnErrorView::SpawnFailed { command, cause: SpawnCauseView::Os(message) },
            ),
            CompletionView::Exited(status) => if status.is_success() {
                Ok(())
            } else {
                Err(SpawnErrorView::NonZeroExit { command, status })
            },
        }
    }
}

/// What starting `command` in the background means, given what came of it:
/// the process to keep, where the command names a program and the process
/// runs. Its output sink is the log file of the command's plan.
pub open spec fn launch_result(command: Seq<char>, outcome: LaunchView) -> Result<
    ManagedProcessView,
    SpawnErrorView,
> {
    match plan_of(command) {
        None => Err(SpawnErrorView::SpawnFailed { command, cause: SpawnCauseView::NoProgram }),
        Some(plan) => match outcome {
            LaunchView::Failed(message) => Err(
                SpawnErrorView::SpawnFailed { command, cause: SpawnCauseView::Os(message) },
            ),
            LaunchView::Started(pid) => Ok(
                ManagedProcessView { label: command, pid, output_sink: Some(plan.log_path) },
            ),
        },
    }
}

/// The processes kept after a report on starting `command`, where `kept`
/// were kept before: a process that runs is kept after them, and a failure
/// changes nothing.
pub open spec fn kept_after_launch(
    kept: Seq<ManagedProcessView>,
    command: Seq<char>,
    outcome: LaunchView,
) -> Seq<ManagedProcessView> {
    match launch_result(command, outcome) {
        Ok(process) => kept.push(process),
        Err(_) => kept,
    }
}

/// The processes kept after the reports `calls`, each a command with what
/// came of starting it, were made in order.
pub open spec fn kept_after_launches(
    kept: Seq<ManagedProcessView>,
    calls: Seq<(Seq<char>, LaunchView)>,
) -> Seq<ManagedProcessView>
    decreases calls.len(),
{
    if calls.len() == 0 {
        kept
    } else {
        kept_after_launch(
            kept_after_launches(kept, calls.drop_last()),
            calls.last().0,
            calls.last().1,
        )
    }
}

/// Holds of the reports that give a process to keep.
pub open spec fn gives_process() -> spec_fn((Seq<char>, LaunchView)) -> bool {
    |call: (Seq<char>, LaunchView)| launch_result(call.0, call.1) is Ok
}

/// The processes that `calls` started: one for each report that gives a
/// process, in the order of the reports.
pub open spec fn launched(calls: Seq<(Seq<char>, LaunchView)>) -> Seq<ManagedProcessView> {
    calls.filter(gives_process()).map_values(
        |call: (Seq<char>, LaunchView)| launch_result(call.0, call.1)->Ok_0,
    )
}

/// The supervisor of a session's long-running processes.
#[derive(Debug)]
pub struct SpawnHelper {
    procs: Vec<ManagedProcess>,
}

impl View for SpawnHelper {
    type V = Seq<ManagedProcessView>;

    /// The processes that the supervisor keeps, oldest first.
    closed spec fn view(&self) -> Seq<ManagedProcessView> {
        self.procs.deep_view()
    }
}

impl SpawnHelper {
    /// A supervisor that keeps no process.
    pub fn new() -> (helper: Self)
        ensures
            helper@ == Seq::<ManagedProcessView>::empty(),
    {
        SpawnHelper { procs: Vec::new() }
    }

    /// How `cmd` is to be started: an error where it names no program.
    pub fn plan(cmd: &str) -> (result: Result<SpawnPlan, SpawnError>)
        ensures
            match result {
                Ok(plan) => plan_of(cmd@) == Some(plan@),
                Err(e) => plan_of(cmd@) is None && e@ == (SpawnErrorView::SpawnFailed {
                    command: cmd@,
                    cause: SpawnCauseView::NoProgram,
                }),
            },
    {
        match plan_command(cmd) {
            Some(plan) => Ok(plan),
            None => Err(
                SpawnError::SpawnFailed { command: cmd.to_owned(), cause: SpawnCause::NoProgram },
            ),
        }
    }

    /// Decides what came of running `cmd` to its end. Start-up goes on only
    /// where this is `Ok`.
    pub fn spawn_short(cmd: &str, outcome: Completion) -> (result: Result<(), SpawnError>)
        ensures
            match result {
                Ok(_) => completion_result(cmd@, outcome@) is Ok,
                Err(e) => completion_result(cmd@, outcome@) == Err::<(), SpawnErrorView>(e@),
            },
    {
        match plan_command(cmd) {
            None => Err(
                SpawnError::SpawnFailed { command: cmd.to_owned(), cause: SpawnCause::NoProgram },
            ),
            Some(_) => match outcome {
                Completion::Failed(message) => Err(
                    SpawnError::SpawnFailed {
                        command: cmd.to_owned(),
                        cause: SpawnCause::Os(message),
                    },
                ),
                Completion::Exited(status) => if status.success() {
                    Ok(())
                } else {
                    Err(SpawnError::NonZeroExit { command: cmd.to_owned(), status })
                },
            },
        }
    }

    /// Records what came of starting `cmd` in the background. A process that
    /// runs is kept, after those kept before, and named in the result; on a
    /// failure nothing changes.
    pub fn spawn_long(&mut self, cmd: &str, outcome: Launch) -> (result: Result<
        ProcessId,
        SpawnError,
    >)
        ensures
            match result {
                Ok(id) => launch_result(cmd@, outcome@) matches Ok(process) && id@ == cmd@
                    && final(self)@ == old(self)@.push(process),
                Err(e) => launch_result(cmd@, outcome@) == Err::<ManagedProcessView, SpawnErrorView>(
                    e@,
                ) && final(self)@ == old(self)@,
            },
            final(self)@ == kept_after_launch(old(self)@, cmd@, outcome@),
    {
        match plan_command(cmd) {
            None => Err(
                SpawnError::SpawnFailed { command: cmd.to_owned(), cause: SpawnCause::NoProgram },
            ),
            Some(plan) => match outcome {
                Launch::Failed(message) => Err(
                    SpawnError::SpawnFailed {
                        command: cmd.to_owned(),
                        cause: SpawnCause::Os(message),
                    },
                ),
                Launch::Started(pid) => {
                    let process = ManagedProcess {
                        label: cmd.to_owned(),
                        pid,
                        output_sink: Some(plan.log_path),
                    };
                    self.procs.push(process);
                    Ok(ProcessId { label: cmd.to_owned() })
                },
            },
        }
    }

    /// The number of processes kept.
    pub fn len(&self) -> (n: usize)
        ensures
            n == self@.len(),
    {
        self.procs.len()
    }

    /// Whether no process is kept.
    pub fn is_empty(&self) -> (b: bool)
        ensures
            b == (self@.len() == 0),
    {
        self.procs.len() == 0
    }

    /// The processes kept, oldest first.
    pub fn processes(&self) -> (procs: &Vec<ManagedProcess>)
        ensures
            procs.deep_view() == self@,
    {
        &self.procs
    }

    /// Whether a process is kept under the name `id`.
    pub fn contains(&self, id: &ProcessId) -> (b: bool)
        ensures
            b == exists|i: int| 0 <= i < self@.len() && self@[i].label == id@,
    {
        let mut i: usize = 0;
        while i < self.procs.len()
            invariant
                i <= self.procs.len(),
                forall|j: int| 0 <= j < i ==> self@[j].label != id@,
            decreases self.procs.len() - i,
        {
            if self.procs[i].label == id.label {
                assert(self@[i as int].label == id@);
                return true;
            }
            i += 1;
        }
        false
    }

    /// Gives up the oldest process kept under the name `id`, for its caller
    /// to terminate. Nothing changes where there is none.
    pub fn stop(&mut self, id: &ProcessId) -> (stopped: Option<ManagedProcess>)
        ensures
            match stopped {
                Some(process) => exists|i: int|
                    0 <= i < old(self)@.len() && old(self)@[i].label == id@ && (forall|j: int|
                        0 <= j < i ==> old(self)@[j].label != id@) && process@ == old(self)@[i]
                        && final(self)@ == old(self)@.remove(i),
                None => final(self)@ == old(self)@ && forall|i: int|
                    0 <= i < old(self)@.len() ==> old(self)@[i].label != id@,
            },
    {
        let mut i: usize = 0;
        while i < self.procs.len()
            invariant
                i <= self.procs.len(),
                *self == *old(self),
                forall|j: int| 0 <= j < i ==> self@[j].label != id@,
            decreases self.procs.len() - i,
        {
            if self.procs[i].label == id.label {
                let ghost before = self.procs.deep_view();
                let process = self.procs.remove(i);
                assert(process@ == before[i as int]);
                return Some(process);
            }
            i += 1;
        }
        None
    }

    /// Ends the supervision: hands every process kept to a teardown that has
    /// attempted none yet, and keeps none.
    pub fn shutdown(&mut self) -> (teardown: Teardown)
        ensures
            teardown@ == TeardownView::start(old(self)@),
            final(self)@.len() == 0,
    {
        let mut procs: Vec<ManagedProcess> = Vec::new();
        std::mem::swap(&mut procs, &mut self.procs);
        Teardown::new(procs)
    }
}

/// A command that names a program and exits with code zero has run with
/// success; any other end of it is reported as a failed exit, with the
/// command and the status as they were given.
pub proof fn lemma_completion_follows_exit_status(command: Seq<char>, status: ExitStatus)
    requires
        plan_of(command) is Some,
    ensures
        status.is_success() ==> completion_result(command, CompletionView::Exited(status)) is Ok,
        !status.is_success() ==> completion_result(command, CompletionView::Exited(status))
            == Err::<(), SpawnErrorView>(SpawnErrorView::NonZeroExit { command, status }),
{
}

/// Starting a command in the background either gives a process to keep,
/// named by the command, or fails as a command that did not start; it never
/// fails as one that exited.
pub proof fn lemma_launch_keeps_or_fails(command: Seq<char>, outcome: LaunchView)
    ensures
        match launch_result(command, outcome) {
            Ok(process) => process.label == command && outcome == LaunchView::Started(process.pid),
            Err(e) => e is SpawnFailed && e->SpawnFailed_command == command,
        },
{
}

/// After any reports, made in any order of successes and failures, the
/// processes kept are those kept before and then the processes that the
/// reports started: each report that gives a process adds that one, and a
/// report of a failure adds none.
pub proof fn lemma_kept_are_the_launched(
    kept: Seq<ManagedProcessView>,
    calls: Seq<(Seq<char>, LaunchView)>,
)
    ensures
        kept_after_launches(kept, calls) == kept + launched(calls),
        launched(calls).len() == calls.filter(gives_process()).len(),
    decreases calls.len(),
{
    reveal(Seq::filter);
    if calls.len() > 0 {
        lemma_kept_are_the_launched(kept, calls.drop_last());
    }
}

/// When a supervisor that kept nothing has taken any reports and is then
/// shut down, the sweep asks exactly the processes that the reports started
/// to terminate, each once and in their order, whatever comes of the
/// attempts; the reports of failed starts add no request.
pub proof fn lemma_teardown_reaches_the_launched(
    calls: Seq<(Seq<char>, LaunchView)>,
    outcomes: Seq<TerminationView>,
)
    requires
        outcomes.len() == launched(calls).len(),
    ensures
        ({
            let kept = kept_after_launches(Seq::empty(), calls);
            let end = TeardownView::start(kept).run(outcomes);
            &&& end.attempted() == launched(calls)
            &&& end.attempted().len() == calls.filter(gives_process()).len()
            &&& end.next() is None
        }),
{
    lemma_kept_are_the_launched(Seq::empty(), calls);
    assert(Seq::<ManagedProcessView>::empty() + launched(calls) == launched(calls));
    lemma_teardown_attempts_every_process(launched(calls), outcomes);
}

} // verus!
