//! Teardown: the sweep that asks every process a session still keeps to
//! terminate.
//!
//! The caller asks [`Teardown::next`] which process is due, tries to
//! terminate it, and reports what came of that with [`Teardown::record`].
//! The sweep then moves on, whatever was reported.

use crate::supervisor::{ManagedProcess, ManagedProcessView};
use vstd::prelude::*;

verus! {

/// What came of the attempt to terminate one process.
#[derive(Clone, Debug, PartialEq, Eq)]
pub enum Termination {
    /// The process was told to terminate.
    Terminated,
    /// The process could not be told; the message says why.
    Failed(String),
}

/// A `Termination` as mathematical values.
pub enum TerminationView {
    Terminated,
    Failed(Seq<char>),
}

impl View for Termination {
    type V = TerminationView;

    open spec fn view(&self) -> TerminationView {
        match self {
            Termination::Terminated => TerminationView::Terminated,
            Termination::Failed(message) => TerminationView::Failed(message@),
        }
    }
}

impl DeepView for Termination {
    type V = TerminationView;

    open spec fn deep_view(&self) -> TerminationView {
        self@
    }
}

/// The state of a sweep: the processes it was given, oldest first, and what
/// came of each attempt made so far, in the same order.
pub struct TeardownView {
    pub processes: Seq<ManagedProcessView>,
    pub outcomes: Seq<TerminationView>,
}

impl TeardownView {
    /// The sweep over `processes` before any attempt.
    pub open spec fn start(processes: Seq<ManagedProcessView>) -> TeardownView {
        TeardownView { processes, outcomes: Seq::empty() }
    }

    /// The processes whose termination was attempted, in the order of the
    /// attempts.
    pub open spec fn attempted(self) -> Seq<ManagedProcessView> {
        self.processes.take(self.outcomes.len() as int)
    }

    /// The processes still to be attempted, in the order in which they are
    /// due.
    pub open spec fn pending(self) -> Seq<ManagedProcessView> {
        self.processes.skip(self.outcomes.len() as int)
    }

    /// The process that is due, if any is.
    pub open spec fn next(self) -> Option<ManagedProcessView> {
        if self.outcomes.len() < self.processes.len() {
            Some(self.processes[self.outcomes.len() as int])
        } else {
            None
        }
    }

    /// The sweep after `outcome` was reported for the process that was due.
    /// A report made when none was due changes nothing.
    pub open spec fn record(self, outcome: TerminationView) -> TeardownView {
        if self.outcomes.len() < self.processes.len() {
            TeardownView { processes: self.processes, outcomes: self.outcomes.push(outcome) }
        } else {
            self
        }
    }

    /// The sweep after each of `outcomes` was reported, in order.
    pub open spec fn run(self, outcomes: Seq<TerminationView>) -> TeardownView
        decreases outcomes.len(),
    {
        if outcomes.len() == 0 {
            self
        } else {
            self.run(outcomes.drop_last()).record(outcomes.last())
        }
    }
}

/// A sweep in progress.
#[derive(Debug)]
pub struct Teardown {
    processes: Vec<ManagedProcess>,
    outcomes: Vec<Termination>,
}

impl View for Teardown {
    type V = TeardownView;

    closed spec fn view(&self) -> TeardownView {
        TeardownView {
            processes: self.processes.deep_view(),
            outcomes: self.outcomes.deep_view(),
        }
    }
}

impl Teardown {
    #[verifier::type_invariant]
    spec fn well_formed(self) -> bool {
        self.outcomes.len() <= self.processes.len()
    }

    /// A sweep over `processes` that has attempted none yet.
    pub fn new(processes: Vec<ManagedProcess>) -> (teardown: Self)
        ensures
            teardown@ == TeardownView::start(processes.deep_view()),
    {
        let teardown = Teardown { processes, outcomes: Vec::new() };
        assert(teardown.outcomes.deep_view() == Seq::<TerminationView>::empty());
        teardown
    }

    /// The process that is due: the oldest one not attempted yet.
    pub fn next(&self) -> (due: Option<&ManagedProcess>)
        ensures
            match due {
                Some(process) => self@.next() == Some(process@),
                None => self@.next() is None,
            },
    {
        let done = self.outcomes.len();
        if done < self.processes.len() {
            Some(&self.processes[done])
        } else {
            None
        }
    }

    /// Reports what came of the attempt on the process that was due. The
    /// sweep moves on to the next process whatever `outcome` says.
    pub fn record(&mut self, outcome: Termination)
        ensures
            final(self)@ == old(self)@.record(outcome@),
    {
        proof {
            use_type_invariant(&*self);
        }
        if self.outcomes.len() < self.processes.len() {
            let ghost before = self.outcomes.deep_view();
            let mut outcomes: Vec<Termination> = Vec::new();
            std::mem::swap(&mut outcomes, &mut self.outcomes);
            outcomes.push(outcome);
            assert(outcomes.deep_view() == before.push(outcome@));
            self.outcomes = outcomes;
        }
    }

    /// Whether every process has been attempted.
    pub fn is_finished(&self) -> (b: bool)
        ensures
            b == self@.next().is_none(),
    {
        self.outcomes.len() >= self.processes.len()
    }

    /// What came of the attempts made so far, in their order. A failed
    /// attempt is on record here and nowhere else: it ends neither the sweep
    /// nor the session with an error.
    pub fn outcomes(&self) -> (outcomes: &Vec<Termination>)
        ensures
            outcomes.deep_view() == self@.outcomes,
    {
        &self.outcomes
    }
}

/// Every process is asked to terminate exactly once, in the order in which
/// the processes were kept, whatever comes of the attempts: after as many
/// reports as there are processes, the attempted processes are the processes
/// given, none is due, and the reports are all on record.
pub proof fn lemma_teardown_attempts_every_process(
    processes: Seq<ManagedProcessView>,
    outcomes: Seq<TerminationView>,
)
    requires
        outcomes.len() == processes.len(),
    ensures
        TeardownView::start(processes).run(outcomes).attempted() == processes,
        TeardownView::start(processes).run(outcomes).next() is None,
        TeardownView::start(processes).run(outcomes).outcomes == outcomes,
{
    lemma_run_records(processes, outcomes);
}

/// A failed attempt does not keep the sweep from the next process: after
/// `k` reports, whatever they say, the process that is due is the one at
/// position `k`.
pub proof fn lemma_teardown_goes_on_after_failure(
    processes: Seq<ManagedProcessView>,
    outcomes: Seq<TerminationView>,
)
    requires
        outcomes.len() < processes.len(),
    ensures
        TeardownView::start(processes).run(outcomes).next() == Some(
            processes[outcomes.len() as int],
        ),
{
    lemma_run_records(processes, outcomes);
}

/// Reports are recorded as they come while processes are due.
proof fn lemma_run_records(processes: Seq<ManagedProcessView>, outcomes: Seq<TerminationView>)
    requires
        outcomes.len() <= processes.len(),
    ensures
        TeardownView::start(processes).run(outcomes) == (TeardownView { processes, outcomes }),
    decreases outcomes.len(),
{
    if outcomes.len() > 0 {
        lemma_run_records(processes, outcomes.drop_last());
        assert(outcomes.drop_last().push(outcomes.last()) == outcomes);
    } else {
        assert(outcomes == Seq::<TerminationView>::empty());
    }
}

} // verus!
