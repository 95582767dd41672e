use vstd::prelude::*;

use crate::planner::PlannedPipeline;
use crate::sandbox::ExecutionError;

verus! {

/// The step at which a run stopped, and why. Steps are numbered from 0: the
/// first step of a pipeline has index 0, so a failure at index 2 keeps the
/// outputs of steps 0 and 1.
#[derive(PartialEq, Eq, Structural, Clone, Copy, Debug)]
pub struct StepFailure {
    pub step_index: usize,
    pub agent_id: u128,
    pub error: ExecutionError,
}

/// What a finished run reports: the output of every step that completed, in
/// order, and the failure that stopped it, if any.
#[derive(Debug)]
pub struct RunResult {
    pub outputs: Vec<Vec<u8>>,
    pub failure: Option<StepFailure>,
}

/// Drives a pipeline's steps strictly in order: each step's output is the
/// next step's input, and the first failure ends the run.
pub struct Orchestrator {
    agent_ids: Vec<u128>,
    initial_input: Vec<u8>,
    outputs: Vec<Vec<u8>>,
    failure: Option<StepFailure>,
}

impl Orchestrator {
    pub closed spec fn spec_agent_ids(&self) -> Seq<u128> {
        self.agent_ids@
    }

    pub closed spec fn spec_initial_input(&self) -> Seq<u8> {
        self.initial_input@
    }

    /// Outputs of the completed steps, in order.
    pub closed spec fn spec_outputs(&self) -> Seq<Seq<u8>> {
        self.outputs@.map_values(|o: Vec<u8>| o@)
    }

    pub closed spec fn spec_failure(&self) -> Option<StepFailure> {
        self.failure
    }

    /// Completed steps never outnumber the pipeline's steps, and a failure
    /// names the step right after the last completed one.
    pub closed spec fn wf(&self) -> bool {
        &&& self.outputs@.len() <= self.agent_ids@.len()
        &&& self.failure is Some ==> {
            let f = self.failure->Some_0;
            &&& f.step_index == self.outputs@.len()
            &&& f.step_index < self.agent_ids@.len()
            &&& f.agent_id == self.agent_ids@[f.step_index as int]
        }
    }

    /// The index of the step to run next, if the run goes on.
    pub open spec fn spec_next_step(&self) -> Option<usize> {
        if self.spec_failure() is None && self.spec_outputs().len() < self.spec_agent_ids().len() {
            Some(self.spec_outputs().len() as usize)
        } else {
            None
        }
    }

    /// The input of the step to run next.
    pub open spec fn spec_current_input(&self) -> Seq<u8> {
        if self.spec_outputs().len() == 0 {
            self.spec_initial_input()
        } else {
            self.spec_outputs().last()
        }
    }

    /// A run over `pipeline`'s agents whose first step consumes `initial_input`.
    pub fn new(pipeline: &PlannedPipeline, initial_input: Vec<u8>) -> (o: Self)
        ensures
            o.wf(),
            o.spec_agent_ids() == pipeline.agent_ids@,
            o.spec_initial_input() == initial_input@,
            o.spec_outputs().len() == 0,
            o.spec_failure() is None,
    {
        let mut ids: Vec<u128> = Vec::new();
        let mut i: usize = 0;
        while i < pipeline.agent_ids.len()
            invariant
                i <= pipeline.agent_ids@.len(),
                ids@ == pipeline.agent_ids@.subrange(0, i as int),
            decreases pipeline.agent_ids@.len() - i,
        {
            ids.push(pipeline.agent_ids[i]);
            i += 1;
            assert(ids@ =~= pipeline.agent_ids@.subrange(0, i as int));
        }
        assert(pipeline.agent_ids@.subrange(0, pipeline.agent_ids@.len() as int) =~= pipeline.agent_ids@);
        let o = Orchestrator { agent_ids: ids, initial_input, outputs: Vec::new(), failure: None };
        assert(o.spec_outputs() =~= Seq::<Seq<u8>>::empty());
        o
    }

    /// The index of the step to run next, or `None` once the run has ended.
    pub fn next_step(&self) -> (r: Option<usize>)
        requires
            self.wf(),
        ensures
            r == self.spec_next_step(),
    {
        if self.failure.is_none() && self.outputs.len() < self.agent_ids.len() {
            Some(self.outputs.len())
        } else {
            None
        }
    }

    /// The agent that runs at step `index`.
    pub fn agent_at(&self, index: usize) -> (r: u128)
        requires
            index < self.spec_agent_ids().len(),
        ensures
            r == self.spec_agent_ids()[index as int],
    {
        self.agent_ids[index]
    }

    /// The input of the step to run next.
    pub fn current_input(&self) -> (r: &Vec<u8>)
        ensures
            r@ == self.spec_current_input(),
    {
        if self.outputs.len() == 0 {
            &self.initial_input
        } else {
            &self.outputs[self.outputs.len() - 1]
        }
    }

    /// Records the result of the step that was due. Success appends its
    /// output; failure stops the run at that step and keeps earlier outputs.
    pub fn record(&mut self, result: Result<Vec<u8>, ExecutionError>)
        requires
            old(self).wf(),
            old(self).spec_next_step() is Some,
        ensures
            final(self).wf(),
            final(self).spec_agent_ids() == old(self).spec_agent_ids(),
            final(self).spec_initial_input() == old(self).spec_initial_input(),
            result is Ok ==> final(self).spec_outputs() == old(self).spec_outputs().push(result->Ok_0@)
                && final(self).spec_failure() is None,
            result is Err ==> final(self).spec_outputs() == old(self).spec_outputs()
                && final(self).spec_failure() == Some(StepFailure {
                    step_index: old(self).spec_outputs().len() as usize,
                    agent_id: old(self).spec_agent_ids()[old(self).spec_outputs().len() as int],
                    error: result->Err_0,
                }),
    {
        let index = self.outputs.len();
        match result {
            Ok(out) => {
                self.outputs.push(out);
                assert(self.spec_outputs() =~= old(self).spec_outputs().push(result->Ok_0@));
            },
            Err(error) => {
                self.failure = Some(StepFailure { step_index: index, agent_id: self.agent_ids[index], error });
            },
        }
    }

    /// Hands back what the run produced.
    pub fn into_result(self) -> (r: RunResult)
        ensures
            r.outputs@.map_values(|o: Vec<u8>| o@) == self.spec_outputs(),
            r.failure == self.spec_failure(),
    {
        RunResult { outputs: self.outputs, failure: self.failure }
    }
}

/// How one step of a run ended.
#[derive(PartialEq, Eq, Structural, Clone, Copy, Debug)]
pub enum StepStatus {
    /// The step completed; its output is the run's output at the same index.
    Completed,
    Failed(ExecutionError),
}

/// One step's outcome, as handed to the store that records runs.
#[derive(PartialEq, Eq, Structural, Clone, Copy, Debug)]
pub struct StepOutcome {
    pub run_id: u128,
    /// Index of the step, from 0.
    pub step_index: usize,
    pub agent_id: u128,
    pub status: StepStatus,
}

/// The outcome of every step that ran in run `run_id` of `pipeline`: one
/// `Completed` record per output, then the failure, if there was one.
pub fn step_outcomes(run_id: u128, pipeline: &PlannedPipeline, r: &RunResult) -> (out: Vec<StepOutcome>)
    requires
        r.outputs@.len() <= pipeline.agent_ids@.len(),
        r.failure is Some ==> r.failure->Some_0.step_index == r.outputs@.len(),
    ensures
        out@.len() == r.outputs@.len() + if r.failure is Some { 1int } else { 0int },
        forall|i: int| 0 <= i < r.outputs@.len() ==> #[trigger] out@[i] == (StepOutcome {
            run_id,
            step_index: i as usize,
            agent_id: pipeline.agent_ids@[i],
            status: StepStatus::Completed,
        }),
        r.failure is Some ==> out@[r.outputs@.len() as int] == (StepOutcome {
            run_id,
            step_index: r.failure->Some_0.step_index,
            agent_id: r.failure->Some_0.agent_id,
            status: StepStatus::Failed(r.failure->Some_0.error),
        }),
{
    let mut out: Vec<StepOutcome> = Vec::new();
    let mut i: usize = 0;
    while i < r.outputs.len()
        invariant
            i <= r.outputs@.len(),
            r.outputs@.len() <= pipeline.agent_ids@.len(),
            out@.len() == i,
            forall|j: int| 0 <= j < i ==> #[trigger] out@[j] == (StepOutcome {
                run_id,
                step_index: j as usize,
                agent_id: pipeline.agent_ids@[j],
                status: StepStatus::Completed,
            }),
        decreases r.outputs@.len() - i,
    {
        out.push(StepOutcome { run_id, step_index: i, agent_id: pipeline.agent_ids[i], status: StepStatus::Completed });
        i += 1;
    }
    if let Some(f) = r.failure {
        out.push(StepOutcome { run_id, step_index: f.step_index, agent_id: f.agent_id, status: StepStatus::Failed(f.error) });
    }
    out
}

/// Whether a run reported as `r` completed every step of a pipeline of
/// `steps` agents.
pub fn run_succeeded(r: &RunResult, steps: usize) -> (b: bool)
    ensures
        b == (r.failure is None && r.outputs@.len() == steps),
{
    r.failure.is_none() && r.outputs.len() == steps
}

} // verus!
