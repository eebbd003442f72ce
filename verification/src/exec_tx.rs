//! The decision core of transactional execution: a block run hands out
//! the commands to execute one at a time, absorbs each outcome, switches
//! to compensation when a step fails, and finally renders the result.
//! The channel work around it (sending commands, awaiting replies) stays
//! outside the library.

use vstd::prelude::*;
use crate::errors::ConnectError;
use crate::strutil::str_concat;
use crate::transaction::{
    block_valid, planned_for_step, workflow_valid, CommandBlockKind, PlannedRollback,
    RollbackPolicy, TxBlock, TxResult, TxWorkflow, TxWorkflowResult,
};

verus! {

/// `plan` is the rollback plan the policy owes for these executed steps:
/// nothing, the single whole-resource undo, or one entry per executed
/// step in reverse execution order.
pub open spec fn plan_matches(b: TxBlock, executed: Seq<usize>, plan: Seq<PlannedRollback>) -> bool {
    match b.rollback_policy {
        RollbackPolicy::NoRollback => plan.len() == 0,
        RollbackPolicy::WholeResource { mode, undo_command, timeout_secs } => plan.len() == 1
            && plan[0].mode@ == mode@ && plan[0].command@ == undo_command@ && plan[0].timeout_secs
            == timeout_secs,
        RollbackPolicy::PerStep => plan.len() == executed.len() && forall|j: int|
            0 <= j < plan.len() ==> planned_for_step(
                #[trigger] plan[j],
                b.steps@[executed[executed.len() - 1 - j] as int],
            ),
    }
}

/// The rollback plan a committed block would need if it had to be undone
/// wholesale: as if every step had executed.
pub fn full_block_rollback_plan(block: &TxBlock) -> (r: Result<Vec<PlannedRollback>, ConnectError>)
    requires
        block_valid(*block),
    ensures
        r matches Ok(plan),
        r matches Ok(plan) ==> plan_matches(
            *block,
            Seq::new(block.steps@.len(), |j: int| j as usize),
            plan@,
        ),
        block.kind is Show ==> (r matches Ok(plan) && plan@.len() == 0),
{
    if matches!(block.kind, CommandBlockKind::Show) {
        proof {
            assert(block.rollback_policy is NoRollback);
        }
        return Ok(Vec::new());
    }
    let mut executed: Vec<usize> = Vec::new();
    let mut i: usize = 0;
    while i < block.steps.len()
        invariant
            i <= block.steps@.len(),
            executed@.len() == i,
            forall|j: int| 0 <= j < i ==> (#[trigger] executed@[j]) == j,
        decreases block.steps@.len() - i,
    {
        executed.push(i);
        i += 1;
    }
    proof {
        if block.rollback_policy is PerStep {
            assert forall|j: int|
                0 <= j < executed@.len() implies crate::transaction::rollback_index_ok(
                block.steps@,
                #[trigger] executed@[j],
            ) by {
                assert(crate::transaction::step_has_rollback(block.steps@[j]));
            }
        }
        assert(executed@ =~= Seq::new(block.steps@.len(), |j: int| j as usize));
    }
    let r = block.plan_rollback(&executed);
    proof {
        match block.rollback_policy {
            RollbackPolicy::NoRollback => {
                assert(false);
            },
            RollbackPolicy::WholeResource { .. } => {},
            RollbackPolicy::PerStep => {},
        }
    }
    r
}

/// Which stage a block run is in.
#[derive(Debug, Clone, Copy, PartialEq, Eq, Structural)]
pub enum RunPhase {
    /// Executing forward steps.
    Forward,
    /// Executing rollback commands.
    Rollback,
    /// Nothing left to run.
    Finished,
}

/// One command the driver must run next.
#[derive(Debug, Clone, PartialEq, Eq)]
pub struct NextCommand {
    /// Target mode.
    pub mode: String,
    /// Command text.
    pub command: String,
    /// Timeout in seconds, the default already applied.
    pub timeout_secs: u64,
}

/// The in-flight state of one transactional block execution.
pub struct BlockRun {
    block: TxBlock,
    phase: RunPhase,
    next_step: usize,
    executed: Vec<usize>,
    failed_step: Option<usize>,
    failure_reason: Option<String>,
    plan: Vec<PlannedRollback>,
    plan_pos: usize,
    rollback_attempted: bool,
    rollback_succeeded: bool,
    rollback_steps: usize,
    rollback_errors: Vec<String>,
}

impl BlockRun {
    /// Structural invariants of a run.
    pub closed spec fn wf(&self) -> bool {
        &&& block_valid(self.block)
        &&& self.next_step as int <= self.block.steps@.len()
        &&& self.plan_pos as int <= self.plan@.len()
        &&& self.executed@.len() <= self.next_step as int
        &&& self.rollback_steps == self.plan_pos
        &&& (self.failed_step is Some) == (self.failure_reason is Some)
        &&& (self.phase is Forward ==> self.plan@.len() == 0 && self.plan_pos == 0
            && !self.rollback_attempted)
        &&& forall|j: int|
            0 <= j < self.executed@.len() ==> (#[trigger] self.executed@[j] as int)
                < self.block.steps@.len()
    }

    /// The block being executed.
    pub closed spec fn block_m(&self) -> TxBlock {
        self.block
    }

    /// The current phase.
    pub closed spec fn phase_m(&self) -> RunPhase {
        self.phase
    }

    /// The index of the pending forward step.
    pub closed spec fn next_step_m(&self) -> usize {
        self.next_step
    }

    /// The pending rollback position.
    pub closed spec fn plan_pos_m(&self) -> usize {
        self.plan_pos
    }

    /// The rollback plan in force.
    pub closed spec fn plan_m(&self) -> Seq<PlannedRollback> {
        self.plan@
    }

    /// The recorded failed step.
    pub closed spec fn failed_step_m(&self) -> Option<usize> {
        self.failed_step
    }

    /// The recorded failure summary.
    pub closed spec fn failure_reason_m(&self) -> Option<String> {
        self.failure_reason
    }

    /// The executed forward steps.
    pub closed spec fn executed_m(&self) -> Seq<usize> {
        self.executed@
    }

    /// Whether rollback was started.
    pub closed spec fn rollback_attempted_m(&self) -> bool {
        self.rollback_attempted
    }

    /// Whether no rollback command has failed so far.
    pub closed spec fn rollback_succeeded_m(&self) -> bool {
        self.rollback_succeeded
    }

    /// The collected rollback errors.
    pub closed spec fn rollback_errors_m(&self) -> Seq<String> {
        self.rollback_errors@
    }

    /// Whether the run owes the driver another command, so a report of an
    /// outcome is meaningful.
    pub open spec fn expects_report(&self) -> bool {
        ||| (self.phase_m() is Forward && (self.next_step_m() as int) < self.block_m().steps@.len())
        ||| (self.phase_m() is Rollback && (self.plan_pos_m() as int) < self.plan_m().len())
    }

    /// Validates the block and starts its run: at the first step, nothing
    /// executed, no failure, no rollback.
    pub fn start(block: TxBlock) -> (r: Result<BlockRun, ConnectError>)
        ensures
            r is Ok <==> block_valid(block),
            r matches Ok(run) ==> {
                &&& run.wf()
                &&& run.block_m() == block
                &&& run.phase_m() is Forward
                &&& run.next_step_m() == 0
                &&& run.executed_m().len() == 0
                &&& run.failed_step_m() is None
                &&& run.failure_reason_m() is None
                &&& run.plan_m().len() == 0
                &&& !run.rollback_attempted_m()
                &&& run.rollback_errors_m().len() == 0
            },
            r matches Err(e) ==> e is InvalidTransaction,
    {
        match block.validate() {
            Ok(_) => {},
            Err(e) => {
                return Err(e);
            },
        }
        Ok(
            BlockRun {
                block,
                phase: RunPhase::Forward,
                next_step: 0,
                executed: Vec::new(),
                failed_step: None,
                failure_reason: None,
                plan: Vec::new(),
                plan_pos: 0,
                rollback_attempted: false,
                rollback_succeeded: false,
                rollback_steps: 0,
                rollback_errors: Vec::new(),
            },
        )
    }

    /// The command the driver must run now, or nothing exactly when the
    /// run is over.  The forward phase hands out the pending step, the
    /// rollback phase the pending planned command, each with the default
    /// timeout applied.
    pub fn next_command(&self) -> (r: Option<NextCommand>)
        requires
            self.wf(),
        ensures
            match r {
                Some(c) => self.expects_report() && (self.phase_m() is Forward ==> {
                    let step = self.block_m().steps@[self.next_step_m() as int];
                    c.mode@ == step.mode@ && c.command@ == step.command@ && c.timeout_secs as int
                        == (match step.timeout_secs {
                        Some(t) => t as int,
                        None => 60,
                    })
                }) && (self.phase_m() is Rollback ==> {
                    let rb = self.plan_m()[self.plan_pos_m() as int];
                    c.mode@ == rb.mode@ && c.command@ == rb.command@ && c.timeout_secs as int == (
                    match rb.timeout_secs {
                        Some(t) => t as int,
                        None => 60,
                    })
                }),
                None => !self.expects_report(),
            },
    {
        match self.phase {
            RunPhase::Forward => {
                if self.next_step < self.block.steps.len() {
                    let step = &self.block.steps[self.next_step];
                    let timeout_secs = match step.timeout_secs {
                        Some(t) => t,
                        None => 60,
                    };
                    Some(
                        NextCommand {
                            mode: step.mode.clone(),
                            command: step.command.clone(),
                            timeout_secs,
                        },
                    )
                } else {
                    None
                }
            },
            RunPhase::Rollback => {
                if self.plan_pos < self.plan.len() {
                    let rb = &self.plan[self.plan_pos];
                    let timeout_secs = match rb.timeout_secs {
                        Some(t) => t,
                        None => 60,
                    };
                    Some(
                        NextCommand {
                            mode: rb.mode.clone(),
                            command: rb.command.clone(),
                            timeout_secs,
                        },
                    )
                } else {
                    None
                }
            },
            RunPhase::Finished => None,
        }
    }

    /// Records the outcome of the command most recently handed out.
    ///
    /// A successful forward step joins the executed list; a failed one
    /// records the first failure, and — under fail-fast or at the end of
    /// the block — moves the run on: a failed `Show` block finishes
    /// without compensation, a failed `Config` block plans its rollback
    /// from the executed steps and enters the rollback phase (or records
    /// that none could be planned).  Rollback outcomes are tallied;
    /// rollback failures are collected, never raised.
    pub fn report(&mut self, success: bool, detail: String) -> (r: Result<(), ConnectError>)
        requires
            old(self).wf(),
            old(self).expects_report(),
        ensures
            r is Ok,
            final(self).wf(),
            final(self).block_m() == old(self).block_m(),
            old(self).phase_m() is Forward ==> {
                &&& forward_recorded(*old(self), *final(self), success)
                &&& if (final(self).next_step_m() as int) == old(self).block_m().steps@.len() || (
                    !success && old(self).block_m().fail_fast
                ) {
                    run_completed(old(self).block_m(), *final(self))
                } else {
                    final(self).phase_m() is Forward && !final(self).rollback_attempted_m()
                        && final(self).plan_m().len() == 0
                }
            },
            old(self).phase_m() is Rollback ==> {
                &&& final(self).plan_m() == old(self).plan_m()
                &&& final(self).executed_m() == old(self).executed_m()
                &&& final(self).failed_step_m() == old(self).failed_step_m()
                &&& final(self).plan_pos_m() == old(self).plan_pos_m() + 1
                &&& final(self).rollback_attempted_m() == old(self).rollback_attempted_m()
                &&& (success ==> final(self).rollback_succeeded_m()
                    == old(self).rollback_succeeded_m()
                    && final(self).rollback_errors_m() == old(self).rollback_errors_m())
                &&& (!success ==> !final(self).rollback_succeeded_m()
                    && final(self).rollback_errors_m().len()
                    == old(self).rollback_errors_m().len() + 1)
                &&& (final(self).phase_m() is Finished
                    <==> final(self).plan_pos_m() as int == old(self).plan_m().len())
            },
    {
        match self.phase {
            RunPhase::Forward => {
                proof {
                    assert(vstd::std_specs::vec::spec_vec_len(&self.block.steps)
                        == self.block.steps@.len());
                    assert((self.next_step_m() as int) < self.block_m().steps@.len());
                }
                if success {
                    self.executed.push(self.next_step);
                    self.next_step += 1;
                } else {
                    if matches!(self.failed_step, None) {
                        self.failed_step = Some(self.next_step);
                        self.failure_reason = Some(
                            str_concat("step command failed: ", detail.as_str()),
                        );
                    }
                    self.next_step += 1;
                }
                proof {
                    assert(forward_recorded(*old(self), *self, success));
                }
                if self.next_step == self.block.steps.len() || (!success && self.block.fail_fast) {
                    self.enter_completion();
                }
                Ok(())
            },
            RunPhase::Rollback => {
                proof {
                    assert(vstd::std_specs::vec::spec_vec_len(&self.plan) == self.plan@.len());
                    assert((self.plan_pos_m() as int) < self.plan_m().len());
                }
                if success {
                    self.rollback_steps += 1;
                } else {
                    self.rollback_succeeded = false;
                    self.rollback_steps += 1;
                    self.rollback_errors.push(
                        str_concat("rollback command failed: ", detail.as_str()),
                    );
                }
                self.plan_pos += 1;
                if self.plan_pos == self.plan.len() {
                    self.phase = RunPhase::Finished;
                }
                Ok(())
            },
            RunPhase::Finished => {
                proof {
                    assert(false);
                }
                Ok(())
            },
        }
    }

    /// Moves a run whose forward phase is over into rollback or straight
    /// to the finish.
    fn enter_completion(&mut self)
        requires
            old(self).wf(),
            old(self).phase_m() is Forward,
        ensures
            final(self).wf(),
            final(self).block_m() == old(self).block_m(),
            final(self).executed_m() == old(self).executed_m(),
            final(self).failed_step_m() == old(self).failed_step_m(),
            final(self).failure_reason_m() == old(self).failure_reason_m(),
            final(self).next_step_m() == old(self).next_step_m(),
            run_completed(old(self).block_m(), *final(self)),
    {
        if matches!(self.failed_step, None) {
            self.phase = RunPhase::Finished;
            return ;
        }
        if matches!(self.block.kind, CommandBlockKind::Show) {
            self.phase = RunPhase::Finished;
            return ;
        }
        proof {
            assert(self.block.kind is Config);
            if self.block.rollback_policy is PerStep {
                assert forall|j: int|
                    0 <= j < self.executed@.len() implies crate::transaction::rollback_index_ok(
                    self.block.steps@,
                    #[trigger] self.executed@[j],
                ) by {
                    assert(crate::transaction::step_has_rollback(
                        self.block.steps@[self.executed@[j] as int],
                    ));
                }
            }
        }
        let plan = match self.block.plan_rollback(&self.executed) {
            Ok(p) => p,
            Err(_) => {
                proof {
                    assert(false);
                }
                Vec::new()
            },
        };
        if plan.len() == 0 {
            proof {
                assert(self.block.rollback_policy is PerStep);
                assert(self.executed@.len() == 0);
            }
            self.rollback_attempted = false;
            self.rollback_succeeded = false;
            self.rollback_errors.push(
                "rollback not attempted: no rollback commands for executed steps".to_owned(),
            );
            self.phase = RunPhase::Finished;
            return ;
        }
        self.plan = plan;
        self.plan_pos = 0;
        self.rollback_attempted = true;
        self.rollback_succeeded = true;
        self.phase = RunPhase::Rollback;
    }

    /// Whether the run still expects commands.
    pub fn is_finished(&self) -> (r: bool)
        ensures
            r == (self.phase_m() is Finished),
    {
        matches!(self.phase, RunPhase::Finished)
    }

    /// Renders the final result of a finished run: every tracked field
    /// carried over unchanged.
    pub fn finish(self) -> (r: TxResult)
        requires
            self.wf(),
        ensures
            r.block_name@ == self.block_m().name@,
            r.committed == (self.failed_step_m() is None),
            r.failed_step == self.failed_step_m(),
            r.executed_steps as int == self.executed_m().len(),
            r.rollback_attempted == self.rollback_attempted_m(),
            r.rollback_succeeded == self.rollback_succeeded_m(),
            r.rollback_steps == self.plan_pos_m(),
            r.failure_reason == self.failure_reason_m(),
            r.rollback_errors@ == self.rollback_errors_m(),
    {
        TxResult {
            block_name: self.block.name,
            committed: matches!(self.failed_step, None),
            failed_step: self.failed_step,
            executed_steps: self.executed.len(),
            rollback_attempted: self.rollback_attempted,
            rollback_succeeded: self.rollback_succeeded,
            rollback_steps: self.rollback_steps,
            failure_reason: self.failure_reason,
            rollback_errors: self.rollback_errors,
        }
    }
}

/// The step outcome bookkeeping the forward phase owes: a success joins
/// the executed list, a failure records the first failed step and its
/// reason; the cursor always advances.
pub open spec fn forward_recorded(pre: BlockRun, post: BlockRun, success: bool) -> bool {
    &&& post.next_step_m() == pre.next_step_m() + 1
    &&& if success {
        &&& post.executed_m() == pre.executed_m().push(pre.next_step_m())
        &&& post.failed_step_m() == pre.failed_step_m()
        &&& post.failure_reason_m() == pre.failure_reason_m()
    } else {
        &&& post.executed_m() == pre.executed_m()
        &&& post.failed_step_m() == (if pre.failed_step_m() is None {
            Some(pre.next_step_m())
        } else {
            pre.failed_step_m()
        })
        &&& post.failure_reason_m() is Some
    }
}

/// What a run owes once its forward phase is over: a clean run or a
/// failed `Show` block finishes without compensation; a failed `Config`
/// block enters the rollback phase with exactly the policy's plan for its
/// executed steps, or finishes with a recorded note when that plan is
/// empty (a per-step policy with nothing executed).
pub open spec fn run_completed(block: TxBlock, post: BlockRun) -> bool {
    if post.failed_step_m() is None || block.kind is Show {
        &&& post.phase_m() is Finished
        &&& !post.rollback_attempted_m()
    } else if block.rollback_policy is PerStep && post.executed_m().len() == 0 {
        &&& post.phase_m() is Finished
        &&& !post.rollback_attempted_m()
        &&& !post.rollback_succeeded_m()
        &&& post.rollback_errors_m().len() > 0
    } else {
        &&& post.phase_m() is Rollback
        &&& post.rollback_attempted_m()
        &&& post.rollback_succeeded_m()
        &&& post.plan_pos_m() == 0
        &&& post.plan_m().len() > 0
        &&& plan_matches(block, post.executed_m(), post.plan_m())
    }
}

/// Aggregates block results into the workflow-level outcome, mirroring
/// the reverse-order global rollback bookkeeping.
pub struct WorkflowRun {
    workflow_name: String,
    committed_blocks: Vec<usize>,
    failed_block: Option<usize>,
    results: Vec<TxResult>,
}

impl WorkflowRun {
    /// Validates the workflow and starts tracking it: nothing committed,
    /// nothing failed, no results yet.
    pub fn start(workflow: &TxWorkflow) -> (r: Result<WorkflowRun, ConnectError>)
        ensures
            r is Ok <==> workflow_valid(*workflow),
            r matches Ok(run) ==> {
                &&& run.name_m() == workflow.name@
                &&& run.failed_block_m() is None
                &&& run.committed_m().len() == 0
                &&& run.results_m().len() == 0
            },
            r matches Err(e) ==> e is InvalidTransaction,
    {
        match workflow.validate() {
            Ok(_) => {},
            Err(e) => {
                return Err(e);
            },
        }
        Ok(
            WorkflowRun {
                workflow_name: workflow.name.clone(),
                committed_blocks: Vec::new(),
                failed_block: None,
                results: Vec::new(),
            },
        )
    }

    /// Records the result of block `idx`: the result joins the list, a
    /// committed index joins the committed list, the first failure is
    /// remembered.  Returns true when the workflow should continue to the
    /// next block.
    pub fn record_block(&mut self, idx: usize, result: TxResult, fail_fast: bool) -> (r: bool)
        ensures
            r == (result.committed || !fail_fast),
            final(self).name_m() == old(self).name_m(),
            final(self).results_m() == old(self).results_m().push(result),
            result.committed ==> final(self).committed_m() == old(self).committed_m().push(idx)
                && final(self).failed_block_m() == old(self).failed_block_m(),
            !result.committed ==> final(self).committed_m() == old(self).committed_m()
                && final(self).failed_block_m() == (if old(self).failed_block_m() is None {
                Some(idx)
            } else {
                old(self).failed_block_m()
            }),
    {
        let committed = result.committed;
        self.results.push(result);
        if committed {
            self.committed_blocks.push(idx);
            true
        } else {
            if matches!(self.failed_block, None) {
                self.failed_block = Some(idx);
            }
            !fail_fast
        }
    }

    /// The blocks to roll back now, in reverse commit order, limited to
    /// those before the failing block.
    pub fn rollback_order(&self) -> (r: Vec<usize>)
        ensures
            self.failed_block_m() matches Some(f) ==> r@ == self.committed_m().reverse().filter(
                |idx: usize| (idx as int) < f as int,
            ),
            self.failed_block_m() is None ==> r@.len() == 0,
    {
        match self.failed_block {
            Some(f) => crate::transaction::workflow_rollback_order(&self.committed_blocks, f),
            None => Vec::new(),
        }
    }

    /// Renders the workflow result from the tracked state, passing the
    /// global rollback outcome through unchanged.
    pub fn finish(
        self,
        rollback_attempted: bool,
        rollback_succeeded: bool,
        rollback_errors: Vec<String>,
    ) -> (r: TxWorkflowResult)
        ensures
            r.workflow_name@ == self.name_m(),
            r.committed == (self.failed_block_m() is None),
            r.failed_block == self.failed_block_m(),
            r.block_results@ == self.results_m(),
            r.rollback_attempted == rollback_attempted,
            r.rollback_succeeded == rollback_succeeded,
            r.rollback_errors == rollback_errors,
    {
        TxWorkflowResult {
            workflow_name: self.workflow_name,
            committed: matches!(self.failed_block, None),
            failed_block: self.failed_block,
            block_results: self.results,
            rollback_attempted,
            rollback_succeeded,
            rollback_errors,
        }
    }

    /// The first failed block.
    pub closed spec fn failed_block_m(&self) -> Option<usize> {
        self.failed_block
    }

    /// The committed block indices, in commit order.
    pub closed spec fn committed_m(&self) -> Seq<usize> {
        self.committed_blocks@
    }

    /// The recorded block results, in workflow order.
    pub closed spec fn results_m(&self) -> Seq<TxResult> {
        self.results@
    }

    /// The workflow's name.
    pub closed spec fn name_m(&self) -> Seq<char> {
        self.workflow_name@
    }
}

} // verus!
