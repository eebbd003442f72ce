//! Transactional command blocks and workflows: validation and rollback
//! planning.

use vstd::prelude::*;
use crate::errors::ConnectError;
use crate::strutil::{is_blank, is_blank_seq, usize_to_string, str_concat};

verus! {

/// High-level command block type.
#[derive(Debug, Clone, Copy, PartialEq, Eq, Structural)]
pub enum CommandBlockKind {
    Show,
    Config,
}

/// Rollback strategy used when a config block fails.
#[derive(Debug, Clone, PartialEq, Eq)]
pub enum RollbackPolicy {
    /// No rollback. Only valid for `Show` blocks.
    NoRollback,
    /// Roll back the whole resource with one command.
    WholeResource {
        /// Mode used to execute the rollback command.
        mode: String,
        /// Single compensating command for the whole block.
        undo_command: String,
        /// Optional timeout for rollback command execution.
        timeout_secs: Option<u64>,
    },
    /// Roll back each executed step in reverse order.
    PerStep,
}

/// One command step inside a block.
#[derive(Debug, Clone, PartialEq, Eq)]
pub struct TxStep {
    /// Target mode before running this step.
    pub mode: String,
    /// Forward command.
    pub command: String,
    /// Optional timeout for this step.
    pub timeout_secs: Option<u64>,
    /// Compensating command for the `PerStep` rollback policy.
    pub rollback_command: Option<String>,
}

/// Transaction-like command block.
#[derive(Debug, Clone, PartialEq, Eq)]
pub struct TxBlock {
    /// Logical name used in logs and recordings.
    pub name: String,
    /// Block type (`Show` skips rollback, `Config` requires a policy).
    pub kind: CommandBlockKind,
    /// Rollback behaviour when a step fails.
    pub rollback_policy: RollbackPolicy,
    /// Commands executed in order.
    pub steps: Vec<TxStep>,
    /// Stop at the first failure.
    pub fail_fast: bool,
}

/// Planned rollback command.
#[derive(Debug, Clone, PartialEq, Eq)]
pub struct PlannedRollback {
    /// Mode used for rollback command execution.
    pub mode: String,
    /// Rollback command text.
    pub command: String,
    /// Optional timeout for this rollback command.
    pub timeout_secs: Option<u64>,
}

/// Execution result of a transaction-like block.
#[derive(Debug, Clone, PartialEq, Eq)]
pub struct TxResult {
    /// Input block name.
    pub block_name: String,
    /// True when all steps succeeded.
    pub committed: bool,
    /// First failed step index, if any.
    pub failed_step: Option<usize>,
    /// Number of forward steps executed successfully.
    pub executed_steps: usize,
    /// Whether the rollback phase started.
    pub rollback_attempted: bool,
    /// Whether the rollback phase ended without rollback errors.
    pub rollback_succeeded: bool,
    /// Number of rollback commands attempted.
    pub rollback_steps: usize,
    /// First-level failure summary for the forward phase.
    pub failure_reason: Option<String>,
    /// Rollback phase errors (can contain multiple entries).
    pub rollback_errors: Vec<String>,
}

/// Multi-block workflow transaction.
#[derive(Debug, Clone, PartialEq, Eq)]
pub struct TxWorkflow {
    /// Workflow name used in logs and recordings.
    pub name: String,
    /// Ordered transaction blocks.
    pub blocks: Vec<TxBlock>,
    /// Stop at the first failed block.
    pub fail_fast: bool,
}

/// Workflow execution result.
#[derive(Debug, Clone, PartialEq, Eq)]
pub struct TxWorkflowResult {
    /// Input workflow name.
    pub workflow_name: String,
    /// True when all blocks committed.
    pub committed: bool,
    /// First failed block index.
    pub failed_block: Option<usize>,
    /// Per-block execution results in workflow order.
    pub block_results: Vec<TxResult>,
    /// Whether global rollback for previous committed blocks was attempted.
    pub rollback_attempted: bool,
    /// Whether global rollback completed without rollback errors.
    pub rollback_succeeded: bool,
    /// Aggregated rollback errors from the global rollback stage.
    pub rollback_errors: Vec<String>,
}

/// A step is well formed when its mode and command are not blank.
pub open spec fn step_valid(s: TxStep) -> bool {
    !is_blank_seq(s.mode@) && !is_blank_seq(s.command@)
}

/// A step carries a usable rollback command for the `PerStep` policy.
pub open spec fn step_has_rollback(s: TxStep) -> bool {
    s.rollback_command matches Some(rc) && !is_blank_seq(rc@)
}

/// Kind and rollback policy agree: `Show` forbids rollback, `Config`
/// requires it, and each policy's own fields are usable.
pub open spec fn block_policy_valid(b: TxBlock) -> bool {
    match b.rollback_policy {
        RollbackPolicy::NoRollback => b.kind is Show,
        RollbackPolicy::WholeResource { mode, undo_command, timeout_secs } => b.kind is Config
            && !is_blank_seq(mode@) && !is_blank_seq(undo_command@),
        RollbackPolicy::PerStep => b.kind is Config && forall|i: int|
            0 <= i < b.steps@.len() ==> step_has_rollback(#[trigger] b.steps@[i]),
    }
}

/// All cross-field invariants of a block.
pub open spec fn block_valid(b: TxBlock) -> bool {
    b.steps@.len() > 0 && (forall|i: int|
        0 <= i < b.steps@.len() ==> step_valid(#[trigger] b.steps@[i])) && block_policy_valid(b)
}

/// All cross-field invariants of a workflow.
pub open spec fn workflow_valid(w: TxWorkflow) -> bool {
    w.blocks@.len() > 0 && forall|i: int|
        0 <= i < w.blocks@.len() ==> block_valid(#[trigger] w.blocks@[i])
}

/// Index `idx` names a step of `steps` that has a rollback command.
pub open spec fn rollback_index_ok(steps: Seq<TxStep>, idx: usize) -> bool {
    (idx as int) < steps.len() && steps[idx as int].rollback_command is Some
}

/// The planned command that undoes step `s`.
pub open spec fn planned_for_step(p: PlannedRollback, s: TxStep) -> bool {
    &&& p.mode@ == s.mode@
    &&& s.rollback_command matches Some(rc) && p.command@ == rc@
    &&& p.timeout_secs == s.timeout_secs
}

/// Calculate the reverse rollback order for committed blocks before a
/// failure point: the committed indices below `failed_block`, last first.
#[verifier::loop_isolation(false)]
pub fn workflow_rollback_order(committed_block_indices: &Vec<usize>, failed_block: usize) -> (r:
    Vec<usize>)
    ensures
        r@ == committed_block_indices@.reverse().filter(
            |idx: usize| (idx as int) < failed_block as int,
        ),
{
    broadcast use vstd::seq_lib::group_seq_properties;

    let ghost pred = |idx: usize| (idx as int) < failed_block as int;
    let n = committed_block_indices.len();
    let mut r: Vec<usize> = Vec::new();
    let mut i: usize = n;
    while i > 0
        invariant
            i <= n,
            n == committed_block_indices@.len(),
            r@ == committed_block_indices@.subrange(i as int, n as int).reverse().filter(pred),
        decreases i,
    {
        let ghost prev = committed_block_indices@.subrange(i as int, n as int).reverse();
        i -= 1;
        let idx = committed_block_indices[i];
        if idx < failed_block {
            r.push(idx);
        }
        proof {
            let cur = committed_block_indices@.subrange(i as int, n as int).reverse();
            assert(cur =~= prev + seq![idx]);
            Seq::filter_distributes_over_add(prev, seq![idx], pred);
            reveal_with_fuel(Seq::filter, 2);
            if pred(idx) {
                assert(seq![idx].filter(pred) =~= seq![idx]);
            } else {
                assert(seq![idx].filter(pred) =~= Seq::<usize>::empty());
                assert(r@ =~= r@ + Seq::<usize>::empty());
            }
        }
    }
    proof {
        assert(committed_block_indices@.subrange(0, n as int) =~= committed_block_indices@);
    }
    r
}

/// Extract the initial workflow rollback status from the failed block's own
/// result: when that block already attempted rollback, its outcome seeds the
/// workflow-level summary; otherwise the summary starts clean.
pub fn failed_block_rollback_summary(failed_block_result: Option<&TxResult>) -> (r: (
    bool,
    bool,
    Vec<String>,
))
    ensures
        match failed_block_result {
            Some(res) if res.rollback_attempted => r.0 == true && r.1 == res.rollback_succeeded
                && r.2.deep_view() == res.rollback_errors.deep_view(),
            _ => r.0 == false && r.1 == true && r.2@.len() == 0,
        },
{
    match failed_block_result {
        Some(result) => {
            if result.rollback_attempted {
                (true, result.rollback_succeeded, clone_strings(&result.rollback_errors))
            } else {
                (false, true, Vec::new())
            }
        },
        None => (false, true, Vec::new()),
    }
}

/// Copies a vector of strings.
pub fn clone_strings(v: &Vec<String>) -> (r: Vec<String>)
    ensures
        r.deep_view() == v.deep_view(),
{
    let mut r: Vec<String> = Vec::new();
    let mut i: usize = 0;
    while i < v.len()
        invariant
            i <= v@.len(),
            r@.len() == i,
            r.deep_view() == v.deep_view().subrange(0, i as int),
        decreases v@.len() - i,
    {
        r.push(v[i].clone());
        proof {
            assert(r.deep_view() =~~= v.deep_view().subrange(0, i + 1));
        }
        i += 1;
    }
    proof {
        assert(v.deep_view().subrange(0, v.deep_view().len() as int) =~= v.deep_view());
    }
    r
}

impl TxBlock {
    /// Validate cross-field invariants before execution.
    ///
    /// Key rule: `Show` blocks must not define rollback; `Config` blocks
    /// must, and the policy's own fields must be usable.
    pub fn validate(&self) -> (r: Result<(), ConnectError>)
        ensures
            r is Ok <==> block_valid(*self),
            r matches Err(e) ==> e is InvalidTransaction,
    {
        if self.steps.len() == 0 {
            return Err(
                ConnectError::InvalidTransaction("block has no steps".to_owned()),
            );
        }
        let mut i: usize = 0;
        while i < self.steps.len()
            invariant
                i <= self.steps@.len(),
                forall|j: int| 0 <= j < i ==> step_valid(#[trigger] self.steps@[j]),
            decreases self.steps@.len() - i,
        {
            if is_blank(self.steps[i].mode.as_str()) {
                return Err(
                    ConnectError::InvalidTransaction(
                        str_concat(str_concat("step[", usize_to_string(i).as_str()).as_str(),
                            "] mode is empty"),
                    ),
                );
            }
            if is_blank(self.steps[i].command.as_str()) {
                return Err(
                    ConnectError::InvalidTransaction(
                        str_concat(str_concat("step[", usize_to_string(i).as_str()).as_str(),
                            "] command is empty"),
                    ),
                );
            }
            i += 1;
        }
        match (&self.kind, &self.rollback_policy) {
            (CommandBlockKind::Show, RollbackPolicy::NoRollback) => Ok(()),
            (CommandBlockKind::Show, _) => Err(
                ConnectError::InvalidTransaction(
                    "show block must use rollback_policy=none".to_owned(),
                ),
            ),
            (CommandBlockKind::Config, RollbackPolicy::NoRollback) => Err(
                ConnectError::InvalidTransaction(
                    "config block requires rollback policy".to_owned(),
                ),
            ),
            (CommandBlockKind::Config, RollbackPolicy::WholeResource { mode, undo_command, .. }) => {
                if is_blank(mode.as_str()) || is_blank(undo_command.as_str()) {
                    Err(
                        ConnectError::InvalidTransaction(
                            "whole_resource rollback requires non-empty mode and undo_command".to_owned(),
                        ),
                    )
                } else {
                    Ok(())
                }
            },
            (CommandBlockKind::Config, RollbackPolicy::PerStep) => {
                let mut k: usize = 0;
                while k < self.steps.len()
                    invariant
                        self.kind is Config,
                        self.rollback_policy is PerStep,
                        k <= self.steps@.len(),
                        forall|j: int| 0 <= j < k ==> step_has_rollback(#[trigger] self.steps@[j]),
                    decreases self.steps@.len() - k,
                {
                    let has_rb = match &self.steps[k].rollback_command {
                        Some(rc) => !is_blank(rc.as_str()),
                        None => false,
                    };
                    if !has_rb {
                        proof {
                            assert(!step_has_rollback(self.steps@[k as int]));
                            assert(!block_policy_valid(*self));
                        }
                        return Err(
                            ConnectError::InvalidTransaction(
                                str_concat(
                                    str_concat("step[", usize_to_string(k).as_str()).as_str(),
                                    "] missing rollback_command for per_step policy"),
                            ),
                        );
                    }
                    k += 1;
                }
                Ok(())
            },
        }
    }

    /// Build the rollback plan for the executed step indices.
    ///
    /// - `NoRollback` plans nothing.
    /// - `WholeResource` plans its single compensating command, however many
    ///   steps executed.
    /// - `PerStep` plans one command per executed index, in reverse
    ///   execution order, each inheriting its step's mode and timeout.
    pub fn plan_rollback(&self, executed_step_indices: &Vec<usize>) -> (r: Result<
        Vec<PlannedRollback>,
        ConnectError,
    >)
        ensures
            match self.rollback_policy {
                RollbackPolicy::NoRollback => r matches Ok(plan) && plan@.len() == 0,
                RollbackPolicy::WholeResource { mode, undo_command, timeout_secs } => r matches Ok(
                    plan,
                ) && plan@.len() == 1 && plan@[0].mode@ == mode@ && plan@[0].command@
                    == undo_command@ && plan@[0].timeout_secs == timeout_secs,
                RollbackPolicy::PerStep => {
                    let ok = forall|j: int|
                        0 <= j < executed_step_indices@.len() ==> rollback_index_ok(
                            self.steps@,
                            #[trigger] executed_step_indices@[j],
                        );
                    if ok {
                        r matches Ok(plan) && plan@.len() == executed_step_indices@.len()
                            && forall|j: int|
                            0 <= j < plan@.len() ==> planned_for_step(
                                #[trigger] plan@[j],
                                self.steps@[executed_step_indices@[executed_step_indices@.len() - 1
                                    - j] as int],
                            )
                    } else {
                        r matches Err(e) && e is InvalidTransaction
                    }
                },
            },
    {
        match &self.rollback_policy {
            RollbackPolicy::NoRollback => Ok(Vec::new()),
            RollbackPolicy::WholeResource { mode, undo_command, timeout_secs } => {
                let mut plan: Vec<PlannedRollback> = Vec::new();
                plan.push(
                    PlannedRollback {
                        mode: mode.clone(),
                        command: undo_command.clone(),
                        timeout_secs: *timeout_secs,
                    },
                );
                Ok(plan)
            },
            RollbackPolicy::PerStep => {
                let n = executed_step_indices.len();
                let mut plan: Vec<PlannedRollback> = Vec::new();
                let mut i: usize = n;
                while i > 0
                    invariant
                        self.rollback_policy is PerStep,
                        i <= n,
                        n == executed_step_indices@.len(),
                        plan@.len() == n - i,
                        forall|j: int|
                            i <= j < n ==> rollback_index_ok(
                                self.steps@,
                                #[trigger] executed_step_indices@[j],
                            ),
                        forall|j: int|
                            0 <= j < plan@.len() ==> planned_for_step(
                                #[trigger] plan@[j],
                                self.steps@[executed_step_indices@[n - 1 - j] as int],
                            ),
                    decreases i,
                {
                    i -= 1;
                    let idx = executed_step_indices[i];
                    if idx >= self.steps.len() {
                        proof {
                            assert(!rollback_index_ok(self.steps@, executed_step_indices@[i as int]));
                        }
                        return Err(
                            ConnectError::InvalidTransaction(
                                str_concat("executed step index out of range: ",
                                    usize_to_string(idx).as_str()),
                            ),
                        );
                    }
                    match &self.steps[idx].rollback_command {
                        Some(rc) => {
                            plan.push(
                                PlannedRollback {
                                    mode: self.steps[idx].mode.clone(),
                                    command: rc.clone(),
                                    timeout_secs: self.steps[idx].timeout_secs,
                                },
                            );
                        },
                        None => {
                            proof {
                                assert(!rollback_index_ok(self.steps@, executed_step_indices@[i as int]));
                            }
                            return Err(
                                ConnectError::InvalidTransaction(
                                    str_concat(
                                        str_concat("step[", usize_to_string(idx).as_str()).as_str(),
                                        "] missing rollback_command"),
                                ),
                            );
                        },
                    }
                }
                Ok(plan)
            },
        }
    }
}

impl TxResult {
    /// A fully-committed result for a block whose every step succeeded.
    pub fn committed(block_name: String, executed_steps: usize) -> (r: TxResult)
        ensures
            r.block_name@ == block_name@,
            r.committed == true,
            r.failed_step is None,
            r.executed_steps == executed_steps,
            r.rollback_attempted == false,
            r.rollback_succeeded == false,
            r.rollback_steps == 0,
            r.failure_reason is None,
            r.rollback_errors@.len() == 0,
    {
        TxResult {
            block_name,
            committed: true,
            failed_step: None,
            executed_steps,
            rollback_attempted: false,
            rollback_succeeded: false,
            rollback_steps: 0,
            failure_reason: None,
            rollback_errors: Vec::new(),
        }
    }
}

impl TxWorkflow {
    /// Validate the workflow and its nested blocks.
    pub fn validate(&self) -> (r: Result<(), ConnectError>)
        ensures
            r is Ok <==> workflow_valid(*self),
            r matches Err(e) ==> e is InvalidTransaction,
    {
        if self.blocks.len() == 0 {
            return Err(
                ConnectError::InvalidTransaction("workflow has no blocks".to_owned()),
            );
        }
        let mut i: usize = 0;
        while i < self.blocks.len()
            invariant
                i <= self.blocks@.len(),
                forall|j: int| 0 <= j < i ==> block_valid(#[trigger] self.blocks@[j]),
            decreases self.blocks@.len() - i,
        {
            match self.blocks[i].validate() {
                Ok(_) => {},
                Err(_) => {
                    return Err(
                        ConnectError::InvalidTransaction(
                            str_concat(
                                str_concat("block[", usize_to_string(i).as_str()).as_str(),
                                "] validation failed"),
                        ),
                    );
                },
            }
            i += 1;
        }
        Ok(())
    }
}

} // verus!
