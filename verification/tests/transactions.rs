use rneter::errors::ConnectError;
use rneter::exec_tx::{BlockRun, WorkflowRun};
use rneter::security::{ConnectionSecurityOptions, HostKeyCheck, SecurityLevel};
use rneter::templates::{
    available_templates, build_tx_block, by_name, classify_command, diagnose_template,
    template_catalog, template_metadata,
};
use rneter::transaction::{
    failed_block_rollback_summary, workflow_rollback_order, CommandBlockKind, RollbackPolicy,
    TxBlock, TxResult, TxStep, TxWorkflow,
};

fn per_step_block() -> TxBlock {
    TxBlock {
        name: "addr-update".to_string(),
        kind: CommandBlockKind::Config,
        rollback_policy: RollbackPolicy::PerStep,
        steps: vec![
            TxStep {
                mode: "Config".to_string(),
                command: "set addr 1".to_string(),
                timeout_secs: None,
                rollback_command: Some("unset addr 1".to_string()),
            },
            TxStep {
                mode: "Config".to_string(),
                command: "set addr 2".to_string(),
                timeout_secs: None,
                rollback_command: Some("unset addr 2".to_string()),
            },
        ],
        fail_fast: true,
    }
}

#[test]
fn config_block_requires_rollback_policy() {
    let mut block = per_step_block();
    block.rollback_policy = RollbackPolicy::NoRollback;
    let err = block
        .validate()
        .expect_err("config requires rollback policy");
    assert!(matches!(err, ConnectError::InvalidTransaction(_)));
}

#[test]
fn show_block_requires_none_rollback_policy() {
    let mut block = per_step_block();
    block.kind = CommandBlockKind::Show;
    let err = block.validate().expect_err("show must not define rollback");
    assert!(matches!(err, ConnectError::InvalidTransaction(_)));
}

#[test]
fn per_step_rollback_plan_is_reverse_order() {
    let block = per_step_block();
    let plan = block.plan_rollback(&vec![0, 1]).expect("plan rollback");
    assert_eq!(plan.len(), 2);
    assert_eq!(plan[0].command, "unset addr 2");
    assert_eq!(plan[1].command, "unset addr 1");
}

#[test]
fn whole_resource_plan_is_single_command() {
    let block = TxBlock {
        name: "addr-create".to_string(),
        kind: CommandBlockKind::Config,
        rollback_policy: RollbackPolicy::WholeResource {
            mode: "Config".to_string(),
            undo_command: "no address-object A".to_string(),
            timeout_secs: Some(30),
        },
        steps: vec![TxStep {
            mode: "Config".to_string(),
            command: "address-object A".to_string(),
            timeout_secs: None,
            rollback_command: None,
        }],
        fail_fast: true,
    };
    let plan = block.plan_rollback(&vec![0]).expect("plan rollback");
    assert_eq!(plan.len(), 1);
    assert_eq!(plan[0].command, "no address-object A");
}

#[test]
fn workflow_requires_at_least_one_block() {
    let workflow = TxWorkflow {
        name: "fw-policy".to_string(),
        blocks: vec![],
        fail_fast: true,
    };
    let err = workflow
        .validate()
        .expect_err("workflow without block should fail");
    assert!(matches!(err, ConnectError::InvalidTransaction(_)));
}

#[test]
fn workflow_validation_reuses_block_validation() {
    let invalid_block = TxBlock {
        name: "bad".to_string(),
        kind: CommandBlockKind::Config,
        rollback_policy: RollbackPolicy::PerStep,
        steps: vec![TxStep {
            mode: "Config".to_string(),
            command: "set x".to_string(),
            timeout_secs: None,
            rollback_command: None,
        }],
        fail_fast: true,
    };
    let workflow = TxWorkflow {
        name: "wf".to_string(),
        blocks: vec![invalid_block],
        fail_fast: true,
    };
    let err = workflow.validate().expect_err("invalid nested block");
    assert!(matches!(err, ConnectError::InvalidTransaction(_)));
}

#[test]
fn workflow_rollback_order_reverses_committed_prefix() {
    let order = workflow_rollback_order(&vec![0, 1, 2], 2);
    assert_eq!(order, vec![1, 0]);
}

#[test]
fn workflow_rollback_order_empty_when_first_block_failed() {
    let order = workflow_rollback_order(&vec![], 0);
    assert!(order.is_empty());
}

#[test]
fn failed_block_rollback_summary_propagates_rollback_failure() {
    let failed = TxResult {
        block_name: "policy".to_string(),
        committed: false,
        failed_step: Some(2),
        executed_steps: 2,
        rollback_attempted: true,
        rollback_succeeded: false,
        rollback_steps: 1,
        failure_reason: Some("step failed".to_string()),
        rollback_errors: vec!["undo command failed".to_string()],
    };
    let (attempted, succeeded, errors) = failed_block_rollback_summary(Some(&failed));
    assert!(attempted);
    assert!(!succeeded);
    assert_eq!(errors, vec!["undo command failed".to_string()]);
}

#[test]
fn failed_block_rollback_summary_defaults_when_not_attempted() {
    let failed = TxResult {
        block_name: "policy".to_string(),
        committed: false,
        failed_step: Some(1),
        executed_steps: 1,
        rollback_attempted: false,
        rollback_succeeded: false,
        rollback_steps: 0,
        failure_reason: Some("step failed".to_string()),
        rollback_errors: vec!["ignored".to_string()],
    };
    let (attempted, succeeded, errors) = failed_block_rollback_summary(Some(&failed));
    assert!(!attempted);
    assert!(succeeded);
    assert!(errors.is_empty());
}

#[test]
fn available_templates_contains_expected_names() {
    let names = available_templates();
    assert!(names.iter().any(|n| n == "cisco"));
    assert!(names.iter().any(|n| n == "juniper"));
    assert!(names.iter().any(|n| n == "array"));
}

#[test]
fn by_name_is_case_insensitive() {
    let handler = by_name("CiScO").expect("cisco template should load");
    let diagnostics = handler.diagnose_state_machine();
    assert!(diagnostics.missing_edge_sources.is_empty());
    assert!(diagnostics.missing_edge_targets.is_empty());
}

#[test]
fn by_name_returns_template_not_found_for_unknown_name() {
    let err = match by_name("unknown-vendor") {
        Ok(_) => panic!("unknown template should fail"),
        Err(err) => err,
    };
    assert!(matches!(err, ConnectError::TemplateNotFound(_)));
}

#[test]
fn diagnose_template_returns_report() {
    let report = diagnose_template("huawei").expect("diagnostics should succeed");
    assert!(report.total_states > 0);
}

#[test]
fn template_catalog_has_metadata_for_all_builtin_templates() {
    let catalog = template_catalog();
    assert_eq!(catalog.len(), available_templates().len());
    assert!(catalog.iter().any(|m| m.name == "cisco"));
    assert!(catalog.iter().any(|m| m.name == "array"));
}

#[test]
fn template_metadata_is_case_insensitive() {
    let meta = template_metadata("JuNiPeR").expect("metadata should resolve");
    assert_eq!(meta.name, "juniper");
    assert_eq!(meta.vendor, "Juniper");
}

#[test]
fn classify_show_command_returns_show_kind() {
    let kind = classify_command("cisco", "show version").expect("classify");
    assert_eq!(kind, CommandBlockKind::Show);
}

#[test]
fn build_tx_block_for_show_uses_none_rollback() {
    let commands = vec!["show version".to_string(), "show clock".to_string()];
    let tx = build_tx_block("cisco", "show-block", "Enable", &commands, Some(30), None)
        .expect("build show tx");
    assert_eq!(tx.kind, CommandBlockKind::Show);
    assert!(matches!(tx.rollback_policy, RollbackPolicy::NoRollback));
    assert!(tx.steps.iter().all(|s| s.rollback_command.is_none()));
}

#[test]
fn build_tx_block_for_huawei_infers_undo_per_step() {
    let commands = vec!["acl 3000".to_string(), "rule permit ip".to_string()];
    let tx = build_tx_block("huawei", "cfg-block", "Config", &commands, Some(30), None)
        .expect("build config tx");
    assert_eq!(tx.kind, CommandBlockKind::Config);
    assert!(matches!(tx.rollback_policy, RollbackPolicy::PerStep));
    assert_eq!(tx.steps[0].rollback_command.as_deref(), Some("undo acl 3000"));
    assert_eq!(
        tx.steps[1].rollback_command.as_deref(),
        Some("undo rule permit ip")
    );
}

#[test]
fn build_tx_block_for_juniper_infers_delete_from_set() {
    let commands =
        vec!["set security zones security-zone trust interfaces ge-0/0/0.0".to_string()];
    let tx = build_tx_block("juniper", "cfg-block", "Config", &commands, None, None)
        .expect("build config tx");
    assert_eq!(
        tx.steps[0].rollback_command.as_deref(),
        Some("delete security zones security-zone trust interfaces ge-0/0/0.0")
    );
}

#[test]
fn build_tx_block_supports_whole_resource_rollback() {
    let commands = vec![
        "address-object host WEB01".to_string(),
        "host 10.0.0.10".to_string(),
    ];
    let tx = build_tx_block(
        "cisco",
        "addr-create",
        "Config",
        &commands,
        Some(20),
        Some("no address-object host WEB01".to_string()),
    )
    .expect("build config tx");
    assert!(matches!(
        tx.rollback_policy,
        RollbackPolicy::WholeResource { .. }
    ));
    assert!(tx.steps.iter().all(|s| s.rollback_command.is_none()));
}

#[test]
fn build_tx_block_returns_error_when_rollback_cannot_be_inferred() {
    let commands = vec!["undo acl 3000".to_string()];
    let err =
        build_tx_block("huawei", "bad", "Config", &commands, None, None).expect_err("should fail");
    assert!(matches!(err, ConnectError::InvalidTransaction(_)));
}

#[test]
fn whole_resource_plan_from_build_matches_scenario() {
    let commands = vec![
        "address-object host WEB01".to_string(),
        "host 10.0.0.10".to_string(),
    ];
    let tx = build_tx_block(
        "cisco",
        "addr",
        "Config",
        &commands,
        Some(20),
        Some("no address-object host WEB01".to_string()),
    )
    .expect("build config tx");
    let plan = tx.plan_rollback(&vec![0, 1]).expect("plan rollback");
    assert_eq!(plan.len(), 1);
    assert_eq!(plan[0].mode, "Config");
    assert_eq!(plan[0].command, "no address-object host WEB01");
    assert_eq!(plan[0].timeout_secs, Some(20));
}

#[test]
fn huawei_per_step_plan_is_reverse_of_execution() {
    let commands = vec!["acl 3000".to_string(), "rule permit ip".to_string()];
    let tx = build_tx_block("huawei", "cfg", "Config", &commands, Some(30), None)
        .expect("build config tx");
    let plan = tx.plan_rollback(&vec![0, 1]).expect("plan rollback");
    assert_eq!(plan.len(), 2);
    assert_eq!(plan[0].command, "undo rule permit ip");
    assert_eq!(plan[1].command, "undo acl 3000");
}

#[test]
fn default_security_options_are_secure() {
    let options = ConnectionSecurityOptions::default();
    assert_eq!(options.level, SecurityLevel::Secure);
    assert!(matches!(
        options.server_check,
        HostKeyCheck::DefaultKnownHostsFile
    ));
}

#[test]
fn legacy_profile_uses_no_host_check() {
    let options = ConnectionSecurityOptions::legacy_compatible();
    assert_eq!(options.level, SecurityLevel::LegacyCompatible);
    assert!(matches!(options.server_check, HostKeyCheck::NoCheck));
    assert!(options.allows_weak_algorithms());
}

#[test]
fn block_run_commits_when_every_step_succeeds() {
    let block = per_step_block();
    let mut run = BlockRun::start(block).expect("valid block");
    while let Some(cmd) = run.next_command() {
        assert_eq!(cmd.mode, "Config");
        assert_eq!(cmd.timeout_secs, 60);
        run.report(true, String::new()).expect("report");
    }
    assert!(run.is_finished());
    let result = run.finish();
    assert!(result.committed);
    assert_eq!(result.executed_steps, 2);
    assert!(!result.rollback_attempted);
}

#[test]
fn block_run_rolls_back_in_reverse_after_failure() {
    let block = TxBlock {
        name: "three".to_string(),
        kind: CommandBlockKind::Config,
        rollback_policy: RollbackPolicy::PerStep,
        steps: vec![
            TxStep {
                mode: "Config".to_string(),
                command: "a".to_string(),
                timeout_secs: None,
                rollback_command: Some("undo a".to_string()),
            },
            TxStep {
                mode: "Config".to_string(),
                command: "b".to_string(),
                timeout_secs: None,
                rollback_command: Some("undo b".to_string()),
            },
            TxStep {
                mode: "Config".to_string(),
                command: "c".to_string(),
                timeout_secs: None,
                rollback_command: Some("undo c".to_string()),
            },
        ],
        fail_fast: true,
    };
    let mut run = BlockRun::start(block).expect("valid block");
    // two successes, then a failure
    run.report(true, String::new()).expect("report");
    run.report(true, String::new()).expect("report");
    run.report(false, "device said no".to_string()).expect("report");
    // the rollback phase must undo b then a
    let first = run.next_command().expect("first rollback command");
    assert_eq!(first.command, "undo b");
    run.report(true, String::new()).expect("report");
    let second = run.next_command().expect("second rollback command");
    assert_eq!(second.command, "undo a");
    run.report(true, String::new()).expect("report");
    assert!(run.is_finished());
    let result = run.finish();
    assert!(!result.committed);
    assert_eq!(result.failed_step, Some(2));
    assert!(result.rollback_attempted);
    assert!(result.rollback_succeeded);
    assert_eq!(result.rollback_steps, 2);
}

#[test]
fn show_block_failure_skips_rollback() {
    let block = TxBlock {
        name: "show".to_string(),
        kind: CommandBlockKind::Show,
        rollback_policy: RollbackPolicy::NoRollback,
        steps: vec![TxStep {
            mode: "Enable".to_string(),
            command: "show version".to_string(),
            timeout_secs: None,
            rollback_command: None,
        }],
        fail_fast: true,
    };
    let mut run = BlockRun::start(block).expect("valid block");
    run.report(false, "bad".to_string()).expect("report");
    assert!(run.is_finished());
    let result = run.finish();
    assert!(!result.committed);
    assert!(!result.rollback_attempted);
}

#[test]
fn workflow_run_tracks_committed_and_failed_blocks() {
    let workflow = TxWorkflow {
        name: "wf".to_string(),
        blocks: vec![per_step_block(), per_step_block(), per_step_block()],
        fail_fast: true,
    };
    let mut run = WorkflowRun::start(&workflow).expect("valid workflow");
    let ok = TxResult {
        block_name: "b".to_string(),
        committed: true,
        failed_step: None,
        executed_steps: 2,
        rollback_attempted: false,
        rollback_succeeded: false,
        rollback_steps: 0,
        failure_reason: None,
        rollback_errors: vec![],
    };
    let mut failed = ok.clone();
    failed.committed = false;
    failed.failed_step = Some(0);

    assert!(run.record_block(0, ok.clone(), true));
    assert!(run.record_block(1, ok, true));
    assert!(!run.record_block(2, failed, true));
    assert_eq!(run.rollback_order(), vec![1, 0]);
    let result = run.finish(true, true, vec![]);
    assert!(!result.committed);
    assert_eq!(result.failed_block, Some(2));
    assert_eq!(result.block_results.len(), 3);
}

#[test]
fn unreachable_state_error_from_each_template() {
    for name in ["cisco", "huawei", "h3c", "hillstone", "juniper", "array"] {
        let handler = by_name(name).expect("template builds");
        let err = handler
            .trans_state_write("nonexistent-mode", None)
            .expect_err("unreachable");
        assert!(matches!(err, ConnectError::UnreachableState(_)));
    }
}
