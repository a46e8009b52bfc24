use novel_core::automation::{
    job_for_action, manual_idempotency_key, path_segments, pending_job, presence_outcome, QueueError,
    causation_allowed, editor_tick, failure_status, no_handler_message, operation_name,
    retry_backoff, rule_applies, runner_result, stable_idempotency_key, ChangeSummary, QueuePolicy, TypingSession,
};
use novel_core::commands::EditorTickInput;
use novel_core::content::TextOperation;
use novel_core::domain::{ConditionOperator, JobStatus, WorkflowAction};
use novel_core::ids::{BlockId, JobId, ProjectId, WorkflowId};

#[test]
fn backoff_grows_exponentially() {
    let base = 5_000;
    assert_eq!(retry_backoff(1, base), 5_000);
    assert_eq!(retry_backoff(2, base), 10_000);
    assert_eq!(retry_backoff(3, base), 20_000);
    assert_eq!(retry_backoff(30, base), 5_000 * 64);
    assert_eq!(retry_backoff(2, 0), 0);
}

#[test]
fn idle_detection_respects_composing() {
    let now = 1_700_000_000_000i64;
    let mut session = TypingSession::new(now);
    session.composing = true;
    session.chars_since_commit = 100;
    session.last_input_at_ms = now - 5_000;
    assert!(!session.should_emit_idle(now, 1800, 20));

    session.composing = false;
    assert!(session.should_emit_idle(now, 1800, 20));
}

#[test]
fn idempotency_key_is_stable() {
    let workflow_id = 0x1234_5678_9abc_def0_1234_5678_9abc_def0u128;
    let key1 = stable_idempotency_key("evt-1", workflow_id, "save");
    let key2 = stable_idempotency_key("evt-1", workflow_id, "save");
    assert_eq!(key1, key2);
    assert_eq!(key1, "evt-1:12345678-9abc-def0-1234-56789abcdef0:save");
}

#[test]
fn idle_needs_focus_enough_chars_and_the_debounce() {
    let now = 10_000i64;
    let mut session = TypingSession::new(now - 2_000);
    session.chars_since_commit = 19;
    assert!(!session.should_emit_idle(now, 1800, 20));
    session.chars_since_commit = 20;
    assert!(session.should_emit_idle(now, 1800, 20));
    session.focused = false;
    assert!(!session.should_emit_idle(now, 1800, 20));
    session.focused = true;
    assert!(!session.should_emit_idle(now, 2001, 20));
    assert!(session.should_emit_idle(now, 2000, 20));
}

#[test]
fn editor_tick_updates_the_session() {
    let input = EditorTickInput {
        project_id: "p".into(),
        chapter_id: "c".into(),
        revision: 3,
        chars_since_commit: 40,
        composing: false,
        focused: true,
    };
    let (session, idle) = editor_tick(TypingSession::new(0), &input, 100, 101);
    assert!(!idle);
    assert_eq!(session.last_input_at_ms, 100);
    assert_eq!(session.chars_since_commit, 40);
    let (_, idle) = editor_tick(session, &input, 100, 1_900);
    assert!(idle);
}

#[test]
fn actions_name_their_operations() {
    assert_eq!(operation_name(&WorkflowAction::SaveDocument), "document.save");
    assert_eq!(operation_name(&WorkflowAction::RebuildIndex), "index.rebuild");
    assert_eq!(operation_name(&WorkflowAction::CheckContinuity), "continuity.check");
    assert_eq!(
        operation_name(&WorkflowAction::GenerateContinuation { max_tokens: 9 }),
        "agent.continuation"
    );
    assert_eq!(operation_name(&WorkflowAction::CreateBackup), "backup.create");
    assert_eq!(
        operation_name(&WorkflowAction::RunAgent { prompt: "x".into() }),
        "agent.run"
    );
    assert_eq!(
        operation_name(&WorkflowAction::RunPluginOperation {
            plugin_id: "p".into(),
            operation: "o".into(),
            input_json: "{}".into(),
        }),
        "plugin.operation"
    );
}

#[test]
fn queue_reports_and_limits() {
    assert_eq!(failure_status(true, 5), ("deadLetter", None));
    assert_eq!(failure_status(false, 5), ("pending", Some(5)));
    assert!(causation_allowed(8));
    assert!(!causation_allowed(9));
    let policy = QueuePolicy::default();
    assert_eq!(policy.stale_running_after_ms, 600_000);
    assert_eq!(policy.backoff_base_ms, 5_000);
    assert_eq!(no_handler_message("x.y"), "no handler for operation x.y");
}

#[test]
fn change_summary_counts_and_sorts_blocks() {
    let ops = vec![
        TextOperation::Insert { block_id: BlockId(2), offset: 0, text: "雾港".into() },
        TextOperation::Delete { block_id: BlockId(1), offset: 0, length: 3 },
        TextOperation::CreateBlock {
            block_id: BlockId(2),
            parent: None,
            position: 0,
            text: "来客".into(),
        },
    ];
    let summary = ChangeSummary::from_operations(&ops);
    assert_eq!(summary.inserted_chars, 4);
    assert_eq!(summary.deleted_chars, 3);
    assert_eq!(summary.operation_count, 3);
    assert_eq!(
        summary.affected_blocks,
        vec![BlockId(1).to_string(), BlockId(2).to_string()]
    );
}

#[test]
fn runner_result_reports_each_outcome() {
    let ok = runner_result("j1".to_string(), "document.save".to_string(), Some(Ok("{}".to_string())));
    assert!(ok.success);
    assert_eq!(ok.output.as_deref(), Some("{}"));
    assert_eq!(ok.error, None);
    let failed = runner_result("j2".to_string(), "index.rebuild".to_string(), Some(Err("boom".to_string())));
    assert!(!failed.success);
    assert_eq!(failed.output, None);
    assert_eq!(failed.error.as_deref(), Some("boom"));
    let missing = runner_result("j3".to_string(), "x.y".to_string(), None);
    assert!(!missing.success);
    assert_eq!(missing.job_id, "j3");
    assert_eq!(missing.error.as_deref(), Some("no handler for operation x.y"));
}

#[test]
fn rules_fire_only_when_enabled_triggered_and_all_conditions_hold() {
    assert!(rule_applies(true, "paragraph.created", "paragraph.created", &[true, true]));
    assert!(rule_applies(true, "paragraph.created", "paragraph.created", &[]));
    assert!(!rule_applies(false, "paragraph.created", "paragraph.created", &[true]));
    assert!(!rule_applies(true, "paragraph.created", "chapter.saved", &[true]));
    assert!(!rule_applies(true, "paragraph.created", "paragraph.created", &[true, false]));
}

#[test]
fn editor_tick_reports_idle_state() {
    let now = 1_700_000_000_000i64;
    let input = EditorTickInput {
        project_id: "p".into(),
        chapter_id: "c".into(),
        revision: 1,
        chars_since_commit: 5,
        composing: false,
        focused: true,
    };
    let (session, should_emit_idle) = editor_tick(TypingSession::new(now), &input, now, now);
    assert!(!should_emit_idle);
    assert_eq!(session.chars_since_commit, 5);
    assert!(session.focused);
}

#[test]
fn affected_blocks_come_out_ascending_and_once() {
    let ops = vec![
        TextOperation::Delete { block_id: BlockId(9), offset: 0, length: 1 },
        TextOperation::Delete { block_id: BlockId(3), offset: 0, length: 1 },
        TextOperation::Delete { block_id: BlockId(9), offset: 1, length: 1 },
        TextOperation::Delete { block_id: BlockId(5), offset: 0, length: 1 },
        TextOperation::Delete { block_id: BlockId(3), offset: 2, length: 1 },
    ];
    let summary = ChangeSummary::from_operations(&ops);
    assert_eq!(
        summary.affected_blocks,
        vec![BlockId(3).to_string(), BlockId(5).to_string(), BlockId(9).to_string()]
    );
    assert!(summary.affected_blocks.windows(2).all(|w| w[0] < w[1]));
    assert_eq!(summary.deleted_chars, 5);
}

#[test]
fn causation_depth_exceeded() {
    let result = job_for_action(
        ProjectId::new(),
        None,
        &WorkflowAction::SaveDocument,
        "{}".to_string(),
        0,
        "deep".into(),
        Some("parent".into()),
        9,
        0,
    );
    assert!(matches!(result, Err(QueueError::CausationDepthExceeded)));
    assert_eq!(QueueError::CausationDepthExceeded.message(), "causation depth exceeded");
}

#[test]
fn actions_become_pending_jobs() {
    let project = ProjectId::new();
    let workflow = WorkflowId::new();
    let job = job_for_action(
        project,
        Some(workflow),
        &WorkflowAction::CheckContinuity,
        r#"{"x":1}"#.to_string(),
        5,
        "evt:wf:continuity.check".into(),
        Some("evt".into()),
        8,
        1_000,
    )
    .unwrap();
    assert_eq!(job.project_id, project);
    assert_eq!(job.workflow_id, Some(workflow));
    assert_eq!(job.operation, "continuity.check");
    assert_eq!(job.payload, r#"{"x":1}"#);
    assert_eq!(job.priority, 5);
    assert_eq!(job.status, JobStatus::Pending);
    assert_eq!(job.idempotency_key, "evt:wf:continuity.check");
    assert!(job.depends_on.is_empty());
    assert_eq!(job.attempts, 0);
    assert_eq!(job.max_attempts, 3);
    assert_eq!(job.run_at_ms, 1_000);
    assert_eq!(job.deadline_ms, None);
    assert_eq!(job.causation_id.as_deref(), Some("evt"));
    assert_eq!(job.causation_depth, 8);
    assert_eq!(job.created_at_ms, 1_000);
    assert_eq!(job.updated_at_ms, 1_000);
    let manual = pending_job(project, None, "index.rebuild".into(), "{}".into(), 0, "k".into(), None, 0, 7);
    assert_eq!(manual.operation, "index.rebuild");
    assert_eq!(manual.workflow_id, None);
    let id = JobId::new();
    assert_eq!(manual_idempotency_key(id), format!("manual:{}", id.to_string()));
}

#[test]
fn condition_paths_and_presence() {
    assert_eq!(path_segments("a.b.c"), vec!["a", "b", "c"]);
    assert_eq!(path_segments("insertedChars"), vec!["insertedChars"]);
    assert_eq!(path_segments(""), vec![""]);
    assert_eq!(path_segments("a."), vec!["a", ""]);
    assert_eq!(presence_outcome(ConditionOperator::Exists, false, Some(false)), Some(true));
    assert_eq!(presence_outcome(ConditionOperator::Exists, false, Some(true)), Some(false));
    assert_eq!(presence_outcome(ConditionOperator::Eq, false, Some(false)), Some(false));
    assert_eq!(presence_outcome(ConditionOperator::Exists, true, Some(true)), Some(true));
    assert_eq!(presence_outcome(ConditionOperator::Exists, true, None), Some(false));
    assert_eq!(presence_outcome(ConditionOperator::Gte, true, None), None);
}
