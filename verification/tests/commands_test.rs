use novel_core::commands::{
    block_mode_event, parse_chapter_id, parse_fact_status, parse_project_id, parse_story_kind, CommandResult, ModelConfigInput,
};
use novel_core::domain::{FactStatus, PreferenceStatus};
use novel_core::library::{preference_status, review_decision};
use novel_core::events::{Actor, DomainEvent, EventKind, EventSource, Platform, EVENT_SCHEMA_VERSION};
use novel_core::hints::StoryEntryKind;
use novel_core::ids::{BlockId, ChapterId, ProjectId, Revision};

#[test]
fn user_event_kind_matches_library_ops() {
    assert_eq!(EventKind::ProjectCreated.as_str(), "project.created");
    assert_eq!(EventKind::BookCreated.as_str(), "book.created");
    assert_eq!(EventKind::ChapterCreated.as_str(), "chapter.created");
    assert_eq!(EventKind::CanonProposed.as_str(), "canon.proposed");
    assert_eq!(EventKind::CanonAccepted.as_str(), "canon.accepted");
}

#[test]
fn event_kinds_name_other_events() {
    assert_eq!(EventKind::BlockModeChanged.as_str(), "block.mode.changed");
    assert_eq!(EventKind::Custom("x.y".into()).as_str(), "x.y");
}

#[test]
fn ids_and_statuses_parse_or_explain() {
    let id = ProjectId::new();
    assert_eq!(parse_project_id(&id.to_string()), Ok(id));
    assert_eq!(
        parse_project_id("not-a-uuid"),
        Err("invalid project id: not-a-uuid".to_string())
    );
    assert_eq!(parse_chapter_id("x"), Err("invalid chapter id: x".to_string()));
    assert_eq!(parse_fact_status(None), Ok(None));
    assert_eq!(parse_fact_status(Some("")), Ok(None));
    assert_eq!(parse_fact_status(Some("accepted")), Ok(Some(FactStatus::Accepted)));
    assert_eq!(
        parse_fact_status(Some("maybe")),
        Err("invalid fact status: maybe".to_string())
    );
}

#[test]
fn command_results_wrap_outcomes() {
    let ok: CommandResult<u32> = CommandResult::from_result(Ok(3));
    assert!(ok.ok);
    assert_eq!(ok.data, Some(3));
    assert_eq!(ok.error, None);
    let err: CommandResult<u32> = CommandResult::from_result(Err("boom".into()));
    assert!(!err.ok);
    assert_eq!(err.data, None);
    assert_eq!(err.error.as_deref(), Some("boom"));
}

#[test]
fn model_config_input_resolves_provider() {
    let input = ModelConfigInput {
        provider: "whatever".into(),
        api_key: "sk".into(),
        base_url: "https://x".into(),
        model: "m".into(),
    };
    let config = input.provider_config();
    assert_eq!(config.provider, "custom");
    assert_eq!(config.base_url, "https://x");
    let keyless = ModelConfigInput { api_key: String::new(), ..input };
    assert_eq!(keyless.provider_config().provider, "echo");
}

#[test]
fn reviews_set_statuses() {
    assert_eq!(preference_status(true), PreferenceStatus::Disabled);
    assert_eq!(preference_status(false), PreferenceStatus::Confirmed);
    assert_eq!(review_decision(true), (FactStatus::Accepted, "canon.accepted"));
    assert_eq!(review_decision(false), (FactStatus::Rejected, "canon.rejected"));
}

#[test]
fn story_kinds_parse_or_explain() {
    assert_eq!(parse_story_kind("character"), Ok(StoryEntryKind::Character));
    assert_eq!(parse_story_kind("setting"), Ok(StoryEntryKind::Setting));
    assert_eq!(parse_story_kind("foreshadow"), Ok(StoryEntryKind::Foreshadow));
    assert_eq!(parse_story_kind("villain"), Err("invalid story entry kind: villain".to_string()));
}

#[test]
fn user_events_carry_editor_defaults() {
    let project = ProjectId::new();
    let chapter = ChapterId::new();
    let event = DomainEvent::user(
        "canon.proposed".to_string(),
        project,
        None,
        Some(chapter),
        r#"{"count":2}"#.to_string(),
    );
    assert_eq!(event.event_type, "canon.proposed");
    assert_eq!(event.schema_version, EVENT_SCHEMA_VERSION);
    assert_eq!(event.project_id, project);
    assert_eq!(event.book_id, None);
    assert_eq!(event.chapter_id, Some(chapter));
    assert_eq!(event.scene_id, None);
    assert_eq!(event.block_id, None);
    assert_eq!(event.actor, Actor::User { user_id: None });
    assert_eq!(event.source, EventSource::Editor);
    assert_eq!(event.platform, Platform::Unknown);
    assert_eq!(event.transaction_id.len(), 36);
    assert_eq!(event.correlation_id, None);
    assert_eq!(event.causation_id, None);
    assert_eq!(event.revision_before, Revision(0));
    assert_eq!(event.revision_after, Revision(0));
    assert_eq!(event.payload, r#"{"count":2}"#);
}

#[test]
fn block_mode_events_check_ids_and_mark_the_transaction() {
    let project = ProjectId::new();
    let chapter = ChapterId::new();
    let block = BlockId::new();
    let event = block_mode_event(
        &project.to_string(),
        &chapter.to_string(),
        Some(&block.to_string()),
        "{}".to_string(),
    )
    .unwrap();
    assert_eq!(event.event_type, "block.mode.changed");
    assert_eq!(event.project_id, project);
    assert_eq!(event.chapter_id, Some(chapter));
    assert_eq!(event.block_id, Some(block));
    assert!(event.transaction_id.starts_with("mode:"));
    assert_eq!(event.transaction_id.len(), 41);
    let loose = block_mode_event(&project.to_string(), &chapter.to_string(), Some("nope"), "{}".to_string())
        .unwrap();
    assert_eq!(loose.block_id, None);
    assert_eq!(
        block_mode_event("bad", "also-bad", None, "{}".to_string()),
        Err("invalid project id: bad".to_string())
    );
    assert_eq!(
        block_mode_event(&project.to_string(), "also-bad", None, "{}".to_string()),
        Err("invalid chapter id: also-bad".to_string())
    );
}
