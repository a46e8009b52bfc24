use novel_core::commands::{parse_book_id, parse_fact_id, parse_scene_id, parse_volume_id};
use novel_core::content::{BlockKind, BlockSequence, ContentBlock};
use novel_core::ids::{BlockId, BookId, ChapterId, FactId, ProjectId, Revision, SceneId, VolumeId};
use novel_core::protocol::{export_options, ExampleQuality};
use novel_core::tool::{base_revision, chapter_id_field, project_id_field, ToolFailure};
use novel_core::tools::BuiltinsExtension;

fn block(kind: BlockKind, text: &str, position: u32) -> ContentBlock {
    ContentBlock { id: BlockId::new(), kind, text: text.to_string(), position, markup: Vec::new() }
}

#[test]
fn payload_fields_parse_or_refuse() {
    let project = ProjectId::new();
    assert_eq!(project_id_field(Some(&project.to_string())), Ok(project));
    assert_eq!(
        project_id_field(None),
        Err(ToolFailure { tool: "block".to_string(), message: "payload 缺少合法的 projectId".to_string() })
    );
    assert!(project_id_field(Some("nope")).is_err());
    let chapter = ChapterId::new();
    assert_eq!(chapter_id_field(Some(&chapter.to_string())), Ok(chapter));
    assert_eq!(
        chapter_id_field(Some("nope")),
        Err(ToolFailure { tool: "block".to_string(), message: "payload 缺少合法的 chapterId".to_string() })
    );
    assert_eq!(base_revision(Some(9)), Ok(Revision(9)));
    assert_eq!(
        base_revision(None),
        Err(ToolFailure { tool: "block".to_string(), message: "payload 缺少 baseRevision".to_string() })
    );
}

#[test]
fn command_ids_parse_or_explain() {
    let book = BookId::new();
    assert_eq!(parse_book_id(&book.to_string()), Ok(book));
    assert_eq!(parse_book_id("x"), Err("invalid book id: x".to_string()));
    let volume = VolumeId::new();
    assert_eq!(parse_volume_id(&volume.to_string()), Ok(volume));
    assert_eq!(parse_volume_id("x"), Err("invalid volume id: x".to_string()));
    let scene = SceneId::new();
    assert_eq!(parse_scene_id(&scene.to_string()), Ok(scene));
    assert_eq!(parse_scene_id("x"), Err("invalid scene id: x".to_string()));
    let fact = FactId::new();
    assert_eq!(parse_fact_id(&fact.to_string()), Ok(fact));
    assert_eq!(parse_fact_id("x"), Err("invalid fact id: x".to_string()));
}

#[test]
fn export_options_have_defaults() {
    let o = export_options(None, None, None);
    assert_eq!(o.format, "jsonl");
    assert!(o.include_markup);
    assert_eq!(o.min_quality, ExampleQuality::Usable);
    let o = export_options(Some("r1"), Some(false), Some("gold"));
    assert_eq!(o.format, "r1");
    assert!(!o.include_markup);
    assert_eq!(o.min_quality, ExampleQuality::Gold);
    assert_eq!(export_options(None, None, Some("???")).min_quality, ExampleQuality::Usable);
}

#[test]
fn body_text_skips_thinking_blocks() {
    let seq = BlockSequence {
        chapter_id: ChapterId::new(),
        revision: Revision(1),
        blocks: vec![
            block(BlockKind::Body, "雾港来客。", 0),
            block(BlockKind::Thinking, "【任务】写港口", 1),
            block(BlockKind::Body, "林晚站在灯下。", 2),
        ],
        created_at_ms: 0,
    };
    assert_eq!(seq.body_text(), "雾港来客。\n林晚站在灯下。");
}

#[test]
fn builtins_register_their_extensions() {
    let ids = BuiltinsExtension.extension_ids();
    assert_eq!(
        ids,
        vec![
            "builtin.providers",
            "builtin.core-tools",
            "builtin.blocks",
            "builtin.workflow-engine",
            "builtin.queue",
            "builtin.hints",
            "builtin.context-assembly",
            "builtin.plugin-host",
        ]
    );
}
