use novel_core::content::{BlockKind, ContentBlock};
use novel_core::domain::{PlotThread, PlotThreadStatus, StoryInstant};
use novel_core::ids::{BlockId, ChapterId, PlotThreadId, ProjectId, Revision};
use novel_core::library::{
    active_project, agent_job, chapter_body_blocks, default_budget, default_limit, job_causation,
    open_foreshadowing,
};

fn thread(title: &str, status: PlotThreadStatus) -> PlotThread {
    PlotThread {
        id: PlotThreadId::new(),
        branch_id: "main".to_string(),
        title: title.to_string(),
        status,
        introduced_at: StoryInstant { sequence: 1, label: None },
        due_by: None,
        milestones: Vec::new(),
    }
}

#[test]
fn payload_defaults() {
    assert_eq!(default_budget(), 12_000);
    assert_eq!(default_limit(), 5);
}

#[test]
fn active_project_prefers_asked_then_stored_then_first() {
    let asked = ProjectId::new();
    let first = ProjectId::new();
    assert_eq!(
        active_project(Some(asked), Some("stored".to_string()), Some(first)),
        Some(asked.to_string())
    );
    assert_eq!(
        active_project(None, Some("stored".to_string()), Some(first)),
        Some("stored".to_string())
    );
    assert_eq!(active_project(None, None, Some(first)), Some(first.to_string()));
    assert_eq!(active_project(None, None, None), None);
}

#[test]
fn chapter_body_without_blocks_becomes_one_body_block() {
    let stored = vec![ContentBlock {
        id: BlockId::new(),
        kind: BlockKind::Thinking,
        text: "第一章".to_string(),
        position: 0,
        markup: Vec::new(),
    }];
    assert_eq!(chapter_body_blocks(Some(stored.clone()), "ignored"), stored);
    assert!(chapter_body_blocks(None, "").is_empty());
    let blocks = chapter_body_blocks(None, "雾港来客。");
    assert_eq!(blocks.len(), 1);
    assert_eq!(blocks[0].kind, BlockKind::Body);
    assert_eq!(blocks[0].text, "雾港来客。");
    assert_eq!(blocks[0].position, 0);
    assert!(blocks[0].markup.is_empty());
}

#[test]
fn open_foreshadowing_lists_open_threads() {
    let threads = vec![
        thread("灯塔的钥匙", PlotThreadStatus::Open),
        thread("旧信", PlotThreadStatus::Resolved),
        thread("潮汐表", PlotThreadStatus::Open),
    ];
    let note = open_foreshadowing(&threads).unwrap();
    assert_eq!(note.code, "open-foreshadowing");
    assert_eq!(note.message, "仍有 2 条未兑现伏笔");
    assert_eq!(note.evidence, vec!["灯塔的钥匙".to_string(), "潮汐表".to_string()]);
    assert_eq!(open_foreshadowing(&vec![thread("旧信", PlotThreadStatus::Abandoned)]), None);
    assert_eq!(open_foreshadowing(&Vec::new()), None);
}

#[test]
fn job_causation_falls_back_to_event() {
    assert_eq!(job_causation(Some("cause-1".to_string()), "event-9"), "cause-1");
    assert_eq!(job_causation(None, "event-9"), "event-9");
}

#[test]
fn agent_job_fills_defaults() {
    let job = agent_job(None, None, None, None, None);
    assert_eq!(job.chapter_id, ChapterId(0));
    assert_eq!(job.revision, 0);
    assert_eq!(job.prompt, "继续当前剧情");
    assert_eq!(job.context_text, "");
    assert_eq!(job.max_tokens, 2048);
    let chapter = ChapterId::new();
    let text = chapter.to_string();
    let job = agent_job(
        Some(text.as_str()),
        Some(4),
        Some("写下一段".to_string()),
        Some("上下文".to_string()),
        Some(512),
    );
    assert_eq!(job.chapter_id, chapter);
    assert_eq!(job.revision, 4);
    assert_eq!(job.prompt, "写下一段");
    assert_eq!(job.context_text, "上下文");
    assert_eq!(job.max_tokens, 512);
    assert_eq!(agent_job(Some("not-a-uuid"), None, None, None, None).chapter_id, ChapterId(0));
}

#[test]
fn revisions_count_up_from_zero() {
    let first = Revision::initial();
    assert_eq!(first, Revision(0));
    assert_eq!(first.next(), Revision(1));
}

#[test]
fn fresh_identifiers_are_version_4() {
    for _ in 0..16 {
        let text = ProjectId::new().to_string();
        let c: Vec<char> = text.chars().collect();
        assert_eq!(c[14], '4');
        assert!(matches!(c[19], '8' | '9' | 'a' | 'b'));
        let block = BlockId::new();
        assert_eq!((block.0 >> 76) & 0xF, 4);
        assert_eq!((block.0 >> 62) & 0x3, 2);
    }
}
