use novel_core::context::{
    assemble_context, compress_messages, estimate_tokens, lexical_hits, render_turn,
    search_blocks, token_total, AssemblyOptions, ContextState, CoreMessage, MessageRole,
    SearchDocument,
};
use novel_core::domain::WorkContextRef;
use novel_core::ids::{ChapterId, ProjectId, Revision, SessionId};

fn make_messages(count: usize) -> Vec<CoreMessage> {
    (0..count)
        .map(|i| CoreMessage {
            id: format!("msg-{i}"),
            role: if i % 2 == 0 { MessageRole::User } else { MessageRole::Assistant },
            text: format!("这是第 {} 条消息，包含足够多的内容来模拟 token 消耗。", i),
            tokens: 20,
            protected: false,
        })
        .collect()
}

fn empty_state() -> ContextState {
    ContextState {
        session_id: SessionId::new(),
        blocks: vec![],
        next_ref: 0,
    }
}

#[test]
fn compression_removes_old_messages() {
    let messages = make_messages(10);
    let state = compress_messages(
        &messages,
        empty_state(),
        "前 8 条消息的摘要".into(),
        Some("早期讨论".into()),
        2,
    );
    assert_eq!(state.blocks.len(), 1);
    assert_eq!(state.blocks[0].direct_message_ids.len(), 8);
}

#[test]
fn process_turn_replaces_with_summary() {
    let messages = make_messages(10);
    let state = compress_messages(
        &messages,
        empty_state(),
        "前 8 条消息的摘要".into(),
        Some("早期讨论".into()),
        2,
    );
    let rendered = render_turn(&messages, &state.blocks);
    assert_eq!(rendered.len(), 3);
    assert!(rendered[0].text.contains("摘要"));
}

#[test]
fn search_finds_relevant_blocks() {
    let messages = make_messages(5);
    let state = compress_messages(
        &messages,
        empty_state(),
        "关于人物设定的讨论".into(),
        Some("角色".into()),
        2,
    );
    let results = search_blocks(&state, "人物");
    assert_eq!(results.len(), 1);
    assert_eq!(search_blocks(&state, "角色").len(), 1);
    assert!(search_blocks(&state, "天气").is_empty());
}

#[test]
fn tokens_are_estimated_and_totalled() {
    assert_eq!(estimate_tokens(""), 0);
    assert_eq!(estimate_tokens("雾"), 1);
    assert_eq!(estimate_tokens("雾港"), 1);
    assert_eq!(estimate_tokens("雾港来"), 2);
    assert_eq!(token_total(&make_messages(10)), 200);
}

#[test]
fn protected_and_recent_messages_stay() {
    let mut messages = make_messages(4);
    messages[1].protected = true;
    let state = compress_messages(&messages, empty_state(), "摘要".into(), None, 1);
    assert_eq!(state.blocks[0].direct_message_ids, vec!["msg-0".to_string(), "msg-2".to_string()]);
    assert_eq!(state.blocks[0].tier, 1);
    assert!(state.blocks[0].active);
    let untouched = compress_messages(&messages, empty_state(), "摘要".into(), None, 10);
    assert!(untouched.blocks.is_empty());
    let rendered = render_turn(&messages, &state.blocks);
    let ids: Vec<&str> = rendered.iter().map(|m| m.id.as_str()).collect();
    assert_eq!(ids.len(), 2);
    assert!(ids[0].starts_with("block:"));
    assert_eq!(ids[1], "msg-3");
    assert_eq!(rendered[0].role, MessageRole::System);
    assert_eq!(rendered[0].tokens, 1);
}

#[test]
fn assembly_keeps_required_and_drops_what_exceeds_the_budget() {
    let work_ref = WorkContextRef {
        project_id: ProjectId(1),
        branch_id: "main".into(),
        revision: Revision(7),
        chapter_id: ChapterId(2),
        block_id: None,
        pov_entity_id: None,
    };
    let plan = assemble_context(
        work_ref,
        "写一段夜戏",
        "雾港码头",
        &vec!["沈雾怕火".into()],
        &vec!["潮下城禁令".into(), "很长的检索材料很长的检索材料".into()],
        &vec!["摘要".into()],
        AssemblyOptions { token_budget: 10 },
    );
    assert_eq!(plan.id, "ctx-7");
    assert_eq!(plan.token_budget, 10);
    let titles: Vec<&str> = plan.sections.iter().map(|s| s.title.as_str()).collect();
    assert_eq!(
        titles,
        vec!["当前指令", "当前场景", "钉选设定 1", "检索材料 1", "检索材料 2", "会话摘要 1"]
    );
    let costs: Vec<u32> = plan.sections.iter().map(|s| s.token_cost).collect();
    assert_eq!(costs, vec![3, 2, 2, 3, 7, 1]);
    // 3 + 2 + 2 = 7 used; +3 = 10 fits; +7 does not; +1 does not
    assert_eq!(plan.sections[3].text, "潮下城禁令");
    assert_eq!(plan.sections[4].text, "");
    assert_eq!(plan.sections[5].text, "");
    assert_eq!(plan.sources.len(), plan.sections.len());
    for (source, section) in plan.sources.iter().zip(plan.sections.iter()) {
        assert_eq!(source.label, section.source_label);
        assert_eq!(source.chapter_id, None);
        assert_eq!(source.revision, Some(Revision(0)));
        assert_eq!(source.token_cost, section.token_cost);
        assert_eq!(source.reason, section.reason);
    }
    assert_eq!(plan.sources[0].label, "用户当前输入");
    assert_eq!(plan.sources[4].reason, "按优先级 11 装配");
    assert_eq!(plan.sections[4].priority, 11);
    assert_eq!(plan.sections[5].priority, 100);
    assert_eq!(plan.sections[5].reason, "按优先级 100 装配");
    assert_eq!(plan.sections[2].source_label, "作者钉选");
}

#[test]
fn lexical_hits_rank_by_matched_terms() {
    let docs = vec![
        SearchDocument { id: "a".into(), title: "雾港".into(), body: "夜里的码头".into() },
        SearchDocument { id: "b".into(), title: "灯塔".into(), body: "无关".into() },
        SearchDocument { id: "c".into(), title: "雾港码头".into(), body: "雾港".into() },
    ];
    let hits = lexical_hits(&docs, "雾港 码头");
    let ids: Vec<&str> = hits.iter().map(|h| h.document_id.as_str()).collect();
    assert_eq!(ids, vec!["a", "c"]);
    assert_eq!(hits[0].matched_terms.len(), 4);
    assert!(lexical_hits(&docs, "  ").is_empty());
}
