use novel_core::domain::{PreferenceScope, PreferenceStatus, RejectionReason};
use novel_core::feedback::{correction_from_edit, prompt_prefix, rejection_rule, summarize_diff};
use novel_core::ids::ProposalId;

#[test]
fn no_correction_when_text_unchanged() {
    let result = correction_from_edit(ProposalId::new(), "原文", "原文", "上下文");
    assert!(result.is_none());
}

#[test]
fn correction_when_text_changed() {
    let result = correction_from_edit(
        ProposalId::new(),
        "AI 生成的文字",
        "人类修改后的文字",
        "上下文",
    );
    assert!(result.is_some());
    let record = result.unwrap();
    assert!(record.ai_text.contains("AI"));
    assert!(record.human_text.contains("人类"));
}

#[test]
fn rejection_creates_candidate_rule() {
    let rule = rejection_rule(
        RejectionReason::CharacterVoice,
        PreferenceScope::GlobalAuthor,
        ProposalId::new(),
    );
    assert_eq!(rule.status, PreferenceStatus::Candidate);
    assert!(rule.rule.contains("口吻"));
}

#[test]
fn correction_summary_counts_characters() {
    assert_eq!(summarize_diff("雾港", "雾港来客"), "AI 文本 2 字，人类文本 4 字");
    let record = correction_from_edit(ProposalId(7), "甲", "乙丙", "ctx").unwrap();
    assert_eq!(record.proposal_id, ProposalId(7));
    assert_eq!(record.diff_summary, "AI 文本 1 字，人类文本 2 字");
    assert_eq!(record.context_excerpt, "ctx");
}

#[test]
fn prompt_prefix_lists_rules_that_are_not_disabled() {
    let mut pacing = rejection_rule(RejectionReason::Pacing, PreferenceScope::Proposal, ProposalId(1));
    let style = rejection_rule(RejectionReason::Style, PreferenceScope::Proposal, ProposalId(2));
    assert_eq!(
        prompt_prefix(&vec![pacing.clone(), style.clone()]).unwrap(),
        "你是网文续写助手，必须遵守给定设定。作者偏好：\n- 避免节奏过快或过慢\n- 遵循作者文风"
    );
    pacing.status = PreferenceStatus::Disabled;
    assert_eq!(
        prompt_prefix(&vec![pacing.clone(), style]).unwrap(),
        "你是网文续写助手，必须遵守给定设定。作者偏好：\n- 遵循作者文风"
    );
    assert!(prompt_prefix(&vec![pacing]).is_none());
    assert!(prompt_prefix(&vec![]).is_none());
}
