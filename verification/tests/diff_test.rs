use novel_core::diff::{
    diff_texts, format_summary, preview_text, summarize_text_diff, DiffChangeTag, RevisionSummary,
};

#[test]
fn identical_texts_have_no_edits() {
    let diff = diff_texts("雾港来客。", "雾港来客。").unwrap();
    assert_eq!(diff.summary, "无改动");
    assert_eq!(diff.inserted_chars, 0);
    assert_eq!(diff.deleted_chars, 0);
    assert!(diff.lines.iter().all(|line| line.tag == DiffChangeTag::Equal));
}

#[test]
fn chinese_line_change_counts_chars() {
    let old = "雾在潮响前漫进港口。\n林晚站在灯下。";
    let new = "雾在潮响前漫进港口。\n林晚站在码头灯下。";
    let diff = diff_texts(old, new).unwrap();
    assert!(diff.inserted_chars > 0);
    assert!(diff.deleted_chars > 0);
    assert!(diff
        .lines
        .iter()
        .any(|line| line.tag == DiffChangeTag::Insert || line.tag == DiffChangeTag::Delete));
    assert!(summarize_text_diff(old, new).unwrap().contains("字"));
}

#[test]
fn preview_truncates_long_text() {
    let text = "雾".repeat(80);
    let preview = preview_text(&text);
    assert!(preview.ends_with('…'));
    assert!(preview.chars().count() < 80);
}

#[test]
fn preview_collapses_blanks_and_keeps_short_text() {
    assert_eq!(preview_text("  雾港\n\t来客  "), "雾港 来客");
    let exact = "字".repeat(48);
    assert_eq!(preview_text(&exact), exact);
    let long = "字".repeat(49);
    let preview = preview_text(&long);
    assert_eq!(preview.chars().count(), 49);
    assert_eq!(preview, format!("{}…", "字".repeat(48)));
}

#[test]
fn summary_formats_each_case() {
    assert_eq!(format_summary(3, 0, false), "+3 字");
    assert_eq!(format_summary(0, 4, false), "-4 字");
    assert_eq!(format_summary(2, 5, false), "+2 字，-5 字");
    assert_eq!(format_summary(0, 0, false), "无改动");
    assert_eq!(format_summary(7, 7, true), "无改动");
}

#[test]
fn counts_follow_the_changed_lines() {
    let diff = diff_texts("甲\n乙\n", "甲\n丙丁\n").unwrap();
    let inserted: usize = diff
        .lines
        .iter()
        .filter(|l| l.tag == DiffChangeTag::Insert)
        .map(|l| l.text.chars().count())
        .sum();
    let deleted: usize = diff
        .lines
        .iter()
        .filter(|l| l.tag == DiffChangeTag::Delete)
        .map(|l| l.text.chars().count())
        .sum();
    assert_eq!(diff.inserted_chars as usize, inserted);
    assert_eq!(diff.deleted_chars as usize, deleted);
    assert_eq!(diff.summary, format!("+{} 字，-{} 字", inserted, deleted));
}

#[test]
fn revision_summary_counts_chars_and_previews() {
    let text = "雾港  来客。\n林晚站在灯下。";
    let summary = RevisionSummary::from_text(7, 1_700_000_000_000, text, "author".to_string());
    assert_eq!(summary.revision, 7);
    assert_eq!(summary.created_at_ms, 1_700_000_000_000);
    assert_eq!(summary.char_count, text.chars().count() as u32);
    assert_eq!(summary.preview, "雾港 来客。 林晚站在灯下。");
    assert_eq!(summary.actor, "author");
}

#[test]
fn diff_lines_rebuild_both_texts_and_spans_rebuild_lines() {
    let old = "雾在潮响前漫进港口。\n林晚站在灯下。\n";
    let new = "雾在潮响前漫进港口。\n林晚站在码头灯下。\n潮声退了。";
    let diff = diff_texts(old, new).unwrap();
    let old_side: String = diff
        .lines
        .iter()
        .filter(|l| l.tag != DiffChangeTag::Insert)
        .map(|l| l.text.as_str())
        .collect();
    let new_side: String = diff
        .lines
        .iter()
        .filter(|l| l.tag != DiffChangeTag::Delete)
        .map(|l| l.text.as_str())
        .collect();
    assert_eq!(old_side, old);
    assert_eq!(new_side, new);
    for line in &diff.lines {
        let joined: String = line.spans.iter().map(|s| s.text.as_str()).collect();
        assert_eq!(joined, line.text);
        assert!(line.spans.iter().all(|s| s.tag == DiffChangeTag::Equal || s.tag == line.tag));
    }
}
