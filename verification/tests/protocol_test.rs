use novel_core::content::{BlockKind, BlockSequence, ContentBlock, MarkupRef};
use novel_core::ids::{BlockId, ChapterId, Revision};
use novel_core::protocol::{
    build_training_examples, filter_examples, grade_example, parse_export_format,
    parse_thinking_slots, quality_counts, serialize_r1, ExampleQuality, ExportFormat,
    ThinkingSlots, TrainingExample,
};

fn tag_id(tag: &str) -> BlockId {
    let mut bytes = [0u8; 16];
    let n = tag.len().min(16);
    bytes[..n].copy_from_slice(&tag.as_bytes()[..n]);
    BlockId(u128::from_be_bytes(bytes))
}

fn block(id: &str, kind: BlockKind, text: &str) -> ContentBlock {
    ContentBlock {
        id: tag_id(id),
        kind,
        text: text.to_owned(),
        position: 0,
        markup: vec![],
    }
}

fn sequence(blocks: Vec<ContentBlock>) -> BlockSequence {
    let mut blocks = blocks;
    for (index, block) in blocks.iter_mut().enumerate() {
        block.position = index as u32;
    }
    BlockSequence {
        chapter_id: ChapterId::new(),
        revision: Revision(1),
        blocks,
        created_at_ms: 0,
    }
}

#[test]
fn pairs_thinking_with_following_body() {
    let seq = sequence(vec![
        block(
            "t1",
            BlockKind::Thinking,
            "意图：让读者感到怀表有秘密，但不揭晓是谁留的",
        ),
        block(
            "b1",
            BlockKind::Body,
            "林默站在窗前。雾已经漫过码头的铁索，潮声一下一下敲着船帮。",
        ),
        block(
            "b2",
            BlockKind::Body,
            "他摩挲着那只旧怀表，盖沿的铜锈蹭在指腹上，像有人刚刚摸过。",
        ),
        block(
            "t2",
            BlockKind::Thinking,
            "意图：让表盖内侧的两个字入镜，但不解释含义",
        ),
        block(
            "b3",
            BlockKind::Body,
            "他把表盖掀开一条缝。内侧刻着两个字，笔画浅得像被潮气咬过，灯火一晃，那两个字又隐回去了。",
        ),
    ]);
    let examples = build_training_examples(&seq, false, Some("雾港来客"));
    assert_eq!(examples.len(), 2);
    assert!(examples[0].thinking.contains("意图：让读者感到怀表有秘密"));
    assert!(examples[0].content.contains("林默站在窗前。"));
    assert_eq!(examples[0].instruction, "写下《雾港来客》的开篇。");
    assert_eq!(examples[0].context, "");
    assert_eq!(examples[1].instruction, "续写下一段。");
    assert!(examples[1].context.contains("【思考】意图：让读者感到怀表有秘密"));
    assert!(examples[1].context.contains("林默站在窗前。"));
    assert!(!examples[1].context.contains("表盖掀开"));
    assert_eq!(examples[0].quality, ExampleQuality::Gold);
    assert_eq!(examples[1].quality, ExampleQuality::Gold);
}

#[test]
fn body_without_thinking_is_skip() {
    let seq = sequence(vec![
        block(
            "b1",
            BlockKind::Body,
            "开篇没有思考，这段正文再长也不能进默认训练集，只会被标成 skip。",
        ),
        block(
            "t1",
            BlockKind::Thinking,
            "意图：后面才补思考，让这一拍成为金标样本",
        ),
        block(
            "b2",
            BlockKind::Body,
            "思考后的正文必须写够一个段落，潮声、雾和人影都要落到纸上，连灯笼的光都到不了这边。",
        ),
    ]);
    let examples = build_training_examples(&seq, false, None);
    assert_eq!(examples.len(), 2);
    assert_eq!(examples[0].quality, ExampleQuality::Skip);
    assert!(examples[0].skip_reasons.contains(&"emptyThinking".into()));
    assert_eq!(examples[1].quality, ExampleQuality::Gold);
    let kept = filter_examples(&examples, ExampleQuality::Usable);
    assert_eq!(kept.len(), 1);
    assert_eq!(kept[0].beat_index, 1);
}

#[test]
fn parses_slot_synonyms_and_notes() {
    let slots = parse_thinking_slots(
        "先定调\n目标：让雾先压过来\n限制：不解释来源\n写法：短句\n必须：潮声\n勿：开场独白",
    );
    assert_eq!(slots.intent.as_deref(), Some("让雾先压过来"));
    assert_eq!(slots.constraints.as_deref(), Some("不解释来源"));
    assert_eq!(slots.technique.as_deref(), Some("短句"));
    assert_eq!(slots.must_show.as_deref(), Some("潮声"));
    assert_eq!(slots.must_not.as_deref(), Some("开场独白"));
    assert_eq!(slots.notes, "先定调");
}

#[test]
fn skips_copied_thinking_and_author_notes() {
    let copied = "林默站在窗前看雾渗进港口的石缝里。";
    let seq = sequence(vec![
        block("t1", BlockKind::Thinking, copied),
        block("b1", BlockKind::Body, copied),
    ]);
    let examples = build_training_examples(&seq, false, None);
    assert_eq!(examples[0].quality, ExampleQuality::Skip);
    assert!(examples[0]
        .skip_reasons
        .contains(&"thinkingCopiedToBody".into()));

    let notes = sequence(vec![
        block("t2", BlockKind::Thinking, "意图：补一段说明"),
        block(
            "b2",
            BlockKind::Body,
            "（作者注：这里要加打戏）林默拔剑。这句要写得很长才过正文下限。",
        ),
    ]);
    let examples = build_training_examples(&notes, false, None);
    assert_eq!(examples[0].quality, ExampleQuality::Skip);
    assert!(examples[0]
        .skip_reasons
        .contains(&"bodyLooksLikeNotes".into()));
}

#[test]
fn markup_embedded_when_enabled() {
    let mut thinking = block("t1", BlockKind::Thinking, "意图：角色出场");
    thinking.markup = vec![MarkupRef::Task {
        id: "task-1".into(),
        label: "铺垫动机".into(),
        status: "todo".into(),
    }];
    let seq = sequence(vec![
        thinking,
        block("b1", BlockKind::Body, "林默站在窗前，潮声先于人影到来。"),
    ]);
    let with = build_training_examples(&seq, true, None);
    let without = build_training_examples(&seq, false, None);
    assert!(with[0].thinking.contains("[任务[todo]: 铺垫动机]"));
    assert_eq!(without[0].thinking, "意图：角色出场");
}

#[test]
fn story_tag_is_author_label_not_canon_row() {
    let tag = MarkupRef::Tag {
        id: String::new(),
        kind: "人物".into(),
        label: "林默".into(),
        note: String::new(),
    };
    assert_eq!(tag.summary(), "@人物：林默");
    let mut thinking = block("t1", BlockKind::Thinking, "意图：让林默出场\n@人物:林默");
    thinking.markup = vec![tag.clone()];
    let seq = sequence(vec![
        thinking,
        block(
            "b1",
            BlockKind::Body,
            "林默站在窗前。雾已经漫过码头的铁索，潮声一下一下敲着船帮。",
        ),
    ]);
    let examples = build_training_examples(&seq, true, None);
    assert!(examples[0].thinking.contains("@人物:林默"));
    assert!(
        !examples[0].thinking.contains("[@人物：林默]"),
        "思考里已经写了标签，不要再贴一份摘要"
    );

    let mut untitled = block("t2", BlockKind::Thinking, "意图：让林默出场");
    untitled.markup = vec![tag];
    let seq = sequence(vec![
        untitled,
        block(
            "b2",
            BlockKind::Body,
            "林默站在窗前。雾已经漫过码头的铁索，潮声一下一下敲着船帮。",
        ),
    ]);
    let examples = build_training_examples(&seq, true, None);
    assert!(examples[0].thinking.contains("[@人物：林默]"));
}

#[test]
fn context_from_chapter_start_keeps_all_thinking_and_body() {
    let long_body = format!("{}。", "雾已经漫过码头的铁索".repeat(40));
    let seq = sequence(vec![
        block("t1", BlockKind::Thinking, "意图：铺一整段冷开场，让雾先压住港口"),
        block("b1", BlockKind::Body, &long_body),
        block("t2", BlockKind::Thinking, "意图：再写人影，但不让读者看清脸"),
        block(
            "b2",
            BlockKind::Body,
            "远处有人把灯笼从帆布里掏出来，光却到不了这边。石阶湿了一圈。",
        ),
    ]);
    let examples = build_training_examples(&seq, false, Some("雾港来客"));
    assert_eq!(examples.len(), 2);
    assert!(examples[1].context.starts_with("【思考】意图：铺一整段冷开场"));
    assert!(examples[1].context.contains(&long_body));
    assert!(!examples[1].context.contains("灯笼从帆布"));
}

fn sample_example() -> TrainingExample {
    TrainingExample {
        protocol_version: 2,
        beat_index: 0,
        quality: ExampleQuality::Gold,
        skip_reasons: vec![],
        context: "林默站在窗前。".into(),
        instruction: "续写下一段。".into(),
        thinking: "意图：冷开场".into(),
        content: "雾先于脚步声漫进港口。".into(),
        slots: ThinkingSlots {
            intent: Some("冷开场".into()),
            ..ThinkingSlots::default()
        },
    }
}

#[test]
fn r1_export_wraps_thinking_and_rejects_unknown_format() {
    let example = sample_example();
    let r1 = serialize_r1(&[example.clone(), example.clone()]);
    assert!(r1.starts_with("<think>\n意图：冷开场\n</think>\n\n雾先于脚步声漫进港口。"));
    assert_eq!(r1.matches("\n\n---\n\n").count(), 1);
    assert_eq!(parse_export_format("r1"), Ok(ExportFormat::R1));
    assert_eq!(parse_export_format("jsonl"), Ok(ExportFormat::Jsonl));
    let err = parse_export_format("unknown").unwrap_err();
    assert_eq!(err, "未知导出格式: unknown（支持 jsonl/sharegpt/alpaca/r1）");
}

#[test]
fn human_prompt_and_r1_turns() {
    let example = sample_example();
    assert_eq!(example.human_prompt(), "林默站在窗前。\n\n续写下一段。");
    let mut opening = sample_example();
    opening.context = String::new();
    assert_eq!(opening.human_prompt(), "续写下一段。");
    let mut blank = sample_example();
    blank.thinking = "  \n ".into();
    assert_eq!(blank.assistant_r1(), "雾先于脚步声漫进港口。");
}

#[test]
fn quality_names_round_trip_and_order() {
    for q in [ExampleQuality::Skip, ExampleQuality::Usable, ExampleQuality::Gold] {
        assert_eq!(ExampleQuality::parse(q.as_str()), Some(q));
    }
    assert_eq!(ExampleQuality::parse("GOLD"), None);
    assert!(ExampleQuality::Skip.rank() < ExampleQuality::Usable.rank());
    assert!(ExampleQuality::Usable.rank() < ExampleQuality::Gold.rank());
}

#[test]
fn counts_and_filter_by_quality() {
    let mut a = sample_example();
    a.quality = ExampleQuality::Skip;
    let b = sample_example();
    let mut c = sample_example();
    c.quality = ExampleQuality::Usable;
    let all = vec![a, b, c];
    let counts = quality_counts(&all);
    assert_eq!((counts.gold, counts.usable, counts.skip), (1, 1, 1));
    assert_eq!(filter_examples(&all, ExampleQuality::Gold).len(), 1);
    assert_eq!(filter_examples(&all, ExampleQuality::Skip).len(), 3);
}

#[test]
fn grading_reasons_and_levels() {
    let slots = parse_thinking_slots("意图：冷开场，雾先压住港口的石阶");
    let (q, reasons) = grade_example("", "短", &slots);
    assert_eq!(q, ExampleQuality::Skip);
    assert_eq!(reasons, vec!["emptyThinking".to_string(), "bodyTooShort".to_string()]);
    let (q, reasons) = grade_example("意图", "TODO 这一段之后再补充，先占位写够二十四个字符以上", &slots);
    assert_eq!(q, ExampleQuality::Skip);
    assert_eq!(reasons, vec!["thinkingTooShort".to_string(), "bodyLooksLikeNotes".to_string()]);
    let (q, reasons) = grade_example(
        "意图：冷开场，雾先压住港口的石阶",
        "雾从海面上推过来，先吞掉了灯塔，又吞掉了码头上最后一盏灯，石阶湿得发亮。",
        &slots,
    );
    assert_eq!(q, ExampleQuality::Usable);
    assert!(reasons.is_empty());
}

#[test]
fn beats_are_runs_of_body_blocks_and_filtering_twice_is_filtering_once() {
    let seq = sequence(vec![
        block("b0", BlockKind::Body, "开场前的一句。"),
        block("t1", BlockKind::Thinking, "意图：压住港口"),
        block("t2", BlockKind::Thinking, "写法：短句"),
        block("b1", BlockKind::Body, "雾先到。"),
        block("b2", BlockKind::Body, " 人后到。 "),
        block("t3", BlockKind::Thinking, "意图：收束"),
        block("b3", BlockKind::Body, "灯灭了。"),
    ]);
    let examples = build_training_examples(&seq, false, None);
    assert_eq!(examples.len(), 3);
    assert_eq!(examples[0].content, "开场前的一句。");
    assert_eq!(examples[1].content, "雾先到。\n 人后到。");
    assert_eq!(examples[2].content, "灯灭了。");
    for q in [ExampleQuality::Skip, ExampleQuality::Usable, ExampleQuality::Gold] {
        let once = filter_examples(&examples, q);
        let twice = filter_examples(&once, q);
        assert_eq!(twice, once);
    }
}

#[test]
fn later_contexts_hold_every_earlier_beat() {
    let seq = sequence(vec![
        block("t1", BlockKind::Thinking, "意图：压住港口"),
        block("b1", BlockKind::Body, "雾先到。"),
        block("t2", BlockKind::Thinking, "意图：人后到"),
        block("b2", BlockKind::Body, "人后到。"),
        block("t3", BlockKind::Thinking, "意图：收束"),
        block("b3", BlockKind::Body, "灯灭了。"),
    ]);
    let examples = build_training_examples(&seq, false, None);
    assert_eq!(examples.len(), 3);
    for i in 0..examples.len() {
        for j in 0..i {
            assert!(examples[i].context.contains(&examples[j].content));
            assert!(examples[i].context.contains(&format!("【思考】{}", examples[j].thinking)));
        }
    }
}
