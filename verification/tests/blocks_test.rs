use novel_core::blocks::{apply_block_ops, apply_block_ops_with, parse_blocks, BlockInput, BlockOp};
use novel_core::content::{BlockKind, ContentBlock};
use novel_core::ids::BlockId;

fn tag_uuid(tag: &str) -> String {
    let mut bytes = [0u8; 16];
    let n = tag.len().min(16);
    bytes[..n].copy_from_slice(&tag.as_bytes()[..n]);
    BlockId(u128::from_be_bytes(bytes)).to_string()
}

fn tag_id(tag: &str) -> BlockId {
    BlockId::from_str(&tag_uuid(tag)).unwrap()
}

fn block(id: &str, kind: BlockKind, text: &str) -> ContentBlock {
    ContentBlock {
        id: tag_id(id),
        kind,
        text: text.to_owned(),
        position: 0,
        markup: vec![],
    }
}

#[test]
fn ops_create_update_delete_move() {
    let mut blocks = vec![
        block("a", BlockKind::Body, "第一段"),
        block("b", BlockKind::Thinking, "思考"),
    ];
    apply_block_ops(
        &mut blocks,
        &[
            BlockOp::Create {
                block_id: Some(tag_uuid("c")),
                kind: Some("body".into()),
                position: Some(1),
                text: "插入段".into(),
                markup: vec![],
            },
            BlockOp::Update {
                block_id: tag_uuid("a"),
                text: Some("改后".into()),
                kind: None,
                markup: None,
            },
        ],
    )
    .unwrap();
    assert_eq!(blocks.len(), 3);
    assert_eq!(blocks[0].text, "改后");
    assert_eq!(blocks[1].text, "插入段");
    assert_eq!(blocks[1].position, 1);

    apply_block_ops(
        &mut blocks,
        &[BlockOp::Move {
            block_id: tag_uuid("c"),
            position: 2,
        }],
    )
    .unwrap();
    assert_eq!(blocks[2].id.to_string(), tag_uuid("c"));

    apply_block_ops(
        &mut blocks,
        &[BlockOp::Delete {
            block_id: tag_uuid("b"),
        }],
    )
    .unwrap();
    assert_eq!(blocks.len(), 2);
    assert!(blocks
        .iter()
        .all(|block| block.id.to_string() != tag_uuid("b")));
}

#[test]
fn missing_block_stops_the_run() {
    let mut blocks = vec![block("a", BlockKind::Body, "甲"), block("b", BlockKind::Body, "乙")];
    let result = apply_block_ops_with(
        &mut blocks,
        &[
            BlockOp::Delete { block_id: tag_uuid("a") },
            BlockOp::SetMarkup { block_id: tag_uuid("zz"), markup: vec![] },
            BlockOp::Delete { block_id: tag_uuid("b") },
        ],
        &[1, 2, 3],
    );
    let error = result.unwrap_err();
    assert_eq!(error.tool, "block.edit");
    assert_eq!(error.message, format!("block not found: {}", tag_uuid("zz")));
    assert_eq!(blocks.len(), 1);
    assert_eq!(blocks[0].text, "乙");
}

#[test]
fn create_without_usable_id_takes_the_fresh_one_and_clamps_position() {
    let mut blocks = vec![block("a", BlockKind::Body, "甲")];
    apply_block_ops_with(
        &mut blocks,
        &[BlockOp::Create {
            block_id: Some("not-a-uuid".into()),
            kind: Some("thinking".into()),
            position: Some(99),
            text: "思考".into(),
            markup: vec![],
        }],
        &[42],
    )
    .unwrap();
    assert_eq!(blocks.len(), 2);
    assert_eq!(blocks[1].id, BlockId(42));
    assert_eq!(blocks[1].kind, BlockKind::Thinking);
    assert_eq!(blocks[1].position, 1);
}

#[test]
fn parsed_blocks_are_sorted_stably_and_renumbered() {
    let item = |tag: &str, text: &str, position: Option<u64>| BlockInput {
        id: Some(tag_uuid(tag)),
        kind: None,
        text: Some(text.into()),
        position,
        markup: vec![],
    };
    let items = vec![
        item("a", "甲", Some(5)),
        item("b", "乙", Some(1)),
        item("c", "丙", Some(5)),
        item("d", "丁", None),
    ];
    let blocks = parse_blocks(Some(items.as_slice())).unwrap();
    let texts: Vec<&str> = blocks.iter().map(|b| b.text.as_str()).collect();
    assert_eq!(texts, vec!["乙", "丁", "甲", "丙"]);
    let positions: Vec<u32> = blocks.iter().map(|b| b.position).collect();
    assert_eq!(positions, vec![0, 1, 2, 3]);
    assert!(blocks.iter().all(|b| b.kind == BlockKind::Body));
}

#[test]
fn parse_blocks_refuses_bad_input() {
    let error = parse_blocks(None).unwrap_err();
    assert_eq!(error.message, "blocks 必须是数组");
    let items = vec![
        BlockInput {
            id: Some(tag_uuid("a")),
            kind: Some("thinking".into()),
            text: None,
            position: None,
            markup: vec![],
        },
        BlockInput {
            id: Some("bad".into()),
            kind: None,
            text: None,
            position: None,
            markup: vec![],
        },
    ];
    let error = parse_blocks(Some(items.as_slice())).unwrap_err();
    assert_eq!(error.tool, "block");
    assert_eq!(error.message, "blocks[1] 缺少合法的 id");
}

#[test]
fn a_successful_run_counts_creates_and_deletes_and_renumbers() {
    let mut blocks = vec![
        block("a", BlockKind::Body, "一"),
        block("b", BlockKind::Body, "二"),
        block("c", BlockKind::Thinking, "三"),
    ];
    apply_block_ops(
        &mut blocks,
        &[
            BlockOp::Create {
                block_id: None,
                kind: None,
                position: None,
                text: "四".into(),
                markup: vec![],
            },
            BlockOp::Delete { block_id: tag_uuid("a") },
            BlockOp::Delete { block_id: tag_uuid("c") },
            BlockOp::Create {
                block_id: None,
                kind: Some("thinking".into()),
                position: Some(0),
                text: "五".into(),
                markup: vec![],
            },
        ],
    )
    .unwrap();
    assert_eq!(blocks.len(), 3 + 2 - 2);
    for (i, b) in blocks.iter().enumerate() {
        assert_eq!(b.position, i as u32);
    }
    assert_eq!(blocks[0].kind, BlockKind::Thinking);
    let fresh = blocks[0].id.to_string();
    assert_eq!(fresh.chars().nth(14), Some('4'));
}
