//! Block-level editing of a chapter: reading a submitted block list, and
//! applying fine-grained create / update / delete / move / set-markup
//! operations to the latest block sequence.
use vstd::prelude::*;
use crate::content::{block_views, BlockKind, BlockView, ContentBlock, MarkupRef, MarkupView};
use crate::ids::{is_v4, new_uuid_v4, uuid_parsed, uuid_text, BlockId};
use crate::text::{copy_string, decimal, decimal_chars, str_eq};
use crate::tool::{tool_failure, tool_failure_with, ToolFailure};

verus! {

broadcast use vstd::seq_lib::group_to_multiset_ensures;

/// The views of some markup references.
pub open spec fn markup_views(v: Seq<MarkupRef>) -> Seq<MarkupView> {
    v.map_values(|m: MarkupRef| m@)
}

/// A copy of a markup reference.
pub fn copy_markup(m: &MarkupRef) -> (r: MarkupRef)
    ensures
        r@ == m@,
{
    match m {
        MarkupRef::Task { id, label, status } => MarkupRef::Task {
            id: copy_string(id),
            label: copy_string(label),
            status: copy_string(status),
        },
        MarkupRef::Setting { entity_path, field, value } => MarkupRef::Setting {
            entity_path: copy_string(entity_path),
            field: copy_string(field),
            value: copy_string(value),
        },
        MarkupRef::Tag { id, kind, label, note } => MarkupRef::Tag {
            id: copy_string(id),
            kind: copy_string(kind),
            label: copy_string(label),
            note: copy_string(note),
        },
        MarkupRef::Custom { tag, body } => MarkupRef::Custom {
            tag: copy_string(tag),
            body: copy_string(body),
        },
    }
}

/// A copy of a list of markup references.
pub fn copy_markups(v: &Vec<MarkupRef>) -> (r: Vec<MarkupRef>)
    ensures
        markup_views(r@) == markup_views(v@),
{
    let mut r: Vec<MarkupRef> = Vec::new();
    let mut i: usize = 0;
    while i < v.len()
        invariant
            i <= v.len(),
            r@.len() == i,
            forall|k: int| 0 <= k < i ==> #[trigger] r@[k]@ == v@[k]@,
        decreases v.len() - i,
    {
        let m = copy_markup(&v[i]);
        r.push(m);
        i += 1;
    }
    assert(markup_views(r@) =~= markup_views(v@));
    r
}

/// The block kind a kind name selects: `thinking`, or a body block.
pub open spec fn kind_named(name: Seq<char>) -> BlockKind {
    if name == "thinking"@ {
        BlockKind::Thinking
    } else {
        BlockKind::Body
    }
}

/// The kind an optional kind name selects; a body block when absent.
pub open spec fn kind_or_body(name: Option<Seq<char>>) -> BlockKind {
    match name {
        Some(n) => kind_named(n),
        None => BlockKind::Body,
    }
}

fn kind_from_name(name: &str) -> (r: BlockKind)
    ensures
        r == kind_named(name@),
{
    if str_eq(name, "thinking") {
        BlockKind::Thinking
    } else {
        BlockKind::Body
    }
}

fn kind_from_option(name: &Option<String>) -> (r: BlockKind)
    ensures
        r == kind_or_body(crate::protocol::opt_view(*name)),
{
    match name {
        Some(n) => kind_from_name(n.as_str()),
        None => BlockKind::Body,
    }
}

// ---------------------------------------------------------------------------
// Reading a submitted block list
// ---------------------------------------------------------------------------

/// One entry of a submitted block list, with the fields the editor may send.
#[derive(Debug, Clone, PartialEq)]
pub struct BlockInput {
    pub id: Option<String>,
    pub kind: Option<String>,
    pub text: Option<String>,
    pub position: Option<u64>,
    pub markup: Vec<MarkupRef>,
}

/// The block an entry of a submitted list stands for, given the identifier
/// read from it and its index in the list. A missing position is the index;
/// a position is kept to its low 32 bits.
pub open spec fn input_block(item: BlockInput, id: u128, index: int) -> BlockView {
    BlockView {
        id: BlockId(id),
        kind: kind_or_body(crate::protocol::opt_view(item.kind)),
        text: match item.text {
            Some(t) => t@,
            None => Seq::<char>::empty(),
        },
        position: match item.position {
            Some(p) => p as u32,
            None => index as u32,
        },
        markup: markup_views(item.markup@),
    }
}

/// The index of the first entry whose identifier does not read as a UUID.
pub open spec fn first_bad_id(items: Seq<BlockInput>) -> Option<int>
    decreases items.len(),
{
    if items.len() == 0 {
        None
    } else {
        match first_bad_id(items.drop_last()) {
            Some(i) => Some(i),
            None => {
                let last = items.last();
                if last.id is Some && uuid_parsed(last.id->0@) is Some {
                    None
                } else {
                    Some(items.len() - 1)
                }
            },
        }
    }
}

/// The blocks of a submitted list, in list order, before sorting.
pub open spec fn input_blocks(items: Seq<BlockInput>) -> Seq<BlockView> {
    Seq::new(
        items.len(),
        |i: int| input_block(items[i], uuid_parsed(items[i].id->0@)->0, i),
    )
}

/// Where a block with position `p` goes into an already sorted list so that
/// the sort is stable: after every block whose position is at most `p`.
pub open spec fn insertion_point(s: Seq<BlockView>, p: u32) -> int
    decreases s.len(),
{
    if s.len() == 0 {
        0
    } else if s[0].position > p {
        0
    } else {
        1 + insertion_point(s.drop_first(), p)
    }
}

/// The blocks stably sorted by position.
pub open spec fn sorted_by_position(s: Seq<BlockView>) -> Seq<BlockView>
    decreases s.len(),
{
    if s.len() == 0 {
        s
    } else {
        let t = sorted_by_position(s.drop_last());
        t.insert(insertion_point(t, s.last().position), s.last())
    }
}

/// The blocks with their positions renumbered to their indices.
pub open spec fn renumbered(s: Seq<BlockView>) -> Seq<BlockView> {
    Seq::new(
        s.len(),
        |i: int|
            BlockView {
                id: s[i].id,
                kind: s[i].kind,
                text: s[i].text,
                position: i as u32,
                markup: s[i].markup,
            },
    )
}

/// Whether the blocks' positions never decrease.
pub open spec fn positions_sorted(s: Seq<BlockView>) -> bool {
    forall|i: int, j: int| 0 <= i <= j < s.len() ==> s[i].position <= s[j].position
}

proof fn lemma_insertion_point(s: Seq<BlockView>, p: u32)
    requires
        positions_sorted(s),
    ensures
        0 <= insertion_point(s, p) <= s.len(),
        forall|k: int| 0 <= k < insertion_point(s, p) ==> s[k].position <= p,
        forall|k: int| insertion_point(s, p) <= k < s.len() ==> s[k].position > p,
    decreases s.len(),
{
    if s.len() > 0 && s[0].position <= p {
        let t = s.drop_first();
        assert(positions_sorted(t)) by {
            assert forall|i: int, j: int| 0 <= i <= j < t.len() implies t[i].position
                <= t[j].position by {
                assert(t[i] == s[i + 1] && t[j] == s[j + 1]);
            }
        }
        lemma_insertion_point(t, p);
        assert forall|k: int| 0 <= k < insertion_point(s, p) implies s[k].position <= p by {
            if k > 0 {
                assert(s[k] == t[k - 1]);
            }
        }
        assert forall|k: int| insertion_point(s, p) <= k < s.len() implies s[k].position > p by {
            assert(s[k] == t[k - 1]);
        }
    }
}

/// Sorting by position yields blocks whose positions never decrease, and
/// the same blocks as before, each as often.
pub proof fn lemma_sorted_by_position(s: Seq<BlockView>)
    ensures
        positions_sorted(sorted_by_position(s)),
        sorted_by_position(s).to_multiset() =~= s.to_multiset(),
        sorted_by_position(s).len() == s.len(),
    decreases s.len(),
{
    if s.len() > 0 {
        let t = sorted_by_position(s.drop_last());
        lemma_sorted_by_position(s.drop_last());
        let x = s.last();
        let ip = insertion_point(t, x.position);
        lemma_insertion_point(t, x.position);
        let u = t.insert(ip, x);
        assert forall|i: int, j: int| 0 <= i <= j < u.len() implies u[i].position
            <= u[j].position by {
            if i < ip && j < ip {
            } else if i < ip && j == ip {
            } else if i < ip {
                assert(u[j] == t[j - 1]);
            } else if i == ip && j > ip {
                assert(u[j] == t[j - 1]);
            } else if i > ip {
                assert(u[i] == t[i - 1] && u[j] == t[j - 1]);
            }
        }
        assert(u.remove(ip) =~= t);
        assert(s.drop_last().push(x) =~= s);
        assert(u.to_multiset().count(x) > 0) by {
            assert(u[ip] == x);
            assert(u.contains(x));
        }
        assert(u.to_multiset() =~= t.to_multiset().insert(x));
    }
}

/// Reads a submitted block list. It is refused when it is not a list
/// (`None`) or when an entry's identifier is missing or not a UUID;
/// otherwise its blocks are stably sorted by position and renumbered.
pub fn parse_blocks(items: Option<&[BlockInput]>) -> (r: Result<Vec<ContentBlock>, ToolFailure>)
    requires
        items matches Some(v) ==> v@.len() <= u32::MAX,
    ensures
        items is None ==> (r matches Err(e) && e.tool@ == "block"@ && e.message@
            == "blocks 必须是数组"@),
        items is Some && first_bad_id(items->0@) is Some ==> (r matches Err(e) && e.tool@
            == "block"@ && e.message@ == "blocks["@ + decimal(first_bad_id(items->0@)->0 as nat)
            + "] 缺少合法的 id"@),
        items is Some && first_bad_id(items->0@) is None ==> (r matches Ok(b) && block_views(b@)
            == renumbered(sorted_by_position(input_blocks(items->0@)))),
{
    let list = match items {
        Some(v) => v,
        None => {
            return Err(tool_failure("block", "blocks 必须是数组"));
        },
    };
    assert(items == Some(list));
    let ghost all = input_blocks(list@);
    let mut sorted: Vec<ContentBlock> = Vec::new();
    let mut i: usize = 0;
    while i < list.len()
        invariant
            items == Some(list),
            i <= list.len() <= u32::MAX,
            all == input_blocks(list@),
            first_bad_id(list@.take(i as int)) is None,
            block_views(sorted@) == sorted_by_position(all.take(i as int)),
        decreases list.len() - i,
    {
        proof {
            assert(list@.take(i + 1).drop_last() =~= list@.take(i as int));
            assert(all.take(i + 1).drop_last() =~= all.take(i as int));
        }
        let item = &list[i];
        let id = match &item.id {
            Some(t) => crate::ids::parse_uuid(t.as_str()),
            None => None,
        };
        let id = match id {
            Some(v) => v,
            None => {
                proof {
                    lemma_first_bad_prefix(list@, i as int);
                }
                let digits = decimal_chars(i as u64);
                let mut detail = digits;
                crate::text::append_str(&mut detail, "] 缺少合法的 id");
                proof {
                    assert(("blocks["@ + decimal(i as nat)) + "] 缺少合法的 id"@ =~= "blocks["@
                        + (decimal(i as nat) + "] 缺少合法的 id"@));
                }
                let e = tool_failure_with("block", "blocks[", detail.as_slice());
                assert(first_bad_id(list@) == Some(i as int));
                assert(e.message@ == "blocks["@ + decimal(i as nat) + "] 缺少合法的 id"@);
                return Err(e);
            },
        };
        let position: u32 = match item.position {
            Some(p) => #[verifier::truncate] (p as u32),
            None => i as u32,
        };
        let text = match &item.text {
            Some(t) => copy_string(t),
            None => String::new(),
        };
        let block = ContentBlock {
            id: BlockId(id),
            kind: kind_from_option(&item.kind),
            text,
            position,
            markup: copy_markups(&item.markup),
        };
        assert(block@ == all[i as int]);
        proof {
            assert(list@.take(i + 1).last() == list@[i as int]);
        }
        let mut j: usize = 0;
        assert(block_views(sorted@).skip(0) =~= block_views(sorted@));
        while j < sorted.len() && sorted[j].position <= position
            invariant
                j <= sorted.len(),
                insertion_point(block_views(sorted@), position) == j + insertion_point(
                    block_views(sorted@).skip(j as int),
                    position,
                ),
            decreases sorted.len() - j,
        {
            proof {
                let s = block_views(sorted@).skip(j as int);
                assert(s.drop_first() =~= block_views(sorted@).skip(j + 1));
            }
            j += 1;
        }
        proof {
            let s = block_views(sorted@).skip(j as int);
            if j < sorted.len() {
                assert(s[0] == block_views(sorted@)[j as int]);
            }
        }
        let ghost before = block_views(sorted@);
        sorted.insert(j, block);
        proof {
            assert(block_views(sorted@) =~= before.insert(j as int, all[i as int]));
            assert(all.take(i + 1).last() == all[i as int]);
        }
        i += 1;
    }
    proof {
        assert(list@.take(list.len() as int) =~= list@);
        assert(all.take(list.len() as int) =~= all);
        lemma_sorted_by_position(all);
    }
    let n = sorted.len();
    let mut k: usize = 0;
    let ghost target = sorted_by_position(all);
    while k < n
        invariant
            k <= n == sorted.len() <= u32::MAX,
            target.len() == n,
            forall|t: int|
                0 <= t < k ==> #[trigger] block_views(sorted@)[t] == renumbered(target)[t],
            forall|t: int| k <= t < n ==> #[trigger] block_views(sorted@)[t] == target[t],
        decreases n - k,
    {
        let ghost s0 = sorted@;
        let mut b = sorted.remove(k);
        b.position = k as u32;
        let ghost gb = b;
        sorted.insert(k, b);
        proof {
            assert(sorted@ =~= s0.update(k as int, gb));
            assert forall|t: int| 0 <= t < k + 1 implies #[trigger] block_views(sorted@)[t]
                == renumbered(target)[t] by {
                if t < k {
                    assert(block_views(sorted@)[t] == block_views(s0)[t]);
                } else {
                    assert(block_views(s0)[t] == target[t]);
                    assert(block_views(sorted@)[t] == gb@);
                }
            }
            assert forall|t: int| k + 1 <= t < n implies #[trigger] block_views(sorted@)[t]
                == target[t] by {
                assert(block_views(sorted@)[t] == block_views(s0)[t]);
            }
        }
        k += 1;
    }
    assert(block_views(sorted@) =~= renumbered(target));
    Ok(sorted)
}

proof fn lemma_first_bad_prefix(items: Seq<BlockInput>, i: int)
    requires
        0 <= i < items.len(),
        first_bad_id(items.take(i)) is None,
        !(items[i].id is Some && uuid_parsed(items[i].id->0@) is Some),
    ensures
        first_bad_id(items) == Some(i),
{
    lemma_first_bad_extends(items, items.len() as int, i);
    assert(items.take(items.len() as int) =~= items);
}

proof fn lemma_first_bad_extends(items: Seq<BlockInput>, n: int, i: int)
    requires
        0 <= i < n <= items.len(),
        first_bad_id(items.take(i)) is None,
        !(items[i].id is Some && uuid_parsed(items[i].id->0@) is Some),
    ensures
        first_bad_id(items.take(n)) == Some(i),
    decreases n,
{
    if n == i + 1 {
        assert(items.take(n).drop_last() =~= items.take(i));
    } else {
        lemma_first_bad_extends(items, n - 1, i);
        assert(items.take(n).drop_last() =~= items.take(n - 1));
    }
}


// ---------------------------------------------------------------------------
// Fine-grained block operations
// ---------------------------------------------------------------------------

/// One fine-grained operation on a chapter's blocks. Blocks are named by the
/// text of their identifier.
#[derive(Debug, Clone, PartialEq)]
pub enum BlockOp {
    Create {
        block_id: Option<String>,
        kind: Option<String>,
        position: Option<u32>,
        text: String,
        markup: Vec<MarkupRef>,
    },
    Update {
        block_id: String,
        text: Option<String>,
        kind: Option<String>,
        markup: Option<Vec<MarkupRef>>,
    },
    Delete { block_id: String },
    Move { block_id: String, position: u32 },
    SetMarkup { block_id: String, markup: Vec<MarkupRef> },
}

/// What an operation holds, as text.
pub enum OpView {
    Create {
        block_id: Option<Seq<char>>,
        kind: Option<Seq<char>>,
        position: Option<u32>,
        text: Seq<char>,
        markup: Seq<MarkupView>,
    },
    Update {
        block_id: Seq<char>,
        text: Option<Seq<char>>,
        kind: Option<Seq<char>>,
        markup: Option<Seq<MarkupView>>,
    },
    Delete { block_id: Seq<char> },
    Move { block_id: Seq<char>, position: u32 },
    SetMarkup { block_id: Seq<char>, markup: Seq<MarkupView> },
}

impl View for BlockOp {
    type V = OpView;

    open spec fn view(&self) -> OpView {
        match self {
            BlockOp::Create { block_id, kind, position, text, markup } => OpView::Create {
                block_id: crate::protocol::opt_view(*block_id),
                kind: crate::protocol::opt_view(*kind),
                position: *position,
                text: text@,
                markup: markup_views(markup@),
            },
            BlockOp::Update { block_id, text, kind, markup } => OpView::Update {
                block_id: block_id@,
                text: crate::protocol::opt_view(*text),
                kind: crate::protocol::opt_view(*kind),
                markup: match markup {
                    Some(m) => Some(markup_views(m@)),
                    None => None,
                },
            },
            BlockOp::Delete { block_id } => OpView::Delete { block_id: block_id@ },
            BlockOp::Move { block_id, position } => OpView::Move {
                block_id: block_id@,
                position: *position,
            },
            BlockOp::SetMarkup { block_id, markup } => OpView::SetMarkup {
                block_id: block_id@,
                markup: markup_views(markup@),
            },
        }
    }
}

/// The views of some operations.
pub open spec fn op_views(ops: Seq<BlockOp>) -> Seq<OpView> {
    ops.map_values(|o: BlockOp| o@)
}

/// The index of the first block whose identifier's text is `id`.
pub open spec fn block_index(blocks: Seq<BlockView>, id: Seq<char>) -> Option<int>
    decreases blocks.len(),
{
    if blocks.len() == 0 {
        None
    } else {
        match block_index(blocks.drop_last(), id) {
            Some(i) => Some(i),
            None => if uuid_text(blocks.last().id.0) == id {
                Some(blocks.len() - 1)
            } else {
                None
            },
        }
    }
}

/// A submitted list whose identifiers all read as UUIDs parses to one block
/// per entry: the entries' blocks stably sorted by position (an entry without
/// one counts at its index), the same blocks each as often, then numbered
/// by their index. A block is a thinking block exactly when its entry names
/// the kind `thinking`.
pub proof fn lemma_parsed_blocks(items: Seq<BlockInput>)
    requires
        first_bad_id(items) is None,
    ensures
        ({
            let listed = input_blocks(items);
            let sorted = sorted_by_position(listed);
            let out = renumbered(sorted);
            &&& out.len() == items.len()
            &&& positions_sorted(sorted)
            &&& sorted.to_multiset() =~= listed.to_multiset()
            &&& forall|i: int| 0 <= i < out.len() ==> (#[trigger] out[i]).position == i as u32
            &&& forall|i: int|
                0 <= i < items.len() ==> ((#[trigger] listed[i]).kind == BlockKind::Thinking
                    <==> (items[i].kind matches Some(k) && k@ == "thinking"@))
        }),
{
    lemma_sorted_by_position(input_blocks(items));
}

/// The block an operation names (a create names none).
pub open spec fn op_target(op: OpView) -> Seq<char> {
    match op {
        OpView::Create { .. } => Seq::<char>::empty(),
        OpView::Update { block_id, .. } => block_id,
        OpView::Delete { block_id } => block_id,
        OpView::Move { block_id, .. } => block_id,
        OpView::SetMarkup { block_id, .. } => block_id,
    }
}

/// The identifier a create gives its block: the one it names when that
/// reads as a UUID, else the fresh one.
pub open spec fn created_id(block_id: Option<Seq<char>>, fresh: u128) -> u128 {
    match block_id {
        Some(t) => match uuid_parsed(t) {
            Some(v) => v,
            None => fresh,
        },
        None => fresh,
    }
}

/// The blocks after one operation, or `None` when it names a block that is
/// not there. A create goes at its position (at most the end, the end when
/// absent); a moved block goes at its position among the others (at most
/// the end).
pub open spec fn apply_op(blocks: Seq<BlockView>, op: OpView, fresh: u128) -> Option<Seq<BlockView>> {
    match op {
        OpView::Create { block_id, kind, position, text, markup } => {
            let p: int = match position {
                Some(p) => if p < blocks.len() {
                    p as int
                } else {
                    blocks.len() as int
                },
                None => blocks.len() as int,
            };
            Some(
                blocks.insert(
                    p,
                    BlockView {
                        id: BlockId(created_id(block_id, fresh)),
                        kind: kind_or_body(kind),
                        text,
                        position: p as u32,
                        markup,
                    },
                ),
            )
        },
        OpView::Update { block_id, text, kind, markup } => match block_index(blocks, block_id) {
            Some(i) => {
                let b = blocks[i];
                Some(
                    blocks.update(
                        i,
                        BlockView {
                            id: b.id,
                            kind: match kind {
                                Some(k) => kind_named(k),
                                None => b.kind,
                            },
                            text: match text {
                                Some(t) => t,
                                None => b.text,
                            },
                            position: b.position,
                            markup: match markup {
                                Some(m) => m,
                                None => b.markup,
                            },
                        },
                    ),
                )
            },
            None => None,
        },
        OpView::Delete { block_id } => match block_index(blocks, block_id) {
            Some(i) => Some(blocks.remove(i)),
            None => None,
        },
        OpView::Move { block_id, position } => match block_index(blocks, block_id) {
            Some(i) => {
                let rest = blocks.remove(i);
                let p: int = if position < rest.len() {
                    position as int
                } else {
                    rest.len() as int
                };
                Some(rest.insert(p, blocks[i]))
            },
            None => None,
        },
        OpView::SetMarkup { block_id, markup } => match block_index(blocks, block_id) {
            Some(i) => {
                let b = blocks[i];
                Some(
                    blocks.update(
                        i,
                        BlockView {
                            id: b.id,
                            kind: b.kind,
                            text: b.text,
                            position: b.position,
                            markup,
                        },
                    ),
                )
            },
            None => None,
        },
    }
}

/// The blocks after the operations in order, up to the first that names a
/// missing block, and that block's name if there is one. Operation `k`
/// uses `fresh[k]` when it creates a block without a usable identifier.
pub open spec fn run_ops(blocks: Seq<BlockView>, ops: Seq<OpView>, fresh: Seq<u128>) -> (
    Seq<BlockView>,
    Option<Seq<char>>,
)
    decreases ops.len(),
{
    if ops.len() == 0 {
        (blocks, None)
    } else {
        let (b, err) = run_ops(blocks, ops.drop_last(), fresh.take(ops.len() - 1));
        if err is Some {
            (b, err)
        } else {
            match apply_op(b, ops.last(), fresh[ops.len() - 1]) {
                Some(nb) => (nb, None),
                None => (b, Some(op_target(ops.last()))),
            }
        }
    }
}

/// How many of the operations create a block.
pub open spec fn creates(ops: Seq<OpView>) -> nat
    decreases ops.len(),
{
    if ops.len() == 0 {
        0
    } else {
        creates(ops.drop_last()) + if ops.last() is Create {
            1nat
        } else {
            0nat
        }
    }
}

/// How many of the operations delete a block.
pub open spec fn deletes(ops: Seq<OpView>) -> nat
    decreases ops.len(),
{
    if ops.len() == 0 {
        0
    } else {
        deletes(ops.drop_last()) + if ops.last() is Delete {
            1nat
        } else {
            0nat
        }
    }
}

proof fn lemma_run_ops_len(blocks: Seq<BlockView>, ops: Seq<OpView>, fresh: Seq<u128>)
    requires
        fresh.len() == ops.len(),
        run_ops(blocks, ops, fresh).1 is None,
    ensures
        run_ops(blocks, ops, fresh).0.len() + deletes(ops) == blocks.len() + creates(ops),
    decreases ops.len(),
{
    if ops.len() > 0 {
        let f = fresh.take(ops.len() - 1);
        let (b, err) = run_ops(blocks, ops.drop_last(), f);
        lemma_run_ops_len(blocks, ops.drop_last(), f);
        lemma_block_index_bounds(b, op_target(ops.last()));
    }
}

/// A run of block operations that succeeds leaves the blocks there were,
/// plus one for each create and less one for each delete; once renumbered,
/// each block's position is its index.
pub proof fn lemma_ops_count(blocks: Seq<BlockView>, ops: Seq<OpView>, fresh: Seq<u128>)
    requires
        fresh.len() == ops.len(),
        run_ops(blocks, ops, fresh).1 is None,
    ensures
        renumbered(run_ops(blocks, ops, fresh).0).len() + deletes(ops) == blocks.len() + creates(ops),
        forall|i: int|
            0 <= i < renumbered(run_ops(blocks, ops, fresh).0).len() ==> (#[trigger] renumbered(
                run_ops(blocks, ops, fresh).0,
            )[i]).position == i as u32,
{
    lemma_run_ops_len(blocks, ops, fresh);
}

/// The position of the first block whose identifier's text is `id`.
fn find_block(blocks: &Vec<ContentBlock>, id: &str) -> (r: Option<usize>)
    ensures
        r matches Some(i) ==> i < blocks@.len() && block_index(block_views(blocks@), id@) == Some(
            i as int,
        ),
        match block_index(block_views(blocks@), id@) {
            Some(i) => r == Some(i as usize),
            None => r is None,
        },
{
    let ghost views = block_views(blocks@);
    let mut i: usize = 0;
    while i < blocks.len()
        invariant
            i <= blocks.len(),
            views == block_views(blocks@),
            block_index(views.take(i as int), id@) is None,
        decreases blocks.len() - i,
    {
        proof {
            assert(views.take(i + 1).drop_last() =~= views.take(i as int));
        }
        let text = blocks[i].id.to_string();
        if str_eq(text.as_str(), id) {
            proof {
                lemma_block_index_found(views, id@, i as int);
            }
            return Some(i);
        }
        i += 1;
    }
    assert(views.take(blocks.len() as int) =~= views);
    None
}

proof fn lemma_block_index_found(views: Seq<BlockView>, id: Seq<char>, i: int)
    requires
        0 <= i < views.len(),
        block_index(views.take(i), id) is None,
        uuid_text(views[i].id.0) == id,
    ensures
        block_index(views, id) == Some(i),
{
    lemma_block_index_extends(views, views.len() as int, i, id);
    assert(views.take(views.len() as int) =~= views);
}

proof fn lemma_block_index_extends(views: Seq<BlockView>, n: int, i: int, id: Seq<char>)
    requires
        0 <= i < n <= views.len(),
        block_index(views.take(i), id) is None,
        uuid_text(views[i].id.0) == id,
    ensures
        block_index(views.take(n), id) == Some(i),
    decreases n,
{
    if n == i + 1 {
        assert(views.take(n).drop_last() =~= views.take(i));
    } else {
        lemma_block_index_extends(views, n - 1, i, id);
        assert(views.take(n).drop_last() =~= views.take(n - 1));
    }
}

proof fn lemma_block_index_none(views: Seq<BlockView>, id: Seq<char>)
    requires
        forall|j: int| 0 <= j < views.len() ==> uuid_text(views[j].id.0) != id,
    ensures
        block_index(views, id) is None,
    decreases views.len(),
{
    if views.len() > 0 {
        let t = views.drop_last();
        assert forall|j: int| 0 <= j < t.len() implies uuid_text(t[j].id.0) != id by {
            assert(t[j] == views[j]);
        }
        lemma_block_index_none(t, id);
    }
}

/// An update of block `i`, the first whose identifier reads as `block_id`,
/// succeeds and changes that block alone: its kind becomes a thinking block
/// when the kind named is `thinking` and a body block for any other name,
/// its text and markup become those given, and whatever is not given, its
/// identifier and its position stay as they were.
pub proof fn lemma_update_op(
    blocks: Seq<BlockView>,
    i: int,
    block_id: Seq<char>,
    text: Option<Seq<char>>,
    kind: Option<Seq<char>>,
    markup: Option<Seq<MarkupView>>,
    fresh: u128,
)
    requires
        0 <= i < blocks.len(),
        uuid_text(blocks[i].id.0) == block_id,
        forall|j: int| 0 <= j < i ==> uuid_text(blocks[j].id.0) != block_id,
    ensures
        apply_op(blocks, OpView::Update { block_id, text, kind, markup }, fresh) matches Some(nb) && {
            &&& nb.len() == blocks.len()
            &&& forall|j: int| 0 <= j < blocks.len() && j != i ==> nb[j] == blocks[j]
            &&& nb[i].id == blocks[i].id
            &&& nb[i].position == blocks[i].position
            &&& kind matches Some(k) ==> (k == "thinking"@ ==> nb[i].kind == BlockKind::Thinking)
                && (k != "thinking"@ ==> nb[i].kind == BlockKind::Body)
            &&& kind is None ==> nb[i].kind == blocks[i].kind
            &&& text matches Some(t) ==> nb[i].text == t
            &&& text is None ==> nb[i].text == blocks[i].text
            &&& markup matches Some(m) ==> nb[i].markup == m
            &&& markup is None ==> nb[i].markup == blocks[i].markup
            &&& run_ops(blocks, seq![OpView::Update { block_id, text, kind, markup }], seq![fresh])
                == (nb, None::<Seq<char>>)
        },
{
    let op = OpView::Update { block_id, text, kind, markup };
    assert(seq![op].drop_last() =~= Seq::<OpView>::empty());
    assert(seq![fresh].take(0) =~= Seq::<u128>::empty());
    let t = blocks.take(i);
    assert forall|j: int| 0 <= j < t.len() implies uuid_text(t[j].id.0) != block_id by {
        assert(t[j] == blocks[j]);
    }
    lemma_block_index_none(t, block_id);
    lemma_block_index_found(blocks, block_id, i);
    assert(run_ops(blocks, Seq::<OpView>::empty(), Seq::<u128>::empty()) == (
        blocks,
        None::<Seq<char>>,
    ));
    assert(seq![op].last() == op);
    assert(seq![fresh][0] == fresh);
}

fn not_found(block_id: &String) -> (r: ToolFailure)
    ensures
        r.tool@ == "block.edit"@,
        r.message@ == "block not found: "@ + block_id@,
{
    let v = crate::text::chars_of(block_id.as_str());
    tool_failure_with("block.edit", "block not found: ", v.as_slice())
}

/// Applies one operation; `Err` when it names a missing block, with the
/// blocks unchanged.
fn apply_one(blocks: &mut Vec<ContentBlock>, op: &BlockOp, fresh: u128) -> (r: Result<(), ToolFailure>)
    requires
        old(blocks).len() < u32::MAX,
    ensures
        match apply_op(block_views(old(blocks)@), op@, fresh) {
            Some(nb) => r is Ok && block_views(final(blocks)@) == nb,
            None => (r matches Err(e) && e.tool@ == "block.edit"@ && e.message@
                == "block not found: "@ + op_target(op@)) && final(blocks)@ == old(blocks)@,
        },
{
    let ghost v0 = block_views(blocks@);
    match op {
        BlockOp::Create { block_id, kind, position, text, markup } => {
            let parsed = match block_id {
                Some(t) => crate::ids::parse_uuid(t.as_str()),
                None => None,
            };
            let id = match parsed {
                Some(v) => v,
                None => fresh,
            };
            let len = blocks.len();
            let p: usize = match position {
                Some(p) => if (*p as usize) < len {
                    *p as usize
                } else {
                    len
                },
                None => len,
            };
            let block = ContentBlock {
                id: BlockId(id),
                kind: kind_from_option(kind),
                text: copy_string(text),
                position: p as u32,
                markup: copy_markups(markup),
            };
            blocks.insert(p, block);
            proof {
                assert(block_views(blocks@) =~= v0.insert(p as int, block@));
                assert(apply_op(v0, op@, fresh) == Some(v0.insert(p as int, block@)));
            }
            Ok(())
        },
        BlockOp::Update { block_id, text, kind, markup } => {
            match find_block(blocks, block_id.as_str()) {
                Some(i) => {
                    let ghost s0 = blocks@;
                    let mut b = blocks.remove(i);
                    match text {
                        Some(t) => {
                            b.text = copy_string(t);
                        },
                        None => {},
                    }
                    match kind {
                        Some(k) => {
                            b.kind = kind_from_name(k.as_str());
                        },
                        None => {},
                    }
                    match markup {
                        Some(m) => {
                            b.markup = copy_markups(m);
                        },
                        None => {},
                    }
                    let ghost gb = b;
                    blocks.insert(i, b);
                    proof {
                        assert(blocks@ =~= s0.update(i as int, gb));
                        assert(block_views(blocks@) =~= v0.update(i as int, gb@));
                        assert(apply_op(v0, op@, fresh) == Some(v0.update(i as int, gb@)));
                    }
                    Ok(())
                },
                None => Err(not_found(block_id)),
            }
        },
        BlockOp::Delete { block_id } => {
            match find_block(blocks, block_id.as_str()) {
                Some(i) => {
                    blocks.remove(i);
                    proof {
                        assert(block_views(blocks@) =~= v0.remove(i as int));
                        assert(apply_op(v0, op@, fresh) == Some(v0.remove(i as int)));
                    }
                    Ok(())
                },
                None => Err(not_found(block_id)),
            }
        },
        BlockOp::Move { block_id, position } => {
            match find_block(blocks, block_id.as_str()) {
                Some(i) => {
                    let b = blocks.remove(i);
                    let ghost gb = b;
                    let ghost rest = blocks@;
                    let len = blocks.len();
                    let p: usize = if (*position as usize) < len {
                        *position as usize
                    } else {
                        len
                    };
                    blocks.insert(p, b);
                    proof {
                        assert(block_views(rest) =~= v0.remove(i as int));
                        assert(block_views(blocks@) =~= block_views(rest).insert(p as int, gb@));
                        assert(gb@ == v0[i as int]);
                        assert(apply_op(v0, op@, fresh) == Some(v0.remove(i as int).insert(p as int, gb@)));
                    }
                    Ok(())
                },
                None => Err(not_found(block_id)),
            }
        },
        BlockOp::SetMarkup { block_id, markup } => {
            match find_block(blocks, block_id.as_str()) {
                Some(i) => {
                    let ghost s0 = blocks@;
                    let mut b = blocks.remove(i);
                    b.markup = copy_markups(markup);
                    let ghost gb = b;
                    blocks.insert(i, b);
                    proof {
                        assert(blocks@ =~= s0.update(i as int, gb));
                        assert(block_views(blocks@) =~= v0.update(i as int, gb@));
                    }
                    Ok(())
                },
                None => Err(not_found(block_id)),
            }
        },
    }
}

/// Applies the operations in order, then renumbers every block's position
/// to its index. `fresh[k]` is the identifier operation `k` gives a created
/// block that names no usable one. The first operation that names a missing
/// block stops the run with an error and leaves the blocks as the earlier
/// operations made them, not renumbered.
pub fn apply_block_ops_with(blocks: &mut Vec<ContentBlock>, ops: &[BlockOp], fresh: &[u128]) -> (r:
    Result<(), ToolFailure>)
    requires
        fresh@.len() == ops@.len(),
        old(blocks)@.len() + ops@.len() <= u32::MAX,
    ensures
        ({
            let (state, err) = run_ops(block_views(old(blocks)@), op_views(ops@), fresh@);
            match err {
                None => r is Ok && block_views(final(blocks)@) == renumbered(state),
                Some(id) => (r matches Err(e) && e.tool@ == "block.edit"@ && e.message@
                    == "block not found: "@ + id) && block_views(final(blocks)@) == state,
            }
        }),
{
    let ghost v0 = block_views(blocks@);
    let ghost ov = op_views(ops@);
    let mut k: usize = 0;
    while k < ops.len()
        invariant
            k <= ops.len() == fresh.len(),
            ov == op_views(ops@),
            v0 == block_views(old(blocks)@),
            blocks.len() <= v0.len() + k,
            v0.len() + ops.len() <= u32::MAX,
            run_ops(v0, ov.take(k as int), fresh@.take(k as int)) == (
                block_views(blocks@),
                None::<Seq<char>>,
            ),
        decreases ops.len() - k,
    {
        proof {
            assert(ov.take(k + 1).drop_last() =~= ov.take(k as int));
            assert(fresh@.take(k + 1).take(k as int) =~= fresh@.take(k as int));
            assert(ov.take(k + 1).last() == ops@[k as int]@);
        }
        let ghost before = block_views(blocks@);
        let step = apply_one(blocks, &ops[k], fresh[k]);
        match step {
            Ok(()) => {},
            Err(e) => {
                proof {
                    assert(ov[k as int] == ops@[k as int]@);
                    lemma_run_ops_stops(v0, ov, fresh@, k as int, before);
                }
                return Err(e);
            },
        }
        proof {
            lemma_apply_op_len(before, ov[k as int], fresh@[k as int]);
        }
        k += 1;
    }
    proof {
        assert(ov.take(ops.len() as int) =~= ov);
        assert(fresh@.take(ops.len() as int) =~= fresh@);
    }
    let ghost state = block_views(blocks@);
    let n = blocks.len();
    let mut j: usize = 0;
    while j < n
        invariant
            j <= n == blocks.len() <= u32::MAX,
            state.len() == n,
            forall|t: int| 0 <= t < j ==> #[trigger] block_views(blocks@)[t] == renumbered(state)[t],
            forall|t: int| j <= t < n ==> #[trigger] block_views(blocks@)[t] == state[t],
        decreases n - j,
    {
        let ghost s0 = blocks@;
        let mut b = blocks.remove(j);
        b.position = j as u32;
        let ghost gb = b;
        blocks.insert(j, b);
        proof {
            assert(blocks@ =~= s0.update(j as int, gb));
            assert forall|t: int| 0 <= t < j + 1 implies #[trigger] block_views(blocks@)[t]
                == renumbered(state)[t] by {
                if t < j {
                    assert(block_views(blocks@)[t] == block_views(s0)[t]);
                } else {
                    assert(block_views(s0)[t] == state[t]);
                    assert(block_views(blocks@)[t] == gb@);
                }
            }
            assert forall|t: int| j + 1 <= t < n implies #[trigger] block_views(blocks@)[t]
                == state[t] by {
                assert(block_views(blocks@)[t] == block_views(s0)[t]);
            }
        }
        j += 1;
    }
    assert(block_views(blocks@) =~= renumbered(state));
    Ok(())
}

proof fn lemma_apply_op_len(blocks: Seq<BlockView>, op: OpView, fresh: u128)
    ensures
        apply_op(blocks, op, fresh) matches Some(nb) ==> nb.len() <= blocks.len() + 1,
{
    lemma_block_index_bounds(blocks, op_target(op));
}

proof fn lemma_block_index_bounds(blocks: Seq<BlockView>, id: Seq<char>)
    ensures
        block_index(blocks, id) matches Some(i) ==> 0 <= i < blocks.len(),
    decreases blocks.len(),
{
    if blocks.len() > 0 {
        lemma_block_index_bounds(blocks.drop_last(), id);
    }
}

proof fn lemma_run_ops_stops(
    v0: Seq<BlockView>,
    ov: Seq<OpView>,
    fresh: Seq<u128>,
    k: int,
    before: Seq<BlockView>,
)
    requires
        0 <= k < ov.len() == fresh.len(),
        run_ops(v0, ov.take(k), fresh.take(k)) == (before, None::<Seq<char>>),
        apply_op(before, ov[k], fresh[k]) is None,
    ensures
        run_ops(v0, ov, fresh) == (before, Some(op_target(ov[k]))),
    decreases ov.len() - k,
{
    lemma_run_ops_stays(v0, ov, fresh, k, ov.len() as int, before);
    assert(ov.take(ov.len() as int) =~= ov);
    assert(fresh.take(ov.len() as int) =~= fresh);
}

proof fn lemma_run_ops_stays(
    v0: Seq<BlockView>,
    ov: Seq<OpView>,
    fresh: Seq<u128>,
    k: int,
    n: int,
    before: Seq<BlockView>,
)
    requires
        0 <= k < n <= ov.len() == fresh.len(),
        run_ops(v0, ov.take(k), fresh.take(k)) == (before, None::<Seq<char>>),
        apply_op(before, ov[k], fresh[k]) is None,
    ensures
        run_ops(v0, ov.take(n), fresh.take(n)) == (before, Some(op_target(ov[k]))),
    decreases n,
{
    assert(ov.take(n).drop_last() =~= ov.take(n - 1));
    assert(fresh.take(n).take(n - 1) =~= fresh.take(n - 1));
    if n == k + 1 {
        assert(ov.take(n).last() == ov[k]);
        assert(fresh.take(n)[n - 1] == fresh[k]);
    } else {
        lemma_run_ops_stays(v0, ov, fresh, k, n - 1, before);
    }
}

/// Applies the operations, giving each created block that names no usable
/// identifier a fresh random (version 4) one; see `apply_block_ops_with`.
pub fn apply_block_ops(blocks: &mut Vec<ContentBlock>, ops: &[BlockOp]) -> (r: Result<(), ToolFailure>)
    requires
        old(blocks)@.len() + ops@.len() <= u32::MAX,
    ensures
        exists|fresh: Seq<u128>|
            #![trigger run_ops(block_views(old(blocks)@), op_views(ops@), fresh)]
            fresh.len() == ops@.len() && (forall|k: int| 0 <= k < fresh.len() ==> is_v4(#[trigger] fresh[k]))
                && {
                let (state, err) = run_ops(block_views(old(blocks)@), op_views(ops@), fresh);
                match err {
                    None => r is Ok && block_views(final(blocks)@) == renumbered(state),
                    Some(id) => (r matches Err(e) && e.tool@ == "block.edit"@ && e.message@
                        == "block not found: "@ + id) && block_views(final(blocks)@) == state,
                }
            },
{
    let mut fresh: Vec<u128> = Vec::new();
    let mut k: usize = 0;
    while k < ops.len()
        invariant
            k <= ops.len(),
            fresh@.len() == k,
            forall|j: int| 0 <= j < k ==> is_v4(#[trigger] fresh@[j]),
        decreases ops.len() - k,
    {
        fresh.push(new_uuid_v4());
        k += 1;
    }
    let ghost old_blocks = block_views(blocks@);
    let r = apply_block_ops_with(blocks, ops, fresh.as_slice());
    assert(run_ops(old_blocks, op_views(ops@), fresh@) == run_ops(old_blocks, op_views(ops@), fresh@));
    r
}
} // verus!
