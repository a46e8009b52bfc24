//! The context engine: token estimates, compression of old conversation
//! messages into summary blocks and their replay, the assembly of a context
//! package under a token budget, and a lexical search over documents.
use vstd::prelude::*;
use crate::hints::opt_index;
use crate::ids::{uuid_text, ChapterId, ContextBlockId, Revision, SessionId};
use crate::protocol::{opt_view, string_views};
use crate::text::{
    append_chars, append_str, chars_of, contains_chars, contains_seq, copy_string, decimal,
    decimal_chars, is_white_space, same_chars, slice_to_vec, str_eq, string_of, words,
};

verus! {

/// The token estimate of a text of `n` characters: half of them, rounded up,
/// kept to 32 bits.
pub open spec fn token_estimate(n: nat) -> u32 {
    ((n + 1) / 2) as u32
}

/// Estimates the tokens of a text: two characters per token, rounded up.
pub fn estimate_tokens(text: &str) -> (r: u32)
    ensures
        r == token_estimate(text@.len()),
{
    let n = text.unicode_len();
    let half = n / 2 + n % 2;
    assert(half == (n + 1) / 2);
    #[verifier::truncate]
    (half as u32)
}

// ---------------------------------------------------------------------------
// Messages and compression blocks
// ---------------------------------------------------------------------------

/// Who a conversation message comes from.
#[derive(Debug, Clone, Copy, PartialEq, Eq, Structural)]
pub enum MessageRole {
    User,
    Assistant,
    System,
    Tool,
}

/// A message of the agent conversation. A protected message is never
/// compressed.
#[derive(Debug, Clone, PartialEq, Eq)]
pub struct CoreMessage {
    pub id: String,
    pub role: MessageRole,
    pub text: String,
    pub tokens: u32,
    pub protected: bool,
}

/// What a message holds.
pub struct MessageView {
    pub id: Seq<char>,
    pub role: MessageRole,
    pub text: Seq<char>,
    pub tokens: u32,
    pub protected: bool,
}

impl View for CoreMessage {
    type V = MessageView;

    open spec fn view(&self) -> MessageView {
        MessageView {
            id: self.id@,
            role: self.role,
            text: self.text@,
            tokens: self.tokens,
            protected: self.protected,
        }
    }
}

/// The views of some messages.
pub open spec fn message_views(v: Seq<CoreMessage>) -> Seq<MessageView> {
    v.map_values(|m: CoreMessage| m@)
}

/// A copy of a message.
pub fn copy_message(m: &CoreMessage) -> (r: CoreMessage)
    ensures
        r@ == m@,
{
    CoreMessage {
        id: copy_string(&m.id),
        role: m.role,
        text: copy_string(&m.text),
        tokens: m.tokens,
        protected: m.protected,
    }
}

/// A summary that stands for a run of older messages. `created_at_ms` is the
/// creation instant in milliseconds since the Unix epoch.
#[derive(Debug, Clone, PartialEq, Eq)]
pub struct CompressionBlock {
    pub id: ContextBlockId,
    pub session_id: SessionId,
    pub tier: u8,
    pub topic: Option<String>,
    pub summary: String,
    pub direct_message_ids: Vec<String>,
    pub active: bool,
    pub created_at_ms: i64,
}

/// What a compression block holds.
pub struct CompressionView {
    pub id: ContextBlockId,
    pub session_id: SessionId,
    pub tier: u8,
    pub topic: Option<Seq<char>>,
    pub summary: Seq<char>,
    pub direct_message_ids: Seq<Seq<char>>,
    pub active: bool,
    pub created_at_ms: i64,
}

impl View for CompressionBlock {
    type V = CompressionView;

    open spec fn view(&self) -> CompressionView {
        CompressionView {
            id: self.id,
            session_id: self.session_id,
            tier: self.tier,
            topic: opt_view(self.topic),
            summary: self.summary@,
            direct_message_ids: string_views(self.direct_message_ids@),
            active: self.active,
            created_at_ms: self.created_at_ms,
        }
    }
}

/// The views of some compression blocks.
pub open spec fn compression_views(v: Seq<CompressionBlock>) -> Seq<CompressionView> {
    v.map_values(|b: CompressionBlock| b@)
}

/// The compression state of a session.
#[derive(Debug, Clone, PartialEq, Eq)]
pub struct ContextState {
    pub session_id: SessionId,
    pub blocks: Vec<CompressionBlock>,
    pub next_ref: u64,
}

/// The total tokens of some messages.
pub open spec fn token_sum(msgs: Seq<MessageView>) -> int
    decreases msgs.len(),
{
    if msgs.len() == 0 {
        0
    } else {
        token_sum(msgs.drop_last()) + msgs.last().tokens
    }
}

/// The total tokens of the messages.
pub fn token_total(messages: &Vec<CoreMessage>) -> (r: u32)
    requires
        token_sum(message_views(messages@)) <= u32::MAX,
    ensures
        r == token_sum(message_views(messages@)),
{
    let ghost mv = message_views(messages@);
    let mut total: u32 = 0;
    let mut i: usize = 0;
    while i < messages.len()
        invariant
            i <= messages.len(),
            mv == message_views(messages@),
            token_sum(mv) <= u32::MAX,
            total == token_sum(mv.take(i as int)),
        decreases messages.len() - i,
    {
        proof {
            assert(mv.take(i + 1).drop_last() =~= mv.take(i as int));
            lemma_token_sum_prefix(mv, i + 1);
        }
        total = total + messages[i].tokens;
        i += 1;
    }
    assert(mv.take(messages.len() as int) =~= mv);
    total
}

proof fn lemma_token_sum_prefix(msgs: Seq<MessageView>, k: int)
    requires
        0 <= k <= msgs.len(),
    ensures
        token_sum(msgs.take(k)) <= token_sum(msgs),
    decreases msgs.len() - k,
{
    if k < msgs.len() {
        lemma_token_sum_prefix(msgs, k + 1);
        assert(msgs.take(k + 1).drop_last() =~= msgs.take(k));
    } else {
        assert(msgs.take(k) =~= msgs);
    }
}

/// The index of the first message with this identifier.
pub open spec fn message_position(msgs: Seq<MessageView>, id: Seq<char>) -> Option<int>
    decreases msgs.len(),
{
    if msgs.len() == 0 {
        None
    } else {
        match message_position(msgs.drop_last(), id) {
            Some(i) => Some(i),
            None => if msgs.last().id == id {
                Some(msgs.len() - 1)
            } else {
                None
            },
        }
    }
}

/// Whether a block can stand in for messages of the list: it is active and
/// covers at least one message, and its first and last covered messages
/// are both there.
pub open spec fn block_applies(msgs: Seq<MessageView>, b: CompressionView) -> bool {
    &&& b.active
    &&& b.direct_message_ids.len() > 0
    &&& message_position(msgs, b.direct_message_ids[0]) is Some
    &&& message_position(msgs, b.direct_message_ids.last()) is Some
}

/// The first block that can stand in for messages of the list.
pub open spec fn first_applicable(msgs: Seq<MessageView>, blocks: Seq<CompressionView>) -> Option<int>
    decreases blocks.len(),
{
    if blocks.len() == 0 {
        None
    } else {
        match first_applicable(msgs, blocks.drop_last()) {
            Some(k) => Some(k),
            None => if block_applies(msgs, blocks.last()) {
                Some(blocks.len() - 1)
            } else {
                None
            },
        }
    }
}

/// The system message that replays a block's summary.
pub open spec fn summary_message(b: CompressionView) -> MessageView {
    MessageView {
        id: "block:"@ + uuid_text(b.id.0),
        role: MessageRole::System,
        text: b.summary,
        tokens: token_estimate(b.summary.len()),
        protected: true,
    }
}

/// The messages of a turn with the first applicable block replayed: the
/// messages before its first covered message, its summary, and the messages
/// after its last covered one. Without such a block, the messages unchanged.
pub open spec fn rendered_turn(msgs: Seq<MessageView>, blocks: Seq<CompressionView>) -> Seq<MessageView> {
    match first_applicable(msgs, blocks) {
        None => msgs,
        Some(k) => {
            let b = blocks[k];
            let start = message_position(msgs, b.direct_message_ids[0])->0;
            let end = message_position(msgs, b.direct_message_ids.last())->0;
            msgs.take(start) + seq![summary_message(b)] + msgs.skip(end + 1)
        },
    }
}

proof fn lemma_message_position_bounds(msgs: Seq<MessageView>, id: Seq<char>)
    ensures
        message_position(msgs, id) matches Some(i) ==> 0 <= i < msgs.len() && msgs[i].id == id,
    decreases msgs.len(),
{
    if msgs.len() > 0 {
        lemma_message_position_bounds(msgs.drop_last(), id);
    }
}

fn find_message(messages: &Vec<CoreMessage>, id: &String) -> (r: Option<usize>)
    ensures
        opt_index(r) == message_position(message_views(messages@), id@),
        r matches Some(i) ==> i < messages@.len(),
{
    let ghost mv = message_views(messages@);
    let mut i: usize = 0;
    while i < messages.len()
        invariant
            i <= messages.len(),
            mv == message_views(messages@),
            message_position(mv.take(i as int), id@) is None,
        decreases messages.len() - i,
    {
        proof {
            assert(mv.take(i + 1).drop_last() =~= mv.take(i as int));
            assert(mv.take(i + 1).last() == messages@[i as int]@);
        }
        if str_eq(messages[i].id.as_str(), id.as_str()) {
            proof {
                lemma_message_position_found(mv, id@, i as int, mv.len() as int);
                assert(mv.take(mv.len() as int) =~= mv);
            }
            return Some(i);
        }
        i += 1;
    }
    assert(mv.take(messages.len() as int) =~= mv);
    None
}

proof fn lemma_message_position_found(msgs: Seq<MessageView>, id: Seq<char>, i: int, n: int)
    requires
        0 <= i < n <= msgs.len(),
        message_position(msgs.take(i), id) is None,
        msgs[i].id == id,
    ensures
        message_position(msgs.take(n), id) == Some(i),
    decreases n,
{
    assert(msgs.take(n).drop_last() =~= msgs.take(n - 1));
    if n > i + 1 {
        lemma_message_position_found(msgs, id, i, n - 1);
    } else {
        assert(msgs.take(n - 1) =~= msgs.take(i));
    }
}

proof fn lemma_first_applicable_found(msgs: Seq<MessageView>, blocks: Seq<CompressionView>, k: int, n: int)
    requires
        0 <= k < n <= blocks.len(),
        first_applicable(msgs, blocks.take(k)) is None,
        block_applies(msgs, blocks[k]),
    ensures
        first_applicable(msgs, blocks.take(n)) == Some(k),
    decreases n,
{
    assert(blocks.take(n).drop_last() =~= blocks.take(n - 1));
    if n > k + 1 {
        lemma_first_applicable_found(msgs, blocks, k, n - 1);
    } else {
        assert(blocks.take(n - 1) =~= blocks.take(k));
    }
}

fn copy_messages(messages: &Vec<CoreMessage>, a: usize, b: usize, out: &mut Vec<CoreMessage>)
    requires
        a <= b <= messages.len(),
    ensures
        message_views(final(out)@) == message_views(old(out)@) + message_views(messages@).subrange(
            a as int,
            b as int,
        ),
{
    let ghost o0 = message_views(out@);
    let mut i = a;
    while i < b
        invariant
            a <= i <= b <= messages.len(),
            message_views(out@) == o0 + message_views(messages@).subrange(a as int, i as int),
        decreases b - i,
    {
        let m = copy_message(&messages[i]);
        let ghost before = message_views(out@);
        out.push(m);
        proof {
            assert(message_views(out@) =~= before.push(messages@[i as int]@));
            assert(message_views(messages@).subrange(a as int, i + 1) =~= message_views(
                messages@,
            ).subrange(a as int, i as int).push(messages@[i as int]@));
        }
        i += 1;
    }
}

/// The messages of a turn as the model sees them: the first active block
/// whose first and last covered messages are both present replaces the
/// messages from its first to its last covered one with its summary; see
/// `rendered_turn`.
pub fn render_turn(messages: &Vec<CoreMessage>, blocks: &Vec<CompressionBlock>) -> (r: Vec<CoreMessage>)
    ensures
        message_views(r@) == rendered_turn(message_views(messages@), compression_views(blocks@)),
{
    let ghost mv = message_views(messages@);
    let ghost bv = compression_views(blocks@);
    let mut k: usize = 0;
    while k < blocks.len()
        invariant
            k <= blocks.len(),
            mv == message_views(messages@),
            bv == compression_views(blocks@),
            first_applicable(mv, bv.take(k as int)) is None,
        decreases blocks.len() - k,
    {
        proof {
            assert(bv.take(k + 1).drop_last() =~= bv.take(k as int));
            assert(bv.take(k + 1).last() == blocks@[k as int]@);
        }
        let block = &blocks[k];
        let ids = &block.direct_message_ids;
        if block.active && ids.len() > 0 {
            let first = find_message(messages, &ids[0]);
            let last = find_message(messages, &ids[ids.len() - 1]);
            proof {
                assert(bv[k as int].direct_message_ids[0] == ids@[0]@);
                assert(bv[k as int].direct_message_ids.last() == ids@[ids.len() - 1]@);
            }
            if first.is_some() && last.is_some() {
                let start = first.unwrap();
                let end = last.unwrap();
                assert(end < messages.len());
                assert(start < messages.len());
                {
                    proof {
                        lemma_first_applicable_found(mv, bv, k as int, bv.len() as int);
                        assert(bv.take(bv.len() as int) =~= bv);
                    }
                    let mut out: Vec<CoreMessage> = Vec::new();
                    copy_messages(messages, 0, start, &mut out);
                    let mut id = chars_of("block:");
                    let id_text = block.id.to_string();
                    append_str(&mut id, id_text.as_str());
                    let summary = CoreMessage {
                        id: string_of(id.as_slice()),
                        role: MessageRole::System,
                        text: copy_string(&block.summary),
                        tokens: estimate_tokens(block.summary.as_str()),
                        protected: true,
                    };
                    let ghost before = message_views(out@);
                    let ghost sv = summary@;
                    out.push(summary);
                    proof {
                        assert(message_views(out@) =~= before.push(sv));
                        assert(sv == summary_message(bv[k as int]));
                    }
                    copy_messages(messages, end + 1, messages.len(), &mut out);
                    proof {
                        assert(mv.subrange(0, start as int) =~= mv.take(start as int));
                        assert(mv.subrange(end + 1, mv.len() as int) =~= mv.skip(end + 1));
                    }
                    return out;
                }
            }
        }
        k += 1;
    }
    assert(bv.take(blocks.len() as int) =~= bv);
    let mut out: Vec<CoreMessage> = Vec::new();
    copy_messages(messages, 0, messages.len(), &mut out);
    assert(mv.subrange(0, mv.len() as int) =~= mv);
    out
}


/// The identifiers of the unprotected messages before the most recent
/// `preserve` ones, in order.
pub open spec fn compressible_ids(msgs: Seq<MessageView>, preserve: int) -> Seq<Seq<char>>
    decreases msgs.len(),
{
    let keep = if preserve < msgs.len() {
        preserve
    } else {
        msgs.len() as int
    };
    let end = msgs.len() - keep;
    unprotected_ids(msgs.take(end))
}

/// The identifiers of the unprotected messages, in order.
pub open spec fn unprotected_ids(msgs: Seq<MessageView>) -> Seq<Seq<char>>
    decreases msgs.len(),
{
    if msgs.len() == 0 {
        seq![]
    } else {
        let rest = unprotected_ids(msgs.drop_last());
        if msgs.last().protected {
            rest
        } else {
            rest.push(msgs.last().id)
        }
    }
}

/// Compresses the older messages into a new active first-tier block with
/// the given summary and topic, keeping the `preserve` most recent messages
/// and every protected one out of it. When nothing is left to compress the
/// state is returned unchanged. The new block gets a fresh identifier and
/// the current time.
pub fn compress_messages(
    messages: &Vec<CoreMessage>,
    state: ContextState,
    summary: String,
    topic: Option<String>,
    preserve: usize,
) -> (r: ContextState)
    ensures
        ({
            let ids = compressible_ids(message_views(messages@), preserve as int);
            if ids.len() == 0 {
                r == state
            } else {
                &&& r.session_id == state.session_id
                &&& r.next_ref == state.next_ref
                &&& r.blocks@.len() == state.blocks@.len() + 1
                &&& r.blocks@.take(state.blocks@.len() as int) == state.blocks@
                &&& ({
                    let b = r.blocks@.last()@;
                    &&& b.session_id == state.session_id
                    &&& b.tier == 1
                    &&& b.topic == opt_view(topic)
                    &&& b.summary == summary@
                    &&& b.direct_message_ids == ids
                    &&& b.active
                })
            }
        }),
{
    let ghost mv = message_views(messages@);
    let keep = if preserve < messages.len() {
        preserve
    } else {
        messages.len()
    };
    let end = messages.len() - keep;
    let mut ids: Vec<String> = Vec::new();
    let mut i: usize = 0;
    while i < end
        invariant
            i <= end <= messages.len(),
            mv == message_views(messages@),
            string_views(ids@) == unprotected_ids(mv.take(i as int)),
        decreases end - i,
    {
        proof {
            assert(mv.take(i + 1).drop_last() =~= mv.take(i as int));
            assert(mv.take(i + 1).last() == messages@[i as int]@);
        }
        if !messages[i].protected {
            let ghost before = string_views(ids@);
            ids.push(copy_string(&messages[i].id));
            proof {
                assert(string_views(ids@) =~= before.push(messages@[i as int].id@));
            }
        }
        i += 1;
    }
    assert(mv.take(end as int) == mv.take(end as int));
    if ids.len() == 0 {
        return state;
    }
    let mut state = state;
    let ghost old_blocks = state.blocks@;
    let block = CompressionBlock {
        id: ContextBlockId::new(),
        session_id: state.session_id,
        tier: 1,
        topic,
        summary,
        direct_message_ids: ids,
        active: true,
        created_at_ms: crate::ids::now_millis(),
    };
    state.blocks.push(block);
    assert(state.blocks@.take(old_blocks.len() as int) =~= old_blocks);
    state
}

/// Whether a block's summary or topic mentions the query.
pub open spec fn block_mentions(b: CompressionView, query: Seq<char>) -> bool {
    contains_seq(b.summary, query) || (b.topic matches Some(t) && contains_seq(t, query))
}

/// The blocks whose summary or topic mentions the query, in order.
pub open spec fn mentioning(blocks: Seq<CompressionView>, query: Seq<char>) -> Seq<CompressionView>
    decreases blocks.len(),
{
    if blocks.len() == 0 {
        seq![]
    } else {
        let rest = mentioning(blocks.drop_last(), query);
        if block_mentions(blocks.last(), query) {
            rest.push(blocks.last())
        } else {
            rest
        }
    }
}

/// The blocks of a session whose summary or topic mentions the query.
pub fn search_blocks<'a>(state: &'a ContextState, query: &str) -> (r: Vec<&'a CompressionBlock>)
    ensures
        r@.map_values(|b: &CompressionBlock| b@) == mentioning(compression_views(state.blocks@), query@),
{
    let ghost bv = compression_views(state.blocks@);
    let q = chars_of(query);
    let mut r: Vec<&'a CompressionBlock> = Vec::new();
    let mut i: usize = 0;
    while i < state.blocks.len()
        invariant
            i <= state.blocks.len(),
            bv == compression_views(state.blocks@),
            q@ == query@,
            r@.map_values(|b: &CompressionBlock| b@) == mentioning(bv.take(i as int), query@),
        decreases state.blocks.len() - i,
    {
        proof {
            assert(bv.take(i + 1).drop_last() =~= bv.take(i as int));
            assert(bv.take(i + 1).last() == state.blocks@[i as int]@);
        }
        let b = &state.blocks[i];
        let in_summary = contains_chars(chars_of(b.summary.as_str()).as_slice(), q.as_slice());
        let in_topic = match &b.topic {
            Some(t) => contains_chars(chars_of(t.as_str()).as_slice(), q.as_slice()),
            None => false,
        };
        if in_summary || in_topic {
            let ghost before = r@.map_values(|b: &CompressionBlock| b@);
            r.push(b);
            proof {
                assert(r@.map_values(|b: &CompressionBlock| b@) =~= before.push(state.blocks@[i as int]@));
            }
        }
        i += 1;
    }
    assert(bv.take(state.blocks.len() as int) =~= bv);
    r
}

// ---------------------------------------------------------------------------
// Context assembly
// ---------------------------------------------------------------------------

/// How much context an assembly may use.
#[derive(Debug, Clone, Copy, PartialEq, Eq, Structural)]
pub struct AssemblyOptions {
    pub token_budget: u32,
}

/// One section of a context package, with where it comes from.
#[derive(Debug, Clone, PartialEq, Eq)]
pub struct PlannedSection {
    pub title: String,
    pub text: String,
    pub priority: u32,
    pub required: bool,
    pub source_label: String,
    pub token_cost: u32,
    pub reason: String,
}

/// What a section holds.
pub struct SectionView {
    pub title: Seq<char>,
    pub text: Seq<char>,
    pub priority: u32,
    pub required: bool,
    pub source_label: Seq<char>,
    pub token_cost: u32,
    pub reason: Seq<char>,
}

impl View for PlannedSection {
    type V = SectionView;

    open spec fn view(&self) -> SectionView {
        SectionView {
            title: self.title@,
            text: self.text@,
            priority: self.priority,
            required: self.required,
            source_label: self.source_label@,
            token_cost: self.token_cost,
            reason: self.reason@,
        }
    }
}

/// The views of some sections.
pub open spec fn section_views(v: Seq<PlannedSection>) -> Seq<SectionView> {
    v.map_values(|s: PlannedSection| s@)
}

/// A section of a text with its title, priority, whether it is required and
/// its source label; it costs the text's token estimate.
pub open spec fn section_of(
    title: Seq<char>,
    text: Seq<char>,
    priority: u32,
    required: bool,
    label: Seq<char>,
) -> SectionView {
    SectionView {
        title,
        text,
        priority,
        required,
        source_label: label,
        token_cost: token_estimate(text.len()),
        reason: "按优先级 "@ + decimal(priority as nat) + " 装配"@,
    }
}

/// The sections of an assembly before the budget applies: the instruction
/// and the current scene, then the pinned settings (required), the
/// retrieved material and the session summaries, each numbered from one.
pub open spec fn planned_sections(
    instruction: Seq<char>,
    scene: Seq<char>,
    pinned: Seq<Seq<char>>,
    retrieved: Seq<Seq<char>>,
    summaries: Seq<Seq<char>>,
) -> Seq<SectionView> {
    seq![
        section_of("当前指令"@, instruction, 0, true, "用户当前输入"@),
        section_of("当前场景"@, scene, 1, true, "当前章节/场景"@),
    ] + Seq::new(
        pinned.len(),
        |i: int| section_of("钉选设定 "@ + decimal((i + 1) as nat), pinned[i], 2, true, "作者钉选"@),
    ) + Seq::new(
        retrieved.len(),
        |i: int|
            section_of(
                "检索材料 "@ + decimal((i + 1) as nat),
                retrieved[i],
                (10 + i) as u32,
                false,
                "混合检索"@,
            ),
    ) + Seq::new(
        summaries.len(),
        |i: int|
            section_of(
                "会话摘要 "@ + decimal((i + 1) as nat),
                summaries[i],
                (100 + i) as u32,
                false,
                "分层摘要"@,
            ),
    )
}

/// The total token cost of some sections.
pub open spec fn total_cost(secs: Seq<SectionView>) -> int
    decreases secs.len(),
{
    if secs.len() == 0 {
        0
    } else {
        total_cost(secs.drop_last()) + secs.last().token_cost
    }
}

/// The sections after the budget applies, in order, and the tokens used:
/// a section that is not required and would take the tokens used so far
/// past the budget keeps its place but loses its text; every other section
/// is kept and counts.
pub open spec fn budgeted(secs: Seq<SectionView>, budget: int) -> (int, Seq<SectionView>)
    decreases secs.len(),
{
    if secs.len() == 0 {
        (0, seq![])
    } else {
        let (used, out) = budgeted(secs.drop_last(), budget);
        let s = secs.last();
        if !s.required && used + s.token_cost > budget {
            (
                used,
                out.push(
                    SectionView {
                        title: s.title,
                        text: seq![],
                        priority: s.priority,
                        required: s.required,
                        source_label: s.source_label,
                        token_cost: s.token_cost,
                        reason: s.reason,
                    },
                ),
            )
        } else {
            (used + s.token_cost, out.push(s))
        }
    }
}

proof fn lemma_budget_used(secs: Seq<SectionView>, budget: int)
    ensures
        0 <= budgeted(secs, budget).0 <= total_cost(secs),
        budgeted(secs, budget).1.len() == secs.len(),
    decreases secs.len(),
{
    if secs.len() > 0 {
        lemma_budget_used(secs.drop_last(), budget);
    }
}

/// Where a section of a context package comes from: its label, the chapter
/// and revision it was read at (assembled sections name no chapter and
/// revision 0), its token cost and why it was included.
#[derive(Debug, Clone, PartialEq, Eq)]
pub struct ContextSource {
    pub label: String,
    pub chapter_id: Option<ChapterId>,
    pub revision: Option<Revision>,
    pub token_cost: u32,
    pub reason: String,
}

/// Whether `src` is the source an assembled section carries.
pub open spec fn source_of_section(src: ContextSource, s: SectionView) -> bool {
    &&& src.label@ == s.source_label
    &&& src.chapter_id is None
    &&& src.revision == Some(Revision(0))
    &&& src.token_cost == s.token_cost
    &&& src.reason@ == s.reason
}

/// What an assembly yields: the package's identifier, its budget, its
/// sections, their sources in the same order, and the place in the work it
/// was assembled for.
#[derive(Debug, Clone, PartialEq, Eq)]
pub struct ContextPlan {
    pub id: String,
    pub token_budget: u32,
    pub sections: Vec<PlannedSection>,
    pub sources: Vec<ContextSource>,
    pub work_ref: crate::domain::WorkContextRef,
}

fn sources_of(sections: &Vec<PlannedSection>) -> (r: Vec<ContextSource>)
    ensures
        r@.len() == sections@.len(),
        forall|i: int| 0 <= i < r@.len() ==> source_of_section(#[trigger] r@[i], sections@[i]@),
{
    let mut r: Vec<ContextSource> = Vec::new();
    let mut i: usize = 0;
    while i < sections.len()
        invariant
            i <= sections.len(),
            r@.len() == i,
            forall|t: int| 0 <= t < i ==> source_of_section(#[trigger] r@[t], sections@[t]@),
        decreases sections.len() - i,
    {
        let s = &sections[i];
        r.push(
            ContextSource {
                label: copy_string(&s.source_label),
                chapter_id: None,
                revision: Some(Revision(0)),
                token_cost: s.token_cost,
                reason: copy_string(&s.reason),
            },
        );
        i += 1;
    }
    r
}

fn push_section(
    sections: &mut Vec<PlannedSection>,
    title: Vec<char>,
    text: &str,
    priority: u32,
    required: bool,
    label: &str,
)
    ensures
        section_views(final(sections)@) == section_views(old(sections)@).push(
            section_of(title@, text@, priority, required, label@),
        ),
{
    let mut reason = chars_of("按优先级 ");
    let digits = decimal_chars(priority as u64);
    append_chars(&mut reason, digits.as_slice());
    append_str(&mut reason, " 装配");
    let section = PlannedSection {
        title: string_of(title.as_slice()),
        text: string_of(chars_of(text).as_slice()),
        priority,
        required,
        source_label: string_of(chars_of(label).as_slice()),
        token_cost: estimate_tokens(text),
        reason: string_of(reason.as_slice()),
    };
    let ghost before = section_views(sections@);
    let ghost sv = section@;
    sections.push(section);
    assert(section_views(sections@) =~= before.push(sv));
}

fn numbered(prefix: &str, n: usize) -> (r: Vec<char>)
    requires
        n < usize::MAX,
    ensures
        r@ == prefix@ + decimal((n + 1) as nat),
{
    let mut v = chars_of(prefix);
    let d = decimal_chars((n + 1) as u64);
    append_chars(&mut v, d.as_slice());
    v
}

/// Assembles the context for a request: the sections of `planned_sections`
/// under the token budget of `budgeted`, with the source of each section
/// listed in the same order; the package is named `ctx-` and the revision.
pub fn assemble_context(
    work_ref: crate::domain::WorkContextRef,
    instruction: &str,
    current_scene: &str,
    pinned: &Vec<String>,
    retrieved: &Vec<String>,
    session_summaries: &Vec<String>,
    options: AssemblyOptions,
) -> (r: ContextPlan)
    requires
        retrieved@.len() + 10 <= u32::MAX,
        session_summaries@.len() + 100 <= u32::MAX,
        total_cost(
            planned_sections(
                instruction@,
                current_scene@,
                string_views(pinned@),
                string_views(retrieved@),
                string_views(session_summaries@),
            ),
        ) <= u32::MAX,
    ensures
        r.id@ == "ctx-"@ + decimal(work_ref.revision.0 as nat),
        r.token_budget == options.token_budget,
        r.work_ref == work_ref,
        section_views(r.sections@) == budgeted(
            planned_sections(
                instruction@,
                current_scene@,
                string_views(pinned@),
                string_views(retrieved@),
                string_views(session_summaries@),
            ),
            options.token_budget as int,
        ).1,
        r.sources@.len() == r.sections@.len(),
        forall|i: int|
            0 <= i < r.sources@.len() ==> source_of_section(#[trigger] r.sources@[i], r.sections@[i]@),
{
    let ghost plan = planned_sections(
        instruction@,
        current_scene@,
        string_views(pinned@),
        string_views(retrieved@),
        string_views(session_summaries@),
    );
    let mut sections: Vec<PlannedSection> = Vec::new();
    push_section(&mut sections, chars_of("当前指令"), instruction, 0, true, "用户当前输入");
    push_section(&mut sections, chars_of("当前场景"), current_scene, 1, true, "当前章节/场景");
    let ghost head = section_views(sections@);
    let mut i: usize = 0;
    while i < pinned.len()
        invariant
            i <= pinned.len(),
            section_views(sections@) == head + Seq::new(
                i as nat,
                |k: int|
                    section_of(
                        "钉选设定 "@ + decimal((k + 1) as nat),
                        string_views(pinned@)[k],
                        2,
                        true,
                        "作者钉选"@,
                    ),
            ),
        decreases pinned.len() - i,
    {
        let title = numbered("钉选设定 ", i);
        let ghost before = section_views(sections@);
        push_section(&mut sections, title, pinned[i].as_str(), 2, true, "作者钉选");
        proof {
            assert(section_views(sections@) =~= head + Seq::new(
                (i + 1) as nat,
                |k: int|
                    section_of(
                        "钉选设定 "@ + decimal((k + 1) as nat),
                        string_views(pinned@)[k],
                        2,
                        true,
                        "作者钉选"@,
                    ),
            ));
        }
        i += 1;
    }
    let ghost head2 = section_views(sections@);
    let mut j: usize = 0;
    while j < retrieved.len()
        invariant
            j <= retrieved.len(),
            retrieved@.len() + 10 <= u32::MAX,
            section_views(sections@) == head2 + Seq::new(
                j as nat,
                |k: int|
                    section_of(
                        "检索材料 "@ + decimal((k + 1) as nat),
                        string_views(retrieved@)[k],
                        (10 + k) as u32,
                        false,
                        "混合检索"@,
                    ),
            ),
        decreases retrieved.len() - j,
    {
        let title = numbered("检索材料 ", j);
        let priority = 10 + j as u32;
        push_section(&mut sections, title, retrieved[j].as_str(), priority, false, "混合检索");
        proof {
            assert(section_views(sections@) =~= head2 + Seq::new(
                (j + 1) as nat,
                |k: int|
                    section_of(
                        "检索材料 "@ + decimal((k + 1) as nat),
                        string_views(retrieved@)[k],
                        (10 + k) as u32,
                        false,
                        "混合检索"@,
                    ),
            ));
        }
        j += 1;
    }
    let ghost head3 = section_views(sections@);
    let mut k: usize = 0;
    while k < session_summaries.len()
        invariant
            k <= session_summaries.len(),
            session_summaries@.len() + 100 <= u32::MAX,
            section_views(sections@) == head3 + Seq::new(
                k as nat,
                |t: int|
                    section_of(
                        "会话摘要 "@ + decimal((t + 1) as nat),
                        string_views(session_summaries@)[t],
                        (100 + t) as u32,
                        false,
                        "分层摘要"@,
                    ),
            ),
        decreases session_summaries.len() - k,
    {
        let title = numbered("会话摘要 ", k);
        let priority = 100 + k as u32;
        push_section(&mut sections, title, session_summaries[k].as_str(), priority, false, "分层摘要");
        proof {
            assert(section_views(sections@) =~= head3 + Seq::new(
                (k + 1) as nat,
                |t: int|
                    section_of(
                        "会话摘要 "@ + decimal((t + 1) as nat),
                        string_views(session_summaries@)[t],
                        (100 + t) as u32,
                        false,
                        "分层摘要"@,
                    ),
            ));
        }
        k += 1;
    }
    assert(section_views(sections@) =~= plan);
    // the budget pass
    let budget = options.token_budget;
    let n = sections.len();
    let mut used: u32 = 0;
    let mut m: usize = 0;
    while m < n
        invariant
            m <= n == sections.len(),
            plan.len() == n,
            total_cost(plan) <= u32::MAX,
            used == budgeted(plan.take(m as int), budget as int).0,
            forall|t: int|
                0 <= t < m ==> #[trigger] section_views(sections@)[t] == budgeted(
                    plan.take(m as int),
                    budget as int,
                ).1[t],
            forall|t: int| m <= t < n ==> #[trigger] section_views(sections@)[t] == plan[t],
        decreases n - m,
    {
        proof {
            assert(plan.take(m + 1).drop_last() =~= plan.take(m as int));
            assert(plan.take(m + 1).last() == plan[m as int]);
            lemma_budget_used(plan.take(m as int), budget as int);
            lemma_total_cost_prefix(plan, m + 1);
            assert(section_views(sections@)[m as int] == plan[m as int]);
        }
        let cost = sections[m].token_cost;
        let required = sections[m].required;
        let ghost s0 = sections@;
        if !required && used + cost > budget {
            let mut s = sections.remove(m);
            s.text = String::new();
            let ghost gs = s;
            sections.insert(m, s);
            proof {
                assert(sections@ =~= s0.update(m as int, gs));
            }
        } else {
            used = used + cost;
        }
        proof {
            lemma_budget_used(plan.take(m + 1), budget as int);
            assert forall|t: int| 0 <= t < m + 1 implies #[trigger] section_views(sections@)[t]
                == budgeted(plan.take(m + 1), budget as int).1[t] by {
                if t < m {
                    assert(section_views(sections@)[t] == section_views(s0)[t]);
                }
            }
            assert forall|t: int| m + 1 <= t < n implies #[trigger] section_views(sections@)[t]
                == plan[t] by {
                assert(section_views(sections@)[t] == section_views(s0)[t]);
            }
        }
        m += 1;
    }
    proof {
        assert(plan.take(n as int) =~= plan);
        lemma_budget_used(plan, budget as int);
        assert(section_views(sections@) =~= budgeted(plan, budget as int).1);
    }
    let mut id = chars_of("ctx-");
    let digits = decimal_chars(work_ref.revision.0);
    append_chars(&mut id, digits.as_slice());
    let sources = sources_of(&sections);
    ContextPlan {
        id: string_of(id.as_slice()),
        token_budget: budget,
        sections,
        sources,
        work_ref,
    }
}

proof fn lemma_total_cost_prefix(secs: Seq<SectionView>, k: int)
    requires
        0 <= k <= secs.len(),
    ensures
        total_cost(secs.take(k)) <= total_cost(secs),
    decreases secs.len() - k,
{
    if k < secs.len() {
        lemma_total_cost_prefix(secs, k + 1);
        assert(secs.take(k + 1).drop_last() =~= secs.take(k));
    } else {
        assert(secs.take(k) =~= secs);
    }
}

// ---------------------------------------------------------------------------
// Lexical search
// ---------------------------------------------------------------------------

/// A document a lexical search can find.
#[derive(Debug, Clone, PartialEq, Eq)]
pub struct SearchDocument {
    pub id: String,
    pub title: String,
    pub body: String,
}

/// A document a lexical search found, with the query terms it contains;
/// their number is the document's score.
#[derive(Debug, Clone, PartialEq, Eq)]
pub struct SearchHit {
    pub document_id: String,
    pub matched_terms: Vec<String>,
}

/// What a hit holds.
pub struct HitView {
    pub document_id: Seq<char>,
    pub matched_terms: Seq<Seq<char>>,
}

impl View for SearchHit {
    type V = HitView;

    open spec fn view(&self) -> HitView {
        HitView { document_id: self.document_id@, matched_terms: string_views(self.matched_terms@) }
    }
}

/// The views of some hits.
pub open spec fn hit_views(v: Seq<SearchHit>) -> Seq<HitView> {
    v.map_values(|h: SearchHit| h@)
}

/// The pairs of consecutive characters of the query that are not both blank.
pub open spec fn bigrams(q: Seq<char>) -> Seq<Seq<char>>
    decreases q.len(),
{
    if q.len() < 2 {
        seq![]
    } else {
        let rest = bigrams(q.drop_last());
        let a = q[q.len() - 2];
        let b = q.last();
        if is_white_space(a) && is_white_space(b) {
            rest
        } else {
            rest.push(seq![a, b])
        }
    }
}

/// The terms of a lexical query: its words, then its bigrams.
pub open spec fn search_terms(q: Seq<char>) -> Seq<Seq<char>> {
    words(q) + bigrams(q)
}

/// The terms that occur in a document's title or body, in order, repeats kept.
pub open spec fn matched_in(terms: Seq<Seq<char>>, title: Seq<char>, body: Seq<char>) -> Seq<Seq<char>>
    decreases terms.len(),
{
    if terms.len() == 0 {
        seq![]
    } else {
        let rest = matched_in(terms.drop_last(), title, body);
        let t = terms.last();
        if contains_seq(title, t) || contains_seq(body, t) {
            rest.push(t)
        } else {
            rest
        }
    }
}

/// The documents that contain at least one term, in order, with their terms.
pub open spec fn raw_hits(docs: Seq<SearchDocument>, terms: Seq<Seq<char>>) -> Seq<HitView>
    decreases docs.len(),
{
    if docs.len() == 0 {
        seq![]
    } else {
        let rest = raw_hits(docs.drop_last(), terms);
        let d = docs.last();
        let m = matched_in(terms, d.title@, d.body@);
        if m.len() > 0 {
            rest.push(HitView { document_id: d.id@, matched_terms: m })
        } else {
            rest
        }
    }
}

/// Where a hit with `n` terms goes into hits already ordered by score so
/// that the order is stable: after every hit with at least as many terms.
pub open spec fn score_insertion_point(s: Seq<HitView>, n: nat) -> int
    decreases s.len(),
{
    if s.len() == 0 {
        0
    } else if s[0].matched_terms.len() < n {
        0
    } else {
        1 + score_insertion_point(s.drop_first(), n)
    }
}

/// The hits stably ordered by score, highest first.
pub open spec fn sorted_by_score(s: Seq<HitView>) -> Seq<HitView>
    decreases s.len(),
{
    if s.len() == 0 {
        s
    } else {
        let t = sorted_by_score(s.drop_last());
        t.insert(score_insertion_point(t, s.last().matched_terms.len()), s.last())
    }
}

proof fn lemma_score_insertion_point(s: Seq<HitView>, n: nat)
    requires
        forall|i: int, j: int|
            0 <= i <= j < s.len() ==> s[i].matched_terms.len() >= s[j].matched_terms.len(),
    ensures
        0 <= score_insertion_point(s, n) <= s.len(),
        forall|k: int| 0 <= k < score_insertion_point(s, n) ==> s[k].matched_terms.len() >= n,
        forall|k: int|
            score_insertion_point(s, n) <= k < s.len() ==> s[k].matched_terms.len() < n,
    decreases s.len(),
{
    if s.len() > 0 && s[0].matched_terms.len() >= n {
        let t = s.drop_first();
        assert forall|i: int, j: int| 0 <= i <= j < t.len() implies t[i].matched_terms.len()
            >= t[j].matched_terms.len() by {
            assert(t[i] == s[i + 1] && t[j] == s[j + 1]);
        }
        lemma_score_insertion_point(t, n);
        assert forall|k: int| 0 <= k < score_insertion_point(s, n) implies s[k].matched_terms.len()
            >= n by {
            if k > 0 {
                assert(s[k] == t[k - 1]);
            }
        }
        assert forall|k: int| score_insertion_point(s, n) <= k < s.len() implies s[k].matched_terms.len()
            < n by {
            assert(s[k] == t[k - 1]);
        }
    }
}

/// Ranking hits by score puts them in non-increasing order of their number
/// of matched terms, and keeps the same hits, each as often.
pub proof fn lemma_sorted_by_score(s: Seq<HitView>)
    ensures
        forall|i: int, j: int|
            0 <= i < j < sorted_by_score(s).len() ==> sorted_by_score(s)[i].matched_terms.len()
                >= sorted_by_score(s)[j].matched_terms.len(),
        sorted_by_score(s).to_multiset() =~= s.to_multiset(),
        sorted_by_score(s).len() == s.len(),
    decreases s.len(),
{
    broadcast use vstd::seq_lib::group_to_multiset_ensures;

    if s.len() > 0 {
        let t = sorted_by_score(s.drop_last());
        lemma_sorted_by_score(s.drop_last());
        let x = s.last();
        let n = x.matched_terms.len();
        let ip = score_insertion_point(t, n);
        assert forall|i: int, j: int| 0 <= i <= j < t.len() implies t[i].matched_terms.len()
            >= t[j].matched_terms.len() by {
            if i < j {
            }
        }
        lemma_score_insertion_point(t, n);
        let u = t.insert(ip, x);
        assert forall|i: int, j: int| 0 <= i < j < u.len() implies u[i].matched_terms.len()
            >= u[j].matched_terms.len() by {
            if i < ip && j < ip {
            } else if i < ip && j == ip {
            } else if i < ip {
                assert(u[j] == t[j - 1]);
            } else if i == ip && j > ip {
                assert(u[j] == t[j - 1]);
            } else if i > ip {
                assert(u[i] == t[i - 1] && u[j] == t[j - 1]);
            }
        }
        assert(u.remove(ip) =~= t);
        assert(s.drop_last().push(x) =~= s);
        assert(u.to_multiset().count(x) > 0) by {
            assert(u[ip] == x);
            assert(u.contains(x));
        }
        assert(u.to_multiset() =~= t.to_multiset().insert(x));
    }
}

/// Every document that `raw_hits` reports matched at least one term.
proof fn lemma_raw_hits_nonempty(docs: Seq<SearchDocument>, terms: Seq<Seq<char>>)
    ensures
        forall|k: int| 0 <= k < raw_hits(docs, terms).len() ==> raw_hits(docs, terms)[k].matched_terms.len() > 0,
    decreases docs.len(),
{
    if docs.len() > 0 {
        lemma_raw_hits_nonempty(docs.drop_last(), terms);
        let rest = raw_hits(docs.drop_last(), terms);
        let r = raw_hits(docs, terms);
        assert forall|k: int| 0 <= k < r.len() implies r[k].matched_terms.len() > 0 by {
            if k < rest.len() {
                assert(r[k] == rest[k]);
            }
        }
    }
}

fn query_bigrams(q: &[char]) -> (r: Vec<Vec<char>>)
    ensures
        crate::hints::char_views(r@) == bigrams(q@),
{
    let mut r: Vec<Vec<char>> = Vec::new();
    if q.len() < 2 {
        assert(crate::hints::char_views(r@) =~= seq![]);
        return r;
    }
    assert(crate::hints::char_views(r@) =~= bigrams(q@.take(1)));
    let mut i: usize = 1;
    while i < q.len()
        invariant
            1 <= i <= q.len(),
            crate::hints::char_views(r@) == bigrams(q@.take(i as int)),
        decreases q.len() - i,
    {
        proof {
            let t = q@.take(i + 1);
            assert(t.drop_last() =~= q@.take(i as int));
            assert(t[t.len() - 2] == q@[i - 1]);
            assert(t.last() == q@[i as int]);
        }
        let a = q[i - 1];
        let b = q[i];
        if !(crate::text::white_space(a) && crate::text::white_space(b)) {
            let mut w: Vec<char> = Vec::new();
            w.push(a);
            w.push(b);
            let ghost before = crate::hints::char_views(r@);
            proof {
                assert(w@ =~= seq![a, b]);
            }
            let ghost wv = w@;
            r.push(w);
            proof {
                assert(crate::hints::char_views(r@) =~= before.push(wv));
            }
        }
        i += 1;
    }
    assert(q@.take(q.len() as int) =~= q@);
    r
}

/// Finds the documents that contain terms of the query (its words and its
/// bigrams) in their title or body, highest score first (stably); see
/// `raw_hits` and `sorted_by_score`.
pub fn lexical_hits(documents: &Vec<SearchDocument>, query: &str) -> (r: Vec<SearchHit>)
    ensures
        hit_views(r@) == sorted_by_score(raw_hits(documents@, search_terms(query@))),
        forall|i: int, j: int|
            0 <= i < j < r.len() ==> r@[i].matched_terms.len() >= r@[j].matched_terms.len(),
        forall|k: int| 0 <= k < r.len() ==> r@[k].matched_terms.len() > 0,
        r.len() == raw_hits(documents@, search_terms(query@)).len(),
{
    let q = chars_of(query);
    let mut terms = crate::text::split_words(q.as_slice());
    let ghost wv = crate::hints::char_views(terms@);
    let bi = query_bigrams(q.as_slice());
    let mut b: usize = 0;
    proof {
        assert(terms@.map_values(|w: Vec<char>| w@) =~= crate::hints::char_views(terms@));
        assert(bi@.take(0) =~= seq![]);
    }
    while b < bi.len()
        invariant
            b <= bi.len(),
            crate::hints::char_views(terms@) == wv + crate::hints::char_views(bi@).take(b as int),
        decreases bi.len() - b,
    {
        let w = slice_to_vec(bi[b].as_slice(), 0, bi[b].len());
        assert(w@ =~= bi@[b as int]@);
        let ghost before = crate::hints::char_views(terms@);
        terms.push(w);
        proof {
            assert(crate::hints::char_views(terms@) =~= before.push(bi@[b as int]@));
            assert(crate::hints::char_views(bi@).take(b + 1) =~= crate::hints::char_views(bi@).take(
                b as int,
            ).push(bi@[b as int]@));
        }
        b += 1;
    }
    let ghost tv = crate::hints::char_views(terms@);
    assert(crate::hints::char_views(bi@).take(bi.len() as int) =~= crate::hints::char_views(bi@));
    assert(tv == search_terms(query@));
    let mut hits: Vec<SearchHit> = Vec::new();
    let mut d: usize = 0;
    while d < documents.len()
        invariant
            d <= documents.len(),
            tv == crate::hints::char_views(terms@),
            hit_views(hits@) == sorted_by_score(raw_hits(documents@.take(d as int), tv)),
        decreases documents.len() - d,
    {
        proof {
            assert(documents@.take(d + 1).drop_last() =~= documents@.take(d as int));
            assert(documents@.take(d + 1).last() == documents@[d as int]);
        }
        let doc = &documents[d];
        let title = chars_of(doc.title.as_str());
        let body = chars_of(doc.body.as_str());
        let mut matched: Vec<String> = Vec::new();
        let mut t: usize = 0;
        while t < terms.len()
            invariant
                t <= terms.len(),
                tv == crate::hints::char_views(terms@),
                title@ == doc.title@,
                body@ == doc.body@,
                string_views(matched@) == matched_in(tv.take(t as int), title@, body@),
            decreases terms.len() - t,
        {
            proof {
                assert(tv.take(t + 1).drop_last() =~= tv.take(t as int));
                assert(tv.take(t + 1).last() == terms@[t as int]@);
            }
            if contains_chars(title.as_slice(), terms[t].as_slice()) || contains_chars(
                body.as_slice(),
                terms[t].as_slice(),
            ) {
                let ghost before = string_views(matched@);
                matched.push(string_of(terms[t].as_slice()));
                proof {
                    assert(string_views(matched@) =~= before.push(terms@[t as int]@));
                }
            }
            t += 1;
        }
        assert(tv.take(terms.len() as int) =~= tv);
        let ghost m = matched_in(tv, doc.title@, doc.body@);
        assert(string_views(matched@) == m);
        let ghost prev = raw_hits(documents@.take(d as int), tv);
        assert(raw_hits(documents@.take(d + 1), tv) == (if m.len() > 0 {
            prev.push(HitView { document_id: doc.id@, matched_terms: m })
        } else {
            prev
        }));
        if matched.len() > 0 {
            let hit = SearchHit { document_id: copy_string(&doc.id), matched_terms: matched };
            let n = hit.matched_terms.len();
            let mut j: usize = 0;
            assert(hit_views(hits@).skip(0) =~= hit_views(hits@));
            while j < hits.len() && hits[j].matched_terms.len() >= n
                invariant
                    j <= hits.len(),
                    score_insertion_point(hit_views(hits@), n as nat) == j + score_insertion_point(
                        hit_views(hits@).skip(j as int),
                        n as nat,
                    ),
                decreases hits.len() - j,
            {
                proof {
                    let s = hit_views(hits@).skip(j as int);
                    assert(s.drop_first() =~= hit_views(hits@).skip(j + 1));
                    assert(s[0] == hits@[j as int]@);
                }
                j += 1;
            }
            proof {
                let s = hit_views(hits@).skip(j as int);
                if j < hits.len() {
                    assert(s[0] == hits@[j as int]@);
                }
            }
            let ghost before = hit_views(hits@);
            let ghost hv = hit@;
            assert(hv == HitView { document_id: doc.id@, matched_terms: m });
            assert(prev.push(hv).drop_last() =~= prev);
            assert(hv.matched_terms.len() == n);
            hits.insert(j, hit);
            proof {
                assert(hit_views(hits@) =~= before.insert(j as int, hv));
                assert(sorted_by_score(prev.push(hv)) == before.insert(j as int, hv));
            }
        }
        d += 1;
    }
    assert(documents@.take(documents.len() as int) =~= documents@);
    proof {
        broadcast use vstd::seq_lib::group_to_multiset_ensures;

        let raw = raw_hits(documents@, tv);
        lemma_sorted_by_score(raw);
        lemma_raw_hits_nonempty(documents@, tv);
        let hv = hit_views(hits@);
        assert(hv.len() == hits.len());
        assert forall|i: int, j: int| 0 <= i < j < hits.len() implies hits@[i].matched_terms.len()
            >= hits@[j].matched_terms.len() by {
            assert(hv[i] == hits@[i]@ && hv[j] == hits@[j]@);
        }
        assert forall|k: int| 0 <= k < hits.len() implies hits@[k].matched_terms.len() > 0 by {
            assert(hv[k] == hits@[k]@);
            assert(hv.contains(hv[k]));
            assert(raw.to_multiset().count(hv[k]) > 0);
            assert(raw.contains(hv[k]));
        }
    }
    hits
}

// ---------------------------------------------------------------------------
// Laws of context assembly
// ---------------------------------------------------------------------------

/// The tokens of the required sections.
pub open spec fn required_cost(secs: Seq<SectionView>) -> int
    decreases secs.len(),
{
    if secs.len() == 0 {
        0
    } else {
        required_cost(secs.drop_last()) + if secs.last().required {
            secs.last().token_cost as int
        } else {
            0
        }
    }
}

/// Whether every required section comes before every optional one.
pub open spec fn required_first(secs: Seq<SectionView>) -> bool {
    forall|i: int, j: int| 0 <= i < j < secs.len() && #[trigger] secs[j].required ==> #[trigger] secs[i].required
}

proof fn lemma_all_required_used(secs: Seq<SectionView>, budget: int)
    requires
        forall|i: int| 0 <= i < secs.len() ==> #[trigger] secs[i].required,
    ensures
        budgeted(secs, budget).0 == required_cost(secs),
    decreases secs.len(),
{
    if secs.len() > 0 {
        lemma_all_required_used(secs.drop_last(), budget);
    }
}

/// The budget pass keeps every section in its place with its title,
/// priority, cost and source; a required section keeps its text, an
/// optional one keeps it or loses all of it.
pub proof fn lemma_budget_keeps_places(secs: Seq<SectionView>, budget: int)
    ensures
        budgeted(secs, budget).1.len() == secs.len(),
        forall|i: int|
            0 <= i < secs.len() ==> {
                let o = #[trigger] budgeted(secs, budget).1[i];
                &&& o.title == secs[i].title
                &&& o.priority == secs[i].priority
                &&& o.required == secs[i].required
                &&& o.token_cost == secs[i].token_cost
                &&& o.source_label == secs[i].source_label
                &&& (secs[i].required ==> o.text == secs[i].text)
                &&& (o.text == secs[i].text || o.text.len() == 0)
            },
    decreases secs.len(),
{
    if secs.len() > 0 {
        lemma_budget_keeps_places(secs.drop_last(), budget);
        let (used, out) = budgeted(secs.drop_last(), budget);
        let o = budgeted(secs, budget).1;
        assert forall|i: int| 0 <= i < secs.len() implies {
            let x = #[trigger] budgeted(secs, budget).1[i];
            &&& x.title == secs[i].title
            &&& x.priority == secs[i].priority
            &&& x.required == secs[i].required
            &&& x.token_cost == secs[i].token_cost
            &&& x.source_label == secs[i].source_label
            &&& (secs[i].required ==> x.text == secs[i].text)
            &&& (x.text == secs[i].text || x.text.len() == 0)
        } by {
            if i < secs.len() - 1 {
                assert(o[i] == out[i]);
                assert(secs[i] == secs.drop_last()[i]);
            }
        }
    }
}

/// When the required sections come first, the tokens a package uses stay
/// within its budget, unless the required sections alone exceed it, in
/// which case they are all it uses.
pub proof fn lemma_budget_respected(secs: Seq<SectionView>, budget: int)
    requires
        required_first(secs),
        budget >= 0,
    ensures
        budgeted(secs, budget).0 <= budget || budgeted(secs, budget).0 == required_cost(secs),
    decreases secs.len(),
{
    if secs.len() > 0 {
        let p = secs.drop_last();
        assert(required_first(p)) by {
            assert forall|i: int, j: int| 0 <= i < j < p.len() && #[trigger] p[j].required implies #[trigger] p[i].required by {
                assert(p[i] == secs[i] && p[j] == secs[j]);
            }
        }
        lemma_budget_respected(p, budget);
        if secs.last().required {
            assert forall|i: int| 0 <= i < p.len() implies #[trigger] p[i].required by {
                assert(p[i] == secs[i]);
                assert(secs[secs.len() - 1].required);
            }
            lemma_all_required_used(p, budget);
        }
    }
}

/// The sections an assembly plans put the required ones (the instruction,
/// the scene and the pinned settings) first.
pub proof fn lemma_planned_required_first(
    instruction: Seq<char>,
    scene: Seq<char>,
    pinned: Seq<Seq<char>>,
    retrieved: Seq<Seq<char>>,
    summaries: Seq<Seq<char>>,
)
    ensures
        required_first(planned_sections(instruction, scene, pinned, retrieved, summaries)),
{
    let s = planned_sections(instruction, scene, pinned, retrieved, summaries);
    let k = 2 + pinned.len();
    assert forall|i: int| 0 <= i < s.len() implies (#[trigger] s[i].required <==> i < k) by {
    }
}

/// What the budget pass makes of section `k`: an optional section that
/// would take the tokens used before it (`used`) past the budget loses its
/// text; every other section stays as it is.
pub open spec fn budget_step(s: SectionView, used: int, budget: int) -> SectionView {
    if !s.required && used + s.token_cost > budget {
        SectionView {
            title: s.title,
            text: seq![],
            priority: s.priority,
            required: s.required,
            source_label: s.source_label,
            token_cost: s.token_cost,
            reason: s.reason,
        }
    } else {
        s
    }
}

proof fn lemma_budgeted_at(secs: Seq<SectionView>, budget: int)
    ensures
        budgeted(secs, budget).1.len() == secs.len(),
        forall|k: int|
            0 <= k < secs.len() ==> #[trigger] budgeted(secs, budget).1[k] == budget_step(
                secs[k],
                budgeted(secs.take(k), budget).0,
                budget,
            ),
    decreases secs.len(),
{
    lemma_budget_used(secs, budget);
    if secs.len() > 0 {
        let p = secs.drop_last();
        lemma_budgeted_at(p, budget);
        assert(secs.take(secs.len() - 1) =~= p);
        assert forall|k: int| 0 <= k < secs.len() implies #[trigger] budgeted(secs, budget).1[k]
            == budget_step(secs[k], budgeted(secs.take(k), budget).0, budget) by {
            if k < secs.len() - 1 {
                assert(secs.take(k) =~= p.take(k));
                assert(budgeted(secs, budget).1[k] == budgeted(p, budget).1[k]);
                assert(p[k] == secs[k]);
            }
        }
    }
}

/// An assembled package has one section for the instruction, one for the
/// scene and one for each pinned setting, retrieved text and session
/// summary, in that order. The instruction, the scene and the pinned
/// settings are required and keep their text; every other section loses
/// its text exactly when the tokens used by the sections before it, plus
/// its own cost, exceed the budget. The tokens used stay within the budget
/// or, when the required sections alone exceed it, are theirs.
pub proof fn lemma_assembly_shape(
    instruction: Seq<char>,
    scene: Seq<char>,
    pinned: Seq<Seq<char>>,
    retrieved: Seq<Seq<char>>,
    summaries: Seq<Seq<char>>,
    budget: int,
)
    requires
        budget >= 0,
    ensures
        ({
            let secs = planned_sections(instruction, scene, pinned, retrieved, summaries);
            let out = budgeted(secs, budget).1;
            &&& out.len() == 2 + pinned.len() + retrieved.len() + summaries.len()
            &&& forall|k: int|
                0 <= k < out.len() ==> (#[trigger] out[k]).required == (k < 2 + pinned.len())
            &&& forall|k: int| 0 <= k < 2 + pinned.len() ==> (#[trigger] out[k]).text == secs[k].text
            &&& forall|k: int|
                2 + pinned.len() <= k < out.len() ==> (#[trigger] out[k]).text == if budgeted(
                    secs.take(k),
                    budget,
                ).0 + secs[k].token_cost > budget {
                    Seq::<char>::empty()
                } else {
                    secs[k].text
                }
            &&& budgeted(secs, budget).0 <= budget || budgeted(secs, budget).0 == required_cost(secs)
        }),
{
    let secs = planned_sections(instruction, scene, pinned, retrieved, summaries);
    lemma_budgeted_at(secs, budget);
    lemma_planned_required_first(instruction, scene, pinned, retrieved, summaries);
    lemma_budget_respected(secs, budget);
    let k0 = 2 + pinned.len();
    assert forall|i: int| 0 <= i < secs.len() implies (#[trigger] secs[i].required <==> i < k0) by {}
}
} // verus!
