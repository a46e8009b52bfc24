//! The work hierarchy and the block-level content model.
use vstd::prelude::*;
use crate::ids::{AnnotationId, BlockId, BookId, ChapterId, ProjectId, Revision, SceneId, VolumeId};
use crate::text::{append_str, chars_of, join, join_chars, string_of};

verus! {

/// A book of a project.
#[derive(Debug, Clone, PartialEq)]
pub struct Book {
    pub id: BookId,
    pub project_id: ProjectId,
    pub title: String,
    pub synopsis: String,
    pub position: u32,
}

/// An optional volume that groups chapters of a book.
#[derive(Debug, Clone, PartialEq)]
pub struct Volume {
    pub id: VolumeId,
    pub book_id: BookId,
    pub title: String,
    pub position: u32,
}

/// The life-cycle state of a chapter.
#[derive(Debug, Clone, Copy, PartialEq, Eq, Structural)]
pub enum ChapterStatus {
    Draft,
    Completed,
    Archived,
}

/// A chapter of a book, optionally inside a volume.
#[derive(Debug, Clone, PartialEq)]
pub struct Chapter {
    pub id: ChapterId,
    pub book_id: BookId,
    pub volume_id: Option<VolumeId>,
    pub title: String,
    pub position: u32,
    pub current_revision: Revision,
    pub status: ChapterStatus,
}

/// A scene heading written ahead inside a chapter; it does not replace the
/// body text. `pov_entry_id` optionally names a character entry.
#[derive(Debug, Clone, PartialEq)]
pub struct Scene {
    pub id: SceneId,
    pub chapter_id: ChapterId,
    pub title: String,
    pub position: u32,
    pub pov_entry_id: Option<String>,
}

/// A chapter's text together with its block sequence.
#[derive(Debug, Clone, PartialEq)]
pub struct ChapterBody {
    pub chapter_id: String,
    pub revision: u64,
    pub text: String,
    pub blocks: Vec<ContentBlock>,
}

/// How a snapshot stores its content.
#[derive(Debug, Clone, Copy, PartialEq, Eq, Structural)]
pub enum ContentFormat {
    PlainText,
    StructuredAst,
}

/// A body block holds text the reader sees; a thinking block holds the
/// author's decision for the next beat.
#[derive(Debug, Clone, Copy, PartialEq, Eq, Structural)]
pub enum BlockKind {
    Body,
    Thinking,
}

/// A reference inside a thinking block to a task, a setting, a story tag
/// the author put on a name (its kind and label), or a custom tag.
#[derive(Debug, Clone, PartialEq)]
pub enum MarkupRef {
    Task { id: String, label: String, status: String },
    Setting { entity_path: String, field: String, value: String },
    Tag { id: String, kind: String, label: String, note: String },
    Custom { tag: String, body: String },
}

/// The text content of a markup reference.
pub enum MarkupView {
    Task { id: Seq<char>, label: Seq<char>, status: Seq<char> },
    Setting { entity_path: Seq<char>, field: Seq<char>, value: Seq<char> },
    Tag { id: Seq<char>, kind: Seq<char>, label: Seq<char>, note: Seq<char> },
    Custom { tag: Seq<char>, body: Seq<char> },
}

impl View for MarkupRef {
    type V = MarkupView;

    open spec fn view(&self) -> MarkupView {
        match self {
            MarkupRef::Task { id, label, status } => MarkupView::Task {
                id: id@,
                label: label@,
                status: status@,
            },
            MarkupRef::Setting { entity_path, field, value } => MarkupView::Setting {
                entity_path: entity_path@,
                field: field@,
                value: value@,
            },
            MarkupRef::Tag { id, kind, label, note } => MarkupView::Tag {
                id: id@,
                kind: kind@,
                label: label@,
                note: note@,
            },
            MarkupRef::Custom { tag, body } => MarkupView::Custom { tag: tag@, body: body@ },
        }
    }
}

/// The plain-text summary of a markup reference, as embedded in exported thinking.
pub open spec fn markup_summary(m: MarkupView) -> Seq<char> {
    match m {
        MarkupView::Task { label, status, .. } => "任务["@ + status + "]: "@ + label,
        MarkupView::Setting { entity_path, field, value } => "设定 "@ + entity_path + "."@ + field
            + " = "@ + value,
        MarkupView::Tag { kind, label, .. } => "@"@ + kind + "："@ + label,
        MarkupView::Custom { tag, body } => "标记 "@ + tag + ": "@ + body,
    }
}

impl MarkupRef {
    /// The plain-text summary of the reference.
    pub fn summary(&self) -> (r: String)
        ensures
            r@ == markup_summary(self@),
    {
        string_of(self.summary_chars().as_slice())
    }

    /// The summary as characters.
    pub fn summary_chars(&self) -> (r: Vec<char>)
        ensures
            r@ == markup_summary(self@),
    {
        let mut v: Vec<char> = Vec::new();
        match self {
            MarkupRef::Task { label, status, .. } => {
                append_str(&mut v, "任务[");
                append_str(&mut v, status.as_str());
                append_str(&mut v, "]: ");
                append_str(&mut v, label.as_str());
            },
            MarkupRef::Setting { entity_path, field, value } => {
                append_str(&mut v, "设定 ");
                append_str(&mut v, entity_path.as_str());
                append_str(&mut v, ".");
                append_str(&mut v, field.as_str());
                append_str(&mut v, " = ");
                append_str(&mut v, value.as_str());
            },
            MarkupRef::Tag { kind, label, .. } => {
                append_str(&mut v, "@");
                append_str(&mut v, kind.as_str());
                append_str(&mut v, "：");
                append_str(&mut v, label.as_str());
            },
            MarkupRef::Custom { tag, body } => {
                append_str(&mut v, "标记 ");
                append_str(&mut v, tag.as_str());
                append_str(&mut v, ": ");
                append_str(&mut v, body.as_str());
            },
        }
        v
    }
}

/// A structured content block, the smallest unit of the block writing model.
#[derive(Debug, Clone, PartialEq)]
pub struct ContentBlock {
    pub id: BlockId,
    pub kind: BlockKind,
    pub text: String,
    pub position: u32,
    pub markup: Vec<MarkupRef>,
}

/// What the writing protocol reads of a block.
pub struct BlockView {
    pub id: BlockId,
    pub kind: BlockKind,
    pub text: Seq<char>,
    pub position: u32,
    pub markup: Seq<MarkupView>,
}

impl View for ContentBlock {
    type V = BlockView;

    open spec fn view(&self) -> BlockView {
        BlockView {
            id: self.id,
            kind: self.kind,
            text: self.text@,
            position: self.position,
            markup: self.markup@.map_values(|m: MarkupRef| m@),
        }
    }
}

/// The views of a sequence of blocks.
pub open spec fn block_views(blocks: Seq<ContentBlock>) -> Seq<BlockView> {
    blocks.map_values(|b: ContentBlock| b@)
}

/// A snapshot of a chapter as a block sequence. `created_at_ms` is the
/// creation instant in milliseconds since the Unix epoch.
#[derive(Debug, Clone, PartialEq)]
pub struct BlockSequence {
    pub chapter_id: ChapterId,
    pub revision: Revision,
    pub blocks: Vec<ContentBlock>,
    pub created_at_ms: i64,
}

/// The texts of the body blocks among `blocks`, in order.
pub open spec fn body_texts(blocks: Seq<BlockView>) -> Seq<Seq<char>>
    decreases blocks.len(),
{
    if blocks.len() == 0 {
        seq![]
    } else {
        let rest = body_texts(blocks.drop_last());
        if blocks.last().kind == BlockKind::Body {
            rest.push(blocks.last().text)
        } else {
            rest
        }
    }
}

impl BlockSequence {
    /// The reader-visible text: body blocks joined by newlines; thinking
    /// blocks and markup are left out.
    pub fn body_text(&self) -> (r: String)
        ensures
            r@ == join(body_texts(block_views(self.blocks@)), seq!['\n']),
    {
        let mut parts: Vec<Vec<char>> = Vec::new();
        let ghost views = block_views(self.blocks@);
        let mut i: usize = 0;
        while i < self.blocks.len()
            invariant
                i <= self.blocks.len(),
                views == block_views(self.blocks@),
                parts@.len() == body_texts(views.take(i as int)).len(),
                forall|k: int|
                    0 <= k < parts@.len() ==> #[trigger] parts@[k]@ == body_texts(
                        views.take(i as int),
                    )[k],
            decreases self.blocks.len() - i,
        {
            proof {
                assert(views.take(i + 1).drop_last() =~= views.take(i as int));
            }
            if self.blocks[i].kind == BlockKind::Body {
                parts.push(chars_of(self.blocks[i].text.as_str()));
            }
            i += 1;
        }
        proof {
            assert(views.take(self.blocks.len() as int) =~= views);
            assert(parts@.map_values(|p: Vec<char>| p@) =~= body_texts(views));
        }
        let nl = ['\n'];
        let joined = join_chars(&parts, &nl);
        proof {
            assert(nl@ =~= seq!['\n']);
        }
        string_of(joined.as_slice())
    }
}

/// A text edit on a block.
#[derive(Debug, Clone, PartialEq, Eq)]
pub enum TextOperation {
    Insert { block_id: BlockId, offset: u32, text: String },
    Delete { block_id: BlockId, offset: u32, length: u32 },
    CreateBlock { block_id: BlockId, parent: Option<BlockId>, position: u32, text: String },
}

/// Where an annotation is anchored.
#[derive(Debug, Clone, PartialEq)]
pub struct AnnotationAnchor {
    pub block_id: BlockId,
    pub base_revision: Revision,
    pub start_offset: u32,
    pub end_offset: u32,
    pub quote: String,
    pub prefix: String,
    pub suffix: String,
}

/// The kind of an annotation.
#[derive(Debug, Clone, Copy, PartialEq, Eq, Structural)]
pub enum AnnotationKind {
    RangeComment,
    BlockNote,
    SceneCard,
    AgentSuggestion,
    ThinkingMarkup,
}

/// A note attached to a range of a chapter.
#[derive(Debug, Clone, PartialEq)]
pub struct Annotation {
    pub id: AnnotationId,
    pub project_id: ProjectId,
    pub chapter_id: ChapterId,
    pub anchor: AnnotationAnchor,
    pub kind: AnnotationKind,
    pub body: String,
    pub resolved: bool,
    pub outdated: bool,
}

} // verus!
