//! Domain events: who acted, from where, and the kinds of event the
//! workflow engine reacts to.
use vstd::prelude::*;
use crate::ids::{
    uuid_parsed, BlockId, BookId, ChapterId, EventId, PluginId, ProjectId, Revision, SceneId,
};

verus! {

/// Version of the event schema carried by every domain event.
pub const EVENT_SCHEMA_VERSION: u32 = 1;

/// Who caused a change.
#[derive(Debug, Clone, PartialEq, Eq)]
pub enum Actor {
    User { user_id: Option<String> },
    Agent { model: String },
    Plugin { plugin_id: PluginId },
    System,
    Import,
}

/// Which part of the application emitted an event.
#[derive(Debug, Clone, Copy, PartialEq, Eq, Structural)]
pub enum EventSource {
    Editor,
    Importer,
    Agent,
    Plugin,
    Workflow,
    Sync,
    System,
}

/// The platform an event came from.
#[derive(Debug, Clone, Copy, PartialEq, Eq, Structural)]
pub enum Platform {
    Linux,
    Windows,
    Android,
    Unknown,
}

/// The kinds of domain event; `Custom` carries its own type name.
#[derive(Debug, Clone, PartialEq, Eq)]
pub enum EventKind {
    EditorIdle,
    EditorFocusChanged,
    SelectionChanged,
    ParagraphCreated,
    ParagraphSplit,
    SceneCreated,
    ProjectCreated,
    BookCreated,
    ChapterCreated,
    ChapterActivated,
    ChapterCompleted,
    ChapterReordered,
    ProjectRenamed,
    ProjectDeleted,
    BookRenamed,
    BookDeleted,
    BookReordered,
    ChapterRenamed,
    ChapterDeleted,
    ContentChanged,
    DocumentSaved,
    RevisionCommitted,
    AgentFinished,
    ProposalAccepted,
    ProposalRejected,
    ProposalCorrected,
    PreferenceConfirmed,
    JobFailed,
    PluginInstalled,
    SyncConnected,
    BlockModeChanged,
    CanonProposed,
    CanonAccepted,
    Custom(String),
}

/// The event type name of a kind.
pub open spec fn event_kind_name(k: EventKind) -> Seq<char> {
    match k {
        EventKind::EditorIdle => "editor.idle"@,
        EventKind::EditorFocusChanged => "editor.focus_changed"@,
        EventKind::SelectionChanged => "selection.changed"@,
        EventKind::ParagraphCreated => "paragraph.created"@,
        EventKind::ParagraphSplit => "paragraph.split"@,
        EventKind::SceneCreated => "scene.created"@,
        EventKind::ProjectCreated => "project.created"@,
        EventKind::BookCreated => "book.created"@,
        EventKind::ChapterCreated => "chapter.created"@,
        EventKind::ChapterActivated => "chapter.activated"@,
        EventKind::ChapterCompleted => "chapter.completed"@,
        EventKind::ChapterReordered => "chapter.reordered"@,
        EventKind::ProjectRenamed => "project.renamed"@,
        EventKind::ProjectDeleted => "project.deleted"@,
        EventKind::BookRenamed => "book.renamed"@,
        EventKind::BookDeleted => "book.deleted"@,
        EventKind::BookReordered => "book.reordered"@,
        EventKind::ChapterRenamed => "chapter.renamed"@,
        EventKind::ChapterDeleted => "chapter.deleted"@,
        EventKind::ContentChanged => "content.changed"@,
        EventKind::DocumentSaved => "document.saved"@,
        EventKind::RevisionCommitted => "revision.committed"@,
        EventKind::AgentFinished => "agent.finished"@,
        EventKind::ProposalAccepted => "proposal.accepted"@,
        EventKind::ProposalRejected => "proposal.rejected"@,
        EventKind::ProposalCorrected => "proposal.corrected"@,
        EventKind::PreferenceConfirmed => "preference.confirmed"@,
        EventKind::JobFailed => "job.failed"@,
        EventKind::PluginInstalled => "plugin.installed"@,
        EventKind::SyncConnected => "sync.connected"@,
        EventKind::BlockModeChanged => "block.mode.changed"@,
        EventKind::CanonProposed => "canon.proposed"@,
        EventKind::CanonAccepted => "canon.accepted"@,
        EventKind::Custom(value) => value@,
    }
}

impl EventKind {
    /// The event type name, as matched by workflow triggers.
    pub fn as_str(&self) -> (r: &str)
        ensures
            r@ == event_kind_name(*self),
    {
        match self {
            EventKind::EditorIdle => "editor.idle",
            EventKind::EditorFocusChanged => "editor.focus_changed",
            EventKind::SelectionChanged => "selection.changed",
            EventKind::ParagraphCreated => "paragraph.created",
            EventKind::ParagraphSplit => "paragraph.split",
            EventKind::SceneCreated => "scene.created",
            EventKind::ProjectCreated => "project.created",
            EventKind::BookCreated => "book.created",
            EventKind::ChapterCreated => "chapter.created",
            EventKind::ChapterActivated => "chapter.activated",
            EventKind::ChapterCompleted => "chapter.completed",
            EventKind::ChapterReordered => "chapter.reordered",
            EventKind::ProjectRenamed => "project.renamed",
            EventKind::ProjectDeleted => "project.deleted",
            EventKind::BookRenamed => "book.renamed",
            EventKind::BookDeleted => "book.deleted",
            EventKind::BookReordered => "book.reordered",
            EventKind::ChapterRenamed => "chapter.renamed",
            EventKind::ChapterDeleted => "chapter.deleted",
            EventKind::ContentChanged => "content.changed",
            EventKind::DocumentSaved => "document.saved",
            EventKind::RevisionCommitted => "revision.committed",
            EventKind::AgentFinished => "agent.finished",
            EventKind::ProposalAccepted => "proposal.accepted",
            EventKind::ProposalRejected => "proposal.rejected",
            EventKind::ProposalCorrected => "proposal.corrected",
            EventKind::PreferenceConfirmed => "preference.confirmed",
            EventKind::JobFailed => "job.failed",
            EventKind::PluginInstalled => "plugin.installed",
            EventKind::SyncConnected => "sync.connected",
            EventKind::BlockModeChanged => "block.mode.changed",
            EventKind::CanonProposed => "canon.proposed",
            EventKind::CanonAccepted => "canon.accepted",
            EventKind::Custom(value) => value.as_str(),
        }
    }
}

/// A domain event. `occurred_at_ms` is in milliseconds since the Unix
/// epoch; `payload` is the event's JSON payload, as text.
#[derive(Debug, Clone, PartialEq, Eq)]
pub struct DomainEvent {
    pub event_id: EventId,
    pub event_type: String,
    pub schema_version: u32,
    pub occurred_at_ms: i64,
    pub project_id: ProjectId,
    pub book_id: Option<BookId>,
    pub chapter_id: Option<ChapterId>,
    pub scene_id: Option<SceneId>,
    pub block_id: Option<BlockId>,
    pub actor: Actor,
    pub source: EventSource,
    pub platform: Platform,
    pub transaction_id: String,
    pub correlation_id: Option<String>,
    pub causation_id: Option<String>,
    pub revision_before: Revision,
    pub revision_after: Revision,
    pub payload: String,
}

impl DomainEvent {
    /// An event of an editor or user action: made by an anonymous user in
    /// the editor, on an unknown platform, in a transaction of its own, with
    /// no scene, block, correlation or cause, at the initial revision. It
    /// gets fresh identifiers for itself and its transaction and the
    /// current time.
    pub fn user(
        event_type: String,
        project_id: ProjectId,
        book_id: Option<BookId>,
        chapter_id: Option<ChapterId>,
        payload: String,
    ) -> (r: DomainEvent)
        ensures
            r.event_type@ == event_type@,
            r.schema_version == EVENT_SCHEMA_VERSION,
            r.project_id == project_id,
            r.book_id == book_id,
            r.chapter_id == chapter_id,
            r.scene_id is None,
            r.block_id is None,
            r.actor == (Actor::User { user_id: None }),
            r.source == EventSource::Editor,
            r.platform == Platform::Unknown,
            uuid_parsed(r.transaction_id@) is Some,
            r.correlation_id is None,
            r.causation_id is None,
            r.revision_before == Revision(0),
            r.revision_after == Revision(0),
            r.payload@ == payload@,
    {
        let transaction = EventId::new();
        DomainEvent {
            event_id: EventId::new(),
            event_type,
            schema_version: EVENT_SCHEMA_VERSION,
            occurred_at_ms: crate::ids::now_millis(),
            project_id,
            book_id,
            chapter_id,
            scene_id: None,
            block_id: None,
            actor: Actor::User { user_id: None },
            source: EventSource::Editor,
            platform: Platform::Unknown,
            transaction_id: transaction.to_string(),
            correlation_id: None,
            causation_id: None,
            revision_before: Revision::initial(),
            revision_after: Revision::initial(),
            payload,
        }
    }
}

} // verus!
