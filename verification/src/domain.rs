//! Domain types of jobs, workflows, patches, plugins, the story model and
//! the work context.
use vstd::prelude::*;
use crate::ids::{
    BlockId, ChapterId, EntityId, FactId, JobId, PlotThreadId, ProjectId, Revision, StoryEventId,
    WorkflowId,
};

verus! {

/// Errors of domain rules.
#[derive(Debug, Clone, PartialEq, Eq)]
pub enum DomainError {
    Validation(String),
    NotFound(String),
    RevisionConflict { expected: u64, actual: u64 },
    PermissionDenied(String),
}

/// The state of a queued job.
#[derive(Debug, Clone, Copy, PartialEq, Eq, Structural)]
pub enum JobStatus {
    Pending,
    Blocked,
    Running,
    Succeeded,
    Failed,
    Cancelled,
    DeadLetter,
}

/// A queued job. Instants are in milliseconds since the Unix epoch; the
/// payload is JSON text.
#[derive(Debug, Clone, PartialEq, Eq)]
pub struct Job {
    pub id: JobId,
    pub project_id: ProjectId,
    pub workflow_id: Option<WorkflowId>,
    pub operation: String,
    pub payload: String,
    pub priority: i32,
    pub status: JobStatus,
    pub idempotency_key: String,
    pub depends_on: Vec<JobId>,
    pub attempts: u32,
    pub max_attempts: u32,
    pub run_at_ms: i64,
    pub deadline_ms: Option<i64>,
    pub causation_id: Option<String>,
    pub causation_depth: u32,
    pub created_at_ms: i64,
    pub updated_at_ms: i64,
}

/// The event type a workflow rule fires on.
#[derive(Debug, Clone, PartialEq, Eq)]
pub struct WorkflowTrigger {
    pub event_type: String,
}

/// How a workflow condition compares a payload value.
#[derive(Debug, Clone, Copy, PartialEq, Eq, Structural)]
pub enum ConditionOperator {
    Eq,
    NotEq,
    Gt,
    Gte,
    Lt,
    Lte,
    Contains,
    Exists,
}

/// What a workflow rule does when it fires. The input of a plugin
/// operation is kept as JSON text.
#[derive(Debug, Clone, PartialEq, Eq)]
pub enum WorkflowAction {
    SaveDocument,
    RebuildIndex,
    CheckContinuity,
    GenerateContinuation { max_tokens: u32 },
    CreateBackup,
    RunAgent { prompt: String },
    RunPluginOperation { plugin_id: String, operation: String, input_json: String },
}

/// Why the author rejected a proposal.
#[derive(Debug, Clone, Copy, PartialEq, Eq, Structural)]
pub enum RejectionReason {
    CanonError,
    CharacterVoice,
    Pacing,
    Style,
    Fact,
    Format,
    Other,
}

/// Where a preference rule applies.
#[derive(Debug, Clone, PartialEq, Eq)]
pub enum PreferenceScope {
    Proposal,
    Character { entity_id: String },
    Project { project_id: String },
    GlobalAuthor,
}

/// The state of a preference rule.
#[derive(Debug, Clone, Copy, PartialEq, Eq, Structural)]
pub enum PreferenceStatus {
    Candidate,
    Confirmed,
    Disabled,
}

/// A platform a plugin supports.
#[derive(Debug, Clone, Copy, PartialEq, Eq, Structural, PartialOrd, Ord)]
pub enum PluginPlatform {
    Linux,
    Windows,
    Android,
}

/// A capability a plugin may request.
#[derive(Debug, Clone, PartialEq, Eq, PartialOrd, Ord)]
pub enum Capability {
    ReadSelection,
    ReadChapter { scope: String },
    ReadStoryModel,
    ProposePatch,
    Log,
    Network { allowlist: Vec<String> },
    Model { provider: String, max_cost_micros: u64 },
    PrivateStorage,
}

/// The capabilities granted to a plugin; each capability occurs once.
#[derive(Debug, Clone, PartialEq)]
pub struct PluginGrant {
    pub plugin_id: String,
    pub capabilities: Vec<Capability>,
    pub enabled: bool,
}

/// A plugin as listed to the author: `builtin` for bundled manifests,
/// `wasm` for third-party modules.
#[derive(Debug, Clone, PartialEq)]
pub struct PluginSummary {
    pub id: String,
    pub name: String,
    pub version: String,
    pub runtime: String,
    pub operations: Vec<String>,
}

/// The kind of a canon entity.
#[derive(Debug, Clone, Copy, PartialEq, Eq, Structural, Hash)]
pub enum EntityKind {
    Character,
    Location,
    Organization,
    Item,
    Ability,
    WorldRule,
}

/// Where in the text a fact or relation comes from.
#[derive(Debug, Clone, PartialEq)]
pub struct SourceRef {
    pub chapter_id: ChapterId,
    pub block_id: Option<BlockId>,
    pub revision: Revision,
    pub quote: String,
}

/// The review state of a canon fact.
#[derive(Debug, Clone, Copy, PartialEq, Eq, Structural)]
pub enum FactStatus {
    Candidate,
    Accepted,
    Rejected,
    Superseded,
}

/// A point of story time: its place in the story's order, with an optional label.
#[derive(Debug, Clone, PartialEq, Eq, PartialOrd, Ord)]
pub struct StoryInstant {
    pub sequence: i64,
    pub label: Option<String>,
}

/// A relation between two entities over a stretch of story time.
#[derive(Debug, Clone, PartialEq)]
pub struct Relationship {
    pub from: EntityId,
    pub to: EntityId,
    pub relation: String,
    pub branch_id: String,
    pub valid_from: Option<StoryInstant>,
    pub valid_to: Option<StoryInstant>,
    pub source: SourceRef,
}

/// What a character knows from a story instant on.
#[derive(Debug, Clone, PartialEq)]
pub struct CharacterKnowledge {
    pub character_id: EntityId,
    pub fact_id: FactId,
    pub learned_at: StoryInstant,
    pub branch_id: String,
    pub source: SourceRef,
}

/// The state of a plot thread.
#[derive(Debug, Clone, Copy, PartialEq, Eq, Structural)]
pub enum PlotThreadStatus {
    Open,
    Advanced,
    Resolved,
    Abandoned,
}

/// A foreshadowing thread and its milestones.
#[derive(Debug, Clone, PartialEq)]
pub struct PlotThread {
    pub id: PlotThreadId,
    pub branch_id: String,
    pub title: String,
    pub status: PlotThreadStatus,
    pub introduced_at: StoryInstant,
    pub due_by: Option<StoryInstant>,
    pub milestones: Vec<StoryEventId>,
}

/// The place in the work that a request is about.
#[derive(Debug, Clone, PartialEq, Eq)]
pub struct WorkContextRef {
    pub project_id: ProjectId,
    pub branch_id: String,
    pub revision: Revision,
    pub chapter_id: ChapterId,
    pub block_id: Option<BlockId>,
    pub pov_entity_id: Option<EntityId>,
}

/// The kind of a context hint.
#[derive(Debug, Clone, Copy, PartialEq, Eq, Structural)]
pub enum HintKind {
    CharacterState,
    WorldRule,
    TimelineConstraint,
    OpenForeshadowing,
    PlotHook,
    Preference,
    ContinuityRisk,
}

/// What the author can do with a hint.
#[derive(Debug, Clone, Copy, PartialEq, Eq, Structural)]
pub enum HintAction {
    ExpandSource,
    Pin,
    Snooze,
    Ignore,
    MarkWrong,
}

} // verus!
