//! What the desktop client's commands share: the uniform result they return,
//! the inputs they take, and the parsing of identifiers and statuses.
use vstd::prelude::*;
use crate::domain::FactStatus;
use crate::hints::StoryEntryKind;
use crate::events::{Actor, DomainEvent, EventSource, Platform, EVENT_SCHEMA_VERSION};
use crate::ids::{uuid_parsed, BlockId, BookId, ChapterId, FactId, ProjectId, Revision, SceneId, VolumeId};
use crate::providers::{resolve_provider_name, resolved_provider, ProviderConfig};
use crate::text::{append_str, chars_of, copy_string, str_eq, string_of};

verus! {

/// The uniform result of a command: `ok` with data, or an error message.
#[derive(Debug)]
pub struct CommandResult<T> {
    pub ok: bool,
    pub data: Option<T>,
    pub error: Option<String>,
}

impl<T> CommandResult<T> {
    /// A successful result carrying `data`.
    pub fn ok(data: T) -> (r: Self)
        ensures
            r.ok,
            r.data == Some(data),
            r.error is None,
    {
        CommandResult { ok: true, data: Some(data), error: None }
    }

    /// A failed result carrying the message.
    pub fn error(error: String) -> (r: Self)
        ensures
            !r.ok,
            r.data is None,
            r.error == Some(error),
    {
        CommandResult { ok: false, data: None, error: Some(error) }
    }

    /// The command result of an operation's result.
    pub fn from_result(result: Result<T, String>) -> (r: Self)
        ensures
            match result {
                Ok(d) => r.ok && r.data == Some(d) && r.error is None,
                Err(e) => !r.ok && r.data is None && r.error == Some(e),
            },
    {
        match result {
            Ok(data) => Self::ok(data),
            Err(error) => Self::error(error),
        }
    }
}

/// The message of an identifier that does not read as a UUID.
pub open spec fn invalid_id_message(what: Seq<char>, value: Seq<char>) -> Seq<char> {
    "invalid "@ + what + " id: "@ + value
}

fn invalid_id(what: &str, value: &str) -> (r: String)
    ensures
        r@ == invalid_id_message(what@, value@),
{
    let mut v = chars_of("invalid ");
    append_str(&mut v, what);
    append_str(&mut v, " id: ");
    append_str(&mut v, value);
    string_of(v.as_slice())
}

/// Reads a project identifier.
pub fn parse_project_id(value: &str) -> (r: Result<ProjectId, String>)
    ensures
        match uuid_parsed(value@) {
            Some(v) => r == Ok::<ProjectId, String>(ProjectId(v)),
            None => (r matches Err(m) && m@ == invalid_id_message("project"@, value@)),
        },
{
    match ProjectId::from_str(value) {
        Some(id) => Ok(id),
        None => Err(invalid_id("project", value)),
    }
}

/// Reads a book identifier.
pub fn parse_book_id(value: &str) -> (r: Result<BookId, String>)
    ensures
        match uuid_parsed(value@) {
            Some(v) => r == Ok::<BookId, String>(BookId(v)),
            None => (r matches Err(m) && m@ == invalid_id_message("book"@, value@)),
        },
{
    match BookId::from_str(value) {
        Some(id) => Ok(id),
        None => Err(invalid_id("book", value)),
    }
}

/// Reads a volume identifier.
pub fn parse_volume_id(value: &str) -> (r: Result<VolumeId, String>)
    ensures
        match uuid_parsed(value@) {
            Some(v) => r == Ok::<VolumeId, String>(VolumeId(v)),
            None => (r matches Err(m) && m@ == invalid_id_message("volume"@, value@)),
        },
{
    match VolumeId::from_str(value) {
        Some(id) => Ok(id),
        None => Err(invalid_id("volume", value)),
    }
}

/// Reads a scene identifier.
pub fn parse_scene_id(value: &str) -> (r: Result<SceneId, String>)
    ensures
        match uuid_parsed(value@) {
            Some(v) => r == Ok::<SceneId, String>(SceneId(v)),
            None => (r matches Err(m) && m@ == invalid_id_message("scene"@, value@)),
        },
{
    match SceneId::from_str(value) {
        Some(id) => Ok(id),
        None => Err(invalid_id("scene", value)),
    }
}

/// Reads a chapter identifier.
pub fn parse_chapter_id(value: &str) -> (r: Result<ChapterId, String>)
    ensures
        match uuid_parsed(value@) {
            Some(v) => r == Ok::<ChapterId, String>(ChapterId(v)),
            None => (r matches Err(m) && m@ == invalid_id_message("chapter"@, value@)),
        },
{
    match ChapterId::from_str(value) {
        Some(id) => Ok(id),
        None => Err(invalid_id("chapter", value)),
    }
}

/// Reads a fact identifier.
pub fn parse_fact_id(value: &str) -> (r: Result<FactId, String>)
    ensures
        match uuid_parsed(value@) {
            Some(v) => r == Ok::<FactId, String>(FactId(v)),
            None => (r matches Err(m) && m@ == invalid_id_message("fact"@, value@)),
        },
{
    match FactId::from_str(value) {
        Some(id) => Ok(id),
        None => Err(invalid_id("fact", value)),
    }
}

/// The fact status a status name selects.
pub open spec fn fact_status_named(name: Seq<char>) -> Option<FactStatus> {
    if name == "candidate"@ {
        Some(FactStatus::Candidate)
    } else if name == "accepted"@ {
        Some(FactStatus::Accepted)
    } else if name == "rejected"@ {
        Some(FactStatus::Rejected)
    } else if name == "superseded"@ {
        Some(FactStatus::Superseded)
    } else {
        None
    }
}

/// Reads an optional fact status filter: absent or empty means no filter;
/// an unknown name is refused.
pub fn parse_fact_status(value: Option<&str>) -> (r: Result<Option<FactStatus>, String>)
    ensures
        match value {
            None => r == Ok::<Option<FactStatus>, String>(None),
            Some(v) => if v@.len() == 0 {
                r == Ok::<Option<FactStatus>, String>(None)
            } else {
                match fact_status_named(v@) {
                    Some(s) => r == Ok::<Option<FactStatus>, String>(Some(s)),
                    None => (r matches Err(m) && m@ == "invalid fact status: "@ + v@),
                }
            },
        },
{
    match value {
        None => Ok(None),
        Some(v) => {
            if v.unicode_len() == 0 {
                Ok(None)
            } else if str_eq(v, "candidate") {
                Ok(Some(FactStatus::Candidate))
            } else if str_eq(v, "accepted") {
                Ok(Some(FactStatus::Accepted))
            } else if str_eq(v, "rejected") {
                Ok(Some(FactStatus::Rejected))
            } else if str_eq(v, "superseded") {
                Ok(Some(FactStatus::Superseded))
            } else {
                let mut m = chars_of("invalid fact status: ");
                append_str(&mut m, v);
                Err(string_of(m.as_slice()))
            }
        },
    }
}

/// The kind of story entry a name denotes.
pub open spec fn story_kind_named(name: Seq<char>) -> Option<StoryEntryKind> {
    if name == "character"@ {
        Some(StoryEntryKind::Character)
    } else if name == "setting"@ {
        Some(StoryEntryKind::Setting)
    } else if name == "foreshadow"@ {
        Some(StoryEntryKind::Foreshadow)
    } else {
        None
    }
}

/// Reads the kind of a story entry; an unknown name is refused.
pub fn parse_story_kind(value: &str) -> (r: Result<StoryEntryKind, String>)
    ensures
        match story_kind_named(value@) {
            Some(k) => r == Ok::<StoryEntryKind, String>(k),
            None => (r matches Err(m) && m@ == "invalid story entry kind: "@ + value@),
        },
{
    if str_eq(value, "character") {
        Ok(StoryEntryKind::Character)
    } else if str_eq(value, "setting") {
        Ok(StoryEntryKind::Setting)
    } else if str_eq(value, "foreshadow") {
        Ok(StoryEntryKind::Foreshadow)
    } else {
        let mut m = chars_of("invalid story entry kind: ");
        append_str(&mut m, value);
        Err(string_of(m.as_slice()))
    }
}

/// The event announcing that the editor switched a chapter between its
/// thinking and body modes: a user event of type `block.mode.changed` on
/// the chapter, naming the block when `block_id` reads as one, in a
/// transaction of its own marked `mode:`. A malformed project, then chapter
/// identifier is refused.
pub fn block_mode_event(project_id: &str, chapter_id: &str, block_id: Option<&str>, payload: String) -> (r:
    Result<DomainEvent, String>)
    ensures
        match (uuid_parsed(project_id@), uuid_parsed(chapter_id@)) {
            (None, _) => (r matches Err(m) && m@ == invalid_id_message("project"@, project_id@)),
            (Some(_), None) => (r matches Err(m) && m@ == invalid_id_message("chapter"@, chapter_id@)),
            (Some(p), Some(c)) => r matches Ok(e) && {
                &&& e.event_type@ == "block.mode.changed"@
                &&& e.schema_version == EVENT_SCHEMA_VERSION
                &&& e.project_id == ProjectId(p)
                &&& e.book_id is None
                &&& e.chapter_id == Some(ChapterId(c))
                &&& e.scene_id is None
                &&& e.block_id == match block_id {
                    Some(b) => match uuid_parsed(b@) {
                        Some(v) => Some(BlockId(v)),
                        None => None,
                    },
                    None => None,
                }
                &&& e.actor == (Actor::User { user_id: None })
                &&& e.source == EventSource::Editor
                &&& e.platform == Platform::Unknown
                &&& exists|v: u128| e.transaction_id@ == "mode:"@ + #[trigger] crate::ids::uuid_text(v)
                &&& e.correlation_id is None
                &&& e.causation_id is None
                &&& e.revision_before == Revision(0)
                &&& e.revision_after == Revision(0)
                &&& e.payload@ == payload@
            },
        },
{
    let project = match parse_project_id(project_id) {
        Ok(p) => p,
        Err(m) => return Err(m),
    };
    let chapter = match parse_chapter_id(chapter_id) {
        Ok(c) => c,
        Err(m) => return Err(m),
    };
    let block = match block_id {
        Some(b) => BlockId::from_str(b),
        None => None,
    };
    let mut event = DomainEvent::user(
        string_of(chars_of("block.mode.changed").as_slice()),
        project,
        None,
        Some(chapter),
        payload,
    );
    event.block_id = block;
    let mut t = chars_of("mode:");
    let tx = crate::ids::EventId::new();
    let id = tx.to_string();
    append_str(&mut t, id.as_str());
    assert(t@ == "mode:"@ + crate::ids::uuid_text(tx.0));
    event.transaction_id = string_of(t.as_slice());
    Ok(event)
}

/// The editor's heartbeat: what it reports after input.
#[derive(Debug, Clone, PartialEq, Eq)]
pub struct EditorTickInput {
    pub project_id: String,
    pub chapter_id: String,
    pub revision: u64,
    pub chars_since_commit: u32,
    pub composing: bool,
    pub focused: bool,
}

/// A request for context hints on the paragraph being written.
#[derive(Debug, Clone, PartialEq, Eq)]
pub struct HintRequest {
    pub project_id: String,
    pub chapter_id: String,
    pub revision: u64,
    pub nearby_text: String,
    pub lookback_text: String,
    pub generation: u64,
}

/// A new project.
#[derive(Debug, Clone, PartialEq, Eq)]
pub struct NewProjectInput {
    pub title: String,
}

/// A new chapter of a book, optionally inside a volume.
#[derive(Debug, Clone, PartialEq, Eq)]
pub struct NewChapterInput {
    pub project_id: String,
    pub book_id: String,
    pub title: String,
    pub position: u32,
    pub volume_id: Option<String>,
}

/// A new volume of a book.
#[derive(Debug, Clone, PartialEq, Eq)]
pub struct NewVolumeInput {
    pub project_id: String,
    pub book_id: String,
    pub title: String,
    pub position: u32,
}

/// A new scene heading of a chapter.
#[derive(Debug, Clone, PartialEq, Eq)]
pub struct NewSceneInput {
    pub project_id: String,
    pub chapter_id: String,
    pub title: String,
    pub position: u32,
    pub pov_entry_id: Option<String>,
}

/// A new book of a project.
#[derive(Debug, Clone, PartialEq, Eq)]
pub struct NewBookInput {
    pub project_id: String,
    pub title: String,
    pub synopsis: String,
    pub position: u32,
}

/// The model configuration the settings page submits.
#[derive(Debug, Clone, PartialEq, Eq)]
pub struct ModelConfigInput {
    pub provider: String,
    pub api_key: String,
    pub base_url: String,
    pub model: String,
}

impl ModelConfigInput {
    /// The provider configuration it stands for, with the provider name
    /// resolved: `echo` without a key, `custom` for an unknown service.
    pub fn provider_config(&self) -> (r: ProviderConfig)
        ensures
            r.provider@ == resolved_provider(self.provider@, self.api_key@),
            r.api_key@ == self.api_key@,
            r.base_url@ == self.base_url@,
            r.model@ == self.model@,
    {
        let mut config = ProviderConfig {
            provider: copy_string(&self.provider),
            api_key: copy_string(&self.api_key),
            base_url: copy_string(&self.base_url),
            model: copy_string(&self.model),
        };
        config.provider = resolve_provider_name(&config);
        config
    }
}

} // verus!
