//! Identifiers and revisions shared by the domain types.
use vstd::prelude::*;

verus! {

/// The lower-case hexadecimal digit of a value below 16.
pub open spec fn hex_digit(n: int) -> char {
    if n < 10 {
        (48 + n) as char
    } else {
        (87 + n) as char
    }
}

/// The last `count` hexadecimal digits of a value, most significant first.
pub open spec fn hex_digits(v: nat, count: nat) -> Seq<char>
    decreases count,
{
    if count == 0 {
        seq![]
    } else {
        hex_digits(v / 16, (count - 1) as nat).push(hex_digit((v % 16) as int))
    }
}

/// The hyphenated lower-case text of the UUID whose 128-bit value is the
/// argument: its 32 hexadecimal digits, most significant first, in groups
/// of 8, 4, 4, 4 and 12 joined by hyphens.
pub open spec fn uuid_text(value: u128) -> Seq<char> {
    let h = hex_digits(value as nat, 32);
    h.subrange(0, 8) + "-"@ + h.subrange(8, 12) + "-"@ + h.subrange(12, 16) + "-"@ + h.subrange(16, 20)
        + "-"@ + h.subrange(20, 32)
}

/// The value of the UUID that `uuid::Uuid::parse_str` reads from a text, if it reads one.
pub uninterp spec fn uuid_parsed(text: Seq<char>) -> Option<u128>;

/// Calls `uuid::Uuid::to_string` (the `Display` of the hyphenated form) on the
/// UUID with this value. Claimed: the result is the hyphenated lower-case
/// hexadecimal text of the value, 36 characters long, and
/// `uuid::Uuid::parse_str` reads the value back from it.
#[verifier::external_body]
pub(crate) fn uuid_to_string(value: u128) -> (s: String)
    ensures
        s@ == uuid_text(value),
        s@.len() == 36,
        uuid_parsed(s@) == Some(value),
{
    uuid::Uuid::from_u128(value).to_string()
}

/// Calls `uuid::Uuid::parse_str`. Claimed: the result is the named value read
/// from the text; which texts are accepted is not stated.
#[verifier::external_body]
pub(crate) fn parse_uuid(text: &str) -> (r: Option<u128>)
    ensures
        r == uuid_parsed(text@),
{
    match uuid::Uuid::parse_str(text) {
        Ok(u) => Some(u.as_u128()),
        Err(_) => None,
    }
}

/// Whether a 128-bit value is that of a random UUID as `uuid::Uuid::new_v4`
/// makes it: the version nibble is 4 and the variant bits are `10`.
pub open spec fn is_v4(v: u128) -> bool {
    &&& v & 0xF000_0000_0000_0000_0000u128 == 0x4000_0000_0000_0000_0000u128
    &&& v & 0xC000_0000_0000_0000u128 == 0x8000_0000_0000_0000u128
}

/// Calls `uuid::Uuid::new_v4`. The value is random; claimed only what holds
/// of every outcome, as the source masks it: its version is 4 and its
/// variant bits are `10`.
#[verifier::external_body]
pub(crate) fn new_uuid_v4() -> (r: u128)
    ensures
        is_v4(r),
{
    uuid::Uuid::new_v4().as_u128()
}

/// Identifier of a project: the 128-bit value of a UUID.
#[derive(Debug, Clone, Copy, PartialEq, Eq, Structural, PartialOrd, Ord, Hash)]
pub struct ProjectId(pub u128);

impl ProjectId {
    /// A fresh random (version 4) identifier.
    pub fn new() -> (r: ProjectId)
        ensures
            is_v4(r.0),
    {
        ProjectId(new_uuid_v4())
    }

    /// Parses the textual form of a UUID.
    pub fn from_str(text: &str) -> (r: Option<ProjectId>)
        ensures
            match uuid_parsed(text@) {
                Some(v) => r == Some(ProjectId(v)),
                None => r is None,
            },
    {
        match parse_uuid(text) {
            Some(v) => Some(ProjectId(v)),
            None => None,
        }
    }

    /// The hyphenated lower-case text of the identifier.
    pub fn to_string(&self) -> (s: String)
        ensures
            s@ == uuid_text(self.0),
            uuid_parsed(s@) == Some(self.0),
    {
        uuid_to_string(self.0)
    }
}

/// Identifier of a book: the 128-bit value of a UUID.
#[derive(Debug, Clone, Copy, PartialEq, Eq, Structural, PartialOrd, Ord, Hash)]
pub struct BookId(pub u128);

impl BookId {
    /// A fresh random (version 4) identifier.
    pub fn new() -> (r: BookId)
        ensures
            is_v4(r.0),
    {
        BookId(new_uuid_v4())
    }

    /// Parses the textual form of a UUID.
    pub fn from_str(text: &str) -> (r: Option<BookId>)
        ensures
            match uuid_parsed(text@) {
                Some(v) => r == Some(BookId(v)),
                None => r is None,
            },
    {
        match parse_uuid(text) {
            Some(v) => Some(BookId(v)),
            None => None,
        }
    }

    /// The hyphenated lower-case text of the identifier.
    pub fn to_string(&self) -> (s: String)
        ensures
            s@ == uuid_text(self.0),
            uuid_parsed(s@) == Some(self.0),
    {
        uuid_to_string(self.0)
    }
}

/// Identifier of a volume: the 128-bit value of a UUID.
#[derive(Debug, Clone, Copy, PartialEq, Eq, Structural, PartialOrd, Ord, Hash)]
pub struct VolumeId(pub u128);

impl VolumeId {
    /// A fresh random (version 4) identifier.
    pub fn new() -> (r: VolumeId)
        ensures
            is_v4(r.0),
    {
        VolumeId(new_uuid_v4())
    }

    /// Parses the textual form of a UUID.
    pub fn from_str(text: &str) -> (r: Option<VolumeId>)
        ensures
            match uuid_parsed(text@) {
                Some(v) => r == Some(VolumeId(v)),
                None => r is None,
            },
    {
        match parse_uuid(text) {
            Some(v) => Some(VolumeId(v)),
            None => None,
        }
    }

    /// The hyphenated lower-case text of the identifier.
    pub fn to_string(&self) -> (s: String)
        ensures
            s@ == uuid_text(self.0),
            uuid_parsed(s@) == Some(self.0),
    {
        uuid_to_string(self.0)
    }
}

/// Identifier of a chapter: the 128-bit value of a UUID.
#[derive(Debug, Clone, Copy, PartialEq, Eq, Structural, PartialOrd, Ord, Hash)]
pub struct ChapterId(pub u128);

impl ChapterId {
    /// A fresh random (version 4) identifier.
    pub fn new() -> (r: ChapterId)
        ensures
            is_v4(r.0),
    {
        ChapterId(new_uuid_v4())
    }

    /// Parses the textual form of a UUID.
    pub fn from_str(text: &str) -> (r: Option<ChapterId>)
        ensures
            match uuid_parsed(text@) {
                Some(v) => r == Some(ChapterId(v)),
                None => r is None,
            },
    {
        match parse_uuid(text) {
            Some(v) => Some(ChapterId(v)),
            None => None,
        }
    }

    /// The hyphenated lower-case text of the identifier.
    pub fn to_string(&self) -> (s: String)
        ensures
            s@ == uuid_text(self.0),
            uuid_parsed(s@) == Some(self.0),
    {
        uuid_to_string(self.0)
    }
}

/// Identifier of a scene: the 128-bit value of a UUID.
#[derive(Debug, Clone, Copy, PartialEq, Eq, Structural, PartialOrd, Ord, Hash)]
pub struct SceneId(pub u128);

impl SceneId {
    /// A fresh random (version 4) identifier.
    pub fn new() -> (r: SceneId)
        ensures
            is_v4(r.0),
    {
        SceneId(new_uuid_v4())
    }

    /// Parses the textual form of a UUID.
    pub fn from_str(text: &str) -> (r: Option<SceneId>)
        ensures
            match uuid_parsed(text@) {
                Some(v) => r == Some(SceneId(v)),
                None => r is None,
            },
    {
        match parse_uuid(text) {
            Some(v) => Some(SceneId(v)),
            None => None,
        }
    }

    /// The hyphenated lower-case text of the identifier.
    pub fn to_string(&self) -> (s: String)
        ensures
            s@ == uuid_text(self.0),
            uuid_parsed(s@) == Some(self.0),
    {
        uuid_to_string(self.0)
    }
}

/// Identifier of a content block: the 128-bit value of a UUID.
#[derive(Debug, Clone, Copy, PartialEq, Eq, Structural, PartialOrd, Ord, Hash)]
pub struct BlockId(pub u128);

impl BlockId {
    /// A fresh random (version 4) identifier.
    pub fn new() -> (r: BlockId)
        ensures
            is_v4(r.0),
    {
        BlockId(new_uuid_v4())
    }

    /// Parses the textual form of a UUID.
    pub fn from_str(text: &str) -> (r: Option<BlockId>)
        ensures
            match uuid_parsed(text@) {
                Some(v) => r == Some(BlockId(v)),
                None => r is None,
            },
    {
        match parse_uuid(text) {
            Some(v) => Some(BlockId(v)),
            None => None,
        }
    }

    /// The hyphenated lower-case text of the identifier.
    pub fn to_string(&self) -> (s: String)
        ensures
            s@ == uuid_text(self.0),
            uuid_parsed(s@) == Some(self.0),
    {
        uuid_to_string(self.0)
    }
}

/// Identifier of an annotation: the 128-bit value of a UUID.
#[derive(Debug, Clone, Copy, PartialEq, Eq, Structural, PartialOrd, Ord, Hash)]
pub struct AnnotationId(pub u128);

impl AnnotationId {
    /// A fresh random (version 4) identifier.
    pub fn new() -> (r: AnnotationId)
        ensures
            is_v4(r.0),
    {
        AnnotationId(new_uuid_v4())
    }

    /// Parses the textual form of a UUID.
    pub fn from_str(text: &str) -> (r: Option<AnnotationId>)
        ensures
            match uuid_parsed(text@) {
                Some(v) => r == Some(AnnotationId(v)),
                None => r is None,
            },
    {
        match parse_uuid(text) {
            Some(v) => Some(AnnotationId(v)),
            None => None,
        }
    }

    /// The hyphenated lower-case text of the identifier.
    pub fn to_string(&self) -> (s: String)
        ensures
            s@ == uuid_text(self.0),
            uuid_parsed(s@) == Some(self.0),
    {
        uuid_to_string(self.0)
    }
}

/// Identifier of a domain event: the 128-bit value of a UUID.
#[derive(Debug, Clone, Copy, PartialEq, Eq, Structural, PartialOrd, Ord, Hash)]
pub struct EventId(pub u128);

impl EventId {
    /// A fresh random (version 4) identifier.
    pub fn new() -> (r: EventId)
        ensures
            is_v4(r.0),
    {
        EventId(new_uuid_v4())
    }

    /// Parses the textual form of a UUID.
    pub fn from_str(text: &str) -> (r: Option<EventId>)
        ensures
            match uuid_parsed(text@) {
                Some(v) => r == Some(EventId(v)),
                None => r is None,
            },
    {
        match parse_uuid(text) {
            Some(v) => Some(EventId(v)),
            None => None,
        }
    }

    /// The hyphenated lower-case text of the identifier.
    pub fn to_string(&self) -> (s: String)
        ensures
            s@ == uuid_text(self.0),
            uuid_parsed(s@) == Some(self.0),
    {
        uuid_to_string(self.0)
    }
}

/// Identifier of a queued job: the 128-bit value of a UUID.
#[derive(Debug, Clone, Copy, PartialEq, Eq, Structural, PartialOrd, Ord, Hash)]
pub struct JobId(pub u128);

impl JobId {
    /// A fresh random (version 4) identifier.
    pub fn new() -> (r: JobId)
        ensures
            is_v4(r.0),
    {
        JobId(new_uuid_v4())
    }

    /// Parses the textual form of a UUID.
    pub fn from_str(text: &str) -> (r: Option<JobId>)
        ensures
            match uuid_parsed(text@) {
                Some(v) => r == Some(JobId(v)),
                None => r is None,
            },
    {
        match parse_uuid(text) {
            Some(v) => Some(JobId(v)),
            None => None,
        }
    }

    /// The hyphenated lower-case text of the identifier.
    pub fn to_string(&self) -> (s: String)
        ensures
            s@ == uuid_text(self.0),
            uuid_parsed(s@) == Some(self.0),
    {
        uuid_to_string(self.0)
    }
}

/// Identifier of a workflow rule: the 128-bit value of a UUID.
#[derive(Debug, Clone, Copy, PartialEq, Eq, Structural, PartialOrd, Ord, Hash)]
pub struct WorkflowId(pub u128);

impl WorkflowId {
    /// A fresh random (version 4) identifier.
    pub fn new() -> (r: WorkflowId)
        ensures
            is_v4(r.0),
    {
        WorkflowId(new_uuid_v4())
    }

    /// Parses the textual form of a UUID.
    pub fn from_str(text: &str) -> (r: Option<WorkflowId>)
        ensures
            match uuid_parsed(text@) {
                Some(v) => r == Some(WorkflowId(v)),
                None => r is None,
            },
    {
        match parse_uuid(text) {
            Some(v) => Some(WorkflowId(v)),
            None => None,
        }
    }

    /// The hyphenated lower-case text of the identifier.
    pub fn to_string(&self) -> (s: String)
        ensures
            s@ == uuid_text(self.0),
            uuid_parsed(s@) == Some(self.0),
    {
        uuid_to_string(self.0)
    }
}

/// Identifier of a plugin: the 128-bit value of a UUID.
#[derive(Debug, Clone, Copy, PartialEq, Eq, Structural, PartialOrd, Ord, Hash)]
pub struct PluginId(pub u128);

impl PluginId {
    /// A fresh random (version 4) identifier.
    pub fn new() -> (r: PluginId)
        ensures
            is_v4(r.0),
    {
        PluginId(new_uuid_v4())
    }

    /// Parses the textual form of a UUID.
    pub fn from_str(text: &str) -> (r: Option<PluginId>)
        ensures
            match uuid_parsed(text@) {
                Some(v) => r == Some(PluginId(v)),
                None => r is None,
            },
    {
        match parse_uuid(text) {
            Some(v) => Some(PluginId(v)),
            None => None,
        }
    }

    /// The hyphenated lower-case text of the identifier.
    pub fn to_string(&self) -> (s: String)
        ensures
            s@ == uuid_text(self.0),
            uuid_parsed(s@) == Some(self.0),
    {
        uuid_to_string(self.0)
    }
}

/// Identifier of an agent run: the 128-bit value of a UUID.
#[derive(Debug, Clone, Copy, PartialEq, Eq, Structural, PartialOrd, Ord, Hash)]
pub struct AgentRunId(pub u128);

impl AgentRunId {
    /// A fresh random (version 4) identifier.
    pub fn new() -> (r: AgentRunId)
        ensures
            is_v4(r.0),
    {
        AgentRunId(new_uuid_v4())
    }

    /// Parses the textual form of a UUID.
    pub fn from_str(text: &str) -> (r: Option<AgentRunId>)
        ensures
            match uuid_parsed(text@) {
                Some(v) => r == Some(AgentRunId(v)),
                None => r is None,
            },
    {
        match parse_uuid(text) {
            Some(v) => Some(AgentRunId(v)),
            None => None,
        }
    }

    /// The hyphenated lower-case text of the identifier.
    pub fn to_string(&self) -> (s: String)
        ensures
            s@ == uuid_text(self.0),
            uuid_parsed(s@) == Some(self.0),
    {
        uuid_to_string(self.0)
    }
}

/// Identifier of an agent session: the 128-bit value of a UUID.
#[derive(Debug, Clone, Copy, PartialEq, Eq, Structural, PartialOrd, Ord, Hash)]
pub struct SessionId(pub u128);

impl SessionId {
    /// A fresh random (version 4) identifier.
    pub fn new() -> (r: SessionId)
        ensures
            is_v4(r.0),
    {
        SessionId(new_uuid_v4())
    }

    /// Parses the textual form of a UUID.
    pub fn from_str(text: &str) -> (r: Option<SessionId>)
        ensures
            match uuid_parsed(text@) {
                Some(v) => r == Some(SessionId(v)),
                None => r is None,
            },
    {
        match parse_uuid(text) {
            Some(v) => Some(SessionId(v)),
            None => None,
        }
    }

    /// The hyphenated lower-case text of the identifier.
    pub fn to_string(&self) -> (s: String)
        ensures
            s@ == uuid_text(self.0),
            uuid_parsed(s@) == Some(self.0),
    {
        uuid_to_string(self.0)
    }
}

/// Identifier of a compressed context block: the 128-bit value of a UUID.
#[derive(Debug, Clone, Copy, PartialEq, Eq, Structural, PartialOrd, Ord, Hash)]
pub struct ContextBlockId(pub u128);

impl ContextBlockId {
    /// A fresh random (version 4) identifier.
    pub fn new() -> (r: ContextBlockId)
        ensures
            is_v4(r.0),
    {
        ContextBlockId(new_uuid_v4())
    }

    /// Parses the textual form of a UUID.
    pub fn from_str(text: &str) -> (r: Option<ContextBlockId>)
        ensures
            match uuid_parsed(text@) {
                Some(v) => r == Some(ContextBlockId(v)),
                None => r is None,
            },
    {
        match parse_uuid(text) {
            Some(v) => Some(ContextBlockId(v)),
            None => None,
        }
    }

    /// The hyphenated lower-case text of the identifier.
    pub fn to_string(&self) -> (s: String)
        ensures
            s@ == uuid_text(self.0),
            uuid_parsed(s@) == Some(self.0),
    {
        uuid_to_string(self.0)
    }
}

/// Identifier of a canon entity: the 128-bit value of a UUID.
#[derive(Debug, Clone, Copy, PartialEq, Eq, Structural, PartialOrd, Ord, Hash)]
pub struct EntityId(pub u128);

impl EntityId {
    /// A fresh random (version 4) identifier.
    pub fn new() -> (r: EntityId)
        ensures
            is_v4(r.0),
    {
        EntityId(new_uuid_v4())
    }

    /// Parses the textual form of a UUID.
    pub fn from_str(text: &str) -> (r: Option<EntityId>)
        ensures
            match uuid_parsed(text@) {
                Some(v) => r == Some(EntityId(v)),
                None => r is None,
            },
    {
        match parse_uuid(text) {
            Some(v) => Some(EntityId(v)),
            None => None,
        }
    }

    /// The hyphenated lower-case text of the identifier.
    pub fn to_string(&self) -> (s: String)
        ensures
            s@ == uuid_text(self.0),
            uuid_parsed(s@) == Some(self.0),
    {
        uuid_to_string(self.0)
    }
}

/// Identifier of a canon fact: the 128-bit value of a UUID.
#[derive(Debug, Clone, Copy, PartialEq, Eq, Structural, PartialOrd, Ord, Hash)]
pub struct FactId(pub u128);

impl FactId {
    /// A fresh random (version 4) identifier.
    pub fn new() -> (r: FactId)
        ensures
            is_v4(r.0),
    {
        FactId(new_uuid_v4())
    }

    /// Parses the textual form of a UUID.
    pub fn from_str(text: &str) -> (r: Option<FactId>)
        ensures
            match uuid_parsed(text@) {
                Some(v) => r == Some(FactId(v)),
                None => r is None,
            },
    {
        match parse_uuid(text) {
            Some(v) => Some(FactId(v)),
            None => None,
        }
    }

    /// The hyphenated lower-case text of the identifier.
    pub fn to_string(&self) -> (s: String)
        ensures
            s@ == uuid_text(self.0),
            uuid_parsed(s@) == Some(self.0),
    {
        uuid_to_string(self.0)
    }
}

/// Identifier of a story event: the 128-bit value of a UUID.
#[derive(Debug, Clone, Copy, PartialEq, Eq, Structural, PartialOrd, Ord, Hash)]
pub struct StoryEventId(pub u128);

impl StoryEventId {
    /// A fresh random (version 4) identifier.
    pub fn new() -> (r: StoryEventId)
        ensures
            is_v4(r.0),
    {
        StoryEventId(new_uuid_v4())
    }

    /// Parses the textual form of a UUID.
    pub fn from_str(text: &str) -> (r: Option<StoryEventId>)
        ensures
            match uuid_parsed(text@) {
                Some(v) => r == Some(StoryEventId(v)),
                None => r is None,
            },
    {
        match parse_uuid(text) {
            Some(v) => Some(StoryEventId(v)),
            None => None,
        }
    }

    /// The hyphenated lower-case text of the identifier.
    pub fn to_string(&self) -> (s: String)
        ensures
            s@ == uuid_text(self.0),
            uuid_parsed(s@) == Some(self.0),
    {
        uuid_to_string(self.0)
    }
}

/// Identifier of a plot thread: the 128-bit value of a UUID.
#[derive(Debug, Clone, Copy, PartialEq, Eq, Structural, PartialOrd, Ord, Hash)]
pub struct PlotThreadId(pub u128);

impl PlotThreadId {
    /// A fresh random (version 4) identifier.
    pub fn new() -> (r: PlotThreadId)
        ensures
            is_v4(r.0),
    {
        PlotThreadId(new_uuid_v4())
    }

    /// Parses the textual form of a UUID.
    pub fn from_str(text: &str) -> (r: Option<PlotThreadId>)
        ensures
            match uuid_parsed(text@) {
                Some(v) => r == Some(PlotThreadId(v)),
                None => r is None,
            },
    {
        match parse_uuid(text) {
            Some(v) => Some(PlotThreadId(v)),
            None => None,
        }
    }

    /// The hyphenated lower-case text of the identifier.
    pub fn to_string(&self) -> (s: String)
        ensures
            s@ == uuid_text(self.0),
            uuid_parsed(s@) == Some(self.0),
    {
        uuid_to_string(self.0)
    }
}

/// Identifier of a preference rule: the 128-bit value of a UUID.
#[derive(Debug, Clone, Copy, PartialEq, Eq, Structural, PartialOrd, Ord, Hash)]
pub struct PreferenceRuleId(pub u128);

impl PreferenceRuleId {
    /// A fresh random (version 4) identifier.
    pub fn new() -> (r: PreferenceRuleId)
        ensures
            is_v4(r.0),
    {
        PreferenceRuleId(new_uuid_v4())
    }

    /// Parses the textual form of a UUID.
    pub fn from_str(text: &str) -> (r: Option<PreferenceRuleId>)
        ensures
            match uuid_parsed(text@) {
                Some(v) => r == Some(PreferenceRuleId(v)),
                None => r is None,
            },
    {
        match parse_uuid(text) {
            Some(v) => Some(PreferenceRuleId(v)),
            None => None,
        }
    }

    /// The hyphenated lower-case text of the identifier.
    pub fn to_string(&self) -> (s: String)
        ensures
            s@ == uuid_text(self.0),
            uuid_parsed(s@) == Some(self.0),
    {
        uuid_to_string(self.0)
    }
}

/// Identifier of a proposal: the 128-bit value of a UUID.
#[derive(Debug, Clone, Copy, PartialEq, Eq, Structural, PartialOrd, Ord, Hash)]
pub struct ProposalId(pub u128);

impl ProposalId {
    /// A fresh random (version 4) identifier.
    pub fn new() -> (r: ProposalId)
        ensures
            is_v4(r.0),
    {
        ProposalId(new_uuid_v4())
    }

    /// Parses the textual form of a UUID.
    pub fn from_str(text: &str) -> (r: Option<ProposalId>)
        ensures
            match uuid_parsed(text@) {
                Some(v) => r == Some(ProposalId(v)),
                None => r is None,
            },
    {
        match parse_uuid(text) {
            Some(v) => Some(ProposalId(v)),
            None => None,
        }
    }

    /// The hyphenated lower-case text of the identifier.
    pub fn to_string(&self) -> (s: String)
        ensures
            s@ == uuid_text(self.0),
            uuid_parsed(s@) == Some(self.0),
    {
        uuid_to_string(self.0)
    }
}

/// Identifier of a stored result object: the 128-bit value of a UUID.
#[derive(Debug, Clone, Copy, PartialEq, Eq, Structural, PartialOrd, Ord, Hash)]
pub struct ResultObjectId(pub u128);

impl ResultObjectId {
    /// A fresh random (version 4) identifier.
    pub fn new() -> (r: ResultObjectId)
        ensures
            is_v4(r.0),
    {
        ResultObjectId(new_uuid_v4())
    }

    /// Parses the textual form of a UUID.
    pub fn from_str(text: &str) -> (r: Option<ResultObjectId>)
        ensures
            match uuid_parsed(text@) {
                Some(v) => r == Some(ResultObjectId(v)),
                None => r is None,
            },
    {
        match parse_uuid(text) {
            Some(v) => Some(ResultObjectId(v)),
            None => None,
        }
    }

    /// The hyphenated lower-case text of the identifier.
    pub fn to_string(&self) -> (s: String)
        ensures
            s@ == uuid_text(self.0),
            uuid_parsed(s@) == Some(self.0),
    {
        uuid_to_string(self.0)
    }
}

/// A monotonically growing revision counter of a chapter.
#[derive(Debug, Clone, Copy, PartialEq, Eq, Structural, PartialOrd, Ord)]
pub struct Revision(pub u64);

impl Revision {
    /// The revision every chapter starts at.
    pub fn initial() -> (r: Revision)
        ensures
            r.0 == 0,
    {
        Revision(0)
    }

    /// The revision that follows this one.
    pub fn next(self) -> (r: Revision)
        requires
            self.0 < u64::MAX,
        ensures
            r.0 == self.0 + 1,
    {
        Revision(self.0 + 1)
    }
}


/// Calls `chrono::Utc::now` and reads its milliseconds since the Unix epoch.
/// The value is the clock's: nothing is claimed of it.
#[verifier::external_body]
pub(crate) fn now_millis() -> i64 {
    chrono::Utc::now().timestamp_millis()
}
} // verus!
