//! The failure a kernel tool reports, and the checks on tool payload fields
//! that several tools share.
use vstd::prelude::*;
use crate::ids::{uuid_parsed, ChapterId, ProjectId, Revision};
use crate::text::{append_str, chars_of, string_of};

verus! {

/// A tool refused or failed its work: which tool, and why.
#[derive(Debug, Clone, PartialEq, Eq)]
pub struct ToolFailure {
    pub tool: String,
    pub message: String,
}

/// A failure of `tool` with `message`.
pub fn tool_failure(tool: &str, message: &str) -> (r: ToolFailure)
    ensures
        r.tool@ == tool@,
        r.message@ == message@,
{
    ToolFailure { tool: string_of(chars_of(tool).as_slice()), message: string_of(chars_of(message).as_slice()) }
}

/// A failure of `tool` whose message is `prefix` followed by `detail`.
pub fn tool_failure_with(tool: &str, prefix: &str, detail: &[char]) -> (r: ToolFailure)
    ensures
        r.tool@ == tool@,
        r.message@ == prefix@ + detail@,
{
    let mut m = chars_of(prefix);
    crate::text::append_chars(&mut m, detail);
    ToolFailure { tool: string_of(chars_of(tool).as_slice()), message: string_of(m.as_slice()) }
}

/// The project a block tool works on, read from the payload's `projectId`
/// text; a missing or malformed value is refused.
pub fn project_id_field(value: Option<&str>) -> (r: Result<ProjectId, ToolFailure>)
    ensures
        match value {
            Some(t) if uuid_parsed(t@) is Some => r == Ok::<ProjectId, ToolFailure>(
                ProjectId(uuid_parsed(t@)->0),
            ),
            _ => (r matches Err(e) && e.tool@ == "block"@ && e.message@
                == "payload 缺少合法的 projectId"@),
        },
{
    match value {
        Some(t) => match ProjectId::from_str(t) {
            Some(id) => Ok(id),
            None => Err(tool_failure("block", "payload 缺少合法的 projectId")),
        },
        None => Err(tool_failure("block", "payload 缺少合法的 projectId")),
    }
}

/// The chapter a block tool works on, read from the payload's `chapterId`
/// text; a missing or malformed value is refused.
pub fn chapter_id_field(value: Option<&str>) -> (r: Result<ChapterId, ToolFailure>)
    ensures
        match value {
            Some(t) if uuid_parsed(t@) is Some => r == Ok::<ChapterId, ToolFailure>(
                ChapterId(uuid_parsed(t@)->0),
            ),
            _ => (r matches Err(e) && e.tool@ == "block"@ && e.message@
                == "payload 缺少合法的 chapterId"@),
        },
{
    match value {
        Some(t) => match ChapterId::from_str(t) {
            Some(id) => Ok(id),
            None => Err(tool_failure("block", "payload 缺少合法的 chapterId")),
        },
        None => Err(tool_failure("block", "payload 缺少合法的 chapterId")),
    }
}

/// The revision a block save is based on, read from the payload's
/// `baseRevision` number; a missing value is refused.
pub fn base_revision(value: Option<u64>) -> (r: Result<Revision, ToolFailure>)
    ensures
        match value {
            Some(n) => r == Ok::<Revision, ToolFailure>(Revision(n)),
            None => (r matches Err(e) && e.tool@ == "block"@ && e.message@
                == "payload 缺少 baseRevision"@),
        },
{
    match value {
        Some(n) => Ok(Revision(n)),
        None => Err(tool_failure("block", "payload 缺少 baseRevision")),
    }
}

} // verus!
