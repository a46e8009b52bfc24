//! The workspace's own decisions around the repository: which project is
//! active, how a chapter's body reads when it has no block sequence, what a
//! continuity check says of open foreshadowing, the defaults of the tools'
//! payloads, and the states that the author's reviews set.
use vstd::prelude::*;
use crate::content::{BlockKind, ContentBlock};
use crate::domain::{FactStatus, PlotThread, PlotThreadStatus, PreferenceStatus};
use crate::ids::{BlockId, ChapterId, ProjectId};
use crate::protocol::string_views;
use crate::text::{append_chars, append_str, chars_of, copy_string, decimal, decimal_chars, string_of};

verus! {

/// The token budget of a context assembly when the payload names none.
pub fn default_budget() -> (r: u32)
    ensures
        r == 12_000,
{
    12_000
}

/// The number of hints a query asks for when the payload names none.
pub fn default_limit() -> (r: usize)
    ensures
        r == 5,
{
    5
}

/// The active project of the library: the one asked for, else the one
/// stored as active, else the first project, else none.
pub fn active_project(asked: Option<ProjectId>, stored: Option<String>, first: Option<ProjectId>) -> (r:
    Option<String>)
    ensures
        match asked {
            Some(p) => (r matches Some(s) && s@ == crate::ids::uuid_text(p.0)),
            None => match stored {
                Some(s) => (r matches Some(x) && x@ == s@),
                None => match first {
                    Some(p) => (r matches Some(s) && s@ == crate::ids::uuid_text(p.0)),
                    None => r is None,
                },
            },
        },
{
    match asked {
        Some(p) => Some(p.to_string()),
        None => match stored {
            Some(s) => Some(s),
            None => match first {
                Some(p) => Some(p.to_string()),
                None => None,
            },
        },
    }
}

/// The blocks of a chapter body: its stored block sequence; without one,
/// nothing for an empty text, else the whole text as one body block with a
/// fresh identifier.
pub fn chapter_body_blocks(stored: Option<Vec<ContentBlock>>, text: &str) -> (r: Vec<ContentBlock>)
    ensures
        match stored {
            Some(b) => r == b,
            None => if text@.len() == 0 {
                r@.len() == 0
            } else {
                &&& r@.len() == 1
                &&& r@[0].kind == BlockKind::Body
                &&& r@[0].text@ == text@
                &&& r@[0].position == 0
                &&& r@[0].markup@.len() == 0
            },
        },
{
    match stored {
        Some(b) => b,
        None => {
            if text.unicode_len() == 0 {
                Vec::new()
            } else {
                let mut v: Vec<ContentBlock> = Vec::new();
                v.push(
                    ContentBlock {
                        id: BlockId::new(),
                        kind: BlockKind::Body,
                        text: string_of(chars_of(text).as_slice()),
                        position: 0,
                        markup: Vec::new(),
                    },
                );
                v
            }
        },
    }
}

/// What a continuity check notes of open foreshadowing.
#[derive(Debug, Clone, PartialEq, Eq)]
pub struct OpenThreadsNote {
    pub code: String,
    pub message: String,
    pub evidence: Vec<String>,
}

/// The titles of the open plot threads, in order.
pub open spec fn open_titles(threads: Seq<PlotThread>) -> Seq<Seq<char>>
    decreases threads.len(),
{
    if threads.len() == 0 {
        seq![]
    } else {
        let rest = open_titles(threads.drop_last());
        if threads.last().status == PlotThreadStatus::Open {
            rest.push(threads.last().title@)
        } else {
            rest
        }
    }
}

/// The note a continuity check adds when foreshadowing is still open: how
/// many threads are open, with their titles as evidence; none when no
/// thread is open.
pub fn open_foreshadowing(threads: &Vec<PlotThread>) -> (r: Option<OpenThreadsNote>)
    ensures
        open_titles(threads@).len() == 0 ==> r is None,
        open_titles(threads@).len() > 0 ==> (r matches Some(n) && n.code@ == "open-foreshadowing"@
            && n.message@ == "仍有 "@ + decimal(open_titles(threads@).len()) + " 条未兑现伏笔"@
            && string_views(n.evidence@) == open_titles(threads@)),
{
    let mut evidence: Vec<String> = Vec::new();
    let mut i: usize = 0;
    while i < threads.len()
        invariant
            i <= threads.len(),
            string_views(evidence@) == open_titles(threads@.take(i as int)),
        decreases threads.len() - i,
    {
        proof {
            assert(threads@.take(i + 1).drop_last() =~= threads@.take(i as int));
            assert(threads@.take(i + 1).last() == threads@[i as int]);
        }
        if threads[i].status == PlotThreadStatus::Open {
            let ghost before = string_views(evidence@);
            evidence.push(copy_string(&threads[i].title));
            proof {
                assert(string_views(evidence@) =~= before.push(threads@[i as int].title@));
            }
        }
        i += 1;
    }
    assert(threads@.take(threads.len() as int) =~= threads@);
    if evidence.len() == 0 {
        return None;
    }
    let mut m = chars_of("仍有 ");
    let d = decimal_chars(evidence.len() as u64);
    append_chars(&mut m, d.as_slice());
    append_str(&mut m, " 条未兑现伏笔");
    Some(
        OpenThreadsNote {
            code: string_of(chars_of("open-foreshadowing").as_slice()),
            message: string_of(m.as_slice()),
            evidence,
        },
    )
}

/// The causation of the jobs an event enqueues: the event's own causation,
/// else the event itself.
pub fn job_causation(event_causation: Option<String>, event_id: &str) -> (r: String)
    ensures
        r@ == match event_causation {
            Some(c) => c@,
            None => event_id@,
        },
{
    match event_causation {
        Some(c) => c,
        None => string_of(chars_of(event_id).as_slice()),
    }
}

/// The parts of an agent job's payload that have defaults.
#[derive(Debug, Clone, PartialEq, Eq)]
pub struct AgentJob {
    pub chapter_id: ChapterId,
    pub revision: u64,
    pub prompt: String,
    pub context_text: String,
    pub max_tokens: u32,
}

/// The agent job a payload describes: the chapter it names (the nil
/// identifier when it names none or a malformed one), revision 0, the
/// prompt `继续当前剧情`, no context and 2048 tokens unless given.
pub fn agent_job(
    chapter_id: Option<&str>,
    revision: Option<u64>,
    prompt: Option<String>,
    context_text: Option<String>,
    max_tokens: Option<u32>,
) -> (r: AgentJob)
    ensures
        r.chapter_id == match chapter_id {
            Some(t) => match crate::ids::uuid_parsed(t@) {
                Some(v) => ChapterId(v),
                None => ChapterId(0),
            },
            None => ChapterId(0),
        },
        r.revision == match revision {
            Some(v) => v,
            None => 0,
        },
        r.prompt@ == match prompt {
            Some(p) => p@,
            None => "继续当前剧情"@,
        },
        r.context_text@ == match context_text {
            Some(c) => c@,
            None => Seq::<char>::empty(),
        },
        r.max_tokens == match max_tokens {
            Some(m) => m,
            None => 2048,
        },
{
    let chapter = match chapter_id {
        Some(t) => match ChapterId::from_str(t) {
            Some(id) => id,
            None => ChapterId(0),
        },
        None => ChapterId(0),
    };
    AgentJob {
        chapter_id: chapter,
        revision: match revision {
            Some(v) => v,
            None => 0,
        },
        prompt: match prompt {
            Some(p) => p,
            None => string_of(chars_of("继续当前剧情").as_slice()),
        },
        context_text: match context_text {
            Some(c) => c,
            None => String::new(),
        },
        max_tokens: match max_tokens {
            Some(m) => m,
            None => 2048,
        },
    }
}

/// The state a preference rule gets when the author switches it: disabled,
/// or confirmed when switched back on.
pub fn preference_status(disabled: bool) -> (r: PreferenceStatus)
    ensures
        r == (if disabled {
            PreferenceStatus::Disabled
        } else {
            PreferenceStatus::Confirmed
        }),
{
    if disabled {
        PreferenceStatus::Disabled
    } else {
        PreferenceStatus::Confirmed
    }
}

/// What reviewing a canon fact sets and announces: accepted with the event
/// `canon.accepted`, or rejected with `canon.rejected`.
pub fn review_decision(accept: bool) -> (r: (FactStatus, &'static str))
    ensures
        accept ==> r.0 == FactStatus::Accepted && r.1@ == "canon.accepted"@,
        !accept ==> r.0 == FactStatus::Rejected && r.1@ == "canon.rejected"@,
{
    if accept {
        (FactStatus::Accepted, "canon.accepted")
    } else {
        (FactStatus::Rejected, "canon.rejected")
    }
}

} // verus!
