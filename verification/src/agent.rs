//! The agent runtime: its budget, the prompts of a continuation, how the
//! streamed reply becomes a content patch, and the reply handling of its
//! own model clients.
use vstd::prelude::*;
use crate::content::TextOperation;
use crate::events::Actor;
use crate::ids::{now_millis, AgentRunId, BlockId, ChapterId, ProposalId, Revision};
use crate::providers::{echo_text, is_known_service, ModelChunk, ModelError};
use crate::text::{append_str, chars_of, copy_string, slice_to_vec, starts_with, str_eq, string_of};

verus! {

/// The limits of an agent run.
#[derive(Debug, Clone, Copy, PartialEq, Eq, Structural)]
pub struct AgentBudget {
    pub max_rounds: u32,
    pub max_tokens: u32,
    pub max_cost_micros: u64,
    pub max_seconds: u64,
}

/// One agent run on a chapter. `started_at_ms` is in milliseconds since the
/// Unix epoch.
#[derive(Debug, Clone, PartialEq, Eq)]
pub struct AgentRun {
    pub id: AgentRunId,
    pub chapter_id: ChapterId,
    pub base_revision: Revision,
    pub prompt: String,
    pub budget: AgentBudget,
    pub started_at_ms: i64,
}

/// Why an agent run failed.
#[derive(Debug, Clone, PartialEq, Eq)]
pub enum AgentRuntimeError {
    Provider(ModelError),
}

/// A proposed change to a chapter. `created_at_ms` is in milliseconds since
/// the Unix epoch.
#[derive(Debug, Clone, PartialEq, Eq)]
pub struct ContentPatch {
    pub id: ProposalId,
    pub chapter_id: ChapterId,
    pub base_revision: Revision,
    pub operations: Vec<TextOperation>,
    pub rationale: String,
    pub created_by: Actor,
    pub created_at_ms: i64,
}

/// The system prompt of a continuation.
pub open spec fn continuation_system_prompt() -> Seq<char> {
    "你是网文续写助手，必须遵守给定设定。"@
}

/// The user prompt of a continuation: the context, a blank line, and the task.
pub open spec fn continuation_user_prompt(context: Seq<char>, task: Seq<char>) -> Seq<char> {
    context + "\n\n任务："@ + task
}

/// The system and user prompts of a continuation of `context_text` for the
/// run's prompt.
pub fn continuation_prompts(run: &AgentRun, context_text: &str) -> (r: (String, String))
    ensures
        r.0@ == continuation_system_prompt(),
        r.1@ == continuation_user_prompt(context_text@, run.prompt@),
{
    let system = string_of(chars_of("你是网文续写助手，必须遵守给定设定。").as_slice());
    let mut user = chars_of(context_text);
    append_str(&mut user, "\n\n任务：");
    append_str(&mut user, run.prompt.as_str());
    (system, string_of(user.as_slice()))
}

/// The text of a streamed reply: the chunks' texts in order, up to the
/// first error, which is the outcome then.
pub open spec fn streamed_text(chunks: Seq<Result<ModelChunk, ModelError>>) -> Result<Seq<char>, ModelError>
    decreases chunks.len(),
{
    if chunks.len() == 0 {
        Ok(seq![])
    } else {
        match streamed_text(chunks.drop_last()) {
            Err(e) => Err(e),
            Ok(t) => match chunks.last() {
                Ok(c) => Ok(t + c.text@),
                Err(e) => Err(e),
            },
        }
    }
}

/// Collects a streamed reply; see `streamed_text`.
pub fn collect_reply(chunks: Vec<Result<ModelChunk, ModelError>>) -> (r: Result<String, AgentRuntimeError>)
    ensures
        match streamed_text(chunks@) {
            Ok(t) => (r matches Ok(s) && s@ == t),
            Err(e) => (r matches Err(AgentRuntimeError::Provider(x)) && x@ == e@),
        },
{
    let ghost all = chunks@;
    let mut text: Vec<char> = Vec::new();
    let mut i: usize = 0;
    while i < chunks.len()
        invariant
            i <= chunks.len(),
            all == chunks@,
            streamed_text(all.take(i as int)) == Ok::<Seq<char>, ModelError>(text@),
        decreases chunks.len() - i,
    {
        proof {
            assert(all.take(i + 1).drop_last() =~= all.take(i as int));
            assert(all.take(i + 1).last() == all[i as int]);
        }
        match &chunks[i] {
            Ok(c) => {
                crate::text::append_str(&mut text, c.text.as_str());
            },
            Err(e) => {
                proof {
                    lemma_stream_stops(all, i as int, all.len() as int);
                    assert(all.take(all.len() as int) =~= all);
                }
                return Err(AgentRuntimeError::Provider(e.copy()));
            },
        }
        i += 1;
    }
    assert(all.take(chunks.len() as int) =~= all);
    Ok(string_of(text.as_slice()))
}

proof fn lemma_stream_stops(all: Seq<Result<ModelChunk, ModelError>>, i: int, n: int)
    requires
        0 <= i < n <= all.len(),
        streamed_text(all.take(i)) is Ok,
        all[i] is Err,
    ensures
        streamed_text(all.take(n)) == Err::<Seq<char>, ModelError>(all[i]->Err_0),
    decreases n,
{
    assert(all.take(n).drop_last() =~= all.take(n - 1));
    if n > i + 1 {
        lemma_stream_stops(all, i, n - 1);
    } else {
        assert(all.take(n - 1) =~= all.take(i));
    }
}

/// The patch a continuation proposes: the generated text inserted at the end
/// of the chapter (offset `u32::MAX`, the nil block), for the run's chapter
/// and base revision, credited to the model. It gets a fresh identifier and
/// the current time.
pub fn continuation_patch(run: &AgentRun, text: String, model: &str) -> (r: ContentPatch)
    ensures
        r.chapter_id == run.chapter_id,
        r.base_revision == run.base_revision,
        r.operations@.len() == 1,
        r.operations@[0] matches TextOperation::Insert { block_id, offset, text: t } && block_id
            == BlockId(0) && offset == u32::MAX && t@ == text@,
        r.rationale@ == "AI 续写候选"@,
        r.created_by matches Actor::Agent { model: m } && m@ == model@,
{
    let mut operations: Vec<TextOperation> = Vec::new();
    operations.push(TextOperation::Insert { block_id: BlockId(0), offset: u32::MAX, text });
    ContentPatch {
        id: ProposalId::new(),
        chapter_id: run.chapter_id,
        base_revision: run.base_revision,
        operations,
        rationale: string_of(chars_of("AI 续写候选").as_slice()),
        created_by: Actor::Agent { model: string_of(chars_of(model).as_slice()) },
        created_at_ms: now_millis(),
    }
}

/// The fallback provider of the agent runtime.
pub struct EchoProvider;

impl EchoProvider {
    /// The provider's name.
    pub fn name(&self) -> (r: &'static str)
        ensures
            r@ == "echo"@,
    {
        "echo"
    }

    /// The single, final chunk it streams for a prompt.
    pub fn reply(&self, user_prompt: &str) -> (r: ModelChunk)
        ensures
            r.text@ == echo_text(user_prompt@),
            r.input_tokens == Some(0u32),
            r.output_tokens == Some(0u32),
            r.done,
    {
        crate::providers::EchoProvider.reply(user_prompt)
    }
}

/// The agent runtime's client of an OpenAI-compatible chat API.
#[derive(Debug, Clone, PartialEq, Eq)]
pub struct OpenAICompatibleProvider {
    pub base_url: String,
    pub api_key: String,
    pub provider_name: String,
}

/// The name the agent runtime's client reports: DeepSeek, OpenAI,
/// Anthropic and Ollama by name, anything else as `custom`.
pub open spec fn agent_reported_name(provider_name: Seq<char>) -> Seq<char> {
    if provider_name == "deepseek"@ || provider_name == "openai"@ || provider_name == "anthropic"@
        || provider_name == "ollama"@ {
        provider_name
    } else {
        "custom"@
    }
}

impl OpenAICompatibleProvider {
    /// The name of the service this client talks to.
    pub fn name(&self) -> (r: &'static str)
        ensures
            r@ == agent_reported_name(self.provider_name@),
    {
        let n = self.provider_name.as_str();
        if str_eq(n, "deepseek") {
            "deepseek"
        } else if str_eq(n, "openai") {
            "openai"
        } else if str_eq(n, "anthropic") {
            "anthropic"
        } else if str_eq(n, "ollama") {
            "ollama"
        } else {
            "custom"
        }
    }

    /// The chat-completions endpoint of this client.
    pub fn chat_completions_url(&self) -> (r: String)
        ensures
            r@ == crate::providers::chat_url(self.base_url@),
    {
        crate::providers::chat_endpoint(self.base_url.as_str())
    }
}

/// What a line of the agent client's event stream carries.
#[derive(Debug, Clone, PartialEq, Eq)]
pub enum StreamLine {
    /// Not a `data: ` line.
    Other,
    /// The end marker `[DONE]`.
    Done,
    /// A JSON payload.
    Data(String),
}

/// Reads a line of the agent client's event stream: the payload after
/// `data: `, the end marker, or nothing.
pub fn stream_line(line: &str) -> (r: StreamLine)
    ensures
        !starts_with(line@, "data: "@) ==> r == StreamLine::Other,
        starts_with(line@, "data: "@) && line@.skip(6) == "[DONE]"@ ==> r == StreamLine::Done,
        starts_with(line@, "data: "@) && line@.skip(6) != "[DONE]"@ ==> (r matches StreamLine::Data(d)
            && d@ == line@.skip(6)),
{
    let v = chars_of(line);
    let prefix = chars_of("data: ");
    if !crate::text::starts_with_chars(v.as_slice(), prefix.as_slice()) {
        return StreamLine::Other;
    }
    proof {
        reveal_strlit("data: ");
    }
    let data = slice_to_vec(v.as_slice(), 6, v.len());
    assert(data@ =~= line@.skip(6));
    if crate::text::chars_eq_str(data.as_slice(), "[DONE]") {
        StreamLine::Done
    } else {
        StreamLine::Data(string_of(data.as_slice()))
    }
}

/// The chunk the agent client makes of a frame's first choice: its content,
/// final when the choice has a finish reason; an empty final chunk for a
/// finish without content; nothing otherwise.
pub fn legacy_chunk(content: Option<String>, finish_reason: Option<String>) -> (r: Option<ModelChunk>)
    ensures
        content matches Some(c) ==> (r matches Some(m) && m.text@ == c@ && m.input_tokens is None
            && m.output_tokens is None && m.done == finish_reason is Some),
        content is None && finish_reason is Some ==> (r matches Some(m) && m.text@.len() == 0
            && m.input_tokens is None && m.output_tokens is None && m.done),
        content is None && finish_reason is None ==> r is None,
{
    let finished = finish_reason.is_some();
    match content {
        Some(c) => Some(ModelChunk { text: c, input_tokens: None, output_tokens: None, done: finished }),
        None => if finished {
            Some(ModelChunk { text: String::new(), input_tokens: None, output_tokens: None, done: true })
        } else {
            None
        },
    }
}

/// The chunk that ends the agent client's stream at `[DONE]`.
pub fn done_chunk() -> (r: ModelChunk)
    ensures
        r.text@.len() == 0,
        r.input_tokens is None,
        r.output_tokens is None,
        r.done,
{
    ModelChunk { text: String::new(), input_tokens: None, output_tokens: None, done: true }
}

} // verus!
