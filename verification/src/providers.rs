//! Model providers: the configuration that selects one, the echo fallback,
//! the OpenAI-compatible client's request and reply handling, and the
//! incremental parser of server-sent events.
use vstd::prelude::*;
use vstd::utf8::{decode_utf8, valid_utf8};
use crate::text::{append_str, chars_of, str_eq, string_of, copy_string, slice_to_vec};

verus! {

/// The model provider a user configured.
#[derive(Debug, Clone, PartialEq, Eq)]
pub struct ProviderConfig {
    pub provider: String,
    pub api_key: String,
    pub base_url: String,
    pub model: String,
}

impl Default for ProviderConfig {
    fn default() -> (r: ProviderConfig)
        ensures
            r.provider@ == Seq::<char>::empty(),
            r.api_key@ == Seq::<char>::empty(),
            r.base_url@ == Seq::<char>::empty(),
            r.model@ == Seq::<char>::empty(),
    {
        ProviderConfig {
            provider: String::new(),
            api_key: String::new(),
            base_url: String::new(),
            model: String::new(),
        }
    }
}

/// Whether a provider name is one of the known OpenAI-compatible services.
pub open spec fn is_known_service(name: Seq<char>) -> bool {
    name == "deepseek"@ || name == "openai"@ || name == "anthropic"@ || name == "moonshot"@ || name
        == "ollama"@
}

/// The registry name a configuration resolves to: `echo` without an API
/// key; a known service by its name; anything else (empty or `custom`
/// included) as a custom OpenAI-compatible service.
pub open spec fn resolved_provider(provider: Seq<char>, api_key: Seq<char>) -> Seq<char> {
    if api_key.len() == 0 {
        "echo"@
    } else if is_known_service(provider) {
        provider
    } else {
        "custom"@
    }
}

fn known_service(name: &str) -> (r: bool)
    ensures
        r == is_known_service(name@),
{
    str_eq(name, "deepseek") || str_eq(name, "openai") || str_eq(name, "anthropic") || str_eq(
        name,
        "moonshot",
    ) || str_eq(name, "ollama")
}

/// The registry name of the provider a configuration selects.
pub fn resolve_provider_name(config: &ProviderConfig) -> (r: String)
    ensures
        r@ == resolved_provider(config.provider@, config.api_key@),
{
    if config.api_key.as_str().unicode_len() == 0 {
        return "echo".to_owned();
    }
    if known_service(config.provider.as_str()) {
        copy_string(&config.provider)
    } else {
        "custom".to_owned()
    }
}

/// A piece of a streamed model reply.
#[derive(Debug, Clone, PartialEq, Eq)]
pub struct ModelChunk {
    pub text: String,
    pub input_tokens: Option<u32>,
    pub output_tokens: Option<u32>,
    pub done: bool,
}

/// Why a model call failed.
#[derive(Debug, Clone, PartialEq, Eq)]
pub enum ModelError {
    Unavailable(String),
    InvalidResponse(String),
    Http(String),
    BudgetExceeded,
}

/// What a model error says.
pub enum ModelErrorView {
    Unavailable(Seq<char>),
    InvalidResponse(Seq<char>),
    Http(Seq<char>),
    BudgetExceeded,
}

impl View for ModelError {
    type V = ModelErrorView;

    open spec fn view(&self) -> ModelErrorView {
        match self {
            ModelError::Unavailable(m) => ModelErrorView::Unavailable(m@),
            ModelError::InvalidResponse(m) => ModelErrorView::InvalidResponse(m@),
            ModelError::Http(m) => ModelErrorView::Http(m@),
            ModelError::BudgetExceeded => ModelErrorView::BudgetExceeded,
        }
    }
}

impl ModelError {
    /// A copy of the error.
    pub fn copy(&self) -> (r: ModelError)
        ensures
            r@ == self@,
    {
        match self {
            ModelError::Unavailable(m) => ModelError::Unavailable(copy_string(m)),
            ModelError::InvalidResponse(m) => ModelError::InvalidResponse(copy_string(m)),
            ModelError::Http(m) => ModelError::Http(copy_string(m)),
            ModelError::BudgetExceeded => ModelError::BudgetExceeded,
        }
    }

    /// The error's message.
    pub fn message(&self) -> (r: String)
        ensures
            r@ == match self {
                ModelError::Unavailable(m) => "provider unavailable: "@ + m@,
                ModelError::InvalidResponse(m) => "invalid response: "@ + m@,
                ModelError::Http(m) => "http error: "@ + m@,
                ModelError::BudgetExceeded => "budget exceeded"@,
            },
    {
        let mut v: Vec<char> = Vec::new();
        match self {
            ModelError::Unavailable(m) => {
                append_str(&mut v, "provider unavailable: ");
                append_str(&mut v, m.as_str());
            },
            ModelError::InvalidResponse(m) => {
                append_str(&mut v, "invalid response: ");
                append_str(&mut v, m.as_str());
            },
            ModelError::Http(m) => {
                append_str(&mut v, "http error: ");
                append_str(&mut v, m.as_str());
            },
            ModelError::BudgetExceeded => {
                append_str(&mut v, "budget exceeded");
            },
        }
        string_of(v.as_slice())
    }
}

/// The fallback provider used when no real model is configured: it reports
/// the task back.
pub struct EchoProvider;

/// The echo reply to a user prompt.
pub open spec fn echo_text(user_prompt: Seq<char>) -> Seq<char> {
    "请配置真实模型提供方。已收到写作任务："@ + user_prompt
}

impl EchoProvider {
    /// The provider's registry name.
    pub fn name(&self) -> (r: &'static str)
        ensures
            r@ == "echo"@,
    {
        "echo"
    }

    /// The single, final chunk the echo provider streams for a prompt.
    pub fn reply(&self, user_prompt: &str) -> (r: ModelChunk)
        ensures
            r.text@ == echo_text(user_prompt@),
            r.input_tokens == Some(0u32),
            r.output_tokens == Some(0u32),
            r.done,
    {
        let mut v = chars_of("请配置真实模型提供方。已收到写作任务：");
        append_str(&mut v, user_prompt);
        ModelChunk {
            text: string_of(v.as_slice()),
            input_tokens: Some(0),
            output_tokens: Some(0),
            done: true,
        }
    }
}

/// The factory of the echo provider: it accepts every configuration.
pub struct EchoFactory;

impl EchoFactory {
    /// The echo provider, whatever the configuration.
    pub fn create(&self, config: &ProviderConfig) -> (r: EchoProvider) {
        EchoProvider
    }
}

/// A client of an OpenAI-compatible chat API (DeepSeek, Moonshot, Ollama…).
#[derive(Debug, Clone, PartialEq, Eq)]
pub struct OpenAICompatibleProvider {
    pub base_url: String,
    pub api_key: String,
    pub provider_name: String,
}

/// The name a provider reports: a known service by its name, else `custom`.
pub open spec fn reported_name(provider_name: Seq<char>) -> Seq<char> {
    if is_known_service(provider_name) {
        provider_name
    } else {
        "custom"@
    }
}

/// The chat-completions endpoint under a base URL with its trailing slashes removed.
pub open spec fn chat_url(base_url: Seq<char>) -> Seq<char> {
    crate::text::trim_end_by(base_url, |c: char| c == '/') + "/chat/completions"@
}

impl OpenAICompatibleProvider {
    /// The name of the service this client talks to.
    pub fn name(&self) -> (r: &'static str)
        ensures
            r@ == reported_name(self.provider_name@),
    {
        let n = self.provider_name.as_str();
        if str_eq(n, "deepseek") {
            "deepseek"
        } else if str_eq(n, "openai") {
            "openai"
        } else if str_eq(n, "anthropic") {
            "anthropic"
        } else if str_eq(n, "moonshot") {
            "moonshot"
        } else if str_eq(n, "ollama") {
            "ollama"
        } else {
            "custom"
        }
    }

    /// The chat-completions endpoint of this client.
    pub fn chat_completions_url(&self) -> (r: String)
        ensures
            r@ == chat_url(self.base_url@),
    {
        chat_endpoint(self.base_url.as_str())
    }
}

/// The chat-completions endpoint under a base URL: the URL without its
/// trailing slashes, then `/chat/completions`.
pub fn chat_endpoint(base_url: &str) -> (r: String)
    ensures
        r@ == chat_url(base_url@),
{
    let v = chars_of(base_url);
    let mut end = v.len();
    while end > 0 && v[end - 1] == '/'
        invariant
            end <= v.len(),
            forall|j: int| end <= j < v.len() ==> v@[j] == '/',
        decreases end,
    {
        end -= 1;
    }
    proof {
        crate::text::lemma_trim_end_by(v@, |c: char| c == '/', end as int);
    }
    let mut u = slice_to_vec(v.as_slice(), 0, end);
    assert(v@.subrange(0, end as int) =~= v@.take(end as int));
    append_str(&mut u, "/chat/completions");
    string_of(u.as_slice())
}

/// Creates OpenAI-compatible clients from configurations.
pub struct OpenAICompatibleFactory;

impl OpenAICompatibleFactory {
    /// A client for the configuration; an empty API key or base URL is
    /// refused as unavailable.
    pub fn create(&self, config: &ProviderConfig) -> (r: Result<OpenAICompatibleProvider, ModelError>)
        ensures
            config.api_key@.len() == 0 ==> (r matches Err(ModelError::Unavailable(m)) && m@
                == "api key is empty"@),
            config.api_key@.len() > 0 && config.base_url@.len() == 0 ==> (r matches Err(
                ModelError::Unavailable(m),
            ) && m@ == "base url is empty"@),
            config.api_key@.len() > 0 && config.base_url@.len() > 0 ==> (r matches Ok(p)
                && p.base_url@ == config.base_url@ && p.api_key@ == config.api_key@
                && p.provider_name@ == config.provider@),
    {
        if config.api_key.as_str().unicode_len() == 0 {
            return Err(ModelError::Unavailable("api key is empty".to_owned()));
        }
        if config.base_url.as_str().unicode_len() == 0 {
            return Err(ModelError::Unavailable("base url is empty".to_owned()));
        }
        Ok(OpenAICompatibleProvider {
            base_url: copy_string(&config.base_url),
            api_key: copy_string(&config.api_key),
            provider_name: copy_string(&config.provider),
        })
    }
}

/// The delta of a streamed choice.
#[derive(Debug, Clone, PartialEq, Eq)]
pub struct ChunkDelta {
    pub content: Option<String>,
}

/// One streamed choice.
#[derive(Debug, Clone, PartialEq, Eq)]
pub struct ChunkChoice {
    pub delta: ChunkDelta,
}

/// Token usage reported at the end of a stream.
#[derive(Debug, Clone, Copy, PartialEq, Eq, Structural)]
pub struct Usage {
    pub prompt_tokens: Option<u32>,
    pub completion_tokens: Option<u32>,
}

/// One decoded frame of an OpenAI-compatible stream.
#[derive(Debug, Clone, PartialEq, Eq)]
pub struct ChatCompletionChunk {
    pub choices: Vec<ChunkChoice>,
    pub usage: Option<Usage>,
}

/// What a stream frame translates to, as text, input and output tokens,
/// and whether it ends the stream; see `translate_chunk`.
pub open spec fn translated(chunk: ChatCompletionChunk) -> Option<(Seq<char>, Option<u32>, Option<u32>, bool)> {
    if chunk.choices@.len() > 0 {
        match chunk.choices@[0].delta.content {
            Some(c) => Some((c@, None, None, false)),
            None => None,
        }
    } else {
        match chunk.usage {
            Some(u) => Some((Seq::<char>::empty(), u.prompt_tokens, u.completion_tokens, true)),
            None => None,
        }
    }
}

/// A model chunk as text, input and output tokens, and whether it is final.
pub open spec fn chunk_view(m: ModelChunk) -> (Seq<char>, Option<u32>, Option<u32>, bool) {
    (m.text@, m.input_tokens, m.output_tokens, m.done)
}

/// Translates a stream frame: the first choice's content becomes a text
/// chunk; a choice without content (such as a `finish_reason` frame) is
/// skipped, since the usage frame follows it; a frame without choices ends
/// the stream with its usage, if it has one.
pub fn translate_chunk(chunk: &ChatCompletionChunk) -> (r: Option<ModelChunk>)
    ensures
        match translated(*chunk) {
            Some(v) => (r matches Some(m) && chunk_view(m) == v),
            None => r is None,
        },
        chunk.choices@.len() > 0 ==> match chunk.choices@[0].delta.content {
            Some(c) => (r matches Some(m) && m.text@ == c@ && m.input_tokens is None
                && m.output_tokens is None && !m.done),
            None => r is None,
        },
        chunk.choices@.len() == 0 ==> match chunk.usage {
            Some(u) => (r matches Some(m) && m.text@ == Seq::<char>::empty() && m.input_tokens
                == u.prompt_tokens && m.output_tokens == u.completion_tokens && m.done),
            None => r is None,
        },
{
    if chunk.choices.len() > 0 {
        match &chunk.choices[0].delta.content {
            Some(content) => {
                return Some(
                    ModelChunk {
                        text: copy_string(content),
                        input_tokens: None,
                        output_tokens: None,
                        done: false,
                    },
                );
            },
            None => {
                return None;
            },
        }
    }
    match chunk.usage {
        Some(usage) => Some(
            ModelChunk {
                text: String::new(),
                input_tokens: usage.prompt_tokens,
                output_tokens: usage.completion_tokens,
                done: true,
            },
        ),
        None => None,
    }
}

/// The text `String::from_utf8_lossy` decodes from some bytes.
pub uninterp spec fn utf8_lossy(bytes: Seq<u8>) -> Seq<char>;

/// Calls `String::from_utf8_lossy`. Claimed: the result is the named decoding
/// of the bytes, and, as the documentation states, the plain decoding when
/// the bytes are valid UTF-8.
#[verifier::external_body]
fn decode_lossy(bytes: &[u8]) -> (r: String)
    ensures
        r@ == utf8_lossy(bytes@),
        valid_utf8(bytes@) ==> r@ == decode_utf8(bytes@),
{
    String::from_utf8_lossy(bytes).into_owned()
}

/// The complete lines of a byte stream and the bytes after the last line
/// feed. A line loses its `\n` and then one trailing `\r`.
pub open spec fn byte_line_scan(s: Seq<u8>) -> (Seq<Seq<u8>>, Seq<u8>)
    decreases s.len(),
{
    if s.len() == 0 {
        (seq![], seq![])
    } else {
        let (done, cur) = byte_line_scan(s.drop_last());
        if s.last() == 10u8 {
            (done.push(if cur.len() > 0 && cur.last() == 13u8 { cur.drop_last() } else { cur }), seq![])
        } else {
            (done, cur.push(s.last()))
        }
    }
}

/// The bytes of `data:`.
pub open spec fn data_prefix() -> Seq<u8> {
    seq![100u8, 97u8, 116u8, 97u8, 58u8]
}

/// The bytes of `[DONE]`.
pub open spec fn done_marker() -> Seq<u8> {
    seq![91u8, 68u8, 79u8, 78u8, 69u8, 93u8]
}

/// The data of an SSE line: what follows `data:` and one optional space.
pub open spec fn sse_data(line: Seq<u8>) -> Option<Seq<u8>> {
    if line.len() >= 5 && line.take(5) == data_prefix() {
        let d = line.skip(5);
        Some(
            if d.len() > 0 && d[0] == 32u8 {
                d.skip(1)
            } else {
                d
            },
        )
    } else {
        None
    }
}

/// The text of a payload's bytes: their plain UTF-8 decoding when they are
/// valid UTF-8, else what `String::from_utf8_lossy` makes of them.
pub open spec fn payload_text(d: Seq<u8>) -> Seq<char> {
    if valid_utf8(d) {
        decode_utf8(d)
    } else {
        utf8_lossy(d)
    }
}

/// The payloads of some lines: the decoded non-empty data that is not `[DONE]`.
pub open spec fn sse_payloads(lines: Seq<Seq<u8>>) -> Seq<Seq<char>>
    decreases lines.len(),
{
    if lines.len() == 0 {
        seq![]
    } else {
        let rest = sse_payloads(lines.drop_last());
        match sse_data(lines.last()) {
            Some(d) => if d != done_marker() && d.len() > 0 {
                rest.push(payload_text(d))
            } else {
                rest
            },
            None => rest,
        }
    }
}

/// Whether one of the lines carries `[DONE]`.
pub open spec fn sse_has_done(lines: Seq<Seq<u8>>) -> bool {
    exists|i: int| 0 <= i < lines.len() && sse_data(#[trigger] lines[i]) == Some(done_marker())
}

/// An incremental parser of server-sent events: it buffers half lines across
/// network chunks and yields every `data:` payload of the complete lines.
pub struct SseParser {
    buffer: Vec<u8>,
    done: bool,
}

impl SseParser {
    /// The bytes waiting for the end of their line.
    pub closed spec fn pending(&self) -> Seq<u8> {
        self.buffer@
    }

    /// Whether `[DONE]` has been seen.
    pub closed spec fn finished(&self) -> bool {
        self.done
    }

    /// A parser with nothing buffered.
    pub fn new() -> (r: SseParser)
        ensures
            r.pending() == Seq::<u8>::empty(),
            !r.finished(),
    {
        SseParser { buffer: Vec::new(), done: false }
    }

    /// Whether `[DONE]` has been seen.
    pub fn is_done(&self) -> (r: bool)
        ensures
            r == self.finished(),
    {
        self.done
    }

    /// Feeds one network chunk and returns the payloads of the lines it completes.
    #[verifier::rlimit(40)]
    pub fn feed(&mut self, bytes: &[u8]) -> (r: Vec<String>)
        ensures
            ({
                let (lines, rest) = byte_line_scan(old(self).pending() + bytes@);
                &&& final(self).pending() == rest
                &&& final(self).finished() == (old(self).finished() || sse_has_done(lines))
                &&& r@.map_values(|s: String| s@) == sse_payloads(lines)
            }),
    {
        let ghost all = self.buffer@ + bytes@;
        let mut k: usize = 0;
        while k < bytes.len()
            invariant
                k <= bytes.len(),
                all == old(self).buffer@ + bytes@,
                self.buffer@ == old(self).buffer@ + bytes@.take(k as int),
                self.done == old(self).done,
            decreases bytes.len() - k,
        {
            self.buffer.push(bytes[k]);
            proof {
                assert(bytes@.take(k as int).push(bytes@[k as int]) =~= bytes@.take(k + 1));
            }
            k += 1;
        }
        assert(bytes@.take(bytes.len() as int) =~= bytes@);
        assert(self.buffer@ == all);
        let mut payloads: Vec<String> = Vec::new();
        let mut start: usize = 0;
        let mut i: usize = 0;
        let ghost done0 = self.done;
        while i < self.buffer.len()
            invariant
                start <= i <= self.buffer.len(),
                self.buffer@ == all,
                byte_line_scan(all.take(i as int)).1 == all.subrange(start as int, i as int),
                payloads@.map_values(|s: String| s@) == sse_payloads(byte_line_scan(all.take(i as int)).0),
                self.done == (done0 || sse_has_done(byte_line_scan(all.take(i as int)).0)),
            decreases self.buffer.len() - i,
        {
            proof {
                assert(all.take(i + 1).drop_last() =~= all.take(i as int));
            }
            if self.buffer[i] == 10u8 {
                let mut end = i;
                if end > start && self.buffer[end - 1] == 13u8 {
                    end = end - 1;
                }
                let ghost lines0 = byte_line_scan(all.take(i as int)).0;
                let ghost line = all.subrange(start as int, end as int);
                proof {
                    assert(line =~= (if all.subrange(start as int, i as int).len() > 0 && all.subrange(start as int, i as int).last() == 13u8 {
                        all.subrange(start as int, i as int).drop_last()
                    } else {
                        all.subrange(start as int, i as int)
                    }));
                    assert(byte_line_scan(all.take(i + 1)).0 == lines0.push(line));
                }
                self.take_line(start, end, &mut payloads, Ghost(lines0), Ghost(done0));
                start = i + 1;
                proof {
                    assert(all.subrange(start as int, i + 1) =~= Seq::<u8>::empty());
                }
            } else {
                proof {
                    assert(all.subrange(start as int, i + 1) =~= all.subrange(start as int, i as int).push(all[i as int]));
                }
            }
            i += 1;
        }
        proof {
            assert(all.take(all.len() as int) =~= all);
        }
        let rest = self.rest_from(start);
        self.buffer = rest;
        payloads
    }

    fn rest_from(&self, start: usize) -> (r: Vec<u8>)
        requires
            start <= self.buffer.len(),
        ensures
            r@ == self.buffer@.subrange(start as int, self.buffer@.len() as int),
    {
        let mut r: Vec<u8> = Vec::new();
        let mut j = start;
        while j < self.buffer.len()
            invariant
                start <= j <= self.buffer.len(),
                r@ == self.buffer@.subrange(start as int, j as int),
            decreases self.buffer.len() - j,
        {
            r.push(self.buffer[j]);
            proof {
                assert(self.buffer@.subrange(start as int, j as int).push(self.buffer@[j as int])
                    =~= self.buffer@.subrange(start as int, j + 1));
            }
            j += 1;
        }
        r
    }

    /// Handles the complete line `buffer[start..end]`.
    fn take_line(
        &mut self,
        start: usize,
        end: usize,
        payloads: &mut Vec<String>,
        Ghost(lines0): Ghost<Seq<Seq<u8>>>,
        Ghost(done0): Ghost<bool>,
    )
        requires
            start <= end <= old(self).buffer.len(),
            old(payloads)@.map_values(|s: String| s@) == sse_payloads(lines0),
            old(self).done == (done0 || sse_has_done(lines0)),
        ensures
            final(self).buffer@ == old(self).buffer@,
            ({
                let lines = lines0.push(old(self).buffer@.subrange(start as int, end as int));
                &&& final(payloads)@.map_values(|s: String| s@) == sse_payloads(lines)
                &&& final(self).done == (done0 || sse_has_done(lines))
            }),
    {
        let ghost line = self.buffer@.subrange(start as int, end as int);
        let ghost lines = lines0.push(line);
        proof {
            assert(lines.drop_last() =~= lines0);
            assert(sse_has_done(lines) == (sse_has_done(lines0) || sse_data(line) == Some(done_marker()))) by {
                if sse_data(line) == Some(done_marker()) {
                    assert(lines[lines0.len() as int] == line);
                }
                if sse_has_done(lines) {
                    let w = choose|i: int| 0 <= i < lines.len() && sse_data(#[trigger] lines[i]) == Some(done_marker());
                    if w < lines0.len() {
                        assert(lines0[w] == lines[w]);
                    }
                }
                if sse_has_done(lines0) {
                    let w = choose|i: int| 0 <= i < lines0.len() && sse_data(#[trigger] lines0[i]) == Some(done_marker());
                    assert(lines[w] == lines0[w]);
                }
            }
        }
        let n = end - start;
        let b = &self.buffer;
        if n >= 5 && b[start] == 100u8 && b[start + 1] == 97u8 && b[start + 2] == 116u8 && b[start + 3] == 97u8 && b[start + 4] == 58u8 {
            let mut ds = start + 5;
            if ds < end && b[ds] == 32u8 {
                ds = ds + 1;
            }
            let ghost d = self.buffer@.subrange(ds as int, end as int);
            proof {
                assert(line.take(5) =~= data_prefix());
                let d0 = line.skip(5);
                if d0.len() > 0 && d0[0] == 32u8 {
                    assert(d0.skip(1) =~= d);
                } else {
                    assert(d0 =~= d);
                }
                assert(sse_data(line) == Some(d));
            }
            let dn = end - ds;
            let is_done_marker = dn == 6 && b[ds] == 91u8 && b[ds + 1] == 68u8 && b[ds + 2] == 79u8
                && b[ds + 3] == 78u8 && b[ds + 4] == 69u8 && b[ds + 5] == 93u8;
            proof {
                if is_done_marker {
                    assert(d =~= done_marker());
                } else if d.len() == 6 {
                    assert(d != done_marker()) by {
                        if d == done_marker() {
                            assert(d[0] == 91u8 && d[1] == 68u8 && d[2] == 79u8 && d[3] == 78u8 && d[4] == 69u8 && d[5] == 93u8);
                        }
                    }
                }
            }
            if is_done_marker {
                self.done = true;
            } else if dn > 0 {
                let data = self.rest_between(ds, end);
                let text = decode_lossy(data.as_slice());
                let ghost before = payloads@;
                payloads.push(text);
                proof {
                    assert(payloads@.map_values(|s: String| s@) =~= before.map_values(|s: String| s@).push(payload_text(d)));
                }
            }
        } else {
            proof {
                if line.len() >= 5 && line.take(5) == data_prefix() {
                    assert(line.take(5)[0] == 100u8 && line.take(5)[1] == 97u8 && line.take(5)[2] == 116u8 && line.take(5)[3] == 97u8 && line.take(5)[4] == 58u8);
                }
                assert(sse_data(line) is None);
            }
        }
    }

    fn rest_between(&self, a: usize, b: usize) -> (r: Vec<u8>)
        requires
            a <= b <= self.buffer.len(),
        ensures
            r@ == self.buffer@.subrange(a as int, b as int),
    {
        let mut r: Vec<u8> = Vec::new();
        let mut j = a;
        while j < b
            invariant
                a <= j <= b <= self.buffer.len(),
                r@ == self.buffer@.subrange(a as int, j as int),
            decreases b - j,
        {
            r.push(self.buffer[j]);
            proof {
                assert(self.buffer@.subrange(a as int, j as int).push(self.buffer@[j as int])
                    =~= self.buffer@.subrange(a as int, j + 1));
            }
            j += 1;
        }
        r
    }
}

impl Default for SseParser {
    fn default() -> (r: SseParser)
        ensures
            r.pending() == Seq::<u8>::empty(),
            !r.finished(),
    {
        SseParser::new()
    }
}

/// The `Authorization` header value for an API key.
pub fn bearer(api_key: &str) -> (r: String)
    ensures
        r@ == "Bearer "@ + api_key@,
{
    let mut v = chars_of("Bearer ");
    append_str(&mut v, api_key);
    string_of(v.as_slice())
}

/// The error of a response whose status is not a success: the status, a
/// colon, and the server's error message when the body carries one, else
/// the body itself.
pub fn http_failure(status: &str, server_message: Option<String>, body: &str) -> (r: ModelError)
    ensures
        r@ == ModelErrorView::Http(
            status@ + ": "@ + match server_message {
                Some(m) => m@,
                None => body@,
            },
        ),
{
    let mut v = chars_of(status);
    append_str(&mut v, ": ");
    match &server_message {
        Some(m) => append_str(&mut v, m.as_str()),
        None => append_str(&mut v, body),
    }
    ModelError::Http(string_of(v.as_slice()))
}

/// What the streaming client needs next.
#[derive(Debug, Clone, PartialEq, Eq)]
pub enum StreamStep {
    /// Decode this payload (a JSON frame) and hand the result to `decoded`.
    Decode(String),
    /// Read the next network chunk and hand it to `push_bytes`.
    NeedBytes,
    /// The stream is over.
    Finished,
}

/// The streaming client's state: the event-stream parser and the payloads
/// waiting to be decoded, oldest first.
pub struct ChunkStream {
    parser: SseParser,
    pending: std::collections::VecDeque<String>,
}

impl ChunkStream {
    /// The payloads waiting to be decoded, oldest first.
    pub closed spec fn queue(&self) -> Seq<Seq<char>> {
        self.pending@.map_values(|s: String| s@)
    }

    /// The bytes the parser holds.
    pub closed spec fn partial(&self) -> Seq<u8> {
        self.parser.pending()
    }

    /// Whether `[DONE]` has been seen.
    pub closed spec fn done(&self) -> bool {
        self.parser.finished()
    }

    /// A stream with nothing read.
    pub fn new() -> (r: ChunkStream)
        ensures
            r.queue() == Seq::<Seq<char>>::empty(),
            r.partial() == Seq::<u8>::empty(),
            !r.done(),
    {
        let r = ChunkStream { parser: SseParser::new(), pending: std::collections::VecDeque::new() };
        assert(r.queue() =~= Seq::<Seq<char>>::empty());
        r
    }

    /// The next step: decode the oldest waiting payload; else, once
    /// `[DONE]` was seen, finish; else read more bytes.
    pub fn next_step(&mut self) -> (r: StreamStep)
        ensures
            old(self).queue().len() > 0 ==> (r matches StreamStep::Decode(d) && d@ == old(
                self,
            ).queue()[0]) && final(self).queue() == old(self).queue().drop_first(),
            old(self).queue().len() == 0 ==> final(self).queue() == old(self).queue() && (r
                == if old(self).done() {
                StreamStep::Finished
            } else {
                StreamStep::NeedBytes
            }),
            final(self).partial() == old(self).partial(),
            final(self).done() == old(self).done(),
    {
        let ghost q0 = self.pending@;
        match self.pending.pop_front() {
            Some(first) => {
                proof {
                    assert(self.pending@.map_values(|s: String| s@) =~= q0.map_values(|s: String| s@).drop_first());
                }
                return StreamStep::Decode(first);
            },
            None => {},
        }
        if self.parser.is_done() {
            StreamStep::Finished
        } else {
            StreamStep::NeedBytes
        }
    }

    /// Feeds a network chunk: the payloads of the lines it completes join
    /// the queue.
    pub fn push_bytes(&mut self, bytes: &[u8])
        ensures
            ({
                let (lines, rest) = byte_line_scan(old(self).partial() + bytes@);
                &&& final(self).queue() == old(self).queue() + sse_payloads(lines)
                &&& final(self).partial() == rest
                &&& final(self).done() == (old(self).done() || sse_has_done(lines))
            }),
    {
        let payloads = self.parser.feed(bytes);
        let ghost q0 = self.pending@.map_values(|s: String| s@);
        let ghost pv = payloads@.map_values(|s: String| s@);
        let ghost pp = self.parser.pending();
        let ghost pd = self.parser.finished();
        let mut i: usize = 0;
        while i < payloads.len()
            invariant
                i <= payloads.len(),
                self.parser.pending() == pp,
                self.parser.finished() == pd,
                pv == payloads@.map_values(|s: String| s@),
                self.pending@.map_values(|s: String| s@) == q0 + pv.take(i as int),
            decreases payloads.len() - i,
        {
            let ghost before = self.pending@.map_values(|s: String| s@);
            self.pending.push_back(copy_string(&payloads[i]));
            proof {
                assert(self.pending@.map_values(|s: String| s@) =~= before.push(payloads@[i as int]@));
                assert(pv.take(i + 1) =~= pv.take(i as int).push(payloads@[i as int]@));
            }
            i += 1;
        }
        assert(pv.take(payloads.len() as int) =~= pv);
    }

    /// What a decoded payload yields: the translated frame (nothing for a
    /// frame that carries nothing), or, when the payload did not decode, an
    /// invalid-response error naming the decoding error and the payload.
    pub fn decoded(&self, data: &str, parsed: Result<ChatCompletionChunk, String>) -> (r: Option<
        Result<ModelChunk, ModelError>,
    >)
        ensures
            match parsed {
                Ok(c) => match translated(c) {
                    Some(v) => (r matches Some(Ok(m)) && chunk_view(m) == v),
                    None => r is None,
                },
                Err(e) => (r matches Some(Err(x)) && x@ == ModelErrorView::InvalidResponse(
                    e@ + "; data="@ + data@,
                )),
            },
    {
        match parsed {
            Ok(c) => match translate_chunk(&c) {
                Some(m) => Some(Ok(m)),
                None => None,
            },
            Err(e) => {
                let mut v = chars_of(e.as_str());
                append_str(&mut v, "; data=");
                append_str(&mut v, data);
                Some(Err(ModelError::InvalidResponse(string_of(v.as_slice()))))
            },
        }
    }
}

/// Which factory a known provider name is registered with.
#[derive(Debug, Clone, Copy, PartialEq, Eq, Structural)]
pub enum FactoryKind {
    Echo,
    OpenAICompatible,
}

/// The providers extension: the names it registers and their factories.
pub struct ProvidersExtension;

impl ProvidersExtension {
    /// The extension's identifier.
    pub fn id(&self) -> (r: &'static str)
        ensures
            r@ == "builtin.providers"@,
    {
        "builtin.providers"
    }

    /// The provider names registered, each with its factory: the known
    /// services and `custom` with the OpenAI-compatible factory, `echo` with
    /// the echo factory.
    pub fn registrations(&self) -> (r: Vec<(&'static str, FactoryKind)>)
        ensures
            r@.len() == 7,
            forall|i: int| 0 <= i < 7 ==> (r@[i].1 == FactoryKind::Echo <==> i == 6),
            r@[0].0@ == "deepseek"@ && r@[1].0@ == "openai"@ && r@[2].0@ == "anthropic"@ && r@[3].0@
                == "moonshot"@ && r@[4].0@ == "ollama"@ && r@[5].0@ == "custom"@ && r@[6].0@ == "echo"@,
    {
        let mut r: Vec<(&'static str, FactoryKind)> = Vec::new();
        r.push(("deepseek", FactoryKind::OpenAICompatible));
        r.push(("openai", FactoryKind::OpenAICompatible));
        r.push(("anthropic", FactoryKind::OpenAICompatible));
        r.push(("moonshot", FactoryKind::OpenAICompatible));
        r.push(("ollama", FactoryKind::OpenAICompatible));
        r.push(("custom", FactoryKind::OpenAICompatible));
        r.push(("echo", FactoryKind::Echo));
        r
    }
}


// ---------------------------------------------------------------------------
// Laws of the event-stream parser
// ---------------------------------------------------------------------------

proof fn lemma_scan_rest_has_no_newline(s: Seq<u8>)
    ensures
        forall|i: int| 0 <= i < byte_line_scan(s).1.len() ==> byte_line_scan(s).1[i] != 10u8,
    decreases s.len(),
{
    if s.len() > 0 {
        lemma_scan_rest_has_no_newline(s.drop_last());
        let (done, cur) = byte_line_scan(s.drop_last());
        if s.last() != 10u8 {
            let r = cur.push(s.last());
            assert forall|i: int| 0 <= i < r.len() implies r[i] != 10u8 by {
                if i < cur.len() {
                    assert(r[i] == cur[i]);
                }
            }
        }
    }
}

proof fn lemma_scan_without_newline(r: Seq<u8>)
    requires
        forall|i: int| 0 <= i < r.len() ==> r[i] != 10u8,
    ensures
        byte_line_scan(r) == (Seq::<Seq<u8>>::empty(), r),
    decreases r.len(),
{
    if r.len() > 0 {
        lemma_scan_without_newline(r.drop_last());
        assert(r.drop_last().push(r.last()) =~= r);
    } else {
        assert(r =~= Seq::<u8>::empty());
    }
}

proof fn lemma_scan_concat(x: Seq<u8>, y: Seq<u8>)
    ensures
        ({
            let (l1, r1) = byte_line_scan(x);
            let (l2, r2) = byte_line_scan(r1 + y);
            byte_line_scan(x + y) == (l1 + l2, r2)
        }),
    decreases y.len(),
{
    let (l1, r1) = byte_line_scan(x);
    if y.len() == 0 {
        lemma_scan_rest_has_no_newline(x);
        lemma_scan_without_newline(r1);
        assert(r1 + y =~= r1);
        assert(x + y =~= x);
        assert(l1 + Seq::<Seq<u8>>::empty() =~= l1);
    } else {
        lemma_scan_concat(x, y.drop_last());
        assert((x + y).drop_last() =~= x + y.drop_last());
        assert((r1 + y).drop_last() =~= r1 + y.drop_last());
        assert((x + y).last() == y.last());
        assert((r1 + y).last() == y.last());
        let (l2, r2) = byte_line_scan(r1 + y.drop_last());
        let stripped = if r2.len() > 0 && r2.last() == 13u8 { r2.drop_last() } else { r2 };
        assert((l1 + l2).push(stripped) =~= l1 + l2.push(stripped));
    }
}

proof fn lemma_payloads_concat(a: Seq<Seq<u8>>, b: Seq<Seq<u8>>)
    ensures
        sse_payloads(a + b) == sse_payloads(a) + sse_payloads(b),
    decreases b.len(),
{
    if b.len() == 0 {
        assert(a + b =~= a);
        assert(sse_payloads(a) + sse_payloads(b) =~= sse_payloads(a));
    } else {
        lemma_payloads_concat(a, b.drop_last());
        assert((a + b).drop_last() =~= a + b.drop_last());
        assert((a + b).last() == b.last());
        let pa = sse_payloads(a);
        let pb = sse_payloads(b.drop_last());
        match sse_data(b.last()) {
            Some(d) => if d != done_marker() && d.len() > 0 {
                assert((pa + pb).push(payload_text(d)) =~= pa + pb.push(payload_text(d)));
            } else {
            },
            None => {},
        }
    }
}

proof fn lemma_done_concat(a: Seq<Seq<u8>>, b: Seq<Seq<u8>>)
    ensures
        sse_has_done(a + b) == (sse_has_done(a) || sse_has_done(b)),
{
    let c = a + b;
    if sse_has_done(a) {
        let i = choose|i: int| 0 <= i < a.len() && sse_data(#[trigger] a[i]) == Some(done_marker());
        assert(c[i] == a[i]);
    }
    if sse_has_done(b) {
        let i = choose|i: int| 0 <= i < b.len() && sse_data(#[trigger] b[i]) == Some(done_marker());
        assert(c[a.len() + i] == b[i]);
    }
    if sse_has_done(c) {
        let i = choose|i: int| 0 <= i < c.len() && sse_data(#[trigger] c[i]) == Some(done_marker());
        if i < a.len() {
            assert(c[i] == a[i]);
        } else {
            assert(c[i] == b[i - a.len()]);
        }
    }
}

/// The parser never keeps a complete line: what it holds after a feed has
/// no line feed.
pub proof fn lemma_pending_is_partial(pending: Seq<u8>, bytes: Seq<u8>)
    ensures
        forall|i: int|
            0 <= i < byte_line_scan(pending + bytes).1.len() ==> byte_line_scan(pending + bytes).1[i]
                != 10u8,
{
    lemma_scan_rest_has_no_newline(pending + bytes);
}

/// Feeding a stream in two network chunks yields what feeding it at once
/// does: the payloads of the second feed follow those of the first, the
/// parser ends holding the same partial line, and `[DONE]` is seen in
/// either feed exactly when it is seen at once.
pub proof fn lemma_feed_split(pending: Seq<u8>, first: Seq<u8>, second: Seq<u8>)
    ensures
        ({
            let (l1, r1) = byte_line_scan(pending + first);
            let (l2, r2) = byte_line_scan(r1 + second);
            let (l, r) = byte_line_scan(pending + (first + second));
            &&& r == r2
            &&& sse_payloads(l) == sse_payloads(l1) + sse_payloads(l2)
            &&& sse_has_done(l) == (sse_has_done(l1) || sse_has_done(l2))
        }),
{
    lemma_scan_concat(pending + first, second);
    assert(pending + (first + second) =~= (pending + first) + second);
    let (l1, r1) = byte_line_scan(pending + first);
    let (l2, r2) = byte_line_scan(r1 + second);
    lemma_payloads_concat(l1, l2);
    lemma_done_concat(l1, l2);
}

/// A configuration always resolves to a provider name that the providers
/// extension registers a factory for: the echo factory for `echo`, the
/// OpenAI-compatible one for every other resolved name.
pub proof fn lemma_resolved_provider_is_registered(provider: Seq<char>, api_key: Seq<char>)
    ensures
        ({
            let n = resolved_provider(provider, api_key);
            ||| n == "deepseek"@
            ||| n == "openai"@
            ||| n == "anthropic"@
            ||| n == "moonshot"@
            ||| n == "ollama"@
            ||| n == "custom"@
            ||| n == "echo"@
        }),
        api_key.len() == 0 <==> resolved_provider(provider, api_key) == "echo"@,
{
    reveal_strlit("echo");
    reveal_strlit("deepseek");
    reveal_strlit("openai");
    reveal_strlit("anthropic");
    reveal_strlit("moonshot");
    reveal_strlit("ollama");
    reveal_strlit("custom");
    assert("echo"@[0] == 'e' && "deepseek"@[0] == 'd' && "openai"@[0] == 'o' && "anthropic"@[0]
        == 'a' && "moonshot"@[0] == 'm' && "ollama"@[0] == 'o' && "custom"@[0] == 'c');
    assert("openai"@[1] == 'p' && "ollama"@[1] == 'l');
}
} // verus!
