use novel_core::agent::{
    collect_reply, continuation_patch, continuation_prompts, done_chunk, legacy_chunk, stream_line,
    AgentBudget, AgentRun, OpenAICompatibleProvider as AgentClient, StreamLine,
};
use novel_core::providers::{
    resolve_provider_name, translate_chunk, ChatCompletionChunk, ChunkChoice, ChunkDelta,
    EchoProvider, ModelChunk, ModelError, OpenAICompatibleFactory, OpenAICompatibleProvider,
    ProviderConfig, ProvidersExtension, SseParser, Usage, bearer, http_failure, ChunkStream, StreamStep,
};

#[test]
fn sse_parser_handles_multi_line_and_split_chunks() {
    let mut parser = SseParser::default();
    let payloads = parser.feed(b"data: {\"a\":1}\ndata: {\"a\":2}\n\n");
    assert_eq!(payloads, vec![r#"{"a":1}"#, r#"{"a":2}"#]);

    let payloads = parser.feed(b"data: {\"b\"");
    assert!(payloads.is_empty());
    let payloads = parser.feed(b":1}\n");
    assert_eq!(payloads, vec![r#"{"b":1}"#]);
}

#[test]
fn sse_parser_handles_crlf_and_done() {
    let mut parser = SseParser::default();
    let payloads = parser.feed(b"data: {\"c\":3}\r\ndata: [DONE]\r\n");
    assert_eq!(payloads, vec![r#"{"c":3}"#]);
    assert!(parser.is_done());
}

#[test]
fn sse_parser_ignores_other_fields_and_decodes_lossily() {
    let mut parser = SseParser::new();
    assert!(!parser.is_done());
    let payloads = parser.feed(b"event: ping\ndata:x\ndata: \n: comment\ndata: \xff\n");
    assert_eq!(payloads, vec!["x".to_string(), "\u{fffd}".to_string()]);
    assert!(!parser.is_done());
}

#[test]
fn resolve_provider_name_falls_back() {
    assert_eq!(resolve_provider_name(&ProviderConfig::default()), "echo");
    assert_eq!(
        resolve_provider_name(&ProviderConfig {
            provider: "deepseek".into(),
            api_key: "k".into(),
            ..Default::default()
        }),
        "deepseek"
    );
    assert_eq!(
        resolve_provider_name(&ProviderConfig {
            provider: "who".into(),
            api_key: "k".into(),
            ..Default::default()
        }),
        "custom"
    );
}

#[test]
fn translate_chunk_skips_finish_frame() {
    let chunk = ChatCompletionChunk {
        choices: vec![ChunkChoice { delta: ChunkDelta { content: None } }],
        usage: None,
    };
    assert!(translate_chunk(&chunk).is_none());
}

#[test]
fn translate_chunk_maps_usage_only_frame() {
    let chunk = ChatCompletionChunk {
        choices: vec![],
        usage: Some(Usage {
            prompt_tokens: Some(11),
            completion_tokens: Some(22),
        }),
    };
    let mapped = translate_chunk(&chunk).unwrap();
    assert_eq!(mapped.input_tokens, Some(11));
    assert_eq!(mapped.output_tokens, Some(22));
    assert!(mapped.done);
}

#[test]
fn translate_chunk_maps_content() {
    let chunk = ChatCompletionChunk {
        choices: vec![ChunkChoice {
            delta: ChunkDelta {
                content: Some("雾".into()),
            },
        }],
        usage: None,
    };
    let mapped = translate_chunk(&chunk).unwrap();
    assert_eq!(mapped.text, "雾");
    assert!(!mapped.done);
}

#[test]
fn factory_rejects_missing_config() {
    let error = OpenAICompatibleFactory
        .create(&ProviderConfig {
            provider: "deepseek".into(),
            ..Default::default()
        })
        .err()
        .expect("应拒绝空 api key");
    assert!(error.message().contains("api key"));
}

#[test]
fn factory_checks_base_url_then_builds_client() {
    let error = OpenAICompatibleFactory
        .create(&ProviderConfig {
            provider: "deepseek".into(),
            api_key: "k".into(),
            ..Default::default()
        })
        .err()
        .unwrap();
    assert_eq!(error, ModelError::Unavailable("base url is empty".into()));
    let client = OpenAICompatibleFactory
        .create(&ProviderConfig {
            provider: "moonshot".into(),
            api_key: "k".into(),
            base_url: "https://api.example.com/v1//".into(),
            model: "m".into(),
        })
        .unwrap();
    assert_eq!(client.name(), "moonshot");
    assert_eq!(
        client.chat_completions_url(),
        "https://api.example.com/v1/chat/completions"
    );
}

#[test]
fn unknown_services_report_custom() {
    let client = OpenAICompatibleProvider {
        base_url: "http://localhost".into(),
        api_key: "k".into(),
        provider_name: "who".into(),
    };
    assert_eq!(client.name(), "custom");
    let agent_client = AgentClient {
        base_url: "http://localhost".into(),
        api_key: "k".into(),
        provider_name: "moonshot".into(),
    };
    assert_eq!(agent_client.name(), "custom");
}

#[test]
fn echo_reply_reports_the_task() {
    let chunk = EchoProvider.reply("写一段夜戏");
    assert_eq!(chunk.text, "请配置真实模型提供方。已收到写作任务：写一段夜戏");
    assert_eq!(chunk.input_tokens, Some(0));
    assert!(chunk.done);
}

#[test]
fn providers_extension_registers_known_names() {
    let names: Vec<&str> = ProvidersExtension
        .registrations()
        .iter()
        .map(|(name, _)| *name)
        .collect();
    assert_eq!(
        names,
        vec!["deepseek", "openai", "anthropic", "moonshot", "ollama", "custom", "echo"]
    );
}

#[test]
fn agent_stream_lines_and_chunks() {
    assert_eq!(stream_line("data: [DONE]"), StreamLine::Done);
    assert_eq!(stream_line("data:{}"), StreamLine::Other);
    assert_eq!(stream_line("data: {\"x\":1}"), StreamLine::Data("{\"x\":1}".into()));
    let c = legacy_chunk(Some("雾".into()), Some("stop".into())).unwrap();
    assert!(c.done);
    assert_eq!(c.text, "雾");
    assert!(legacy_chunk(None, None).is_none());
    assert!(legacy_chunk(None, Some("stop".into())).unwrap().done);
}

#[test]
fn reply_collects_until_first_error() {
    let ok = |t: &str| {
        Ok(ModelChunk {
            text: t.into(),
            input_tokens: None,
            output_tokens: None,
            done: false,
        })
    };
    assert_eq!(collect_reply(vec![ok("雾"), ok("港")]).unwrap(), "雾港");
    let failed = collect_reply(vec![ok("雾"), Err(ModelError::BudgetExceeded), ok("港")]);
    assert!(failed.is_err());
}

#[test]
fn request_headers_and_http_failures() {
    assert_eq!(bearer("sk-1"), "Bearer sk-1");
    assert_eq!(
        http_failure("401 Unauthorized", Some("bad key".to_string()), "{...}"),
        ModelError::Http("401 Unauthorized: bad key".to_string())
    );
    assert_eq!(
        http_failure("500", None, "oops"),
        ModelError::Http("500: oops".to_string())
    );
}

#[test]
fn chunk_stream_decodes_in_order_then_finishes() {
    let mut stream = ChunkStream::new();
    assert_eq!(stream.next_step(), StreamStep::NeedBytes);
    stream.push_bytes(b"data: {\"a\":1}\n\ndata: {\"a\"");
    assert_eq!(stream.next_step(), StreamStep::Decode(r#"{"a":1}"#.to_string()));
    assert_eq!(stream.next_step(), StreamStep::NeedBytes);
    stream.push_bytes(b":2}\n\ndata: [DONE]\n\n");
    assert_eq!(stream.next_step(), StreamStep::Decode(r#"{"a":2}"#.to_string()));
    assert_eq!(stream.next_step(), StreamStep::Finished);
    let chunk = ChatCompletionChunk {
        choices: vec![ChunkChoice { delta: ChunkDelta { content: Some("雾".into()) } }],
        usage: None,
    };
    match stream.decoded("{}", Ok(chunk)) {
        Some(Ok(m)) => assert_eq!(m.text, "雾"),
        other => panic!("unexpected {:?}", other),
    }
    assert_eq!(
        stream.decoded("xx", Err("expected value".to_string())),
        Some(Err(ModelError::InvalidResponse("expected value; data=xx".to_string())))
    );
}

#[test]
fn continuation_prompts_and_patch() {
    let run = AgentRun {
        id: novel_core::ids::AgentRunId::new(),
        chapter_id: novel_core::ids::ChapterId::new(),
        base_revision: novel_core::ids::Revision(3),
        prompt: "写下一段".to_string(),
        budget: AgentBudget { max_rounds: 1, max_tokens: 100, max_cost_micros: 0, max_seconds: 10 },
        started_at_ms: 0,
    };
    let (system, user) = continuation_prompts(&run, "前文");
    assert_eq!(system, "你是网文续写助手，必须遵守给定设定。");
    assert_eq!(user, "前文\n\n任务：写下一段");
    let patch = continuation_patch(&run, "新的一段".to_string(), "deepseek-chat");
    assert_eq!(patch.chapter_id, run.chapter_id);
    assert_eq!(patch.base_revision, run.base_revision);
    assert_eq!(patch.rationale, "AI 续写候选");
    assert_eq!(patch.operations.len(), 1);
    let done = done_chunk();
    assert!(done.done);
    assert_eq!(done.text, "");
    assert_eq!(done.input_tokens, None);
}
