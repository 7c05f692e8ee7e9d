use ominiforge::event::{StopReason, Usage};
use ominiforge::json::Json;
use ominiforge::llm::{Message, ToolCall, ToolSchema};
use ominiforge::wire::{
    map_stop_reason, sse_line_payload, ChatChunk, ChatMessage, ChatTool, ChunkAssembler,
    ChunkChoice, ChunkDelta, ChunkFunction, ChunkToolCall, ChunkUsage, ContentBlockType,
    PromptTokensDetails, SseDecoder, SsePayload, StreamEvent,
};

fn delta(content: Option<&str>, tool_calls: Vec<ChunkToolCall>) -> ChunkDelta {
    ChunkDelta { content: content.map(str::to_owned), reasoning_content: None, tool_calls }
}

fn choice(delta: ChunkDelta, finish_reason: Option<&str>) -> ChunkChoice {
    ChunkChoice { delta, finish_reason: finish_reason.map(str::to_owned) }
}

fn chunk(choices: Vec<ChunkChoice>, usage: Option<ChunkUsage>) -> ChatChunk {
    ChatChunk { choices, usage }
}

#[test]
fn sse_decoder_buffers_across_split_chunks() {
    let mut dec = SseDecoder::default();
    assert!(dec.feed(b"data: {\"a\":").is_empty());
    let out = dec.feed(b"1}\n\n");
    assert_eq!(out, vec![SsePayload::Data("{\"a\":1}".to_owned())]);
    assert_eq!(dec.feed(b"data: [DONE]\n\n"), vec![SsePayload::Done]);
}

#[test]
fn assembles_text_stream_into_block_and_completed() {
    let mut assembler = ChunkAssembler::default();
    let mut events = Vec::new();
    events.extend(assembler.accept(chunk(vec![choice(delta(Some("Hel"), vec![]), None)], None)));
    events.extend(assembler.accept(chunk(vec![choice(delta(Some("lo"), vec![]), None)], None)));
    events.extend(assembler.accept(chunk(vec![choice(delta(None, vec![]), Some("stop"))], None)));
    events.extend(assembler.accept(chunk(
        vec![],
        Some(ChunkUsage { prompt_tokens: 10, completion_tokens: 2, prompt_tokens_details: None }),
    )));
    events.extend(assembler.finish());

    assert_eq!(
        events,
        vec![
            StreamEvent::BlockStart { index: 0, block_type: ContentBlockType::Text },
            StreamEvent::TextDelta { index: 0, text: "Hel".to_owned() },
            StreamEvent::TextDelta { index: 0, text: "lo".to_owned() },
            StreamEvent::BlockStop { index: 0 },
            StreamEvent::Completed {
                stop_reason: StopReason::EndTurn,
                usage: Usage {
                    input_tokens: 10,
                    output_tokens: 2,
                    cache_read_tokens: 0,
                    cache_write_tokens: 0,
                },
            },
        ]
    );
}

#[test]
fn assembles_tool_call_across_chunks() {
    let mut assembler = ChunkAssembler::default();
    let mut events = Vec::new();
    events.extend(assembler.accept(chunk(
        vec![choice(
            delta(
                None,
                vec![ChunkToolCall {
                    index: 0,
                    id: Some("call_9".to_owned()),
                    function: Some(ChunkFunction {
                        name: Some("shell".to_owned()),
                        arguments: Some("{\"cmd".to_owned()),
                    }),
                }],
            ),
            None,
        )],
        None,
    )));
    events.extend(assembler.accept(chunk(
        vec![choice(
            delta(
                None,
                vec![ChunkToolCall {
                    index: 0,
                    id: None,
                    function: Some(ChunkFunction {
                        name: None,
                        arguments: Some("\":\"ls\"}".to_owned()),
                    }),
                }],
            ),
            Some("tool_calls"),
        )],
        None,
    )));
    events.extend(assembler.finish());

    assert_eq!(
        events,
        vec![
            StreamEvent::BlockStart {
                index: 0,
                block_type: ContentBlockType::ToolCall {
                    id: "call_9".to_owned(),
                    name: "shell".to_owned(),
                },
            },
            StreamEvent::ToolCallDelta { index: 0, json_delta: "{\"cmd".to_owned() },
            StreamEvent::ToolCallDelta { index: 0, json_delta: "\":\"ls\"}".to_owned() },
            StreamEvent::BlockStop { index: 0 },
            StreamEvent::Completed { stop_reason: StopReason::ToolUse, usage: Usage::default() },
        ]
    );
}

#[test]
fn cached_tokens_map_to_cache_read() {
    let mut assembler = ChunkAssembler::default();
    assembler.accept(chunk(
        vec![],
        Some(ChunkUsage {
            prompt_tokens: 100,
            completion_tokens: 5,
            prompt_tokens_details: Some(PromptTokensDetails { cached_tokens: 80 }),
        }),
    ));
    let events = assembler.finish();
    let StreamEvent::Completed { usage, .. } = events.last().unwrap() else {
        panic!("expected Completed last");
    };
    assert_eq!(usage.cache_read_tokens, 80);
    assert_eq!(usage.input_tokens, 100);
}

#[test]
fn finish_is_idempotent() {
    let mut assembler = ChunkAssembler::default();
    assert!(!assembler.finish().is_empty());
    assert!(assembler.finish().is_empty());
}

#[test]
fn text_and_tool_blocks_close_in_open_order() {
    let mut assembler = ChunkAssembler::new();
    let mut events = Vec::new();
    events.extend(assembler.accept(chunk(vec![choice(delta(Some("hi"), vec![]), None)], None)));
    events.extend(assembler.accept(chunk(
        vec![choice(
            delta(
                None,
                vec![ChunkToolCall {
                    index: 3,
                    id: Some("c".to_owned()),
                    function: Some(ChunkFunction { name: Some("read".to_owned()), arguments: None }),
                }],
            ),
            Some("length"),
        )],
        None,
    )));
    events.extend(assembler.finish());
    assert_eq!(
        events,
        vec![
            StreamEvent::BlockStart { index: 0, block_type: ContentBlockType::Text },
            StreamEvent::TextDelta { index: 0, text: "hi".to_owned() },
            StreamEvent::BlockStart {
                index: 1,
                block_type: ContentBlockType::ToolCall { id: "c".to_owned(), name: "read".to_owned() },
            },
            StreamEvent::BlockStop { index: 0 },
            StreamEvent::BlockStop { index: 1 },
            StreamEvent::Completed { stop_reason: StopReason::MaxTokens, usage: Usage::default() },
        ]
    );
}

#[test]
fn reasoning_gets_its_own_block() {
    let mut assembler = ChunkAssembler::new();
    let d = ChunkDelta {
        content: Some("answer".to_owned()),
        reasoning_content: Some("think".to_owned()),
        tool_calls: vec![],
    };
    let events = assembler.accept(chunk(vec![choice(d, None)], None));
    assert_eq!(
        events,
        vec![
            StreamEvent::BlockStart { index: 0, block_type: ContentBlockType::Reasoning },
            StreamEvent::ReasoningDelta { index: 0, text: "think".to_owned() },
            StreamEvent::BlockStart { index: 1, block_type: ContentBlockType::Text },
            StreamEvent::TextDelta { index: 1, text: "answer".to_owned() },
        ]
    );
}

#[test]
fn stop_reasons_map_as_documented() {
    assert_eq!(map_stop_reason("length"), StopReason::MaxTokens);
    assert_eq!(map_stop_reason("tool_calls"), StopReason::ToolUse);
    assert_eq!(map_stop_reason("function_call"), StopReason::ToolUse);
    assert_eq!(map_stop_reason("stop"), StopReason::EndTurn);
    assert_eq!(map_stop_reason("content_filter"), StopReason::EndTurn);
}

#[test]
fn sse_lines_without_data_prefix_are_skipped() {
    assert_eq!(sse_line_payload(": keepalive"), None);
    assert_eq!(sse_line_payload("event: ping"), None);
    assert_eq!(sse_line_payload("data: [DONE]"), Some(SsePayload::Done));
    assert_eq!(sse_line_payload("data: x"), Some(SsePayload::Data("x".to_owned())));
}

#[test]
fn sse_decoder_recovers_invalid_utf8_lossily() {
    let mut dec = SseDecoder::new();
    let out = dec.feed(b"data: a\xffb\r\n");
    assert_eq!(out, vec![SsePayload::Data("a\u{fffd}b".to_owned())]);
}

#[test]
fn messages_encode_role_and_tool_calls() {
    let c = ChatMessage::from_message(Message::Assistant {
        content: None,
        tool_calls: vec![ToolCall {
            id: "call_1".to_owned(),
            name: "shell".to_owned(),
            arguments: "{}".to_owned(),
        }],
    });
    assert_eq!(c.role, "assistant");
    assert_eq!(c.tool_calls.len(), 1);
    assert_eq!(c.tool_calls[0].id, "call_1");
    assert_eq!(c.tool_calls[0].kind, "function");
    assert_eq!(c.tool_calls[0].function.name, "shell");

    let t = ChatMessage::from_message(Message::Tool {
        tool_call_id: "call_1".to_owned(),
        content: "ok".to_owned(),
    });
    assert_eq!(t.role, "tool");
    assert_eq!(t.tool_call_id, Some("call_1".to_owned()));
    assert_eq!(t.content, Some("ok".to_owned()));

    let sys = ChatMessage::from_message(Message::System { content: "be helpful".to_owned() });
    assert_eq!(sys.role, "system");
}

#[test]
fn tool_schema_becomes_a_function() {
    let tool = ChatTool::from_schema(ToolSchema {
        name: "shell".to_owned(),
        description: "run a command".to_owned(),
        parameters: Json::Object(vec![("type".to_owned(), Json::Str("object".to_owned()))]),
    });
    assert_eq!(tool.kind, "function");
    assert_eq!(tool.function.name, "shell");
    assert_eq!(tool.function.description, "run a command");
}

#[test]
fn accepting_chunks_never_reports_completion() {
    let mut assembler = ChunkAssembler::new();
    let events = assembler.accept(chunk(
        vec![choice(delta(Some("x"), vec![]), Some("stop"))],
        Some(ChunkUsage { prompt_tokens: 1, completion_tokens: 1, prompt_tokens_details: None }),
    ));
    assert!(events.iter().all(|e| !matches!(e, StreamEvent::Completed { .. })));
    let last = assembler.finish();
    assert!(matches!(last.last(), Some(StreamEvent::Completed { .. })));
}
