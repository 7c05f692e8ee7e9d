//! OpenAI Chat Completions wire format: message encoding, splitting a
//! Server-Sent-Events byte stream into payloads, and assembling streaming
//! deltas into provider-neutral, block-structured stream events.

use vstd::prelude::*;

use crate::event::{StopReason, Usage};
use crate::json::Json;
use crate::llm::{Message, ToolCall, ToolSchema};
use crate::permission::opt_view;
use crate::text::{
    chars_of, chars_start_with, is_prefix_of, str_eq, string_of, trim, trim_chars,
};

verus! {

broadcast use vstd::std_specs::vec::group_vec_axioms;

// ── Request encoding ──────────────────────────────────────────────────────

/// One tool call in a request message.
#[derive(Debug, Clone, PartialEq, Eq)]
pub struct ChatToolCall {
    pub id: String,
    /// Always `"function"`.
    pub kind: &'static str,
    pub function: ChatFunctionCall,
}

/// A called function's name and JSON argument text.
#[derive(Debug, Clone, PartialEq, Eq)]
pub struct ChatFunctionCall {
    pub name: String,
    pub arguments: String,
}

/// One request message.
#[derive(Debug, Clone, PartialEq, Eq)]
pub struct ChatMessage {
    /// `system`, `user`, `assistant` or `tool`.
    pub role: &'static str,
    pub content: Option<String>,
    pub tool_calls: Vec<ChatToolCall>,
    pub tool_call_id: Option<String>,
}

/// A tool advertised in a request.
#[derive(Debug, PartialEq, Eq)]
pub struct ChatTool {
    /// Always `"function"`.
    pub kind: &'static str,
    pub function: ChatFunctionDef,
}

/// An advertised function's schema.
#[derive(Debug, PartialEq, Eq)]
pub struct ChatFunctionDef {
    pub name: String,
    pub description: String,
    pub parameters: Json,
}

/// The role a message is sent under.
pub open spec fn role_of(m: Message) -> Seq<char> {
    match m {
        Message::System { .. } => "system"@,
        Message::User { .. } => "user"@,
        Message::Assistant { .. } => "assistant"@,
        Message::Tool { .. } => "tool"@,
    }
}

/// Whether `c` encodes the model's tool call `t`.
pub open spec fn encodes_call(c: ChatToolCall, t: ToolCall) -> bool {
    &&& c.id@ == t.id@
    &&& c.kind@ == "function"@
    &&& c.function.name@ == t.name@
    &&& c.function.arguments@ == t.arguments@
}

/// Whether `c` is the wire encoding of `m`: system and user messages carry
/// their text; an assistant message its optional text and its tool calls; a
/// tool result its text and the id of the call it answers.
pub open spec fn encodes_message(c: ChatMessage, m: Message) -> bool {
    &&& c.role@ == role_of(m)
    &&& match m {
        Message::System { content } => opt_view(c.content) == Some(content@)
            && c.tool_calls@.len() == 0 && c.tool_call_id is None,
        Message::User { content } => opt_view(c.content) == Some(content@)
            && c.tool_calls@.len() == 0 && c.tool_call_id is None,
        Message::Assistant { content, tool_calls } => opt_view(c.content) == opt_view(content)
            && c.tool_calls@.len() == tool_calls@.len() && (forall|i: int|
            0 <= i < tool_calls@.len() ==> encodes_call(
                #[trigger] c.tool_calls@[i],
                tool_calls@[i],
            )) && c.tool_call_id is None,
        Message::Tool { tool_call_id, content } => opt_view(c.content) == Some(content@)
            && c.tool_calls@.len() == 0 && opt_view(c.tool_call_id) == Some(tool_call_id@),
    }
}

impl ChatMessage {
    /// Encode a neutral message for the Chat Completions API.
    pub fn from_message(msg: Message) -> (c: Self)
        ensures
            encodes_message(c, msg),
    {
        proof {
            reveal_strlit("system");
            reveal_strlit("user");
            reveal_strlit("assistant");
            reveal_strlit("tool");
            reveal_strlit("function");
        }
        match msg {
            Message::System { content } => ChatMessage {
                role: "system",
                content: Some(content),
                tool_calls: Vec::new(),
                tool_call_id: None,
            },
            Message::User { content } => ChatMessage {
                role: "user",
                content: Some(content),
                tool_calls: Vec::new(),
                tool_call_id: None,
            },
            Message::Assistant { content, tool_calls } => {
                let mut calls: Vec<ChatToolCall> = Vec::new();
                let mut i: usize = 0;
                while i < tool_calls.len()
                    invariant
                        i <= tool_calls.len(),
                        calls.len() == i,
                        forall|k: int|
                            0 <= k < i ==> encodes_call(#[trigger] calls@[k], tool_calls@[k]),
                    decreases tool_calls.len() - i,
                {
                    let t = &tool_calls[i];
                    calls.push(
                        ChatToolCall {
                            id: t.id.clone(),
                            kind: "function",
                            function: ChatFunctionCall {
                                name: t.name.clone(),
                                arguments: t.arguments.clone(),
                            },
                        },
                    );
                    i += 1;
                }
                ChatMessage { role: "assistant", content, tool_calls: calls, tool_call_id: None }
            },
            Message::Tool { tool_call_id, content } => ChatMessage {
                role: "tool",
                content: Some(content),
                tool_calls: Vec::new(),
                tool_call_id: Some(tool_call_id),
            },
        }
    }
}

impl ChatTool {
    /// Advertise a tool schema as a function.
    pub fn from_schema(t: ToolSchema) -> (c: Self)
        ensures
            c.kind@ == "function"@,
            c.function.name@ == t.name@,
            c.function.description@ == t.description@,
            c.function.parameters == t.parameters,
    {
        ChatTool {
            kind: "function",
            function: ChatFunctionDef {
                name: t.name,
                description: t.description,
                parameters: t.parameters,
            },
        }
    }
}


/// Asks the API to emit a final usage chunk in streaming mode.
#[derive(Debug, Clone, Copy, PartialEq, Eq)]
pub struct StreamOptions {
    pub include_usage: bool,
}

// ── SSE decoding ──────────────────────────────────────────────────────────

/// A payload extracted from the SSE stream.
#[derive(Debug, Clone, PartialEq, Eq)]
pub enum SsePayload {
    /// A `data:` line carrying a JSON chunk.
    Data(String),
    /// The `data: [DONE]` end-of-stream sentinel.
    Done,
}

/// The mathematical form of an [`SsePayload`].
pub enum SsePayloadV {
    Data(Seq<char>),
    Done,
}

impl View for SsePayload {
    type V = SsePayloadV;

    open spec fn view(&self) -> SsePayloadV {
        match self {
            SsePayload::Data(s) => SsePayloadV::Data(s@),
            SsePayload::Done => SsePayloadV::Done,
        }
    }
}

/// The text `String::from_utf8_lossy` decodes from `bytes` (invalid
/// sequences become U+FFFD).
pub uninterp spec fn utf8_lossy(bytes: Seq<u8>) -> Seq<char>;

/// Decodes bytes with `String::from_utf8_lossy`; the contract claims only
/// that the result is that decoding of exactly these bytes.
#[verifier::external_body]
fn lossy_text(bytes: &[u8]) -> (r: String)
    ensures
        r@ == utf8_lossy(bytes@),
{
    String::from_utf8_lossy(bytes).into_owned()
}

/// The payload one SSE line carries: a trimmed `data:` line's trimmed
/// remainder — the `[DONE]` sentinel, or a non-empty JSON chunk. Blank lines,
/// comments and other fields carry nothing.
pub open spec fn payload_of_line(line: Seq<char>) -> Option<SsePayloadV> {
    let t = trim(line);
    if is_prefix_of("data:"@, t) {
        let p = trim(t.skip(5));
        if p == "[DONE]"@ {
            Some(SsePayloadV::Done)
        } else if p.len() > 0 {
            Some(SsePayloadV::Data(p))
        } else {
            None
        }
    } else {
        None
    }
}

/// The payload of one decoded SSE line (see [`payload_of_line`]).
pub fn sse_line_payload(line: &str) -> (r: Option<SsePayload>)
    ensures
        match r {
            Some(p) => payload_of_line(line@) == Some(p@),
            None => payload_of_line(line@) is None,
        },
{
    proof {
        reveal_strlit("data:");
        reveal_strlit("[DONE]");
    }
    let t = trim_chars(&chars_of(line));
    let prefix = chars_of("data:");
    if !chars_start_with(&t, &prefix) {
        return None;
    }
    let mut rest: Vec<char> = Vec::new();
    let mut i: usize = 5;
    while i < t.len()
        invariant
            5 <= i <= t.len(),
            rest@ == t@.subrange(5, i as int),
        decreases t.len() - i,
    {
        rest.push(t[i]);
        i += 1;
    }
    assert(rest@ =~= t@.skip(5));
    let p = trim_chars(&rest);
    let done = chars_of("[DONE]");
    if crate::text::chars_eq(&p, &done) {
        Some(SsePayload::Done)
    } else if p.len() > 0 {
        Some(SsePayload::Data(string_of(&p)))
    } else {
        None
    }
}

/// The index of the first newline byte at or after `i`, or `-1`.
pub open spec fn first_newline(b: Seq<u8>, i: int) -> int
    decreases b.len() - i,
{
    if i < 0 || i >= b.len() {
        -1
    } else if b[i] == 10u8 {
        i
    } else {
        first_newline(b, i + 1)
    }
}

proof fn lemma_first_newline_range(b: Seq<u8>, i: int)
    requires
        0 <= i,
    ensures
        first_newline(b, i) == -1 || (i <= first_newline(b, i) < b.len() && b[first_newline(
            b,
            i,
        )] == 10u8),
    decreases b.len() - i,
{
    if i < b.len() && b[i] != 10u8 {
        lemma_first_newline_range(b, i + 1);
    }
}

/// Split a buffer into its complete lines' payloads and the unterminated rest:
/// each complete line (newline included) is decoded lossily and read with
/// [`payload_of_line`].
pub open spec fn sse_split(buf: Seq<u8>) -> (Seq<SsePayloadV>, Seq<u8>)
    decreases buf.len(),
{
    let k = first_newline(buf, 0);
    if 0 <= k < buf.len() {
        let (more, rest) = sse_split(buf.subrange(k + 1, buf.len() as int));
        match payload_of_line(utf8_lossy(buf.subrange(0, k + 1))) {
            Some(p) => (seq![p] + more, rest),
            None => (more, rest),
        }
    } else {
        (Seq::empty(), buf)
    }
}

/// Splits a Server-Sent-Events byte stream into `data:` payloads, buffering
/// across chunk boundaries (which may split mid-line or mid-UTF-8).
#[derive(Debug)]
pub struct SseDecoder {
    buf: Vec<u8>,
}

impl Default for SseDecoder {
    fn default() -> (r: Self)
        ensures
            r.buffered() == Seq::<u8>::empty(),
    {
        SseDecoder::new()
    }
}

impl SseDecoder {
    /// A decoder with nothing buffered.
    pub fn new() -> (r: Self)
        ensures
            r.buffered() == Seq::<u8>::empty(),
    {
        SseDecoder { buf: Vec::new() }
    }

    /// The bytes of an unterminated line kept for the next chunk.
    pub closed spec fn buffered(&self) -> Seq<u8> {
        self.buf@
    }

    /// Append bytes and extract every complete payload now available.
    pub fn feed(&mut self, bytes: &[u8]) -> (out: Vec<SsePayload>)
        ensures
            out@.map_values(|p: SsePayload| p@) == sse_split(old(self).buffered() + bytes@).0,
            final(self).buffered() == sse_split(old(self).buffered() + bytes@).1,
    {
        let ghost all = self.buf@ + bytes@;
        let mut i: usize = 0;
        while i < bytes.len()
            invariant
                i <= bytes.len(),
                self.buf@ == old(self).buf@ + bytes@.subrange(0, i as int),
            decreases bytes.len() - i,
        {
            self.buf.push(bytes[i]);
            i += 1;
        }
        assert(self.buf@ =~= all);
        let mut out: Vec<SsePayload> = Vec::new();
        loop
            invariant
                out@.map_values(|p: SsePayload| p@) + sse_split(self.buf@).0 == sse_split(all).0,
                sse_split(self.buf@).1 == sse_split(all).1,
            ensures
                out@.map_values(|p: SsePayload| p@) == sse_split(all).0,
                self.buf@ == sse_split(all).1,
            decreases self.buf@.len(),
        {
            let ghost cur = self.buf@;
            let mut k: usize = 0;
            while k < self.buf.len() && self.buf[k] != 10u8
                invariant
                    k <= self.buf.len(),
                    self.buf@ == cur,
                    first_newline(cur, 0) == first_newline(cur, k as int),
                decreases self.buf.len() - k,
            {
                k += 1;
            }
            if k >= self.buf.len() {
                assert(first_newline(cur, 0) == -1);
                assert(out@.map_values(|p: SsePayload| p@) =~= sse_split(all).0);
                break;
            }
            let mut line: Vec<u8> = Vec::new();
            let mut rest: Vec<u8> = Vec::new();
            let mut j: usize = 0;
            while j < self.buf.len()
                invariant
                    k < self.buf.len(),
                    self.buf@ == cur,
                    j <= self.buf.len(),
                    j <= k + 1 ==> line@ == cur.subrange(0, j as int) && rest@.len() == 0,
                    j > k + 1 ==> line@ == cur.subrange(0, k + 1) && rest@ == cur.subrange(
                        k + 1,
                        j as int,
                    ),
                decreases self.buf.len() - j,
            {
                if j <= k {
                    line.push(self.buf[j]);
                } else {
                    rest.push(self.buf[j]);
                }
                j += 1;
            }
            assert(rest@ =~= cur.subrange(k + 1, cur.len() as int));
            let text = lossy_text(line.as_slice());
            let ghost prev_out = out@.map_values(|p: SsePayload| p@);
            match sse_line_payload(&text) {
                Some(p) => {
                    out.push(p);
                    assert(out@.map_values(|p: SsePayload| p@) =~= prev_out.push(p@));
                    assert(prev_out.push(p@) + sse_split(rest@).0 =~= prev_out + (seq![p@]
                        + sse_split(rest@).0));
                },
                None => {},
            }
            self.buf = rest;
        }
        out
    }
}


// ── Response chunks ───────────────────────────────────────────────────────

/// One decoded streaming chunk.
#[derive(Debug, Clone, PartialEq, Eq)]
pub struct ChatChunk {
    pub choices: Vec<ChunkChoice>,
    pub usage: Option<ChunkUsage>,
}

/// One choice's delta, and its finish reason once the model stopped.
#[derive(Debug, Clone, PartialEq, Eq)]
pub struct ChunkChoice {
    pub delta: ChunkDelta,
    pub finish_reason: Option<String>,
}

/// Incremental content of one choice.
#[derive(Debug, Clone, PartialEq, Eq)]
pub struct ChunkDelta {
    pub content: Option<String>,
    /// A separate reasoning channel.
    pub reasoning_content: Option<String>,
    pub tool_calls: Vec<ChunkToolCall>,
}

/// Incremental data of one tool call; `index` identifies the call across
/// chunks.
#[derive(Debug, Clone, PartialEq, Eq)]
pub struct ChunkToolCall {
    pub index: u32,
    pub id: Option<String>,
    pub function: Option<ChunkFunction>,
}

/// A tool call's name (first delta) and argument text fragment.
#[derive(Debug, Clone, PartialEq, Eq)]
pub struct ChunkFunction {
    pub name: Option<String>,
    pub arguments: Option<String>,
}

/// Token counts reported in the final chunk.
#[derive(Debug, Clone, Copy, PartialEq, Eq)]
pub struct ChunkUsage {
    pub prompt_tokens: u32,
    pub completion_tokens: u32,
    pub prompt_tokens_details: Option<PromptTokensDetails>,
}

/// How many prompt tokens were served from cache.
#[derive(Debug, Clone, Copy, PartialEq, Eq)]
pub struct PromptTokensDetails {
    pub cached_tokens: u32,
}

/// What a content block holds.
#[derive(Debug, Clone, PartialEq, Eq)]
pub enum ContentBlockType {
    Text,
    Reasoning,
    ToolCall { id: String, name: String },
}

/// A provider-neutral streaming event.
#[derive(Debug, Clone, PartialEq, Eq)]
pub enum StreamEvent {
    BlockStart { index: u32, block_type: ContentBlockType },
    TextDelta { index: u32, text: String },
    ReasoningDelta { index: u32, text: String },
    ToolCallDelta { index: u32, json_delta: String },
    BlockStop { index: u32 },
    Completed { stop_reason: StopReason, usage: Usage },
}

/// The mathematical form of a [`ContentBlockType`].
pub enum BlockTypeV {
    Text,
    Reasoning,
    ToolCall { id: Seq<char>, name: Seq<char> },
}

/// The mathematical form of a [`StreamEvent`].
pub enum StreamEventV {
    BlockStart { index: u32, block_type: BlockTypeV },
    TextDelta { index: u32, text: Seq<char> },
    ReasoningDelta { index: u32, text: Seq<char> },
    ToolCallDelta { index: u32, json_delta: Seq<char> },
    BlockStop { index: u32 },
    Completed { stop_reason: StopReason, usage: Usage },
}

impl View for StreamEvent {
    type V = StreamEventV;

    open spec fn view(&self) -> StreamEventV {
        match self {
            StreamEvent::BlockStart { index, block_type } => StreamEventV::BlockStart {
                index: *index,
                block_type: match block_type {
                    ContentBlockType::Text => BlockTypeV::Text,
                    ContentBlockType::Reasoning => BlockTypeV::Reasoning,
                    ContentBlockType::ToolCall { id, name } => BlockTypeV::ToolCall {
                        id: id@,
                        name: name@,
                    },
                },
            },
            StreamEvent::TextDelta { index, text } => StreamEventV::TextDelta {
                index: *index,
                text: text@,
            },
            StreamEvent::ReasoningDelta { index, text } => StreamEventV::ReasoningDelta {
                index: *index,
                text: text@,
            },
            StreamEvent::ToolCallDelta { index, json_delta } => StreamEventV::ToolCallDelta {
                index: *index,
                json_delta: json_delta@,
            },
            StreamEvent::BlockStop { index } => StreamEventV::BlockStop { index: *index },
            StreamEvent::Completed { stop_reason, usage } => StreamEventV::Completed {
                stop_reason: *stop_reason,
                usage: *usage,
            },
        }
    }
}

/// The views of a list of stream events.
pub open spec fn events_view(v: Seq<StreamEvent>) -> Seq<StreamEventV> {
    v.map_values(|e: StreamEvent| e@)
}

/// Map an OpenAI `finish_reason` to the neutral stop reason.
pub open spec fn stop_reason_of(reason: Seq<char>) -> StopReason {
    if reason == "length"@ {
        StopReason::MaxTokens
    } else if reason == "tool_calls"@ || reason == "function_call"@ {
        StopReason::ToolUse
    } else {
        StopReason::EndTurn
    }
}

/// Map an OpenAI `finish_reason` to the neutral stop reason: `length` is the
/// token limit, `tool_calls` / `function_call` a tool use, anything else
/// (`stop`, `content_filter`, unknown) ends the turn.
pub fn map_stop_reason(reason: &str) -> (r: StopReason)
    ensures
        r == stop_reason_of(reason@),
{
    if str_eq(reason, "length") {
        StopReason::MaxTokens
    } else if str_eq(reason, "tool_calls") || str_eq(reason, "function_call") {
        StopReason::ToolUse
    } else {
        StopReason::EndTurn
    }
}

// ── Chunk assembly, stated ────────────────────────────────────────────────

/// The assembler's state: the next block index, the text and reasoning
/// blocks (opened at most once each), the tool blocks by OpenAI tool index in
/// open order, the late stop reason and usage, and whether it finished.
pub struct AsmV {
    pub next_index: u32,
    pub text_index: Option<u32>,
    pub reasoning_index: Option<u32>,
    pub tool_blocks: Seq<(u32, u32)>,
    pub stop_reason: Option<StopReason>,
    pub usage: Usage,
    pub finished: bool,
}

/// The block of the tool call with OpenAI index `oai`, searching from `i`.
pub open spec fn tool_block_of(blocks: Seq<(u32, u32)>, oai: u32, i: int) -> Option<u32>
    decreases blocks.len() - i,
{
    if i < 0 || i >= blocks.len() {
        None
    } else if blocks[i].0 == oai {
        Some(blocks[i].1)
    } else {
        tool_block_of(blocks, oai, i + 1)
    }
}

/// A text delta: opens the text block on first use.
pub open spec fn push_text_spec(s: AsmV, text: Seq<char>) -> (AsmV, Seq<StreamEventV>) {
    match s.text_index {
        Some(i) => (s, seq![StreamEventV::TextDelta { index: i, text }]),
        None => (
            AsmV { text_index: Some(s.next_index), next_index: (s.next_index + 1) as u32, ..s },
            seq![
                StreamEventV::BlockStart { index: s.next_index, block_type: BlockTypeV::Text },
                StreamEventV::TextDelta { index: s.next_index, text },
            ],
        ),
    }
}

/// A reasoning delta: opens the reasoning block on first use.
pub open spec fn push_reasoning_spec(s: AsmV, text: Seq<char>) -> (AsmV, Seq<StreamEventV>) {
    match s.reasoning_index {
        Some(i) => (s, seq![StreamEventV::ReasoningDelta { index: i, text }]),
        None => (
            AsmV {
                reasoning_index: Some(s.next_index),
                next_index: (s.next_index + 1) as u32,
                ..s
            },
            seq![
                StreamEventV::BlockStart {
                    index: s.next_index,
                    block_type: BlockTypeV::Reasoning,
                },
                StreamEventV::ReasoningDelta { index: s.next_index, text },
            ],
        ),
    }
}

/// The argument fragment a tool-call delta carries (empty when absent).
pub open spec fn call_args(call: ChunkToolCall) -> Seq<char> {
    match call.function {
        Some(f) => match f.arguments {
            Some(a) => a@,
            None => Seq::empty(),
        },
        None => Seq::empty(),
    }
}

/// The function name a tool-call delta carries (empty when absent).
pub open spec fn call_name(call: ChunkToolCall) -> Seq<char> {
    match call.function {
        Some(f) => match f.name {
            Some(n) => n@,
            None => Seq::empty(),
        },
        None => Seq::empty(),
    }
}

/// An argument delta for block `index`, or nothing for an empty fragment.
pub open spec fn args_delta(index: u32, args: Seq<char>) -> Seq<StreamEventV> {
    if args.len() > 0 {
        seq![StreamEventV::ToolCallDelta { index, json_delta: args }]
    } else {
        Seq::empty()
    }
}

/// A tool-call delta: the first delta of a call opens its block (with the
/// call's id and name); argument fragments stream into that block.
pub open spec fn push_tool_spec(s: AsmV, call: ChunkToolCall) -> (AsmV, Seq<StreamEventV>) {
    match tool_block_of(s.tool_blocks, call.index, 0) {
        Some(b) => (s, args_delta(b, call_args(call))),
        None => (
            AsmV {
                next_index: (s.next_index + 1) as u32,
                tool_blocks: s.tool_blocks.push((call.index, s.next_index)),
                ..s
            },
            seq![
                StreamEventV::BlockStart {
                    index: s.next_index,
                    block_type: BlockTypeV::ToolCall {
                        id: match call.id {
                            Some(i) => i@,
                            None => Seq::empty(),
                        },
                        name: call_name(call),
                    },
                },
            ] + args_delta(s.next_index, call_args(call)),
        ),
    }
}

/// The first `n` tool-call deltas, in order.
pub open spec fn push_tools_spec(s: AsmV, calls: Seq<ChunkToolCall>, n: int) -> (
    AsmV,
    Seq<StreamEventV>,
)
    decreases n,
{
    if n <= 0 || n > calls.len() {
        (s, Seq::empty())
    } else {
        let (s1, o1) = push_tools_spec(s, calls, n - 1);
        let (s2, o2) = push_tool_spec(s1, calls[n - 1]);
        (s2, o1 + o2)
    }
}

/// One choice: its reasoning, then its text, then its tool calls; a finish
/// reason is recorded for `finish`.
pub open spec fn choice_spec(s: AsmV, c: ChunkChoice) -> (AsmV, Seq<StreamEventV>) {
    let (s1, o1) = match c.delta.reasoning_content {
        Some(t) => push_reasoning_spec(s, t@),
        None => (s, Seq::empty()),
    };
    let (s2, o2) = match c.delta.content {
        Some(t) => push_text_spec(s1, t@),
        None => (s1, Seq::empty()),
    };
    let (s3, o3) = push_tools_spec(s2, c.delta.tool_calls@, c.delta.tool_calls@.len() as int);
    let s4 = match c.finish_reason {
        Some(r) => AsmV { stop_reason: Some(stop_reason_of(r@)), ..s3 },
        None => s3,
    };
    (s4, o1 + o2 + o3)
}

/// The first `n` choices, in order.
pub open spec fn choices_spec(s: AsmV, cs: Seq<ChunkChoice>, n: int) -> (AsmV, Seq<StreamEventV>)
    decreases n,
{
    if n <= 0 || n > cs.len() {
        (s, Seq::empty())
    } else {
        let (s1, o1) = choices_spec(s, cs, n - 1);
        let (s2, o2) = choice_spec(s1, cs[n - 1]);
        (s2, o1 + o2)
    }
}

/// The usage a chunk reports, in neutral form.
pub open spec fn usage_of(u: ChunkUsage) -> Usage {
    Usage {
        input_tokens: u.prompt_tokens,
        output_tokens: u.completion_tokens,
        cache_read_tokens: match u.prompt_tokens_details {
            Some(d) => d.cached_tokens,
            None => 0,
        },
        cache_write_tokens: 0,
    }
}

/// Accept one chunk: its choices in order, then its usage (if reported).
pub open spec fn accept_spec(s: AsmV, chunk: ChatChunk) -> (AsmV, Seq<StreamEventV>) {
    let (s1, out) = choices_spec(s, chunk.choices@, chunk.choices@.len() as int);
    (
        match chunk.usage {
            Some(u) => AsmV { usage: usage_of(u), ..s1 },
            None => s1,
        },
        out,
    )
}

/// Finish: close every opened block in open order, then report completion
/// (end of turn unless a finish reason said otherwise). A second finish
/// emits nothing.
pub open spec fn finish_spec(s: AsmV) -> (AsmV, Seq<StreamEventV>) {
    if s.finished {
        (s, Seq::empty())
    } else {
        (
            AsmV { finished: true, ..s },
            Seq::new(s.next_index as nat, |i: int| StreamEventV::BlockStop { index: i as u32 }).push(
                StreamEventV::Completed {
                    stop_reason: match s.stop_reason {
                        Some(r) => r,
                        None => StopReason::EndTurn,
                    },
                    usage: s.usage,
                },
            ),
        )
    }
}

/// How many blocks a chunk could open at most: text and reasoning for each
/// choice, plus one per tool-call delta.
pub open spec fn chunk_budget(cs: Seq<ChunkChoice>, n: int) -> int
    decreases n,
{
    if n <= 0 || n > cs.len() {
        0
    } else {
        chunk_budget(cs, n - 1) + 2 + cs[n - 1].delta.tool_calls@.len()
    }
}


/// The budget of a prefix of the choices never exceeds that of a longer one.
proof fn lemma_chunk_budget_monotone(cs: Seq<ChunkChoice>, m: int, n: int)
    requires
        0 <= m <= n <= cs.len(),
    ensures
        chunk_budget(cs, m) <= chunk_budget(cs, n),
    decreases n - m,
{
    if m < n {
        lemma_chunk_budget_monotone(cs, m, n - 1);
    }
}

// ── Chunk assembly ────────────────────────────────────────────────────────

/// Assembles streaming deltas into block-structured stream events.
///
/// The wire format streams flat deltas; the neutral protocol opens and closes
/// content blocks. A block is opened lazily on the first delta for text, for
/// reasoning, or for each tool call, with indices in open order; `finish`
/// closes them all and reports completion, since the finish reason and usage
/// arrive in late chunks.
pub struct ChunkAssembler {
    next_index: u32,
    text_index: Option<u32>,
    reasoning_index: Option<u32>,
    /// (OpenAI tool index, block index) in open order.
    tool_blocks: Vec<(u32, u32)>,
    stop_reason: Option<StopReason>,
    usage: Usage,
    finished: bool,
}

/// The state of a fresh assembler.
pub open spec fn asm_init() -> AsmV {
    AsmV {
        next_index: 0,
        text_index: None,
        reasoning_index: None,
        tool_blocks: Seq::empty(),
        stop_reason: None,
        usage: Usage { input_tokens: 0, output_tokens: 0, cache_read_tokens: 0, cache_write_tokens: 0 },
        finished: false,
    }
}

impl View for ChunkAssembler {
    type V = AsmV;

    closed spec fn view(&self) -> AsmV {
        AsmV {
            next_index: self.next_index,
            text_index: self.text_index,
            reasoning_index: self.reasoning_index,
            tool_blocks: self.tool_blocks@,
            stop_reason: self.stop_reason,
            usage: self.usage,
            finished: self.finished,
        }
    }
}

impl Default for ChunkAssembler {
    fn default() -> (r: Self)
        ensures
            r@ == asm_init(),
    {
        ChunkAssembler::new()
    }
}

impl ChunkAssembler {
    /// A fresh assembler: no block opened, nothing reported yet.
    pub fn new() -> (r: Self)
        ensures
            r@ == asm_init(),
    {
        let r = ChunkAssembler {
            next_index: 0,
            text_index: None,
            reasoning_index: None,
            tool_blocks: Vec::new(),
            stop_reason: None,
            usage: Usage { input_tokens: 0, output_tokens: 0, cache_read_tokens: 0, cache_write_tokens: 0 },
            finished: false,
        };
        assert(r@.tool_blocks =~= Seq::<(u32, u32)>::empty());
        r
    }

    /// Close every opened block, in open order, and report completion.
    /// A second call emits nothing.
    pub fn finish(&mut self) -> (out: Vec<StreamEvent>)
        ensures
            final(self)@ == finish_spec(old(self)@).0,
            events_view(out@) == finish_spec(old(self)@).1,
    {
        if self.finished {
            let out: Vec<StreamEvent> = Vec::new();
            assert(events_view(out@) =~= Seq::<StreamEventV>::empty());
            return out;
        }
        self.finished = true;
        let mut out: Vec<StreamEvent> = Vec::new();
        let mut index: u32 = 0;
        while index < self.next_index
            invariant
                index <= self.next_index,
                events_view(out@) =~= Seq::new(
                    index as nat,
                    |i: int| StreamEventV::BlockStop { index: i as u32 },
                ),
            decreases self.next_index - index,
        {
            let ghost prev = out@;
            out.push(StreamEvent::BlockStop { index });
            assert(events_view(out@) =~= events_view(prev).push(
                StreamEventV::BlockStop { index },
            ));
            index += 1;
        }
        let stop_reason = match self.stop_reason {
            Some(r) => r,
            None => StopReason::EndTurn,
        };
        out.push(StreamEvent::Completed { stop_reason, usage: self.usage });
        out
    }

    /// Return the block index in `slot`, opening a block of `block_type`
    /// (and recording its index) the first time.
    fn ensure_block(
        slot: &mut Option<u32>,
        next_index: &mut u32,
        block_type: ContentBlockType,
        out: &mut Vec<StreamEvent>,
    ) -> (index: u32)
        requires
            *old(next_index) < u32::MAX,
        ensures
            match *old(slot) {
                Some(i) => {
                    &&& index == i
                    &&& *final(slot) == *old(slot)
                    &&& *final(next_index) == *old(next_index)
                    &&& final(out)@ == old(out)@
                },
                None => {
                    &&& index == *old(next_index)
                    &&& *final(slot) == Some(index)
                    &&& *final(next_index) == *old(next_index) + 1
                    &&& final(out)@ == old(out)@.push(
                        StreamEvent::BlockStart { index, block_type },
                    )
                },
            },
    {
        match *slot {
            Some(i) => i,
            None => {
                let index = *next_index;
                *next_index = index + 1;
                out.push(StreamEvent::BlockStart { index, block_type });
                *slot = Some(index);
                index
            },
        }
    }

    fn push_text(&mut self, text: &str, out: &mut Vec<StreamEvent>)
        requires
            old(self)@.next_index < u32::MAX,
        ensures
            final(self)@ == push_text_spec(old(self)@, text@).0,
            events_view(final(out)@) == events_view(old(out)@) + push_text_spec(
                old(self)@,
                text@,
            ).1,
    {
        let index = Self::ensure_block(
            &mut self.text_index,
            &mut self.next_index,
            ContentBlockType::Text,
            out,
        );
        out.push(StreamEvent::TextDelta { index, text: text.to_string() });
        assert(events_view(out@) =~= events_view(old(out)@) + push_text_spec(
            old(self)@,
            text@,
        ).1);
    }

    fn find_tool_block(&self, oai: u32) -> (r: Option<u32>)
        ensures
            r == tool_block_of(self@.tool_blocks, oai, 0),
    {
        let mut k: usize = 0;
        while k < self.tool_blocks.len()
            invariant
                k <= self.tool_blocks@.len(),
                tool_block_of(self@.tool_blocks, oai, 0) == tool_block_of(
                    self@.tool_blocks,
                    oai,
                    k as int,
                ),
            decreases self.tool_blocks.len() - k,
        {
            let (t, b) = self.tool_blocks[k];
            if t == oai {
                return Some(b);
            }
            k += 1;
        }
        None
    }

    fn push_tool_call(&mut self, call: &ChunkToolCall, out: &mut Vec<StreamEvent>)
        requires
            old(self)@.next_index < u32::MAX,
        ensures
            final(self)@ == push_tool_spec(old(self)@, *call).0,
            events_view(final(out)@) == events_view(old(out)@) + push_tool_spec(
                old(self)@,
                *call,
            ).1,
    {
        let args = match &call.function {
            Some(f) => match &f.arguments {
                Some(a) => a.clone(),
                None => String::new(),
            },
            None => String::new(),
        };
        assert(args@ == call_args(*call));
        let ghost base = events_view(out@);
        match self.find_tool_block(call.index) {
            Some(block_index) => {
                if !args.as_str().is_empty() {
                    out.push(StreamEvent::ToolCallDelta { index: block_index, json_delta: args });
                }
                assert(events_view(out@) =~= base + args_delta(block_index, call_args(*call)));
            },
            None => {
                let id = match &call.id {
                    Some(i) => i.clone(),
                    None => String::new(),
                };
                let name = match &call.function {
                    Some(f) => match &f.name {
                        Some(n) => n.clone(),
                        None => String::new(),
                    },
                    None => String::new(),
                };
                let index = self.next_index;
                self.next_index = index + 1;
                out.push(
                    StreamEvent::BlockStart {
                        index,
                        block_type: ContentBlockType::ToolCall { id, name },
                    },
                );
                self.tool_blocks.push((call.index, index));
                let ghost opened = events_view(out@);
                if !args.as_str().is_empty() {
                    out.push(StreamEvent::ToolCallDelta { index, json_delta: args });
                }
                assert(events_view(out@) =~= opened + args_delta(index, call_args(*call)));
                assert(events_view(out@) =~= base + push_tool_spec(old(self)@, *call).1);
                assert(self@.tool_blocks =~= old(self)@.tool_blocks.push((call.index, index)));
            },
        }
    }

    /// One choice: its reasoning, then its text, then its tool calls, then
    /// its finish reason.
    fn accept_choice(&mut self, c: &ChunkChoice, out: &mut Vec<StreamEvent>)
        requires
            old(self)@.next_index + 2 + c.delta.tool_calls@.len() <= u32::MAX,
        ensures
            final(self)@ == choice_spec(old(self)@, *c).0,
            events_view(final(out)@) == events_view(old(out)@) + choice_spec(old(self)@, *c).1,
            final(self)@.next_index <= old(self)@.next_index + 2 + c.delta.tool_calls@.len(),
    {
        let ghost s0 = self@;
        let ghost base = events_view(out@);
        match &c.delta.reasoning_content {
            Some(t) => self.push_reasoning(t.as_str(), out),
            None => {},
        }
        let ghost s1 = self@;
        let ghost b1 = events_view(out@);
        match &c.delta.content {
            Some(t) => self.push_text(t.as_str(), out),
            None => {},
        }
        let ghost s2 = self@;
        let ghost b2 = events_view(out@);
        assert(s2.next_index <= s0.next_index + 2);
        let calls = &c.delta.tool_calls;
        let mut k: usize = 0;
        while k < calls.len()
            invariant
                k <= calls@.len(),
                s2.next_index + calls@.len() <= u32::MAX,
                self@ == push_tools_spec(s2, calls@, k as int).0,
                events_view(out@) == b2 + push_tools_spec(s2, calls@, k as int).1,
                self@.next_index <= s2.next_index + k,
            decreases calls.len() - k,
        {
            let ghost before = events_view(out@);
            self.push_tool_call(&calls[k], out);
            assert(events_view(out@) =~= b2 + push_tools_spec(s2, calls@, k + 1).1);
            k += 1;
        }
        match &c.finish_reason {
            Some(r) => {
                self.stop_reason = Some(map_stop_reason(r.as_str()));
            },
            None => {},
        }
        assert(events_view(out@) =~= base + choice_spec(s0, *c).1);
    }

    /// Process one decoded chunk: each choice in order, then the usage it
    /// reports. Returns the events now complete.
    pub fn accept(&mut self, chunk: ChatChunk) -> (out: Vec<StreamEvent>)
        requires
            old(self)@.next_index + chunk_budget(chunk.choices@, chunk.choices@.len() as int)
                <= u32::MAX,
        ensures
            final(self)@ == accept_spec(old(self)@, chunk).0,
            events_view(out@) == accept_spec(old(self)@, chunk).1,
    {
        let ghost s0 = self@;
        let mut out: Vec<StreamEvent> = Vec::new();
        let choices = &chunk.choices;
        let mut i: usize = 0;
        while i < choices.len()
            invariant
                i <= choices@.len(),
                s0.next_index + chunk_budget(choices@, choices@.len() as int) <= u32::MAX,
                self@.next_index + chunk_budget(choices@, choices@.len() as int) - chunk_budget(
                    choices@,
                    i as int,
                ) <= s0.next_index + chunk_budget(choices@, choices@.len() as int),
                self@ == choices_spec(s0, choices@, i as int).0,
                events_view(out@) == choices_spec(s0, choices@, i as int).1,
            decreases choices.len() - i,
        {
            proof {
                lemma_chunk_budget_monotone(choices@, i + 1, choices@.len() as int);
            }
            self.accept_choice(&choices[i], &mut out);
            assert(events_view(out@) =~= choices_spec(s0, choices@, i + 1).1);
            i += 1;
        }
        match &chunk.usage {
            Some(u) => {
                let cache_read_tokens = match &u.prompt_tokens_details {
                    Some(d) => d.cached_tokens,
                    None => 0,
                };
                self.usage = Usage {
                    input_tokens: u.prompt_tokens,
                    output_tokens: u.completion_tokens,
                    cache_read_tokens,
                    cache_write_tokens: 0,
                };
            },
            None => {},
        }
        out
    }

    fn push_reasoning(&mut self, text: &str, out: &mut Vec<StreamEvent>)
        requires
            old(self)@.next_index < u32::MAX,
        ensures
            final(self)@ == push_reasoning_spec(old(self)@, text@).0,
            events_view(final(out)@) == events_view(old(out)@) + push_reasoning_spec(
                old(self)@,
                text@,
            ).1,
    {
        let index = Self::ensure_block(
            &mut self.reasoning_index,
            &mut self.next_index,
            ContentBlockType::Reasoning,
            out,
        );
        out.push(StreamEvent::ReasoningDelta { index, text: text.to_string() });
        assert(events_view(out@) =~= events_view(old(out)@) + push_reasoning_spec(
            old(self)@,
            text@,
        ).1);
    }
}


// ── Laws ──────────────────────────────────────────────────────────────────

proof fn lemma_first_newline_prefix(x: Seq<u8>, y: Seq<u8>, i: int)
    requires
        0 <= i,
        first_newline(x, i) != -1,
    ensures
        first_newline(x + y, i) == first_newline(x, i),
    decreases x.len() - i,
{
    if i < x.len() && x[i] != 10u8 {
        lemma_first_newline_prefix(x, y, i + 1);
    }
}

/// Feeding a byte stream in two pieces yields the same payloads, in the same
/// order, and leaves the same bytes buffered, as feeding it in one piece:
/// chunk boundaries (mid-line or mid-character) do not matter.
pub proof fn law_sse_split_is_boundary_independent(x: Seq<u8>, y: Seq<u8>)
    ensures
        sse_split(x).0 + sse_split(sse_split(x).1 + y).0 == sse_split(x + y).0,
        sse_split(sse_split(x).1 + y).1 == sse_split(x + y).1,
    decreases x.len(),
{
    let k = first_newline(x, 0);
    lemma_first_newline_range(x, 0);
    if 0 <= k < x.len() {
        lemma_first_newline_prefix(x, y, 0);
        let t = x.subrange(k + 1, x.len() as int);
        law_sse_split_is_boundary_independent(t, y);
        assert((x + y).subrange(k + 1, (x + y).len() as int) =~= t + y);
        assert((x + y).subrange(0, k + 1) =~= x.subrange(0, k + 1));
        let (more, rest) = sse_split(t);
        match payload_of_line(utf8_lossy(x.subrange(0, k + 1))) {
            Some(p) => {
                assert(seq![p] + more + sse_split(rest + y).0 =~= seq![p] + (more + sse_split(
                    rest + y,
                ).0));
            },
            None => {},
        }
    } else {
        assert(sse_split(x).0 + sse_split(x + y).0 =~= sse_split(x + y).0);
    }
}

/// Whether an assembler state is consistent: every opened block's index is
/// below the next index, and no OpenAI tool index owns two blocks.
pub open spec fn asm_wf(s: AsmV) -> bool {
    &&& (s.text_index matches Some(i) ==> i < s.next_index)
    &&& (s.reasoning_index matches Some(i) ==> i < s.next_index)
    &&& forall|j: int| 0 <= j < s.tool_blocks.len() ==> #[trigger] s.tool_blocks[j].1 < s.next_index
    &&& forall|j1: int, j2: int|
        0 <= j1 < j2 < s.tool_blocks.len() ==> #[trigger] s.tool_blocks[j1].0
            != #[trigger] s.tool_blocks[j2].0
}

proof fn lemma_tool_block_absent(blocks: Seq<(u32, u32)>, oai: u32, i: int)
    requires
        0 <= i,
        tool_block_of(blocks, oai, i) is None,
    ensures
        forall|j: int| i <= j < blocks.len() ==> #[trigger] blocks[j].0 != oai,
    decreases blocks.len() - i,
{
    if i < blocks.len() {
        lemma_tool_block_absent(blocks, oai, i + 1);
    }
}

proof fn lemma_push_tool_wf(s: AsmV, call: ChunkToolCall)
    requires
        asm_wf(s),
        s.next_index < u32::MAX,
    ensures
        asm_wf(push_tool_spec(s, call).0),
        push_tool_spec(s, call).0.next_index <= s.next_index + 1,
        push_tool_spec(s, call).0.finished == s.finished,
{
    if tool_block_of(s.tool_blocks, call.index, 0) is None {
        lemma_tool_block_absent(s.tool_blocks, call.index, 0);
        let t = push_tool_spec(s, call).0;
        assert forall|j1: int, j2: int|
            0 <= j1 < j2 < t.tool_blocks.len() implies #[trigger] t.tool_blocks[j1].0
            != #[trigger] t.tool_blocks[j2].0 by {
            if j2 == s.tool_blocks.len() {
                assert(s.tool_blocks[j1].0 != call.index);
            } else {
                assert(s.tool_blocks[j1].0 != s.tool_blocks[j2].0);
            }
        }
        assert forall|j: int| 0 <= j < t.tool_blocks.len() implies #[trigger] t.tool_blocks[j].1
            < t.next_index by {
            if j < s.tool_blocks.len() {
                assert(s.tool_blocks[j].1 < s.next_index);
            }
        }
    }
}

proof fn lemma_push_tools_wf(s: AsmV, calls: Seq<ChunkToolCall>, n: int)
    requires
        asm_wf(s),
        0 <= n <= calls.len(),
        s.next_index + n <= u32::MAX,
    ensures
        asm_wf(push_tools_spec(s, calls, n).0),
        push_tools_spec(s, calls, n).0.next_index <= s.next_index + n,
        push_tools_spec(s, calls, n).0.finished == s.finished,
    decreases n,
{
    if n > 0 {
        lemma_push_tools_wf(s, calls, n - 1);
        lemma_push_tool_wf(push_tools_spec(s, calls, n - 1).0, calls[n - 1]);
    }
}

proof fn lemma_choice_wf(s: AsmV, c: ChunkChoice)
    requires
        asm_wf(s),
        s.next_index + 2 + c.delta.tool_calls@.len() <= u32::MAX,
    ensures
        asm_wf(choice_spec(s, c).0),
        choice_spec(s, c).0.next_index <= s.next_index + 2 + c.delta.tool_calls@.len(),
        choice_spec(s, c).0.finished == s.finished,
{
    let s1 = match c.delta.reasoning_content {
        Some(t) => push_reasoning_spec(s, t@).0,
        None => s,
    };
    let s2 = match c.delta.content {
        Some(t) => push_text_spec(s1, t@).0,
        None => s1,
    };
    assert(asm_wf(s1));
    assert(asm_wf(s2));
    lemma_push_tools_wf(s2, c.delta.tool_calls@, c.delta.tool_calls@.len() as int);
}

proof fn lemma_choices_wf(s: AsmV, cs: Seq<ChunkChoice>, n: int)
    requires
        asm_wf(s),
        0 <= n <= cs.len(),
        s.next_index + chunk_budget(cs, n) <= u32::MAX,
    ensures
        asm_wf(choices_spec(s, cs, n).0),
        choices_spec(s, cs, n).0.next_index <= s.next_index + chunk_budget(cs, n),
        choices_spec(s, cs, n).0.finished == s.finished,
    decreases n,
{
    if n > 0 {
        lemma_choices_wf(s, cs, n - 1);
        lemma_choice_wf(choices_spec(s, cs, n - 1).0, cs[n - 1]);
    }
}

/// Accepting a chunk keeps the assembler consistent: each opened block has
/// an index below the next one (so `finish` closes it), and each OpenAI tool
/// index owns at most one block.
pub proof fn law_accept_keeps_blocks_consistent(s: AsmV, chunk: ChatChunk)
    requires
        asm_wf(s),
        s.next_index + chunk_budget(chunk.choices@, chunk.choices@.len() as int) <= u32::MAX,
    ensures
        asm_wf(accept_spec(s, chunk).0),
        accept_spec(s, chunk).0.finished == s.finished,
{
    lemma_choices_wf(s, chunk.choices@, chunk.choices@.len() as int);
}

/// A fresh assembler is consistent.
pub proof fn law_fresh_assembler_is_consistent()
    ensures
        asm_wf(asm_init()),
{
}

/// `finish` is idempotent: a second call changes nothing and emits nothing.
pub proof fn law_finish_is_idempotent(s: AsmV)
    ensures
        finish_spec(finish_spec(s).0).0 == finish_spec(s).0,
        finish_spec(finish_spec(s).0).1 == Seq::<StreamEventV>::empty(),
{
}

/// The first `finish` closes each block opened so far exactly once, in open
/// order, and ends with the completion event.
pub proof fn law_finish_closes_every_block(s: AsmV)
    requires
        !s.finished,
    ensures
        finish_spec(s).1.len() == s.next_index + 1,
        forall|i: int|
            0 <= i < s.next_index ==> #[trigger] finish_spec(s).1[i] == (StreamEventV::BlockStop {
                index: i as u32,
            }),
        finish_spec(s).1.last() is Completed,
{
}

/// No event of `out` reports completion.
pub open spec fn no_completion(out: Seq<StreamEventV>) -> bool {
    forall|i: int| 0 <= i < out.len() ==> !(#[trigger] out[i] is Completed)
}

proof fn lemma_no_completion_concat(a: Seq<StreamEventV>, b: Seq<StreamEventV>)
    requires
        no_completion(a),
        no_completion(b),
    ensures
        no_completion(a + b),
{
    assert forall|i: int| 0 <= i < (a + b).len() implies !(#[trigger] (a + b)[i] is Completed) by {
        if i >= a.len() {
            assert((a + b)[i] == b[i - a.len()]);
        }
    }
}

proof fn lemma_tools_never_complete(s: AsmV, calls: Seq<ChunkToolCall>, n: int)
    ensures
        no_completion(push_tools_spec(s, calls, n).1),
    decreases n,
{
    if n > 0 && n <= calls.len() {
        lemma_tools_never_complete(s, calls, n - 1);
        let (s1, o1) = push_tools_spec(s, calls, n - 1);
        let o2 = push_tool_spec(s1, calls[n - 1]).1;
        lemma_no_completion_concat(o1, o2);
    }
}

proof fn lemma_choices_never_complete(s: AsmV, cs: Seq<ChunkChoice>, n: int)
    ensures
        no_completion(choices_spec(s, cs, n).1),
    decreases n,
{
    if n > 0 && n <= cs.len() {
        lemma_choices_never_complete(s, cs, n - 1);
        let (s1, o1) = choices_spec(s, cs, n - 1);
        let c = cs[n - 1];
        let (a, oa) = match c.delta.reasoning_content {
            Some(t) => push_reasoning_spec(s1, t@),
            None => (s1, Seq::empty()),
        };
        let (b, ob) = match c.delta.content {
            Some(t) => push_text_spec(a, t@),
            None => (a, Seq::empty()),
        };
        let oc = push_tools_spec(b, c.delta.tool_calls@, c.delta.tool_calls@.len() as int).1;
        lemma_tools_never_complete(b, c.delta.tool_calls@, c.delta.tool_calls@.len() as int);
        lemma_no_completion_concat(oa, ob);
        lemma_no_completion_concat(oa + ob, oc);
        lemma_no_completion_concat(o1, oa + ob + oc);
    }
}

/// Completion is reported only by `finish`: accepting a chunk never emits
/// `Completed`, whatever it carries (the finish reason and usage are only
/// recorded), so `Completed` is always the stream's last event.
pub proof fn law_accept_never_completes(s: AsmV, chunk: ChatChunk)
    ensures
        no_completion(accept_spec(s, chunk).1),
{
    lemma_choices_never_complete(s, chunk.choices@, chunk.choices@.len() as int);
}

} // verus!
