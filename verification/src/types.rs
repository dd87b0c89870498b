//! Conversation data model: content blocks, messages and the agent-level
//! message envelope that the compaction stages read and rewrite.
//!
//! Structured tool arguments and provider items are carried as their compact
//! JSON text; the few fields the logic reads are looked up through `json`.

use vstd::prelude::*;

verus! {

/// Where the bytes of an image come from.
#[allow(inconsistent_fields)]
pub enum ImageSource {
    /// Inline base64 data, optionally remembering the file it was read from.
    Base64 { data: String, media_type: String, path: Option<String> },
    /// A file on disk, re-read when the provider request is built.
    Path { path: String },
}

/// Provider-specific data attached to a thinking block.
pub enum ThinkingMetadata {
    /// An opaque Responses API item (compact JSON text), replayed verbatim.
    OpenAiResponses { item: String },
}

/// One block of message content.
pub enum Content {
    Text { text: String },
    Image { source: ImageSource },
    Thinking { thinking: String, metadata: Option<ThinkingMetadata> },
    /// A tool call; `arguments` is the compact JSON text of the call input.
    ToolCall { id: String, name: String, arguments: String },
}

/// Why an assistant response ended.
#[derive(Clone, Copy, Debug, PartialEq, Eq, Structural)]
pub enum StopReason {
    Stop,
    Length,
    ToolUse,
    Error,
    Aborted,
}

/// How long a tool result stays useful.
#[derive(Clone, Copy, Debug, PartialEq, Eq, Structural)]
pub enum Retention {
    /// Kept until compaction decides otherwise.
    Normal,
    /// Only needed until the next user message.
    CurrentRun,
}

/// Token usage reported by a provider for one response.
#[derive(Clone, Copy, Debug, PartialEq, Eq, Structural)]
pub struct Usage {
    pub input: u64,
    pub output: u64,
    pub cache_read: u64,
    pub cache_write: u64,
}

/// A message in the provider conversation.
pub enum Message {
    User { content: Vec<Content>, timestamp: u64 },
    Assistant {
        content: Vec<Content>,
        stop_reason: StopReason,
        model: String,
        provider: String,
        usage: Usage,
        timestamp: u64,
        error_message: Option<String>,
        response_id: Option<String>,
    },
    ToolResult {
        tool_call_id: String,
        tool_name: String,
        content: Vec<Content>,
        is_error: bool,
        timestamp: u64,
        retention: Retention,
    },
}

/// An application-level entry that is not sent to the model as-is;
/// `data` is its compact JSON text.
pub struct ExtensionMessage {
    pub kind: String,
    pub data: String,
}

/// A message of the agent history.
pub enum AgentMessage {
    Llm(Message),
    Extension(ExtensionMessage),
}

/// Mathematical view of an image source.
#[allow(inconsistent_fields)]
pub ghost enum ImageSourceV {
    Base64 { data: Seq<char>, media_type: Seq<char>, path: Option<Seq<char>> },
    Path { path: Seq<char> },
}

/// Mathematical view of thinking metadata.
pub ghost enum ThinkingMetadataV {
    OpenAiResponses { item: Seq<char> },
}

/// Mathematical view of a content block.
pub ghost enum ContentV {
    Text { text: Seq<char> },
    Image { source: ImageSourceV },
    Thinking { thinking: Seq<char>, metadata: Option<ThinkingMetadataV> },
    ToolCall { id: Seq<char>, name: Seq<char>, arguments: Seq<char> },
}

/// Mathematical view of a message.
pub ghost enum MessageV {
    User { content: Seq<ContentV>, timestamp: u64 },
    Assistant {
        content: Seq<ContentV>,
        stop_reason: StopReason,
        model: Seq<char>,
        provider: Seq<char>,
        usage: Usage,
        timestamp: u64,
        error_message: Option<Seq<char>>,
        response_id: Option<Seq<char>>,
    },
    ToolResult {
        tool_call_id: Seq<char>,
        tool_name: Seq<char>,
        content: Seq<ContentV>,
        is_error: bool,
        timestamp: u64,
        retention: Retention,
    },
}

/// Mathematical view of an agent message.
pub ghost enum AgentMessageV {
    Llm(MessageV),
    Extension { kind: Seq<char>, data: Seq<char> },
}

pub open spec fn opt_view(o: Option<String>) -> Option<Seq<char>> {
    match o {
        Some(s) => Some(s@),
        None => None,
    }
}

impl View for ImageSource {
    type V = ImageSourceV;

    open spec fn view(&self) -> ImageSourceV {
        match self {
            ImageSource::Base64 { data, media_type, path } => ImageSourceV::Base64 {
                data: data@,
                media_type: media_type@,
                path: opt_view(*path),
            },
            ImageSource::Path { path } => ImageSourceV::Path { path: path@ },
        }
    }
}

impl View for ThinkingMetadata {
    type V = ThinkingMetadataV;

    open spec fn view(&self) -> ThinkingMetadataV {
        match self {
            ThinkingMetadata::OpenAiResponses { item } => ThinkingMetadataV::OpenAiResponses {
                item: item@,
            },
        }
    }
}

impl View for Content {
    type V = ContentV;

    open spec fn view(&self) -> ContentV {
        match self {
            Content::Text { text } => ContentV::Text { text: text@ },
            Content::Image { source } => ContentV::Image { source: source@ },
            Content::Thinking { thinking, metadata } => ContentV::Thinking {
                thinking: thinking@,
                metadata: match metadata {
                    Some(m) => Some(m@),
                    None => None,
                },
            },
            Content::ToolCall { id, name, arguments } => ContentV::ToolCall {
                id: id@,
                name: name@,
                arguments: arguments@,
            },
        }
    }
}

/// The view of a content list.
pub open spec fn cv(s: Seq<Content>) -> Seq<ContentV> {
    s.map_values(|c: Content| c@)
}

impl View for Message {
    type V = MessageV;

    open spec fn view(&self) -> MessageV {
        match self {
            Message::User { content, timestamp } => MessageV::User {
                content: cv(content@),
                timestamp: *timestamp,
            },
            Message::Assistant {
                content,
                stop_reason,
                model,
                provider,
                usage,
                timestamp,
                error_message,
                response_id,
            } => MessageV::Assistant {
                content: cv(content@),
                stop_reason: *stop_reason,
                model: model@,
                provider: provider@,
                usage: *usage,
                timestamp: *timestamp,
                error_message: opt_view(*error_message),
                response_id: opt_view(*response_id),
            },
            Message::ToolResult {
                tool_call_id,
                tool_name,
                content,
                is_error,
                timestamp,
                retention,
            } => MessageV::ToolResult {
                tool_call_id: tool_call_id@,
                tool_name: tool_name@,
                content: cv(content@),
                is_error: *is_error,
                timestamp: *timestamp,
                retention: *retention,
            },
        }
    }
}

impl View for AgentMessage {
    type V = AgentMessageV;

    open spec fn view(&self) -> AgentMessageV {
        match self {
            AgentMessage::Llm(m) => AgentMessageV::Llm(m@),
            AgentMessage::Extension(e) => AgentMessageV::Extension {
                kind: e.kind@,
                data: e.data@,
            },
        }
    }
}

/// The view of a message list.
pub open spec fn mv(s: Seq<AgentMessage>) -> Seq<AgentMessageV> {
    s.map_values(|m: AgentMessage| m@)
}

impl Clone for ImageSource {
    fn clone(&self) -> (r: Self)
        ensures
            r@ == self@,
    {
        match self {
            ImageSource::Base64 { data, media_type, path } => ImageSource::Base64 {
                data: data.clone(),
                media_type: media_type.clone(),
                path: clone_opt_string(path),
            },
            ImageSource::Path { path } => ImageSource::Path { path: path.clone() },
        }
    }
}

impl Clone for ThinkingMetadata {
    fn clone(&self) -> (r: Self)
        ensures
            r@ == self@,
    {
        match self {
            ThinkingMetadata::OpenAiResponses { item } => ThinkingMetadata::OpenAiResponses {
                item: item.clone(),
            },
        }
    }
}

impl Clone for Content {
    fn clone(&self) -> (r: Self)
        ensures
            r@ == self@,
    {
        match self {
            Content::Text { text } => Content::Text { text: text.clone() },
            Content::Image { source } => Content::Image { source: source.clone() },
            Content::Thinking { thinking, metadata } => Content::Thinking {
                thinking: thinking.clone(),
                metadata: match metadata {
                    Some(m) => Some(m.clone()),
                    None => None,
                },
            },
            Content::ToolCall { id, name, arguments } => Content::ToolCall {
                id: id.clone(),
                name: name.clone(),
                arguments: arguments.clone(),
            },
        }
    }
}

/// A copy of a content list, element for element.
pub fn clone_content(content: &[Content]) -> (r: Vec<Content>)
    ensures
        cv(r@) == cv(content@),
{
    let mut r: Vec<Content> = Vec::new();
    let mut i: usize = 0;
    while i < content.len()
        invariant
            i <= content@.len(),
            cv(r@) == cv(content@.take(i as int)),
        decreases content@.len() - i,
    {
        r.push(content[i].clone());
        proof {
            assert(cv(content@.take(i + 1)) =~= cv(content@.take(i as int)).push(content@[i as int]@));
        }
        i = i + 1;
    }
    proof {
        assert(content@.take(content@.len() as int) =~= content@);
    }
    r
}

pub fn clone_opt_string(s: &Option<String>) -> (r: Option<String>)
    ensures
        opt_view(r) == opt_view(*s),
{
    match s {
        Some(v) => Some(v.clone()),
        None => None,
    }
}

impl Clone for Message {
    fn clone(&self) -> (r: Self)
        ensures
            r@ == self@,
    {
        match self {
            Message::User { content, timestamp } => Message::User {
                content: clone_content(content),
                timestamp: *timestamp,
            },
            Message::Assistant {
                content,
                stop_reason,
                model,
                provider,
                usage,
                timestamp,
                error_message,
                response_id,
            } => Message::Assistant {
                content: clone_content(content),
                stop_reason: *stop_reason,
                model: model.clone(),
                provider: provider.clone(),
                usage: *usage,
                timestamp: *timestamp,
                error_message: clone_opt_string(error_message),
                response_id: clone_opt_string(response_id),
            },
            Message::ToolResult {
                tool_call_id,
                tool_name,
                content,
                is_error,
                timestamp,
                retention,
            } => Message::ToolResult {
                tool_call_id: tool_call_id.clone(),
                tool_name: tool_name.clone(),
                content: clone_content(content),
                is_error: *is_error,
                timestamp: *timestamp,
                retention: *retention,
            },
        }
    }
}

impl Clone for ExtensionMessage {
    fn clone(&self) -> (r: Self)
        ensures
            r.kind@ == self.kind@,
            r.data@ == self.data@,
    {
        ExtensionMessage { kind: self.kind.clone(), data: self.data.clone() }
    }
}

impl Clone for AgentMessage {
    fn clone(&self) -> (r: Self)
        ensures
            r@ == self@,
    {
        match self {
            AgentMessage::Llm(m) => AgentMessage::Llm(m.clone()),
            AgentMessage::Extension(e) => AgentMessage::Extension(e.clone()),
        }
    }
}

/// A copy of a message list, element for element.
pub fn clone_messages(messages: &[AgentMessage]) -> (r: Vec<AgentMessage>)
    ensures
        mv(r@) == mv(messages@),
{
    let mut r: Vec<AgentMessage> = Vec::new();
    let mut i: usize = 0;
    while i < messages.len()
        invariant
            i <= messages@.len(),
            mv(r@) == mv(messages@.take(i as int)),
        decreases messages@.len() - i,
    {
        r.push(messages[i].clone());
        proof {
            assert(mv(messages@.take(i + 1)) =~= mv(messages@.take(i as int)).push(messages@[i as int]@));
        }
        i = i + 1;
    }
    proof {
        assert(messages@.take(messages@.len() as int) =~= messages@);
    }
    r
}

impl Usage {
    pub fn zero() -> (r: Usage)
        ensures
            r.input == 0 && r.output == 0 && r.cache_read == 0 && r.cache_write == 0,
    {
        Usage { input: 0, output: 0, cache_read: 0, cache_write: 0 }
    }
}

impl Retention {
    /// Results are kept by default.
    pub fn default_retention() -> (r: Retention)
        ensures
            r == Retention::Normal,
    {
        Retention::Normal
    }
}

pub open spec fn is_user(m: AgentMessageV) -> bool {
    m matches AgentMessageV::Llm(MessageV::User { .. })
}

pub open spec fn is_assistant(m: AgentMessageV) -> bool {
    m matches AgentMessageV::Llm(MessageV::Assistant { .. })
}

pub open spec fn is_tool_result(m: AgentMessageV) -> bool {
    m matches AgentMessageV::Llm(MessageV::ToolResult { .. })
}

pub open spec fn is_tool_call(c: ContentV) -> bool {
    c is ToolCall
}

/// `m` is a user message with exactly one text block.
pub open spec fn is_user_text_message(m: AgentMessageV, text: Seq<char>, timestamp: u64) -> bool {
    m == AgentMessageV::Llm(MessageV::User { content: seq![ContentV::Text { text }], timestamp })
}

/// A user message carrying one text block.
pub fn user_text_message(text: String, timestamp: u64) -> (m: AgentMessage)
    ensures
        is_user_text_message(m@, text@, timestamp),
{
    let mut content: Vec<Content> = Vec::new();
    content.push(Content::Text { text });
    let m = AgentMessage::Llm(Message::User { content, timestamp });
    proof {
        assert(cv(content@) =~= seq![ContentV::Text { text: text@ }]);
    }
    m
}

} // verus!
