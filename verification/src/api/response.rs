//! A provider's reply as the engine reads it, and the rules both event-stream
//! parsers share: which lines carry data, which events are errors, and how a
//! usage object is read.

use vstd::prelude::*;
use crate::json::{json_compact, json_member, json_str_value, json_u64, member, str_member, str_member_of, str_value, u64_value};
use crate::types::opt_view;
use crate::text::{contains, has_sub, is_prefix, lines, owned, slice_vec, starts_with, str_eq, string_of, trim, trim_chars, vecs};

verus! {

/// Who wrote a message.
#[derive(Clone, Copy, Debug, PartialEq, Eq, Structural)]
pub enum MessageRole {
    User,
    Assistant,
}

/// Where an image block's bytes come from.
pub struct ImageContentSource {
    pub source_type: String,
    pub media_type: String,
    pub data: String,
}

/// One block of what a tool returned.
pub enum ToolResultContentBlock {
    Text { text: String },
    Image { source: ImageContentSource },
}

/// One block of a provider message; a tool call's input is its compact JSON
/// text.
pub enum ContentBlock {
    Text { text: String },
    ToolUse { id: String, name: String, input: String },
    ToolResult { tool_use_id: String, content: Vec<ToolResultContentBlock>, is_error: bool },
    Thinking { thinking: String, signature: Option<String> },
    Image { source: ImageContentSource },
}

/// Mathematical view of a tool-result block.
pub ghost enum ToolResultBlockV {
    Text { text: Seq<char> },
    Image { source_type: Seq<char>, media_type: Seq<char>, data: Seq<char> },
}

impl View for ToolResultContentBlock {
    type V = ToolResultBlockV;

    open spec fn view(&self) -> ToolResultBlockV {
        match self {
            ToolResultContentBlock::Text { text } => ToolResultBlockV::Text { text: text@ },
            ToolResultContentBlock::Image { source } => ToolResultBlockV::Image {
                source_type: source.source_type@,
                media_type: source.media_type@,
                data: source.data@,
            },
        }
    }
}

/// Mathematical view of a reply block.
pub ghost enum ContentBlockV {
    Text { text: Seq<char> },
    ToolUse { id: Seq<char>, name: Seq<char>, input: Seq<char> },
    ToolResult { tool_use_id: Seq<char>, content: Seq<ToolResultBlockV>, is_error: bool },
    Thinking { thinking: Seq<char>, signature: Option<Seq<char>> },
    Image { source_type: Seq<char>, media_type: Seq<char>, data: Seq<char> },
}

impl View for ContentBlock {
    type V = ContentBlockV;

    open spec fn view(&self) -> ContentBlockV {
        match self {
            ContentBlock::Text { text } => ContentBlockV::Text { text: text@ },
            ContentBlock::ToolUse { id, name, input } => ContentBlockV::ToolUse { id: id@, name: name@, input: input@ },
            ContentBlock::ToolResult { tool_use_id, content, is_error } => ContentBlockV::ToolResult {
                tool_use_id: tool_use_id@,
                content: content@.map_values(|b: ToolResultContentBlock| b@),
                is_error: *is_error,
            },
            ContentBlock::Thinking { thinking, signature } => ContentBlockV::Thinking {
                thinking: thinking@,
                signature: opt_view(*signature),
            },
            ContentBlock::Image { source } => ContentBlockV::Image {
                source_type: source.source_type@,
                media_type: source.media_type@,
                data: source.data@,
            },
        }
    }
}

/// The views of a list of blocks.
pub open spec fn blocks_view(v: Seq<ContentBlock>) -> Seq<ContentBlockV> {
    v.map_values(|b: ContentBlock| b@)
}

/// A message as providers take and give it: a role and its blocks.
pub struct ApiMessage {
    pub role: MessageRole,
    pub content: Vec<ContentBlock>,
}

/// Mathematical view of a message.
pub ghost struct ApiMessageV {
    pub role: MessageRole,
    pub content: Seq<ContentBlockV>,
}

impl View for ApiMessage {
    type V = ApiMessageV;

    open spec fn view(&self) -> ApiMessageV {
        ApiMessageV { role: self.role, content: blocks_view(self.content@) }
    }
}

/// Token usage a provider reports.
#[derive(Clone, Copy, Debug, PartialEq, Eq, Structural)]
pub struct ApiUsage {
    pub input_tokens: u64,
    pub output_tokens: u64,
    pub cache_creation_input_tokens: u64,
    pub cache_read_input_tokens: u64,
}

pub open spec fn zero_usage() -> ApiUsage {
    ApiUsage { input_tokens: 0, output_tokens: 0, cache_creation_input_tokens: 0, cache_read_input_tokens: 0 }
}

/// Why a reply could not be read.
pub enum ApiError {
    /// The request timed out.
    Timeout,
    /// The provider answered with an error status: the status and the
    /// error's message.
    HttpError { status: u16, message: String },
    /// The body could not be received.
    NetworkError(String),
    /// The body does not have the shape of a reply.
    StreamError(String),
    /// The provider reported an error; its message.
    Upstream(String),
}

/// Mathematical view of an error.
pub ghost enum ApiErrorV {
    Timeout,
    HttpError { status: u16, message: Seq<char> },
    NetworkError(Seq<char>),
    StreamError(Seq<char>),
    Upstream(Seq<char>),
}

impl View for ApiError {
    type V = ApiErrorV;

    open spec fn view(&self) -> ApiErrorV {
        match self {
            ApiError::Timeout => ApiErrorV::Timeout,
            ApiError::HttpError { status, message } => ApiErrorV::HttpError { status: *status, message: message@ },
            ApiError::NetworkError(m) => ApiErrorV::NetworkError(m@),
            ApiError::StreamError(m) => ApiErrorV::StreamError(m@),
            ApiError::Upstream(m) => ApiErrorV::Upstream(m@),
        }
    }
}

/// Mathematical view of a reply: its blocks, usage and stop reason.
pub ghost struct ReplyV {
    pub content: Seq<ContentBlockV>,
    pub usage: ApiUsage,
    pub stop_reason: Option<Seq<char>>,
}

/// The data of an event-stream line: the trimmed line after `data: `.
pub open spec fn sse_data(line: Seq<char>) -> Option<Seq<char>> {
    let t = trim(line);
    if is_prefix("data: "@, t) {
        Some(t.skip(6))
    } else {
        None
    }
}

/// Some line carries data.
pub open spec fn data_lines_in(l: Seq<Seq<char>>) -> bool
    decreases l.len(),
{
    if l.len() == 0 {
        false
    } else {
        data_lines_in(l.drop_last()) || sse_data(l.last()) is Some
    }
}

/// A content type announcing an event stream.
pub open spec fn streaming_type(content_type: Seq<char>) -> bool {
    has_sub(content_type, "text/event-stream"@)
}

/// The text of a reported error: its `message` when a string, else the
/// error itself when a string, else the error's JSON text.
pub open spec fn error_text(e: Seq<char>) -> Seq<char> {
    match str_member(e, "message"@) {
        Some(m) => m,
        None => match json_str_value(e) {
            Some(s) => s,
            None => e,
        },
    }
}

/// A JSON value that reports an error: one with a non-null `error` member.
pub open spec fn stream_error_of(event: Seq<char>) -> Option<ApiErrorV> {
    match json_member(event, "error"@) {
        Some(e) => if e == "null"@ {
            None
        } else {
            Some(ApiErrorV::Upstream(error_text(e)))
        },
        None => None,
    }
}

/// A usage counter: `(read, value)`; absent is zero, and a member that is
/// not a non-negative integer cannot be read.
pub open spec fn counter(t: Seq<char>, f: Seq<char>) -> (bool, u64) {
    match json_member(t, f) {
        None => (true, 0u64),
        Some(m) => match json_u64(m) {
            Some(v) => (true, v),
            None => (false, 0u64),
        },
    }
}

/// A usage object read as a whole: an object whose four counters can all be
/// read.
pub open spec fn usage_of(t: Seq<char>) -> Option<ApiUsage> {
    let a = counter(t, "input_tokens"@);
    let b = counter(t, "output_tokens"@);
    let c = counter(t, "cache_creation_input_tokens"@);
    let d = counter(t, "cache_read_input_tokens"@);
    if is_prefix("{"@, t) && a.0 && b.0 && c.0 && d.0 {
        Some(
            ApiUsage {
                input_tokens: a.1,
                output_tokens: b.1,
                cache_creation_input_tokens: c.1,
                cache_read_input_tokens: d.1,
            },
        )
    } else {
        None
    }
}

/// The `u64` member `f` of `t`, when there is one.
pub open spec fn u64_member(t: Seq<char>, f: Seq<char>) -> Option<u64> {
    match json_member(t, f) {
        Some(m) => json_u64(m),
        None => None,
    }
}

pub fn u64_member_of(t: &str, f: &str) -> (r: Option<u64>)
    ensures
        r == u64_member(t@, f@),
{
    match member(t, f) {
        Some(m) => u64_value(m.as_str()),
        None => None,
    }
}

/// The data of one line.
pub fn data_of(line: &Vec<char>) -> (r: Option<String>)
    ensures
        opt_view(r) == sse_data(line@),
{
    let s = string_of(line.as_slice());
    let t = trim_chars(s.as_str());
    let ts = string_of(t.as_slice());
    if starts_with(ts.as_str(), "data: ") {
        proof {
            reveal_strlit("data: ");
        }
        let rest = string_of(slice_vec(t.as_slice(), 6, t.len()).as_slice());
        proof {
            assert(rest@ =~= trim(line@).skip(6));
        }
        Some(rest)
    } else {
        None
    }
}

/// Whether some line carries data.
pub fn has_data_lines(ls: &Vec<Vec<char>>) -> (r: bool)
    ensures
        r == data_lines_in(vecs(ls@)),
{
    let ghost l = vecs(ls@);
    let mut i: usize = 0;
    let mut found = false;
    while i < ls.len()
        invariant
            i <= ls@.len(),
            l == vecs(ls@),
            found == data_lines_in(l.take(i as int)),
        decreases ls@.len() - i,
    {
        proof {
            assert(l.take(i + 1).drop_last() =~= l.take(i as int));
            assert(l.take(i + 1).last() == ls@[i as int]@);
        }
        let d = data_of(&ls[i]);
        found = found || d.is_some();
        i = i + 1;
    }
    proof {
        assert(l.take(l.len() as int) =~= l);
    }
    found
}

/// Whether the content type announces an event stream.
pub fn is_streaming_type(content_type: &str) -> (r: bool)
    ensures
        r == streaming_type(content_type@),
{
    contains(content_type, "text/event-stream")
}

fn error_text_of(e: &str) -> (r: String)
    ensures
        r@ == error_text(e@),
{
    match str_member_of(e, "message") {
        Some(m) => m,
        None => match str_value(e) {
            Some(s) => s,
            None => owned(e),
        },
    }
}

/// The error a JSON value reports, if any.
pub fn stream_error(event: &str) -> (r: Option<ApiError>)
    ensures
        match r {
            Some(e) => stream_error_of(event@) == Some(e@),
            None => stream_error_of(event@) is None,
        },
{
    match member(event, "error") {
        Some(e) => {
            if str_eq(e.as_str(), "null") {
                None
            } else {
                Some(ApiError::Upstream(error_text_of(e.as_str())))
            }
        },
        None => None,
    }
}

fn counter_of(t: &str, f: &str) -> (r: (bool, u64))
    ensures
        r == counter(t@, f@),
{
    match member(t, f) {
        None => (true, 0),
        Some(m) => match u64_value(m.as_str()) {
            Some(v) => (true, v),
            None => (false, 0),
        },
    }
}

/// A usage object, read as a whole.
pub fn usage_from(t: &str) -> (r: Option<ApiUsage>)
    ensures
        r == usage_of(t@),
{
    let a = counter_of(t, "input_tokens");
    let b = counter_of(t, "output_tokens");
    let c = counter_of(t, "cache_creation_input_tokens");
    let d = counter_of(t, "cache_read_input_tokens");
    if starts_with(t, "{") && a.0 && b.0 && c.0 && d.0 {
        Some(
            ApiUsage {
                input_tokens: a.1,
                output_tokens: b.1,
                cache_creation_input_tokens: c.1,
                cache_read_input_tokens: d.1,
            },
        )
    } else {
        None
    }
}

/// A parsed JSON text: whether `serde_json` reads it.
pub fn parses(t: &str) -> (r: bool)
    ensures
        r == (json_compact(t@) is Some),
{
    crate::json::compact(t).is_some()
}

/// Where key `k` stands among `keys` (the last place holding it), or -1.
pub open spec fn key_pos(keys: Seq<u64>, k: u64) -> int
    decreases keys.len(),
{
    if keys.len() == 0 {
        -1
    } else if keys.last() == k {
        keys.len() - 1
    } else {
        key_pos(keys.drop_last(), k)
    }
}

/// Where the smallest key stands (the first place holding it).
pub open spec fn min_pos(keys: Seq<u64>) -> int
    decreases keys.len(),
{
    if keys.len() <= 1 {
        0
    } else {
        let p = min_pos(keys.drop_last());
        if keys.last() < keys[p] {
            keys.len() - 1
        } else {
            p
        }
    }
}

pub proof fn lemma_key_pos_range(keys: Seq<u64>, k: u64)
    ensures
        -1 <= key_pos(keys, k) < keys.len(),
        key_pos(keys, k) >= 0 ==> keys[key_pos(keys, k)] == k,
    decreases keys.len(),
{
    if keys.len() > 0 {
        lemma_key_pos_range(keys.drop_last(), k);
    }
}

pub proof fn lemma_min_pos_range(keys: Seq<u64>)
    ensures
        keys.len() > 0 ==> 0 <= min_pos(keys) < keys.len(),
    decreases keys.len(),
{
    if keys.len() > 1 {
        lemma_min_pos_range(keys.drop_last());
    }
}

/// The values in the order of their keys, smallest key first.
pub open spec fn in_key_order<V>(keys: Seq<u64>, vals: Seq<V>) -> Seq<V>
    decreases keys.len(),
{
    let p = min_pos(keys);
    if keys.len() == 0 || vals.len() != keys.len() || !(0 <= p < keys.len()) {
        Seq::empty()
    } else {
        seq![vals[p]] + in_key_order(keys.remove(p), vals.remove(p))
    }
}

/// Where `k` stands among `keys`.
pub fn find_key(keys: &Vec<u64>, k: u64) -> (r: Option<usize>)
    ensures
        match r {
            Some(p) => key_pos(keys@, k) == p,
            None => key_pos(keys@, k) == -1,
        },
{
    let mut pos: Option<usize> = None;
    let mut i: usize = 0;
    while i < keys.len()
        invariant
            i <= keys@.len(),
            match pos {
                Some(p) => key_pos(keys@.take(i as int), k) == p,
                None => key_pos(keys@.take(i as int), k) == -1,
            },
        decreases keys@.len() - i,
    {
        proof {
            assert(keys@.take(i + 1).drop_last() =~= keys@.take(i as int));
        }
        if keys[i] == k {
            pos = Some(i);
        }
        i = i + 1;
    }
    proof {
        assert(keys@.take(keys@.len() as int) =~= keys@);
    }
    pos
}

/// Where the smallest key stands.
pub fn smallest_key(keys: &Vec<u64>) -> (r: usize)
    requires
        keys@.len() > 0,
    ensures
        r == min_pos(keys@),
        r < keys@.len(),
{
    let mut best: usize = 0;
    let mut i: usize = 1;
    proof {
        assert(keys@.take(1).len() == 1);
    }
    while i < keys.len()
        invariant
            1 <= i <= keys@.len(),
            best < i,
            best == min_pos(keys@.take(i as int)),
        decreases keys@.len() - i,
    {
        proof {
            assert(keys@.take(i + 1).drop_last() =~= keys@.take(i as int));
            assert(keys@.take(i + 1)[best as int] == keys@[best as int]);
        }
        if keys[i] < keys[best] {
            best = i;
        }
        i = i + 1;
    }
    proof {
        assert(keys@.take(keys@.len() as int) =~= keys@);
    }
    best
}

/// The error for a reply with an error status: the reported error's text
/// when the body is JSON with an `error`, else the body itself.
pub open spec fn http_error_spec(status: u16, body: Seq<char>) -> ApiErrorV {
    ApiErrorV::HttpError {
        status,
        message: match stream_error_of(body) {
            Some(ApiErrorV::Upstream(m)) => m,
            _ => body,
        },
    }
}

/// The error for a reply with an error status.
pub fn http_error(status: u16, body: &str) -> (r: ApiError)
    ensures
        r@ == http_error_spec(status, body@),
{
    let message = match stream_error(body) {
        Some(ApiError::Upstream(m)) => m,
        _ => owned(body),
    };
    ApiError::HttpError { status, message }
}

} // verus!
