//! Reading a reply of the Anthropic Messages API: the event stream, or the
//! plain JSON body a proxy may send instead.

use vstd::prelude::*;
use crate::json::{json_compact, json_items, json_member, member, items, compact, str_member, str_member_of};
use crate::text::{ends_with, is_suffix, lines, lines_of, owned, push_str, str_eq, vecs};
use super::openai::{trim_slashes, trimmed_base};
use crate::types::{clone_opt_string, opt_view};
use super::provider::{ProviderResponse, parsed_view};
use super::response::{
    ApiError, ApiErrorV, ApiMessage, ApiUsage, ContentBlock, ContentBlockV, ImageContentSource, MessageRole, ReplyV,
    blocks_view, data_lines_in, data_of, find_key, has_data_lines, in_key_order, is_streaming_type, key_pos,
    lemma_key_pos_range, lemma_min_pos_range, min_pos, parses, smallest_key, sse_data, stream_error, stream_error_of,
    streaming_type, u64_member, u64_member_of, usage_from, usage_of, zero_usage,
};

verus! {

/// A content block while it streams: the block the stream opened it with
/// (`base`), or, when a delta came first, the kind the delta implies; and
/// what the deltas wrote over its `text`, `_partial_json`, `thinking` and
/// `signature` fields.
pub struct BlockAcc {
    pub base: Option<String>,
    pub kind: String,
    pub text: Option<String>,
    pub partial: Option<String>,
    pub thinking: Option<String>,
    pub signature: Option<String>,
}

/// Mathematical view of a streaming block.
pub ghost struct AccV {
    pub base: Option<Seq<char>>,
    pub kind: Seq<char>,
    pub text: Option<Seq<char>>,
    pub partial: Option<Seq<char>>,
    pub thinking: Option<Seq<char>>,
    pub signature: Option<Seq<char>>,
}

impl View for BlockAcc {
    type V = AccV;

    open spec fn view(&self) -> AccV {
        AccV {
            base: opt_view(self.base),
            kind: self.kind@,
            text: opt_view(self.text),
            partial: opt_view(self.partial),
            thinking: opt_view(self.thinking),
            signature: opt_view(self.signature),
        }
    }
}

/// A block opened by the stream with the JSON text `b`.
pub open spec fn based_acc(b: Seq<char>) -> AccV {
    AccV { base: Some(b), kind: Seq::empty(), text: None, partial: None, thinking: None, signature: None }
}

/// A block a delta opened: `{"type": kind}` with its empty fields.
pub open spec fn fresh_acc(kind: Seq<char>) -> AccV {
    AccV { base: None, kind, text: None, partial: None, thinking: None, signature: None }
}

/// The string fields of a block a delta opened: its type, and empty text
/// (`text`), id and name (`tool_use`) or thinking (`thinking`).
pub open spec fn default_str(kind: Seq<char>, f: Seq<char>) -> Option<Seq<char>> {
    if f == "type"@ {
        Some(kind)
    } else if kind == "text"@ && f == "text"@ {
        Some(Seq::empty())
    } else if kind == "tool_use"@ && (f == "id"@ || f == "name"@) {
        Some(Seq::empty())
    } else if kind == "thinking"@ && f == "thinking"@ {
        Some(Seq::empty())
    } else {
        None
    }
}

/// The string field `f` of a streaming block: what a delta wrote, else the
/// block's own.
pub open spec fn field_str(a: AccV, f: Seq<char>) -> Option<Seq<char>> {
    let written = if f == "text"@ {
        a.text
    } else if f == "_partial_json"@ {
        a.partial
    } else if f == "thinking"@ {
        a.thinking
    } else if f == "signature"@ {
        a.signature
    } else {
        None
    };
    match written {
        Some(s) => Some(s),
        None => match a.base {
            Some(b) => str_member(b, f),
            None => default_str(a.kind, f),
        },
    }
}

/// The `input` member of a block (`{}` for a tool block a delta opened).
pub open spec fn input_member(a: AccV) -> Option<Seq<char>> {
    match a.base {
        Some(b) => json_member(b, "input"@),
        None => if a.kind == "tool_use"@ {
            Some("{}"@)
        } else {
            None
        },
    }
}

/// A tool call's input: the streamed partial JSON when it parses, `{}` when
/// it does not; without one, the block's `input`, else `{}`.
pub open spec fn tool_input(a: AccV) -> Seq<char> {
    match field_str(a, "_partial_json"@) {
        Some(p) => match json_compact(p) {
            Some(c) => c,
            None => "{}"@,
        },
        None => match input_member(a) {
            Some(i) => i,
            None => "{}"@,
        },
    }
}

/// What a finished block becomes: text, tool use, thinking or image, when
/// its type is one of these and the fields each needs are strings.
pub open spec fn block_of(a: AccV) -> Option<ContentBlockV> {
    match field_str(a, "type"@) {
        None => None,
        Some(t) => if t == "text"@ {
            match field_str(a, "text"@) {
                Some(x) => Some(ContentBlockV::Text { text: x }),
                None => None,
            }
        } else if t == "tool_use"@ {
            match (field_str(a, "id"@), field_str(a, "name"@)) {
                (Some(i), Some(n)) => Some(ContentBlockV::ToolUse { id: i, name: n, input: tool_input(a) }),
                _ => None,
            }
        } else if t == "thinking"@ {
            match field_str(a, "thinking"@) {
                Some(x) => Some(ContentBlockV::Thinking { thinking: x, signature: field_str(a, "signature"@) }),
                None => None,
            }
        } else if t == "image"@ {
            match a.base {
                Some(b) => match json_member(b, "source"@) {
                    Some(src) => match (
                        str_member(src, "type"@),
                        str_member(src, "media_type"@),
                        str_member(src, "data"@),
                    ) {
                        (Some(st), Some(mt), Some(d)) => Some(
                            ContentBlockV::Image { source_type: st, media_type: mt, data: d },
                        ),
                        _ => None,
                    },
                    None => None,
                },
                None => None,
            }
        } else {
            None
        },
    }
}

pub open spec fn opt_seq(o: Option<ContentBlockV>) -> Seq<ContentBlockV> {
    match o {
        Some(b) => seq![b],
        None => Seq::empty(),
    }
}

/// The blocks that finished blocks become, in order.
pub open spec fn blocks_in(accs: Seq<AccV>) -> Seq<ContentBlockV>
    decreases accs.len(),
{
    if accs.len() == 0 {
        Seq::empty()
    } else {
        blocks_in(accs.drop_last()) + opt_seq(block_of(accs.last()))
    }
}

proof fn lemma_blocks_in_concat(a: Seq<AccV>, b: Seq<AccV>)
    ensures
        blocks_in(a + b) == blocks_in(a) + blocks_in(b),
    decreases b.len(),
{
    if b.len() == 0 {
        assert(a + b =~= a);
        assert(blocks_in(a) + blocks_in(b) =~= blocks_in(a));
    } else {
        lemma_blocks_in_concat(a, b.drop_last());
        assert((a + b).drop_last() =~= a + b.drop_last());
        assert(blocks_in(a + b) =~= blocks_in(a) + blocks_in(b));
    }
}

/// What the stream has built so far: finished blocks, usage, stop reason,
/// the open blocks by index, and whether any data line parsed.
pub ghost struct StreamV {
    pub blocks: Seq<ContentBlockV>,
    pub usage: ApiUsage,
    pub stop: Option<Seq<char>>,
    pub keys: Seq<u64>,
    pub accs: Seq<AccV>,
    pub saw: bool,
}

/// Where a scan stands: going on, stopped at `[DONE]`, or failed.
pub ghost enum Scan {
    Go(StreamV),
    Done(StreamV),
    Fail(ApiErrorV),
}

pub open spec fn init_stream() -> StreamV {
    StreamV { blocks: Seq::empty(), usage: zero_usage(), stop: None, keys: Seq::empty(), accs: Seq::empty(), saw: false }
}

/// Block `i` set to `a` (added after the others when new).
pub open spec fn put_acc(s: StreamV, i: u64, a: AccV) -> StreamV {
    let p = key_pos(s.keys, i);
    if p >= 0 {
        StreamV { accs: s.accs.update(p, a), ..s }
    } else {
        StreamV { keys: s.keys.push(i), accs: s.accs.push(a), ..s }
    }
}

/// Block `i`, or `d` when it is not open.
pub open spec fn acc_or(s: StreamV, i: u64, d: AccV) -> AccV {
    let p = key_pos(s.keys, i);
    if p >= 0 {
        s.accs[p]
    } else {
        d
    }
}

pub open spec fn or_empty(o: Option<Seq<char>>) -> Seq<char> {
    match o {
        Some(s) => s,
        None => Seq::empty(),
    }
}

/// A delta for block `i`: text, partial tool input and thinking are appended
/// (opening the block when needed); a signature is set on an open block.
pub open spec fn apply_delta(s: StreamV, i: u64, x: Seq<char>) -> StreamV {
    let dt = or_empty(str_member(x, "type"@));
    if dt == "text_delta"@ {
        match str_member(x, "text"@) {
            Some(t) => {
                let a = acc_or(s, i, fresh_acc("text"@));
                put_acc(s, i, AccV { text: Some(or_empty(field_str(a, "text"@)) + t), ..a })
            },
            None => s,
        }
    } else if dt == "input_json_delta"@ {
        match str_member(x, "partial_json"@) {
            Some(t) => {
                let a = acc_or(s, i, fresh_acc("tool_use"@));
                put_acc(s, i, AccV { partial: Some(or_empty(field_str(a, "_partial_json"@)) + t), ..a })
            },
            None => s,
        }
    } else if dt == "thinking_delta"@ {
        match str_member(x, "thinking"@) {
            Some(t) => {
                let a = acc_or(s, i, fresh_acc("thinking"@));
                put_acc(s, i, AccV { thinking: Some(or_empty(field_str(a, "thinking"@)) + t), ..a })
            },
            None => s,
        }
    } else if dt == "signature_delta"@ {
        match str_member(x, "signature"@) {
            Some(g) => if key_pos(s.keys, i) >= 0 {
                put_acc(s, i, AccV { signature: Some(g), ..s.accs[key_pos(s.keys, i)] })
            } else {
                s
            },
            None => s,
        }
    } else {
        s
    }
}

/// Block `i` stops: it is closed, and what it becomes is appended.
pub open spec fn stop_block(s: StreamV, i: u64) -> StreamV {
    let p = key_pos(s.keys, i);
    if p >= 0 {
        StreamV {
            blocks: s.blocks + opt_seq(block_of(s.accs[p])),
            keys: s.keys.remove(p),
            accs: s.accs.remove(p),
            ..s
        }
    } else {
        s
    }
}

/// `message_start`: the input and cache counters of `message.usage`.
pub open spec fn message_start(s: StreamV, d: Seq<char>) -> StreamV {
    match json_member(d, "message"@) {
        Some(m) => match json_member(m, "usage"@) {
            Some(u) => match usage_of(u) {
                Some(x) => StreamV {
                    usage: ApiUsage {
                        input_tokens: x.input_tokens,
                        output_tokens: s.usage.output_tokens,
                        cache_creation_input_tokens: x.cache_creation_input_tokens,
                        cache_read_input_tokens: x.cache_read_input_tokens,
                    },
                    ..s
                },
                None => s,
            },
            None => s,
        },
        None => s,
    }
}

/// `message_delta`: the stop reason of `delta`, the output counter of `usage`.
pub open spec fn message_delta(s: StreamV, d: Seq<char>) -> StreamV {
    let s1 = match json_member(d, "delta"@) {
        Some(x) => match str_member(x, "stop_reason"@) {
            Some(r) => StreamV { stop: Some(r), ..s },
            None => s,
        },
        None => s,
    };
    match json_member(d, "usage"@) {
        Some(u) => match u64_member(u, "output_tokens"@) {
            Some(o) => StreamV {
                usage: ApiUsage { output_tokens: o, ..s1.usage },
                ..s1
            },
            None => s1,
        },
        None => s1,
    }
}

/// One parsed event, by its `type`.
pub open spec fn apply_event(s: StreamV, d: Seq<char>) -> StreamV {
    let ty = or_empty(str_member(d, "type"@));
    if ty == "message_start"@ {
        message_start(s, d)
    } else if ty == "content_block_start"@ {
        match (u64_member(d, "index"@), json_member(d, "content_block"@)) {
            (Some(i), Some(b)) => put_acc(s, i, based_acc(b)),
            _ => s,
        }
    } else if ty == "content_block_delta"@ {
        match (u64_member(d, "index"@), json_member(d, "delta"@)) {
            (Some(i), Some(x)) => apply_delta(s, i, x),
            _ => s,
        }
    } else if ty == "content_block_stop"@ {
        match u64_member(d, "index"@) {
            Some(i) => stop_block(s, i),
            None => s,
        }
    } else if ty == "message_delta"@ {
        message_delta(s, d)
    } else {
        s
    }
}

/// One line: a data line `[DONE]` ends the stream; one that does not parse
/// is skipped; one that reports an error fails; any other is an event.
pub open spec fn stream_step(s: StreamV, line: Seq<char>) -> Scan {
    match sse_data(line) {
        None => Scan::Go(s),
        Some(d) => if d == "[DONE]"@ {
            Scan::Done(s)
        } else if json_compact(d) is None {
            Scan::Go(s)
        } else {
            match stream_error_of(d) {
                Some(e) => Scan::Fail(e),
                None => Scan::Go(apply_event(StreamV { saw: true, ..s }, d)),
            }
        },
    }
}

/// The lines scanned in order.
pub open spec fn stream_scan(l: Seq<Seq<char>>) -> Scan
    decreases l.len(),
{
    if l.len() == 0 {
        Scan::Go(init_stream())
    } else {
        match stream_scan(l.drop_last()) {
            Scan::Go(s) => stream_step(s, l.last()),
            other => other,
        }
    }
}

/// The reply a scanned stream gives: the finished blocks, then the blocks
/// still open, by index.
pub open spec fn finish(s: StreamV) -> ReplyV {
    ReplyV { content: s.blocks + blocks_in(in_key_order(s.keys, s.accs)), usage: s.usage, stop_reason: s.stop }
}

/// A plain JSON reply: its `content` blocks, `usage` and `stop_reason`.
pub open spec fn anthropic_fallback(body: Seq<char>) -> Result<ReplyV, ApiErrorV> {
    if json_compact(body) is None {
        Err(ApiErrorV::StreamError("Anthropic upstream returned a body that is not JSON"@))
    } else {
        match stream_error_of(body) {
            Some(e) => Err(e),
            None => match json_member(body, "content"@) {
                Some(c) => match json_items(c) {
                    Some(bs) => Ok(
                        ReplyV {
                            content: blocks_in(bs.map_values(|b: Seq<char>| based_acc(b))),
                            usage: match json_member(body, "usage"@) {
                                Some(u) => match usage_of(u) {
                                    Some(x) => x,
                                    None => zero_usage(),
                                },
                                None => zero_usage(),
                            },
                            stop_reason: str_member(body, "stop_reason"@),
                        },
                    ),
                    None => Err(ApiErrorV::StreamError("Anthropic upstream returned JSON body without content"@)),
                },
                None => Err(ApiErrorV::StreamError("Anthropic upstream returned JSON body without content"@)),
            },
        }
    }
}

/// An Anthropic reply: the event stream when the content type announces one
/// and some line carries data and parses, else the body as plain JSON.
pub open spec fn anthropic_sse_spec(content_type: Seq<char>, body: Seq<char>) -> Result<ReplyV, ApiErrorV> {
    let l = lines(body);
    if !streaming_type(content_type) || !data_lines_in(l) {
        anthropic_fallback(body)
    } else {
        match stream_scan(l) {
            Scan::Fail(e) => Err(e),
            Scan::Go(s) => if s.saw {
                Ok(finish(s))
            } else {
                anthropic_fallback(body)
            },
            Scan::Done(s) => if s.saw {
                Ok(finish(s))
            } else {
                anthropic_fallback(body)
            },
        }
    }
}

proof fn lemma_scan_sticks(l: Seq<Seq<char>>, k: int)
    requires
        0 <= k <= l.len(),
        !(stream_scan(l.take(k)) is Go),
    ensures
        stream_scan(l) == stream_scan(l.take(k)),
    decreases l.len() - k,
{
    if k == l.len() {
        assert(l.take(k) =~= l);
    } else {
        assert(l.take(k + 1).drop_last() =~= l.take(k));
        lemma_scan_sticks(l, k + 1);
    }
}

// ---------------------------------------------------------------------------
// Executable side
// ---------------------------------------------------------------------------

struct Stream {
    blocks: Vec<ContentBlock>,
    usage: ApiUsage,
    stop: Option<String>,
    keys: Vec<u64>,
    accs: Vec<BlockAcc>,
    saw: bool,
}

spec fn accs_view(v: Seq<BlockAcc>) -> Seq<AccV> {
    v.map_values(|a: BlockAcc| a@)
}

spec fn stream_view(s: Stream) -> StreamV {
    StreamV {
        blocks: blocks_view(s.blocks@),
        usage: s.usage,
        stop: opt_view(s.stop),
        keys: s.keys@,
        accs: accs_view(s.accs@),
        saw: s.saw,
    }
}

spec fn stream_ok(s: Stream) -> bool {
    s.keys@.len() == s.accs@.len()
}

fn copy_acc(a: &BlockAcc) -> (r: BlockAcc)
    ensures
        r@ == a@,
{
    BlockAcc {
        base: clone_opt_string(&a.base),
        kind: a.kind.clone(),
        text: clone_opt_string(&a.text),
        partial: clone_opt_string(&a.partial),
        thinking: clone_opt_string(&a.thinking),
        signature: clone_opt_string(&a.signature),
    }
}

fn fresh(kind: &str) -> (r: BlockAcc)
    ensures
        r@ == fresh_acc(kind@),
{
    BlockAcc { base: None, kind: owned(kind), text: None, partial: None, thinking: None, signature: None }
}

fn default_str_of(kind: &str, f: &str) -> (r: Option<String>)
    ensures
        opt_view(r) == default_str(kind@, f@),
{
    if str_eq(f, "type") {
        Some(owned(kind))
    } else if str_eq(kind, "text") && str_eq(f, "text") {
        Some(String::new())
    } else if str_eq(kind, "tool_use") && (str_eq(f, "id") || str_eq(f, "name")) {
        Some(String::new())
    } else if str_eq(kind, "thinking") && str_eq(f, "thinking") {
        Some(String::new())
    } else {
        None
    }
}

fn field_of(a: &BlockAcc, f: &str) -> (r: Option<String>)
    ensures
        opt_view(r) == field_str(a@, f@),
{
    let written = if str_eq(f, "text") {
        clone_opt_string(&a.text)
    } else if str_eq(f, "_partial_json") {
        clone_opt_string(&a.partial)
    } else if str_eq(f, "thinking") {
        clone_opt_string(&a.thinking)
    } else if str_eq(f, "signature") {
        clone_opt_string(&a.signature)
    } else {
        None
    };
    match written {
        Some(s) => Some(s),
        None => match &a.base {
            Some(b) => str_member_of(b.as_str(), f),
            None => default_str_of(a.kind.as_str(), f),
        },
    }
}

fn tool_input_of(a: &BlockAcc) -> (r: String)
    ensures
        r@ == tool_input(a@),
{
    match field_of(a, "_partial_json") {
        Some(p) => match compact(p.as_str()) {
            Some(c) => c,
            None => owned("{}"),
        },
        None => {
            let i = match &a.base {
                Some(b) => member(b.as_str(), "input"),
                None => if str_eq(a.kind.as_str(), "tool_use") {
                    Some(owned("{}"))
                } else {
                    None
                },
            };
            match i {
                Some(i) => i,
                None => owned("{}"),
            }
        },
    }
}

/// What a finished block becomes.
pub fn block_from(a: &BlockAcc) -> (r: Option<ContentBlock>)
    ensures
        match r {
            Some(b) => block_of(a@) == Some(b@),
            None => block_of(a@) is None,
        },
{
    let t = match field_of(a, "type") {
        Some(t) => t,
        None => return None,
    };
    if str_eq(t.as_str(), "text") {
        match field_of(a, "text") {
            Some(x) => Some(ContentBlock::Text { text: x }),
            None => None,
        }
    } else if str_eq(t.as_str(), "tool_use") {
        match (field_of(a, "id"), field_of(a, "name")) {
            (Some(i), Some(n)) => Some(ContentBlock::ToolUse { id: i, name: n, input: tool_input_of(a) }),
            _ => None,
        }
    } else if str_eq(t.as_str(), "thinking") {
        match field_of(a, "thinking") {
            Some(x) => Some(ContentBlock::Thinking { thinking: x, signature: field_of(a, "signature") }),
            None => None,
        }
    } else if str_eq(t.as_str(), "image") {
        match &a.base {
            Some(b) => match member(b.as_str(), "source") {
                Some(src) => match (
                    str_member_of(src.as_str(), "type"),
                    str_member_of(src.as_str(), "media_type"),
                    str_member_of(src.as_str(), "data"),
                ) {
                    (Some(st), Some(mt), Some(d)) => Some(
                        ContentBlock::Image {
                            source: ImageContentSource { source_type: st, media_type: mt, data: d },
                        },
                    ),
                    _ => None,
                },
                None => None,
            },
            None => None,
        }
    } else {
        None
    }
}

fn push_block(out: &mut Vec<ContentBlock>, a: &BlockAcc)
    ensures
        blocks_view(final(out)@) == blocks_view(old(out)@) + opt_seq(block_of(a@)),
{
    let ghost before = out@;
    match block_from(a) {
        Some(b) => {
            out.push(b);
            proof {
                assert(blocks_view(out@) =~= blocks_view(before) + opt_seq(block_of(a@)));
            }
        },
        None => {
            proof {
                assert(blocks_view(out@) =~= blocks_view(before) + opt_seq(block_of(a@)));
            }
        },
    }
}

fn put(s: &mut Stream, i: u64, a: BlockAcc)
    requires
        stream_ok(*old(s)),
    ensures
        stream_ok(*final(s)),
        stream_view(*final(s)) == put_acc(stream_view(*old(s)), i, a@),
{
    proof {
        lemma_key_pos_range(s.keys@, i);
    }
    let ghost av = a@;
    match find_key(&s.keys, i) {
        Some(p) => {
            s.accs.set(p, a);
            proof {
                assert(accs_view(s.accs@) =~= accs_view(old(s).accs@).update(p as int, av));
            }
        },
        None => {
            s.keys.push(i);
            s.accs.push(a);
            proof {
                assert(accs_view(s.accs@) =~= accs_view(old(s).accs@).push(av));
            }
        },
    }
}

fn acc_at_or(s: &Stream, i: u64, d: BlockAcc) -> (r: BlockAcc)
    requires
        stream_ok(*s),
    ensures
        r@ == acc_or(stream_view(*s), i, d@),
{
    proof {
        lemma_key_pos_range(s.keys@, i);
    }
    match find_key(&s.keys, i) {
        Some(p) => copy_acc(&s.accs[p]),
        None => d,
    }
}

fn appended(o: Option<String>, t: &str) -> (r: String)
    ensures
        r@ == or_empty(opt_view(o)) + t@,
{
    let mut e = match o {
        Some(x) => x,
        None => String::new(),
    };
    let ghost e0 = e@;
    push_str(&mut e, t);
    e
}

fn delta(s: &mut Stream, i: u64, x: &str)
    requires
        stream_ok(*old(s)),
    ensures
        stream_ok(*final(s)),
        stream_view(*final(s)) == apply_delta(stream_view(*old(s)), i, x@),
{
    let dt = match str_member_of(x, "type") {
        Some(t) => t,
        None => String::new(),
    };
    if str_eq(dt.as_str(), "text_delta") {
        if let Some(t) = str_member_of(x, "text") {
            let a = acc_at_or(s, i, fresh("text"));
            let e = appended(field_of(&a, "text"), t.as_str());
            let b = BlockAcc { text: Some(e), ..a };
            put(s, i, b);
        }
    } else if str_eq(dt.as_str(), "input_json_delta") {
        if let Some(t) = str_member_of(x, "partial_json") {
            let a = acc_at_or(s, i, fresh("tool_use"));
            let e = appended(field_of(&a, "_partial_json"), t.as_str());
            let b = BlockAcc { partial: Some(e), ..a };
            put(s, i, b);
        }
    } else if str_eq(dt.as_str(), "thinking_delta") {
        if let Some(t) = str_member_of(x, "thinking") {
            let a = acc_at_or(s, i, fresh("thinking"));
            let e = appended(field_of(&a, "thinking"), t.as_str());
            let b = BlockAcc { thinking: Some(e), ..a };
            put(s, i, b);
        }
    } else if str_eq(dt.as_str(), "signature_delta") {
        if let Some(g) = str_member_of(x, "signature") {
            proof {
                lemma_key_pos_range(s.keys@, i);
            }
            if let Some(p) = find_key(&s.keys, i) {
                let a = copy_acc(&s.accs[p]);
                let b = BlockAcc { signature: Some(g), ..a };
                put(s, i, b);
            }
        }
    }
}

fn stop(s: &mut Stream, i: u64)
    requires
        stream_ok(*old(s)),
    ensures
        stream_ok(*final(s)),
        stream_view(*final(s)) == stop_block(stream_view(*old(s)), i),
{
    proof {
        lemma_key_pos_range(s.keys@, i);
    }
    if let Some(p) = find_key(&s.keys, i) {
        let ghost before = accs_view(s.accs@);
        s.keys.remove(p);
        let a = s.accs.remove(p);
        proof {
            assert(accs_view(s.accs@) =~= before.remove(p as int));
        }
        push_block(&mut s.blocks, &a);
    }
}

fn on_message_start(s: &mut Stream, d: &str)
    ensures
        stream_view(*final(s)) == message_start(stream_view(*old(s)), d@),
        final(s).keys@ == old(s).keys@,
        final(s).accs@ == old(s).accs@,
{
    if let Some(m) = member(d, "message") {
        if let Some(u) = member(m.as_str(), "usage") {
            if let Some(x) = usage_from(u.as_str()) {
                s.usage = ApiUsage {
                    input_tokens: x.input_tokens,
                    output_tokens: s.usage.output_tokens,
                    cache_creation_input_tokens: x.cache_creation_input_tokens,
                    cache_read_input_tokens: x.cache_read_input_tokens,
                };
            }
        }
    }
}

fn on_message_delta(s: &mut Stream, d: &str)
    ensures
        stream_view(*final(s)) == message_delta(stream_view(*old(s)), d@),
        final(s).keys@ == old(s).keys@,
        final(s).accs@ == old(s).accs@,
{
    if let Some(x) = member(d, "delta") {
        if let Some(r) = str_member_of(x.as_str(), "stop_reason") {
            s.stop = Some(r);
        }
    }
    if let Some(u) = member(d, "usage") {
        if let Some(o) = u64_member_of(u.as_str(), "output_tokens") {
            s.usage = ApiUsage { output_tokens: o, ..s.usage };
        }
    }
}

fn on_event(s: &mut Stream, d: &str)
    requires
        stream_ok(*old(s)),
    ensures
        stream_ok(*final(s)),
        stream_view(*final(s)) == apply_event(stream_view(*old(s)), d@),
{
    let ty = match str_member_of(d, "type") {
        Some(t) => t,
        None => String::new(),
    };
    if str_eq(ty.as_str(), "message_start") {
        on_message_start(s, d);
    } else if str_eq(ty.as_str(), "content_block_start") {
        match (u64_member_of(d, "index"), member(d, "content_block")) {
            (Some(i), Some(b)) => {
                let a = BlockAcc { base: Some(b), kind: String::new(), text: None, partial: None, thinking: None, signature: None };
                proof {
                    assert(a@ == based_acc(b@));
                }
                put(s, i, a);
            },
            _ => {},
        }
    } else if str_eq(ty.as_str(), "content_block_delta") {
        match (u64_member_of(d, "index"), member(d, "delta")) {
            (Some(i), Some(x)) => delta(s, i, x.as_str()),
            _ => {},
        }
    } else if str_eq(ty.as_str(), "content_block_stop") {
        if let Some(i) = u64_member_of(d, "index") {
            stop(s, i);
        }
    } else if str_eq(ty.as_str(), "message_delta") {
        on_message_delta(s, d);
    }
}

/// The blocks still open, appended smallest index first.
fn flush(s: &mut Stream)
    requires
        stream_ok(*old(s)),
    ensures
        blocks_view(final(s).blocks@) == finish(stream_view(*old(s))).content,
        final(s).usage == old(s).usage,
        final(s).stop == old(s).stop,
{
    let ghost k0 = s.keys@;
    let ghost a0 = accs_view(s.accs@);
    let ghost b0 = blocks_view(s.blocks@);
    while s.keys.len() > 0
        invariant
            s.keys@.len() == s.accs@.len(),
            s.usage == old(s).usage,
            s.stop == old(s).stop,
            blocks_view(s.blocks@) + blocks_in(in_key_order(s.keys@, accs_view(s.accs@))) == b0 + blocks_in(
                in_key_order(k0, a0),
            ),
        decreases s.keys@.len(),
    {
        let p = smallest_key(&s.keys);
        let ghost ks = s.keys@;
        let ghost av = accs_view(s.accs@);
        proof {
            lemma_min_pos_range(ks);
            let rest = in_key_order(ks.remove(p as int), av.remove(p as int));
            assert(in_key_order(ks, av) == seq![av[p as int]] + rest);
            lemma_blocks_in_concat(seq![av[p as int]], rest);
            assert(seq![av[p as int]].drop_last() =~= Seq::<AccV>::empty());
        }
        s.keys.remove(p);
        let a = s.accs.remove(p);
        proof {
            assert(accs_view(s.accs@) =~= av.remove(p as int));
            assert(a@ == av[p as int]);
            assert(seq![av[p as int]].drop_last() =~= Seq::<AccV>::empty());
            assert(blocks_in(Seq::<AccV>::empty()) == Seq::<ContentBlockV>::empty());
            assert(blocks_in(seq![av[p as int]]) =~= opt_seq(block_of(av[p as int])));
        }
        let ghost bb = blocks_view(s.blocks@);
        push_block(&mut s.blocks, &a);
        proof {
            assert(blocks_view(s.blocks@) + blocks_in(in_key_order(s.keys@, accs_view(s.accs@))) =~= bb
                + blocks_in(in_key_order(ks, av)));
        }
    }
    proof {
        assert(in_key_order(s.keys@, accs_view(s.accs@)) =~= Seq::<AccV>::empty());
        assert(blocks_in(Seq::<AccV>::empty()) =~= Seq::<ContentBlockV>::empty());
        assert(blocks_view(s.blocks@) =~= b0 + blocks_in(in_key_order(k0, a0)));
    }
}

fn parse_fallback(body: &str) -> (r: Result<ProviderResponse, ApiError>)
    ensures
        parsed_view(r) == anthropic_fallback(body@),
{
    if !parses(body) {
        return Err(ApiError::StreamError(owned("Anthropic upstream returned a body that is not JSON")));
    }
    if let Some(e) = stream_error(body) {
        return Err(e);
    }
    let bs = match member(body, "content") {
        Some(c) => match items(c.as_str()) {
            Some(bs) => bs,
            None => return Err(ApiError::StreamError(owned("Anthropic upstream returned JSON body without content"))),
        },
        None => return Err(ApiError::StreamError(owned("Anthropic upstream returned JSON body without content"))),
    };
    let ghost bv = bs@.map_values(|x: String| x@);
    let ghost accs = bv.map_values(|b: Seq<char>| based_acc(b));
    let mut content: Vec<ContentBlock> = Vec::new();
    let mut i: usize = 0;
    proof {
        assert(accs.take(0) =~= Seq::<AccV>::empty());
        assert(blocks_view(content@) =~= blocks_in(accs.take(0)));
    }
    while i < bs.len()
        invariant
            i <= bs@.len(),
            bv == bs@.map_values(|x: String| x@),
            accs == bv.map_values(|b: Seq<char>| based_acc(b)),
            blocks_view(content@) == blocks_in(accs.take(i as int)),
        decreases bs@.len() - i,
    {
        let a = BlockAcc {
            base: Some(bs[i].clone()),
            kind: String::new(),
            text: None,
            partial: None,
            thinking: None,
            signature: None,
        };
        proof {
            assert(accs.take(i + 1).drop_last() =~= accs.take(i as int));
            assert(a@ == accs[i as int]);
        }
        push_block(&mut content, &a);
        i = i + 1;
    }
    proof {
        assert(accs.take(bs@.len() as int) =~= accs);
    }
    let usage = match member(body, "usage") {
        Some(u) => match usage_from(u.as_str()) {
            Some(x) => x,
            None => ApiUsage { input_tokens: 0, output_tokens: 0, cache_creation_input_tokens: 0, cache_read_input_tokens: 0 },
        },
        None => ApiUsage { input_tokens: 0, output_tokens: 0, cache_creation_input_tokens: 0, cache_read_input_tokens: 0 },
    };
    Ok(ProviderResponse {
        message: ApiMessage { role: MessageRole::Assistant, content },
        usage,
        stop_reason: str_member_of(body, "stop_reason"),
    })
}

/// Reads an Anthropic Messages reply from its content type and body: the
/// event stream (`message_start`, `content_block_start`/`_delta`/`_stop`,
/// `message_delta`; `[DONE]` ends it, an event with an `error` fails it),
/// or the plain JSON body when the reply is not a stream or no data line of
/// it parses.
pub fn parse_anthropic_sse(content_type: &str, body: &str) -> (r: Result<ProviderResponse, ApiError>)
    ensures
        parsed_view(r) == anthropic_sse_spec(content_type@, body@),
{
    let ls = lines_of(body);
    let ghost l = lines(body@);
    proof {
        assert(vecs(ls@) =~= l);
    }
    if !is_streaming_type(content_type) || !has_data_lines(&ls) {
        return parse_fallback(body);
    }
    let mut s = Stream {
        blocks: Vec::new(),
        usage: ApiUsage { input_tokens: 0, output_tokens: 0, cache_creation_input_tokens: 0, cache_read_input_tokens: 0 },
        stop: None,
        keys: Vec::new(),
        accs: Vec::new(),
        saw: false,
    };
    proof {
        assert(l.take(0) =~= Seq::<Seq<char>>::empty());
        assert(blocks_view(s.blocks@) =~= Seq::<ContentBlockV>::empty());
        assert(accs_view(s.accs@) =~= Seq::<AccV>::empty());
        assert(stream_view(s) == init_stream());
    }
    let mut i: usize = 0;
    let mut done = false;
    while i < ls.len() && !done
        invariant
            i <= ls@.len(),
            vecs(ls@) == l,
            l == lines(body@),
            streaming_type(content_type@),
            data_lines_in(l),
            stream_ok(s),
            !done ==> stream_scan(l.take(i as int)) == Scan::Go(stream_view(s)),
            done ==> stream_scan(l) == Scan::Done(stream_view(s)),
        decreases ls@.len() - i,
    {
        proof {
            assert(l.take(i + 1).drop_last() =~= l.take(i as int));
            assert(l.take(i + 1).last() == ls@[i as int]@);
        }
        let ghost before = stream_view(s);
        match data_of(&ls[i]) {
            None => {},
            Some(d) => {
                if str_eq(d.as_str(), "[DONE]") {
                    proof {
                        assert(stream_scan(l.take(i + 1)) == Scan::Done(before));
                        lemma_scan_sticks(l, i + 1);
                    }
                    done = true;
                } else if parses(d.as_str()) {
                    match stream_error(d.as_str()) {
                        Some(e) => {
                            proof {
                                assert(stream_step(before, l[i as int]) == Scan::Fail(e@));
                                assert(stream_scan(l.take(i + 1)) == Scan::Fail(e@));
                                lemma_scan_sticks(l, i + 1);
                                assert(streaming_type(content_type@));
                                assert(data_lines_in(l));
                                assert(anthropic_sse_spec(content_type@, body@) == Err::<ReplyV, ApiErrorV>(e@));
                            }
                            return Err(e);
                        },
                        None => {
                            s.saw = true;
                            proof {
                                assert(stream_view(s) == StreamV { saw: true, ..before });
                            }
                            on_event(&mut s, d.as_str());
                        },
                    }
                }
            },
        }
        i = i + 1;
    }
    proof {
        if !done {
            assert(l.take(i as int) =~= l);
        }
    }
    if !s.saw {
        return parse_fallback(body);
    }
    let ghost sv = stream_view(s);
    flush(&mut s);
    Ok(ProviderResponse {
        message: ApiMessage { role: MessageRole::Assistant, content: s.blocks },
        usage: s.usage,
        stop_reason: s.stop,
    })
}


/// `base` with `/messages` added after `/v1` (which is added when `base`
/// does not already end with it).
pub open spec fn messages_url_spec(base: Seq<char>) -> Seq<char> {
    let b = trim_slashes(base);
    if is_suffix("/v1"@, b) {
        b + "/messages"@
    } else {
        b + "/v1/messages"@
    }
}

/// The Messages endpoint of a base URL.
pub fn messages_url(base: &str) -> (r: String)
    ensures
        r@ == messages_url_spec(base@),
{
    let mut b = trimmed_base(base);
    if ends_with(b.as_str(), "/v1") {
        push_str(&mut b, "/messages");
    } else {
        push_str(&mut b, "/v1/messages");
    }
    b
}

} // verus!
