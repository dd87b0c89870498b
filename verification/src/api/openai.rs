//! The OpenAI-compatible protocol's vocabulary, as the engine names it.

use vstd::prelude::*;
use crate::json::{compact, items, json_compact, json_items, json_member, json_str_value, member, str_member, str_member_of, str_value};
use crate::text::{chars_of, ends_with, is_prefix, is_suffix, join, join_strings, lines, lines_of, owned, push_str, starts_with, str_eq, string_of, strs, take_vec, vecs};
use super::request::{ApiToolParam, ProviderRequest, ProviderRequestV, SystemBlock, ToolParamV};
use crate::types::opt_view;
use super::provider::{ProviderResponse, parsed_view};
use super::response::{
    ApiError, ApiErrorV, ApiMessage, ApiUsage, ContentBlock, ContentBlockV, MessageRole, ReplyV, ToolResultBlockV, ToolResultContentBlock, ApiMessageV, blocks_view,
    data_lines_in, data_of, find_key, has_data_lines, in_key_order, is_streaming_type, key_pos, lemma_key_pos_range,
    lemma_min_pos_range, parses, smallest_key, sse_data, stream_error, stream_error_of, streaming_type, u64_member,
    u64_member_of, zero_usage,
};

verus! {

/// The engine's name for an OpenAI finish reason.
pub open spec fn stop_reason_name(reason: Seq<char>) -> Seq<char> {
    if reason == "stop"@ {
        "end_turn"@
    } else if reason == "tool_calls"@ {
        "tool_use"@
    } else if reason == "length"@ {
        "max_tokens"@
    } else {
        reason
    }
}

/// Maps an OpenAI finish reason to the engine's stop reason names; other
/// reasons pass through unchanged.
pub fn map_openai_stop_reason(reason: &str) -> (r: String)
    ensures
        r@ == stop_reason_name(reason@),
{
    if str_eq(reason, "stop") {
        owned("end_turn")
    } else if str_eq(reason, "tool_calls") {
        owned("tool_use")
    } else if str_eq(reason, "length") {
        owned("max_tokens")
    } else {
        owned(reason)
    }
}


/// A tool call while it streams: its id, function name and the argument
/// text received so far.
pub struct CallAcc {
    pub id: String,
    pub name: String,
    pub arguments: String,
}

/// Mathematical view of a streaming tool call.
pub ghost struct CallV {
    pub id: Seq<char>,
    pub name: Seq<char>,
    pub args: Seq<char>,
}

impl View for CallAcc {
    type V = CallV;

    open spec fn view(&self) -> CallV {
        CallV { id: self.id@, name: self.name@, args: self.arguments@ }
    }
}

/// What an OpenAI stream has built so far: text, the tool calls by index,
/// usage, stop reason, and whether any data line parsed.
pub ghost struct OStreamV {
    pub text: Seq<char>,
    pub keys: Seq<u64>,
    pub calls: Seq<CallV>,
    pub usage: ApiUsage,
    pub stop: Option<Seq<char>>,
    pub saw: bool,
}

/// Where a scan stands.
pub ghost enum OScan {
    Go(OStreamV),
    Done(OStreamV),
    Fail(ApiErrorV),
}

pub open spec fn o_init() -> OStreamV {
    OStreamV { text: Seq::empty(), keys: Seq::empty(), calls: Seq::empty(), usage: zero_usage(), stop: None, saw: false }
}

pub open spec fn empty_call() -> CallV {
    CallV { id: Seq::empty(), name: Seq::empty(), args: Seq::empty() }
}

/// Call `i`, or a fresh one.
pub open spec fn call_or(s: OStreamV, i: u64) -> CallV {
    let p = key_pos(s.keys, i);
    if p >= 0 {
        s.calls[p]
    } else {
        empty_call()
    }
}

/// Call `i` set to `c`.
pub open spec fn put_call(s: OStreamV, i: u64, c: CallV) -> OStreamV {
    let p = key_pos(s.keys, i);
    if p >= 0 {
        OStreamV { calls: s.calls.update(p, c), ..s }
    } else {
        OStreamV { keys: s.keys.push(i), calls: s.calls.push(c), ..s }
    }
}

/// One tool-call delta: call `index` (0 when absent) takes the `id` and
/// `function.name` given, and `function.arguments` is appended.
pub open spec fn apply_tool_call(s: OStreamV, tc: Seq<char>) -> OStreamV {
    let i = match u64_member(tc, "index"@) {
        Some(i) => i,
        None => 0u64,
    };
    let c0 = call_or(s, i);
    let c1 = match str_member(tc, "id"@) {
        Some(x) => CallV { id: x, ..c0 },
        None => c0,
    };
    let c2 = match json_member(tc, "function"@) {
        Some(f) => {
            let c3 = match str_member(f, "name"@) {
                Some(n) => CallV { name: n, ..c1 },
                None => c1,
            };
            match str_member(f, "arguments"@) {
                Some(a) => CallV { args: c3.args + a, ..c3 },
                None => c3,
            }
        },
        None => c1,
    };
    put_call(s, i, c2)
}

pub open spec fn apply_tool_calls(s: OStreamV, tcs: Seq<Seq<char>>) -> OStreamV
    decreases tcs.len(),
{
    if tcs.len() == 0 {
        s
    } else {
        apply_tool_call(apply_tool_calls(s, tcs.drop_last()), tcs.last())
    }
}

/// One choice: its finish reason (mapped), and from its `delta` the text and
/// the tool-call deltas.
pub open spec fn apply_choice(s: OStreamV, ch: Seq<char>) -> OStreamV {
    let s1 = match str_member(ch, "finish_reason"@) {
        Some(f) => OStreamV { stop: Some(stop_reason_name(f)), ..s },
        None => s,
    };
    match json_member(ch, "delta"@) {
        None => s1,
        Some(dl) => {
            let s2 = match str_member(dl, "content"@) {
                Some(c) => OStreamV { text: s1.text + c, ..s1 },
                None => s1,
            };
            match json_member(dl, "tool_calls"@) {
                Some(t) => match json_items(t) {
                    Some(tcs) => apply_tool_calls(s2, tcs),
                    None => s2,
                },
                None => s2,
            }
        },
    }
}

pub open spec fn apply_choices(s: OStreamV, cs: Seq<Seq<char>>) -> OStreamV
    decreases cs.len(),
{
    if cs.len() == 0 {
        s
    } else {
        apply_choice(apply_choices(s, cs.drop_last()), cs.last())
    }
}

/// One parsed chunk: its `usage` counters, then its `choices`.
pub open spec fn o_event(s: OStreamV, d: Seq<char>) -> OStreamV {
    let s1 = match json_member(d, "usage"@) {
        Some(u) => {
            let a = match u64_member(u, "prompt_tokens"@) {
                Some(p) => OStreamV { usage: ApiUsage { input_tokens: p, ..s.usage }, ..s },
                None => s,
            };
            match u64_member(u, "completion_tokens"@) {
                Some(c) => OStreamV { usage: ApiUsage { output_tokens: c, ..a.usage }, ..a },
                None => a,
            }
        },
        None => s,
    };
    match json_member(d, "choices"@) {
        Some(c) => match json_items(c) {
            Some(cs) => apply_choices(s1, cs),
            None => s1,
        },
        None => s1,
    }
}

/// One line, as in the Anthropic stream: `[DONE]` ends it, a line that does
/// not parse is skipped, an error fails it.
pub open spec fn o_step(s: OStreamV, line: Seq<char>) -> OScan {
    match sse_data(line) {
        None => OScan::Go(s),
        Some(d) => if d == "[DONE]"@ {
            OScan::Done(s)
        } else if json_compact(d) is None {
            OScan::Go(s)
        } else {
            match stream_error_of(d) {
                Some(e) => OScan::Fail(e),
                None => OScan::Go(o_event(OStreamV { saw: true, ..s }, d)),
            }
        },
    }
}

pub open spec fn o_scan(l: Seq<Seq<char>>) -> OScan
    decreases l.len(),
{
    if l.len() == 0 {
        OScan::Go(o_init())
    } else {
        match o_scan(l.drop_last()) {
            OScan::Go(s) => o_step(s, l.last()),
            other => other,
        }
    }
}

/// A streamed call as a tool use: its arguments parsed, `{}` when they do not.
pub open spec fn call_block(c: CallV) -> ContentBlockV {
    ContentBlockV::ToolUse {
        id: c.id,
        name: c.name,
        input: match json_compact(c.args) {
            Some(x) => x,
            None => "{}"@,
        },
    }
}

/// The reply of a scanned stream: the text when there is any, then the calls
/// by index.
pub open spec fn o_finish(s: OStreamV) -> ReplyV {
    ReplyV {
        content: (if s.text.len() > 0 {
            seq![ContentBlockV::Text { text: s.text }]
        } else {
            Seq::empty()
        }) + in_key_order(s.keys, s.calls).map_values(|c: CallV| call_block(c)),
        usage: s.usage,
        stop_reason: s.stop,
    }
}

/// Text parts of a content array that are non-empty strings.
pub open spec fn part_texts(parts: Seq<Seq<char>>) -> Seq<ContentBlockV>
    decreases parts.len(),
{
    if parts.len() == 0 {
        Seq::empty()
    } else {
        part_texts(parts.drop_last()) + match str_member(parts.last(), "text"@) {
            Some(t) => if t.len() > 0 {
                seq![ContentBlockV::Text { text: t }]
            } else {
                Seq::empty()
            },
            None => Seq::empty(),
        }
    }
}

/// The text blocks of a message: its `content` when a non-empty string, or
/// the non-empty `text` parts when an array.
pub open spec fn message_texts(m: Seq<char>) -> Seq<ContentBlockV> {
    match json_member(m, "content"@) {
        Some(ct) => match json_str_value(ct) {
            Some(t) => if t.len() > 0 {
                seq![ContentBlockV::Text { text: t }]
            } else {
                Seq::empty()
            },
            None => match json_items(ct) {
                Some(parts) => part_texts(parts),
                None => Seq::empty(),
            },
        },
        None => Seq::empty(),
    }
}

/// Tool arguments: a string is parsed (`{}` when it does not parse), an
/// object or array is taken as it is, anything else is `{}`.
pub open spec fn tool_args(a: Option<Seq<char>>) -> Seq<char> {
    match a {
        Some(t) => match json_str_value(t) {
            Some(x) => match json_compact(x) {
                Some(c) => c,
                None => "{}"@,
            },
            None => if is_prefix("{"@, t) || is_prefix("["@, t) {
                t
            } else {
                "{}"@
            },
        },
        None => "{}"@,
    }
}

pub open spec fn or_empty(o: Option<Seq<char>>) -> Seq<char> {
    match o {
        Some(s) => s,
        None => Seq::empty(),
    }
}

/// The tool calls of a message that have a `function`.
pub open spec fn fallback_calls(tcs: Seq<Seq<char>>) -> Seq<ContentBlockV>
    decreases tcs.len(),
{
    if tcs.len() == 0 {
        Seq::empty()
    } else {
        let tc = tcs.last();
        fallback_calls(tcs.drop_last()) + match json_member(tc, "function"@) {
            Some(f) => seq![
                ContentBlockV::ToolUse {
                    id: or_empty(str_member(tc, "id"@)),
                    name: or_empty(str_member(f, "name"@)),
                    input: tool_args(json_member(f, "arguments"@)),
                },
            ],
            None => Seq::empty(),
        }
    }
}

pub open spec fn message_calls(m: Seq<char>) -> Seq<ContentBlockV> {
    match json_member(m, "tool_calls"@) {
        Some(t) => match json_items(t) {
            Some(tcs) => fallback_calls(tcs),
            None => Seq::empty(),
        },
        None => Seq::empty(),
    }
}

/// The first element of the `choices` array.
pub open spec fn first_choice(body: Seq<char>) -> Option<Seq<char>> {
    match json_member(body, "choices"@) {
        Some(c) => match json_items(c) {
            Some(cs) => if cs.len() > 0 {
                Some(cs[0])
            } else {
                None
            },
            None => None,
        },
        None => None,
    }
}

pub open spec fn fallback_usage(body: Seq<char>) -> ApiUsage {
    match json_member(body, "usage"@) {
        Some(u) => ApiUsage {
            input_tokens: match u64_member(u, "prompt_tokens"@) {
                Some(p) => p,
                None => 0,
            },
            output_tokens: match u64_member(u, "completion_tokens"@) {
                Some(c) => c,
                None => 0,
            },
            cache_creation_input_tokens: 0,
            cache_read_input_tokens: 0,
        },
        None => zero_usage(),
    }
}

/// A plain JSON completion: the first choice's message text and tool calls.
pub open spec fn openai_fallback(body: Seq<char>) -> Result<ReplyV, ApiErrorV> {
    if json_compact(body) is None {
        Err(ApiErrorV::StreamError("OpenAI upstream returned a body that is not JSON"@))
    } else {
        match stream_error_of(body) {
            Some(e) => Err(e),
            None => match first_choice(body) {
                None => Err(ApiErrorV::StreamError("OpenAI upstream returned JSON body without choices"@)),
                Some(ch) => match json_member(ch, "message"@) {
                    None => Err(ApiErrorV::StreamError("OpenAI upstream returned JSON body without message"@)),
                    Some(m) => Ok(
                        ReplyV {
                            content: message_texts(m) + message_calls(m),
                            usage: fallback_usage(body),
                            stop_reason: match str_member(ch, "finish_reason"@) {
                                Some(f) => Some(stop_reason_name(f)),
                                None => None,
                            },
                        },
                    ),
                },
            },
        }
    }
}

/// The reply read from the stream (rather than as plain JSON).
pub open spec fn openai_streamed(content_type: Seq<char>, body: Seq<char>) -> bool {
    let l = lines(body);
    &&& streaming_type(content_type)
    &&& data_lines_in(l)
    &&& match o_scan(l) {
        OScan::Go(s) => s.saw,
        OScan::Done(s) => s.saw,
        OScan::Fail(_) => false,
    }
}

/// An OpenAI reply, with streamed calls that came without an id left with
/// an empty one.
pub open spec fn openai_sse_spec(content_type: Seq<char>, body: Seq<char>) -> Result<ReplyV, ApiErrorV> {
    let l = lines(body);
    if !streaming_type(content_type) || !data_lines_in(l) {
        openai_fallback(body)
    } else {
        match o_scan(l) {
            OScan::Fail(e) => Err(e),
            OScan::Go(s) => if s.saw {
                Ok(o_finish(s))
            } else {
                openai_fallback(body)
            },
            OScan::Done(s) => if s.saw {
                Ok(o_finish(s))
            } else {
                openai_fallback(body)
            },
        }
    }
}

/// `b` is `x`, except that a tool use without an id got one starting `call_`.
pub open spec fn minted(b: ContentBlockV, x: ContentBlockV) -> bool {
    match x {
        ContentBlockV::ToolUse { id, name, input } => if id.len() == 0 {
            match b {
                ContentBlockV::ToolUse { id: i2, name: n2, input: j2 } => n2 == name && j2 == input && is_prefix(
                    "call_"@,
                    i2,
                ),
                _ => false,
            }
        } else {
            b == x
        },
        _ => b == x,
    }
}

proof fn lemma_o_scan_sticks(l: Seq<Seq<char>>, k: int)
    requires
        0 <= k <= l.len(),
        !(o_scan(l.take(k)) is Go),
    ensures
        o_scan(l) == o_scan(l.take(k)),
    decreases l.len() - k,
{
    if k == l.len() {
        assert(l.take(k) =~= l);
    } else {
        assert(l.take(k + 1).drop_last() =~= l.take(k));
        lemma_o_scan_sticks(l, k + 1);
    }
}

// ---------------------------------------------------------------------------
// Executable side
// ---------------------------------------------------------------------------

struct OStream {
    text: String,
    keys: Vec<u64>,
    calls: Vec<CallAcc>,
    usage: ApiUsage,
    stop: Option<String>,
    saw: bool,
}

spec fn calls_view(v: Seq<CallAcc>) -> Seq<CallV> {
    v.map_values(|c: CallAcc| c@)
}

spec fn o_view(s: OStream) -> OStreamV {
    OStreamV {
        text: s.text@,
        keys: s.keys@,
        calls: calls_view(s.calls@),
        usage: s.usage,
        stop: opt_view(s.stop),
        saw: s.saw,
    }
}

spec fn o_ok(s: OStream) -> bool {
    s.keys@.len() == s.calls@.len()
}

fn on_tool_call(s: &mut OStream, tc: &str)
    requires
        o_ok(*old(s)),
    ensures
        o_ok(*final(s)),
        o_view(*final(s)) == apply_tool_call(o_view(*old(s)), tc@),
{
    let i = match crate::api::response::u64_member_of(tc, "index") {
        Some(i) => i,
        None => 0,
    };
    proof {
        lemma_key_pos_range(s.keys@, i);
    }
    let pos = find_key(&s.keys, i);
    let mut c = match pos {
        Some(p) => CallAcc {
            id: s.calls[p].id.clone(),
            name: s.calls[p].name.clone(),
            arguments: s.calls[p].arguments.clone(),
        },
        None => CallAcc { id: String::new(), name: String::new(), arguments: String::new() },
    };
    proof {
        assert(c@ == call_or(o_view(*old(s)), i));
    }
    if let Some(x) = str_member_of(tc, "id") {
        c.id = x;
    }
    if let Some(f) = member(tc, "function") {
        if let Some(n) = str_member_of(f.as_str(), "name") {
            c.name = n;
        }
        if let Some(a) = str_member_of(f.as_str(), "arguments") {
            push_str(&mut c.arguments, a.as_str());
        }
    }
    let ghost cv = c@;
    match pos {
        Some(p) => {
            s.calls.set(p, c);
            proof {
                assert(calls_view(s.calls@) =~= calls_view(old(s).calls@).update(p as int, cv));
            }
        },
        None => {
            s.keys.push(i);
            s.calls.push(c);
            proof {
                assert(calls_view(s.calls@) =~= calls_view(old(s).calls@).push(cv));
            }
        },
    }
}

fn on_choice(s: &mut OStream, ch: &str)
    requires
        o_ok(*old(s)),
    ensures
        o_ok(*final(s)),
        o_view(*final(s)) == apply_choice(o_view(*old(s)), ch@),
{
    if let Some(f) = str_member_of(ch, "finish_reason") {
        s.stop = Some(map_openai_stop_reason(f.as_str()));
    }
    let ghost s1 = o_view(*s);
    if let Some(dl) = member(ch, "delta") {
        if let Some(c) = str_member_of(dl.as_str(), "content") {
            push_str(&mut s.text, c.as_str());
        }
        let ghost s2 = o_view(*s);
        if let Some(t) = member(dl.as_str(), "tool_calls") {
            if let Some(tcs) = items(t.as_str()) {
                let ghost tv = tcs@.map_values(|x: String| x@);
                let mut k: usize = 0;
                proof {
                    assert(tv.take(0) =~= Seq::<Seq<char>>::empty());
                }
                while k < tcs.len()
                    invariant
                        k <= tcs@.len(),
                        tv == tcs@.map_values(|x: String| x@),
                        o_ok(*s),
                        o_view(*s) == apply_tool_calls(s2, tv.take(k as int)),
                    decreases tcs@.len() - k,
                {
                    proof {
                        assert(tv.take(k + 1).drop_last() =~= tv.take(k as int));
                    }
                    on_tool_call(s, tcs[k].as_str());
                    k = k + 1;
                }
                proof {
                    assert(tv.take(tcs@.len() as int) =~= tv);
                }
            }
        }
    }
}

fn on_chunk(s: &mut OStream, d: &str)
    requires
        o_ok(*old(s)),
    ensures
        o_ok(*final(s)),
        o_view(*final(s)) == o_event(o_view(*old(s)), d@),
{
    if let Some(u) = member(d, "usage") {
        if let Some(p) = u64_member_of(u.as_str(), "prompt_tokens") {
            s.usage = ApiUsage { input_tokens: p, ..s.usage };
        }
        if let Some(c) = u64_member_of(u.as_str(), "completion_tokens") {
            s.usage = ApiUsage { output_tokens: c, ..s.usage };
        }
    }
    let ghost s1 = o_view(*s);
    if let Some(c) = member(d, "choices") {
        if let Some(cs) = items(c.as_str()) {
            let ghost cv = cs@.map_values(|x: String| x@);
            let mut k: usize = 0;
            proof {
                assert(cv.take(0) =~= Seq::<Seq<char>>::empty());
            }
            while k < cs.len()
                invariant
                    k <= cs@.len(),
                    cv == cs@.map_values(|x: String| x@),
                    o_ok(*s),
                    o_view(*s) == apply_choices(s1, cv.take(k as int)),
                decreases cs@.len() - k,
            {
                proof {
                    assert(cv.take(k + 1).drop_last() =~= cv.take(k as int));
                }
                on_choice(s, cs[k].as_str());
                k = k + 1;
            }
            proof {
                assert(cv.take(cs@.len() as int) =~= cv);
            }
        }
    }
}

fn call_block_of(c: &CallAcc) -> (r: ContentBlock)
    ensures
        r@ == call_block(c@),
{
    let input = match compact(c.arguments.as_str()) {
        Some(x) => x,
        None => owned("{}"),
    };
    ContentBlock::ToolUse { id: c.id.clone(), name: c.name.clone(), input }
}

fn o_finish_of(s: OStream) -> (r: ProviderResponse)
    requires
        o_ok(s),
    ensures
        parsed_view(Ok(r)) == Ok::<ReplyV, ApiErrorV>(o_finish(o_view(s))),
{
    let ghost s0 = o_view(s);
    let mut content: Vec<ContentBlock> = Vec::new();
    let t = s.text;
    if t.as_str().unicode_len() > 0 {
        content.push(ContentBlock::Text { text: t });
    }
    let ghost head = blocks_view(content@);
    proof {
        assert(head =~= (if s0.text.len() > 0 {
            seq![ContentBlockV::Text { text: s0.text }]
        } else {
            Seq::<ContentBlockV>::empty()
        }));
    }
    let mut keys = s.keys;
    let mut calls = s.calls;
    while keys.len() > 0
        invariant
            keys@.len() == calls@.len(),
            blocks_view(content@) + in_key_order(keys@, calls_view(calls@)).map_values(|c: CallV| call_block(c))
                == head + in_key_order(s0.keys, s0.calls).map_values(|c: CallV| call_block(c)),
        decreases keys@.len(),
    {
        let p = smallest_key(&keys);
        let ghost ks = keys@;
        let ghost cv = calls_view(calls@);
        proof {
            lemma_min_pos_range(ks);
            let rest = in_key_order(ks.remove(p as int), cv.remove(p as int));
            assert(in_key_order(ks, cv) == seq![cv[p as int]] + rest);
            assert((seq![cv[p as int]] + rest).map_values(|c: CallV| call_block(c)) =~= seq![call_block(cv[p as int])]
                + rest.map_values(|c: CallV| call_block(c)));
        }
        keys.remove(p);
        let c = calls.remove(p);
        proof {
            assert(calls_view(calls@) =~= cv.remove(p as int));
            assert(c@ == cv[p as int]);
        }
        let ghost bb = blocks_view(content@);
        content.push(call_block_of(&c));
        proof {
            assert(blocks_view(content@) =~= bb.push(call_block(cv[p as int])));
        }
    }
    proof {
        assert(in_key_order(keys@, calls_view(calls@)) =~= Seq::<CallV>::empty());
        assert(blocks_view(content@) =~= head + in_key_order(s0.keys, s0.calls).map_values(|c: CallV| call_block(c)));
    }
    ProviderResponse { message: ApiMessage { role: MessageRole::Assistant, content }, usage: s.usage, stop_reason: s.stop }
}

fn tool_args_of(a: Option<String>) -> (r: String)
    ensures
        r@ == tool_args(opt_view(a)),
{
    match a {
        Some(t) => match str_value(t.as_str()) {
            Some(x) => match compact(x.as_str()) {
                Some(c) => c,
                None => owned("{}"),
            },
            None => if starts_with(t.as_str(), "{") || starts_with(t.as_str(), "[") {
                t
            } else {
                owned("{}")
            },
        },
        None => owned("{}"),
    }
}

fn message_content(m: &str) -> (r: Vec<ContentBlock>)
    ensures
        blocks_view(r@) == message_texts(m@) + message_calls(m@),
{
    let mut out: Vec<ContentBlock> = Vec::new();
    if let Some(ct) = member(m, "content") {
        match str_value(ct.as_str()) {
            Some(t) => {
                if t.as_str().unicode_len() > 0 {
                    out.push(ContentBlock::Text { text: t });
                }
            },
            None => {
                if let Some(parts) = items(ct.as_str()) {
                    let ghost pv = parts@.map_values(|x: String| x@);
                    let mut k: usize = 0;
                    proof {
                        assert(pv.take(0) =~= Seq::<Seq<char>>::empty());
                        assert(blocks_view(out@) =~= part_texts(pv.take(0)));
                    }
                    while k < parts.len()
                        invariant
                            k <= parts@.len(),
                            pv == parts@.map_values(|x: String| x@),
                            blocks_view(out@) == part_texts(pv.take(k as int)),
                        decreases parts@.len() - k,
                    {
                        proof {
                            assert(pv.take(k + 1).drop_last() =~= pv.take(k as int));
                        }
                        let ghost before = blocks_view(out@);
                        if let Some(t) = str_member_of(parts[k].as_str(), "text") {
                            if t.as_str().unicode_len() > 0 {
                                out.push(ContentBlock::Text { text: t });
                            }
                        }
                        proof {
                            assert(blocks_view(out@) =~= part_texts(pv.take(k + 1)));
                        }
                        k = k + 1;
                    }
                    proof {
                        assert(pv.take(parts@.len() as int) =~= pv);
                    }
                }
            },
        }
    }
    let ghost texts = blocks_view(out@);
    proof {
        assert(texts =~= message_texts(m@));
    }
    if let Some(t) = member(m, "tool_calls") {
        if let Some(tcs) = items(t.as_str()) {
            let ghost tv = tcs@.map_values(|x: String| x@);
            let mut k: usize = 0;
            proof {
                assert(tv.take(0) =~= Seq::<Seq<char>>::empty());
                assert(blocks_view(out@) =~= texts + fallback_calls(tv.take(0)));
            }
            while k < tcs.len()
                invariant
                    k <= tcs@.len(),
                    tv == tcs@.map_values(|x: String| x@),
                    blocks_view(out@) == texts + fallback_calls(tv.take(k as int)),
                decreases tcs@.len() - k,
            {
                proof {
                    assert(tv.take(k + 1).drop_last() =~= tv.take(k as int));
                    assert(tv.take(k + 1).last() == tcs@[k as int]@);
                }
                let ghost before = blocks_view(out@);
                let tc = tcs[k].as_str();
                if let Some(f) = member(tc, "function") {
                    let id = match str_member_of(tc, "id") {
                        Some(x) => x,
                        None => String::new(),
                    };
                    let name = match str_member_of(f.as_str(), "name") {
                        Some(x) => x,
                        None => String::new(),
                    };
                    let args = member(f.as_str(), "arguments");
                    proof {
                        assert(opt_view(args) == json_member(f@, "arguments"@));
                        assert(id@ == or_empty(str_member(tc@, "id"@)));
                        assert(name@ == or_empty(str_member(f@, "name"@)));
                    }
                    let input = tool_args_of(args);
                    out.push(ContentBlock::ToolUse { id, name, input });
                    proof {
                        let tl = tv.take(k + 1).last();
                        assert(json_member(tl, "function"@) == Some(f@));
                        let blk = ContentBlockV::ToolUse {
                            id: or_empty(str_member(tl, "id"@)),
                            name: or_empty(str_member(f@, "name"@)),
                            input: tool_args(json_member(f@, "arguments"@)),
                        };
                        assert(blocks_view(out@) =~= before.push(blk));
                        assert(fallback_calls(tv.take(k + 1)) == fallback_calls(tv.take(k as int)) + seq![blk]);
                    }
                } else {
                    proof {
                        assert(json_member(tv.take(k + 1).last(), "function"@) is None);
                    }
                }
                proof {
                    assert(blocks_view(out@) =~= texts + fallback_calls(tv.take(k + 1)));
                }
                k = k + 1;
            }
            proof {
                assert(tv.take(tcs@.len() as int) =~= tv);
            }
        } else {
            proof {
                assert(blocks_view(out@) =~= texts + Seq::<ContentBlockV>::empty());
            }
        }
    } else {
        proof {
            assert(blocks_view(out@) =~= texts + Seq::<ContentBlockV>::empty());
        }
    }
    out
}

fn o_fallback(body: &str) -> (r: Result<ProviderResponse, ApiError>)
    ensures
        parsed_view(r) == openai_fallback(body@),
{
    if !parses(body) {
        return Err(ApiError::StreamError(owned("OpenAI upstream returned a body that is not JSON")));
    }
    if let Some(e) = stream_error(body) {
        return Err(e);
    }
    let ch = match member(body, "choices") {
        Some(c) => match items(c.as_str()) {
            Some(cs) => {
                if cs.len() > 0 {
                    cs[0].clone()
                } else {
                    return Err(ApiError::StreamError(owned("OpenAI upstream returned JSON body without choices")));
                }
            },
            None => return Err(ApiError::StreamError(owned("OpenAI upstream returned JSON body without choices"))),
        },
        None => return Err(ApiError::StreamError(owned("OpenAI upstream returned JSON body without choices"))),
    };
    let m = match member(ch.as_str(), "message") {
        Some(m) => m,
        None => return Err(ApiError::StreamError(owned("OpenAI upstream returned JSON body without message"))),
    };
    let content = message_content(m.as_str());
    let usage = match member(body, "usage") {
        Some(u) => ApiUsage {
            input_tokens: match u64_member_of(u.as_str(), "prompt_tokens") {
                Some(p) => p,
                None => 0,
            },
            output_tokens: match u64_member_of(u.as_str(), "completion_tokens") {
                Some(c) => c,
                None => 0,
            },
            cache_creation_input_tokens: 0,
            cache_read_input_tokens: 0,
        },
        None => ApiUsage { input_tokens: 0, output_tokens: 0, cache_creation_input_tokens: 0, cache_read_input_tokens: 0 },
    };
    let stop_reason = match str_member_of(ch.as_str(), "finish_reason") {
        Some(f) => Some(map_openai_stop_reason(f.as_str())),
        None => None,
    };
    Ok(ProviderResponse { message: ApiMessage { role: MessageRole::Assistant, content }, usage, stop_reason })
}

/// The reply with calls that came without an id left with an empty one, and
/// whether it was read from the stream.
fn read_reply(content_type: &str, body: &str) -> (r: (Result<ProviderResponse, ApiError>, bool))
    ensures
        parsed_view(r.0) == openai_sse_spec(content_type@, body@),
        r.1 == openai_streamed(content_type@, body@),
{
    let ls = lines_of(body);
    let ghost l = lines(body@);
    proof {
        assert(vecs(ls@) =~= l);
    }
    if !is_streaming_type(content_type) || !has_data_lines(&ls) {
        return (o_fallback(body), false);
    }
    let mut s = OStream {
        text: String::new(),
        keys: Vec::new(),
        calls: Vec::new(),
        usage: ApiUsage { input_tokens: 0, output_tokens: 0, cache_creation_input_tokens: 0, cache_read_input_tokens: 0 },
        stop: None,
        saw: false,
    };
    proof {
        assert(l.take(0) =~= Seq::<Seq<char>>::empty());
        assert(calls_view(s.calls@) =~= Seq::<CallV>::empty());
        assert(o_view(s) == o_init());
    }
    let mut i: usize = 0;
    let mut done = false;
    while i < ls.len() && !done
        invariant
            i <= ls@.len(),
            vecs(ls@) == l,
            l == lines(body@),
            streaming_type(content_type@),
            data_lines_in(l),
            o_ok(s),
            !done ==> o_scan(l.take(i as int)) == OScan::Go(o_view(s)),
            done ==> o_scan(l) == OScan::Done(o_view(s)),
        decreases ls@.len() - i,
    {
        proof {
            assert(l.take(i + 1).drop_last() =~= l.take(i as int));
            assert(l.take(i + 1).last() == ls@[i as int]@);
        }
        let ghost before = o_view(s);
        match data_of(&ls[i]) {
            None => {},
            Some(d) => {
                if str_eq(d.as_str(), "[DONE]") {
                    proof {
                        assert(o_scan(l.take(i + 1)) == OScan::Done(before));
                        lemma_o_scan_sticks(l, i + 1);
                    }
                    done = true;
                } else if parses(d.as_str()) {
                    match stream_error(d.as_str()) {
                        Some(e) => {
                            proof {
                                assert(o_step(before, l[i as int]) == OScan::Fail(e@));
                                assert(o_scan(l.take(i + 1)) == OScan::Fail(e@));
                                lemma_o_scan_sticks(l, i + 1);
                                assert(openai_sse_spec(content_type@, body@) == Err::<ReplyV, ApiErrorV>(e@));
                            }
                            return (Err(e), false);
                        },
                        None => {
                            s.saw = true;
                            proof {
                                assert(o_view(s) == OStreamV { saw: true, ..before });
                            }
                            on_chunk(&mut s, d.as_str());
                        },
                    }
                }
            },
        }
        i = i + 1;
    }
    proof {
        if !done {
            assert(l.take(i as int) =~= l);
        }
    }
    if !s.saw {
        return (o_fallback(body), false);
    }
    (Ok(o_finish_of(s)), true)
}

fn copy_result_blocks(v: &Vec<ToolResultContentBlock>) -> (r: Vec<ToolResultContentBlock>)
    ensures
        r@.map_values(|b: ToolResultContentBlock| b@) == v@.map_values(|b: ToolResultContentBlock| b@),
{
    let mut out: Vec<ToolResultContentBlock> = Vec::new();
    let mut i: usize = 0;
    while i < v.len()
        invariant
            i <= v@.len(),
            out@.map_values(|b: ToolResultContentBlock| b@) == v@.take(i as int).map_values(|b: ToolResultContentBlock| b@),
        decreases v@.len() - i,
    {
        let c = match &v[i] {
            ToolResultContentBlock::Text { text } => ToolResultContentBlock::Text { text: text.clone() },
            ToolResultContentBlock::Image { source } => ToolResultContentBlock::Image {
                source: super::response::ImageContentSource {
                    source_type: source.source_type.clone(),
                    media_type: source.media_type.clone(),
                    data: source.data.clone(),
                },
            },
        };
        let ghost before = out@;
        let ghost cv = c@;
        proof {
            assert(c@ == v@[i as int]@);
            assert(v@.take(i + 1) =~= v@.take(i as int).push(v@[i as int]));
        }
        out.push(c);
        proof {
            assert(out@.map_values(|b: ToolResultContentBlock| b@) =~= before.map_values(|b: ToolResultContentBlock| b@).push(cv));
            assert(out@.map_values(|b: ToolResultContentBlock| b@) =~= v@.take(i + 1).map_values(|b: ToolResultContentBlock| b@));
        }
        i = i + 1;
    }
    proof {
        assert(v@.take(v@.len() as int) =~= v@);
    }
    out
}

fn copy_block(b: &ContentBlock) -> (r: ContentBlock)
    ensures
        r@ == b@,
{
    match b {
        ContentBlock::Text { text } => ContentBlock::Text { text: text.clone() },
        ContentBlock::ToolUse { id, name, input } => ContentBlock::ToolUse {
            id: id.clone(),
            name: name.clone(),
            input: input.clone(),
        },
        ContentBlock::ToolResult { tool_use_id, content, is_error } => ContentBlock::ToolResult {
            tool_use_id: tool_use_id.clone(),
            content: copy_result_blocks(content),
            is_error: *is_error,
        },
        ContentBlock::Thinking { thinking, signature } => ContentBlock::Thinking {
            thinking: thinking.clone(),
            signature: crate::types::clone_opt_string(signature),
        },
        ContentBlock::Image { source } => ContentBlock::Image {
            source: super::response::ImageContentSource {
                source_type: source.source_type.clone(),
                media_type: source.media_type.clone(),
                data: source.data.clone(),
            },
        },
    }
}

/// Reads an OpenAI chat-completions reply from its content type and body:
/// the event stream (text deltas appended, tool-call deltas gathered by
/// index, `usage` counters and the mapped finish reason taken; `[DONE]`
/// ends it, a chunk with an `error` fails it), or the plain JSON body when
/// the reply is not a stream or no data line of it parses. A streamed call
/// that came without an id is given a fresh one, `call_` and a random UUID.
pub fn parse_openai_sse(content_type: &str, body: &str) -> (r: Result<ProviderResponse, ApiError>)
    ensures
        match openai_sse_spec(content_type@, body@) {
            Err(e) => parsed_view(r) == Err::<ReplyV, ApiErrorV>(e),
            Ok(x) => r matches Ok(p) && p.usage == x.usage && opt_view(p.stop_reason) == x.stop_reason
                && blocks_view(p.message.content@).len() == x.content.len() && forall|k: int|
                0 <= k < x.content.len() ==> if openai_streamed(content_type@, body@) {
                    minted(#[trigger] blocks_view(p.message.content@)[k], x.content[k])
                } else {
                    blocks_view(p.message.content@)[k] == x.content[k]
                },
        },
{
    let (res, streamed) = read_reply(content_type, body);
    let p = match res {
        Ok(p) => p,
        Err(e) => return Err(e),
    };
    if !streamed {
        return Ok(p);
    }
    let ghost x = blocks_view(p.message.content@);
    let mut out: Vec<ContentBlock> = Vec::new();
    let mut k: usize = 0;
    while k < p.message.content.len()
        invariant
            k <= p.message.content@.len(),
            x == blocks_view(p.message.content@),
            blocks_view(out@).len() == k,
            forall|j: int| 0 <= j < k ==> minted(#[trigger] blocks_view(out@)[j], x[j]),
        decreases p.message.content@.len() - k,
    {
        let b = &p.message.content[k];
        let nb = match b {
            ContentBlock::ToolUse { id, name, input } => {
                if id.as_str().unicode_len() == 0 {
                    let mut fresh_id = owned("call_");
                    let u = crate::agent::queue::new_id();
                    push_str(&mut fresh_id, u.as_str());
                    proof {
                        reveal_strlit("call_");
                        assert(fresh_id@.take(5) =~= "call_"@);
                    }
                    ContentBlock::ToolUse { id: fresh_id, name: name.clone(), input: input.clone() }
                } else {
                    copy_block(b)
                }
            },
            _ => copy_block(b),
        };
        proof {
            assert(x[k as int] == b@);
        }
        let ghost before = out@;
        out.push(nb);
        proof {
            assert(blocks_view(out@) =~= blocks_view(before).push(nb@));
        }
        k = k + 1;
    }
    Ok(ProviderResponse {
        message: ApiMessage { role: MessageRole::Assistant, content: out },
        usage: p.usage,
        stop_reason: p.stop_reason,
    })
}


// ---------------------------------------------------------------------------
// The request body
// ---------------------------------------------------------------------------

/// A tool call in a chat message; its arguments are JSON text.
pub struct OpenAIToolCall {
    pub id: String,
    pub call_type: String,
    pub name: String,
    pub arguments: String,
}

/// One chat message.
pub struct OpenAIMessage {
    pub role: String,
    pub content: Option<String>,
    pub tool_calls: Option<Vec<OpenAIToolCall>>,
    pub tool_call_id: Option<String>,
}

/// A function tool; its parameters are JSON text.
pub struct OpenAITool {
    pub tool_type: String,
    pub name: String,
    pub description: String,
    pub parameters: String,
}

/// A chat-completions request body.
pub struct OpenAIRequest {
    pub model: String,
    pub max_tokens: u64,
    pub messages: Vec<OpenAIMessage>,
    pub tools: Option<Vec<OpenAITool>>,
    pub stream: bool,
}

pub ghost struct OaCallV {
    pub id: Seq<char>,
    pub call_type: Seq<char>,
    pub name: Seq<char>,
    pub arguments: Seq<char>,
}

pub ghost struct OaMsgV {
    pub role: Seq<char>,
    pub content: Option<Seq<char>>,
    pub tool_calls: Option<Seq<OaCallV>>,
    pub tool_call_id: Option<Seq<char>>,
}

pub ghost struct OaToolV {
    pub tool_type: Seq<char>,
    pub name: Seq<char>,
    pub description: Seq<char>,
    pub parameters: Seq<char>,
}

pub ghost struct OaRequestV {
    pub model: Seq<char>,
    pub max_tokens: u64,
    pub messages: Seq<OaMsgV>,
    pub tools: Option<Seq<OaToolV>>,
    pub stream: bool,
}

impl View for OpenAIToolCall {
    type V = OaCallV;

    open spec fn view(&self) -> OaCallV {
        OaCallV { id: self.id@, call_type: self.call_type@, name: self.name@, arguments: self.arguments@ }
    }
}

pub open spec fn calls_seq(v: Seq<OpenAIToolCall>) -> Seq<OaCallV> {
    v.map_values(|c: OpenAIToolCall| c@)
}

impl View for OpenAIMessage {
    type V = OaMsgV;

    open spec fn view(&self) -> OaMsgV {
        OaMsgV {
            role: self.role@,
            content: opt_view(self.content),
            tool_calls: match self.tool_calls {
                Some(cs) => Some(calls_seq(cs@)),
                None => None,
            },
            tool_call_id: opt_view(self.tool_call_id),
        }
    }
}

pub open spec fn msgs_seq(v: Seq<OpenAIMessage>) -> Seq<OaMsgV> {
    v.map_values(|m: OpenAIMessage| m@)
}

impl View for OpenAITool {
    type V = OaToolV;

    open spec fn view(&self) -> OaToolV {
        OaToolV { tool_type: self.tool_type@, name: self.name@, description: self.description@, parameters: self.parameters@ }
    }
}

impl View for OpenAIRequest {
    type V = OaRequestV;

    open spec fn view(&self) -> OaRequestV {
        OaRequestV {
            model: self.model@,
            max_tokens: self.max_tokens,
            messages: msgs_seq(self.messages@),
            tools: match self.tools {
                Some(ts) => Some(ts@.map_values(|t: OpenAITool| t@)),
                None => None,
            },
            stream: self.stream,
        }
    }
}

/// A chat message of `role` with only content.
pub open spec fn plain_msg(role: Seq<char>, content: Seq<char>) -> OaMsgV {
    OaMsgV { role, content: Some(content), tool_calls: None, tool_call_id: None }
}

/// The system prompt's blocks joined by blank lines, as a system message
/// unless empty.
pub open spec fn system_msgs(system: Option<Seq<Seq<char>>>) -> Seq<OaMsgV> {
    match system {
        Some(bs) => {
            let t = join(bs, "\n\n"@);
            if t.len() > 0 {
                seq![plain_msg("system"@, t)]
            } else {
                Seq::empty()
            }
        },
        None => Seq::empty(),
    }
}

/// The texts of the text blocks, in order.
pub open spec fn block_texts(c: Seq<ContentBlockV>) -> Seq<Seq<char>>
    decreases c.len(),
{
    if c.len() == 0 {
        Seq::empty()
    } else {
        block_texts(c.drop_last()) + match c.last() {
            ContentBlockV::Text { text } => seq![text],
            _ => Seq::empty(),
        }
    }
}

/// A message's text: its text blocks joined by line breaks.
pub open spec fn message_text(c: Seq<ContentBlockV>) -> Seq<char> {
    join(block_texts(c), "\n"@)
}

/// The texts of a tool result's text blocks, in order.
pub open spec fn result_texts(c: Seq<ToolResultBlockV>) -> Seq<Seq<char>>
    decreases c.len(),
{
    if c.len() == 0 {
        Seq::empty()
    } else {
        result_texts(c.drop_last()) + match c.last() {
            ToolResultBlockV::Text { text } => seq![text],
            _ => Seq::empty(),
        }
    }
}

/// Each tool result of a user message as its own `tool` message, its text
/// blocks joined by line breaks.
pub open spec fn tool_msgs(c: Seq<ContentBlockV>) -> Seq<OaMsgV>
    decreases c.len(),
{
    if c.len() == 0 {
        Seq::empty()
    } else {
        tool_msgs(c.drop_last()) + match c.last() {
            ContentBlockV::ToolResult { tool_use_id, content, .. } => seq![
                OaMsgV {
                    role: "tool"@,
                    content: Some(join(result_texts(content), "\n"@)),
                    tool_calls: None,
                    tool_call_id: Some(tool_use_id),
                },
            ],
            _ => Seq::empty(),
        }
    }
}

/// The tool uses of an assistant message as function calls.
pub open spec fn calls_of(c: Seq<ContentBlockV>) -> Seq<OaCallV>
    decreases c.len(),
{
    if c.len() == 0 {
        Seq::empty()
    } else {
        calls_of(c.drop_last()) + match c.last() {
            ContentBlockV::ToolUse { id, name, input } => seq![
                OaCallV { id, call_type: "function"@, name, arguments: input },
            ],
            _ => Seq::empty(),
        }
    }
}

/// What one message becomes: a user message with tool results becomes one
/// `tool` message per result, else a `user` message with its text; an
/// assistant message keeps its text (none when empty) and its calls (none
/// when it makes none).
pub open spec fn chat_msgs_of(m: ApiMessageV) -> Seq<OaMsgV> {
    match m.role {
        MessageRole::User => {
            let tm = tool_msgs(m.content);
            if tm.len() > 0 {
                tm
            } else {
                seq![plain_msg("user"@, message_text(m.content))]
            }
        },
        MessageRole::Assistant => {
            let t = message_text(m.content);
            let cs = calls_of(m.content);
            seq![
                OaMsgV {
                    role: "assistant"@,
                    content: if t.len() == 0 {
                        None
                    } else {
                        Some(t)
                    },
                    tool_calls: if cs.len() == 0 {
                        None
                    } else {
                        Some(cs)
                    },
                    tool_call_id: None,
                },
            ]
        },
    }
}

pub open spec fn chat_msgs(ms: Seq<ApiMessageV>) -> Seq<OaMsgV>
    decreases ms.len(),
{
    if ms.len() == 0 {
        Seq::empty()
    } else {
        chat_msgs(ms.drop_last()) + chat_msgs_of(ms.last())
    }
}

pub open spec fn tool_of(t: ToolParamV) -> OaToolV {
    OaToolV { tool_type: "function"@, name: t.name, description: t.description, parameters: t.input_schema }
}

/// The tools as function tools; none when there are none.
pub open spec fn chat_tools(tools: Option<Seq<ToolParamV>>) -> Option<Seq<OaToolV>> {
    match tools {
        Some(ts) => if ts.len() == 0 {
            None
        } else {
            Some(ts.map_values(|t: ToolParamV| tool_of(t)))
        },
        None => None,
    }
}

/// The chat-completions body of a request: the system message first, then
/// the conversation, the tools, and streaming on.
pub open spec fn openai_body_spec(req: ProviderRequestV) -> OaRequestV {
    OaRequestV {
        model: req.model,
        max_tokens: req.max_tokens,
        messages: system_msgs(req.system) + chat_msgs(req.messages),
        tools: chat_tools(req.tools),
        stream: true,
    }
}

fn texts_of_blocks(c: &Vec<ContentBlock>) -> (r: String)
    ensures
        r@ == message_text(blocks_view(c@)),
{
    let ghost cv = blocks_view(c@);
    let mut parts: Vec<String> = Vec::new();
    let mut i: usize = 0;
    while i < c.len()
        invariant
            i <= c@.len(),
            cv == blocks_view(c@),
            strs(parts@) == block_texts(cv.take(i as int)),
        decreases c@.len() - i,
    {
        proof {
            assert(cv.take(i + 1).drop_last() =~= cv.take(i as int));
            assert(cv.take(i + 1).last() == c@[i as int]@);
        }
        let ghost before = parts@;
        if let ContentBlock::Text { text } = &c[i] {
            parts.push(text.clone());
        }
        proof {
            assert(strs(parts@) =~= block_texts(cv.take(i + 1)));
        }
        i = i + 1;
    }
    proof {
        assert(cv.take(c@.len() as int) =~= cv);
    }
    join_strings(&parts, "\n")
}

fn result_text_of(c: &Vec<ToolResultContentBlock>) -> (r: String)
    ensures
        r@ == join(result_texts(c@.map_values(|b: ToolResultContentBlock| b@)), "\n"@),
{
    let ghost cv = c@.map_values(|b: ToolResultContentBlock| b@);
    let mut parts: Vec<String> = Vec::new();
    let mut i: usize = 0;
    while i < c.len()
        invariant
            i <= c@.len(),
            cv == c@.map_values(|b: ToolResultContentBlock| b@),
            strs(parts@) == result_texts(cv.take(i as int)),
        decreases c@.len() - i,
    {
        proof {
            assert(cv.take(i + 1).drop_last() =~= cv.take(i as int));
            assert(cv.take(i + 1).last() == c@[i as int]@);
        }
        if let ToolResultContentBlock::Text { text } = &c[i] {
            parts.push(text.clone());
        }
        proof {
            assert(strs(parts@) =~= result_texts(cv.take(i + 1)));
        }
        i = i + 1;
    }
    proof {
        assert(cv.take(c@.len() as int) =~= cv);
    }
    join_strings(&parts, "\n")
}

fn push_tool_msgs(out: &mut Vec<OpenAIMessage>, c: &Vec<ContentBlock>)
    ensures
        msgs_seq(final(out)@) == msgs_seq(old(out)@) + tool_msgs(blocks_view(c@)),
{
    let ghost cv = blocks_view(c@);
    let ghost o0 = msgs_seq(out@);
    let mut i: usize = 0;
    while i < c.len()
        invariant
            i <= c@.len(),
            cv == blocks_view(c@),
            msgs_seq(out@) == o0 + tool_msgs(cv.take(i as int)),
        decreases c@.len() - i,
    {
        proof {
            assert(cv.take(i + 1).drop_last() =~= cv.take(i as int));
            assert(cv.take(i + 1).last() == c@[i as int]@);
        }
        let ghost before = msgs_seq(out@);
        if let ContentBlock::ToolResult { tool_use_id, content, .. } = &c[i] {
            let m = OpenAIMessage {
                role: owned("tool"),
                content: Some(result_text_of(content)),
                tool_calls: None,
                tool_call_id: Some(tool_use_id.clone()),
            };
            let ghost mv0 = m@;
            out.push(m);
            proof {
                assert(msgs_seq(out@) =~= before.push(mv0));
            }
        }
        proof {
            assert(msgs_seq(out@) =~= o0 + tool_msgs(cv.take(i + 1)));
        }
        i = i + 1;
    }
    proof {
        assert(cv.take(c@.len() as int) =~= cv);
    }
}

fn calls_of_blocks(c: &Vec<ContentBlock>) -> (r: Vec<OpenAIToolCall>)
    ensures
        calls_seq(r@) == calls_of(blocks_view(c@)),
{
    let ghost cv = blocks_view(c@);
    let mut out: Vec<OpenAIToolCall> = Vec::new();
    let mut i: usize = 0;
    while i < c.len()
        invariant
            i <= c@.len(),
            cv == blocks_view(c@),
            calls_seq(out@) == calls_of(cv.take(i as int)),
        decreases c@.len() - i,
    {
        proof {
            assert(cv.take(i + 1).drop_last() =~= cv.take(i as int));
            assert(cv.take(i + 1).last() == c@[i as int]@);
        }
        let ghost before = calls_seq(out@);
        if let ContentBlock::ToolUse { id, name, input } = &c[i] {
            let k = OpenAIToolCall { id: id.clone(), call_type: owned("function"), name: name.clone(), arguments: input.clone() };
            let ghost kv = k@;
            out.push(k);
            proof {
                assert(calls_seq(out@) =~= before.push(kv));
            }
        }
        proof {
            assert(calls_seq(out@) =~= calls_of(cv.take(i + 1)));
        }
        i = i + 1;
    }
    proof {
        assert(cv.take(c@.len() as int) =~= cv);
    }
    out
}

fn push_chat_msgs(out: &mut Vec<OpenAIMessage>, m: &ApiMessage)
    ensures
        msgs_seq(final(out)@) == msgs_seq(old(out)@) + chat_msgs_of(m@),
{
    match m.role {
        MessageRole::User => {
            let n0 = out.len();
            let ghost o0 = msgs_seq(out@);
            push_tool_msgs(out, &m.content);
            proof {
                assert(o0.len() == n0);
                assert(msgs_seq(out@).len() == out@.len());
            }
            if out.len() == n0 {
                let t = texts_of_blocks(&m.content);
                let u = OpenAIMessage { role: owned("user"), content: Some(t), tool_calls: None, tool_call_id: None };
                let ghost uv = u@;
                let ghost before = msgs_seq(out@);
                out.push(u);
                proof {
                    assert(tool_msgs(blocks_view(m.content@)).len() == 0);
                    assert(before =~= o0);
                    assert(msgs_seq(out@) =~= o0 + seq![uv]);
                }
            }
        },
        MessageRole::Assistant => {
            let t = texts_of_blocks(&m.content);
            let cs = calls_of_blocks(&m.content);
            let content = if t.as_str().unicode_len() == 0 {
                None
            } else {
                Some(t)
            };
            let tool_calls = if cs.len() == 0 {
                None
            } else {
                Some(cs)
            };
            let a = OpenAIMessage { role: owned("assistant"), content, tool_calls, tool_call_id: None };
            let ghost av = a@;
            let ghost before = msgs_seq(out@);
            out.push(a);
            proof {
                assert(msgs_seq(out@) =~= before + seq![av]);
            }
        },
    }
}

/// The chat-completions body of a request: the system prompt's blocks
/// joined by blank lines as a system message (none when empty); each user
/// message's tool results as their own `tool` messages, else the message's
/// text; each assistant message's text (none when empty) and tool uses as
/// function calls; the tools as function tools (none when the list is
/// empty); streaming on.
pub fn openai_chat_body(request: &ProviderRequest) -> (r: OpenAIRequest)
    ensures
        r@ == openai_body_spec(request@),
{
    let mut messages: Vec<OpenAIMessage> = Vec::new();
    if let Some(bs) = &request.system {
        let ghost bv = bs@.map_values(|b: SystemBlock| b.text@);
        let mut texts: Vec<String> = Vec::new();
        let mut i: usize = 0;
        while i < bs.len()
            invariant
                i <= bs@.len(),
                bv == bs@.map_values(|b: SystemBlock| b.text@),
                strs(texts@) == bv.take(i as int),
            decreases bs@.len() - i,
        {
            let ghost before = texts@;
            let tx = bs[i].text.clone();
            proof {
                assert(tx@ == bv[i as int]);
            }
            texts.push(tx);
            proof {
                assert(strs(texts@) =~= strs(before).push(bv[i as int]));
                assert(bv.take(i + 1) =~= bv.take(i as int).push(bv[i as int]));
                assert(strs(texts@) =~= bv.take(i + 1));
            }
            i = i + 1;
        }
        proof {
            assert(bv.take(bs@.len() as int) =~= bv);
        }
        let t = join_strings(&texts, "\n\n");
        if t.as_str().unicode_len() > 0 {
            let s = OpenAIMessage { role: owned("system"), content: Some(t), tool_calls: None, tool_call_id: None };
            messages.push(s);
            proof {
                assert(msgs_seq(messages@) =~= system_msgs(request@.system));
            }
        } else {
            proof {
                assert(msgs_seq(messages@) =~= system_msgs(request@.system));
            }
        }
    } else {
        proof {
            assert(msgs_seq(messages@) =~= system_msgs(request@.system));
        }
    }
    let ghost sys = msgs_seq(messages@);
    let ghost mv = request@.messages;
    let mut i: usize = 0;
    while i < request.messages.len()
        invariant
            i <= request.messages@.len(),
            mv == request@.messages,
            msgs_seq(messages@) == sys + chat_msgs(mv.take(i as int)),
        decreases request.messages@.len() - i,
    {
        proof {
            assert(mv.take(i + 1).drop_last() =~= mv.take(i as int));
            assert(mv.take(i + 1).last() == request.messages@[i as int]@);
        }
        push_chat_msgs(&mut messages, &request.messages[i]);
        proof {
            assert(msgs_seq(messages@) =~= sys + chat_msgs(mv.take(i + 1)));
        }
        i = i + 1;
    }
    proof {
        assert(mv.take(request.messages@.len() as int) =~= mv);
    }
    let tools = match &request.tools {
        Some(ts) => {
            if ts.len() == 0 {
                None
            } else {
                let ghost tv = ts@.map_values(|t: ApiToolParam| t@);
                let mut out: Vec<OpenAITool> = Vec::new();
                let mut k: usize = 0;
                while k < ts.len()
                    invariant
                        k <= ts@.len(),
                        tv == ts@.map_values(|t: ApiToolParam| t@),
                        out@.map_values(|t: OpenAITool| t@) == tv.take(k as int).map_values(|t: ToolParamV| tool_of(t)),
                    decreases ts@.len() - k,
                {
                    let t = OpenAITool {
                        tool_type: owned("function"),
                        name: ts[k].name.clone(),
                        description: ts[k].description.clone(),
                        parameters: ts[k].input_schema.clone(),
                    };
                    let ghost before = out@;
                    let ghost tw = t@;
                    out.push(t);
                    proof {
                        assert(tw == tool_of(tv[k as int]));
                        assert(out@.map_values(|t: OpenAITool| t@) =~= before.map_values(|t: OpenAITool| t@).push(tw));
                        assert(tv.take(k + 1).map_values(|t: ToolParamV| tool_of(t)) =~= tv.take(k as int).map_values(
                            |t: ToolParamV| tool_of(t),
                        ).push(tool_of(tv[k as int])));
                    }
                    k = k + 1;
                }
                proof {
                    assert(tv.take(ts@.len() as int) =~= tv);
                }
                Some(out)
            }
        },
        None => None,
    };
    OpenAIRequest { model: request.model.clone(), max_tokens: request.max_tokens, messages, tools, stream: true }
}

/// `base` without its trailing slashes.
pub open spec fn trim_slashes(base: Seq<char>) -> Seq<char>
    decreases base.len(),
{
    if base.len() > 0 && base.last() == '/' {
        trim_slashes(base.drop_last())
    } else {
        base
    }
}

/// `base` with `/chat/completions` added after `/v1` (which is added when
/// `base` does not already end with it).
pub open spec fn chat_url_spec(base: Seq<char>) -> Seq<char> {
    let b = trim_slashes(base);
    if is_suffix("/v1"@, b) {
        b + "/chat/completions"@
    } else {
        b + "/v1/chat/completions"@
    }
}

/// `base` without its trailing slashes, as a string.
pub fn trimmed_base(base: &str) -> (r: String)
    ensures
        r@ == trim_slashes(base@),
{
    let v = chars_of(base);
    let mut n = v.len();
    proof {
        assert(v@.take(n as int) =~= v@);
    }
    while n > 0 && v[n - 1] == '/'
        invariant
            n <= v@.len(),
            v@ == base@,
            trim_slashes(base@) == trim_slashes(v@.take(n as int)),
        decreases n,
    {
        proof {
            assert(v@.take(n as int).drop_last() =~= v@.take(n - 1));
        }
        n = n - 1;
    }
    proof {
        assert(v@.take(n as int) =~= v@.take(n as int));
    }
    string_of(take_vec(&v, n).as_slice())
}

/// The chat-completions endpoint of a base URL.
pub fn chat_completions_url(base: &str) -> (r: String)
    ensures
        r@ == chat_url_spec(base@),
{
    let mut b = trimmed_base(base);
    if ends_with(b.as_str(), "/v1") {
        push_str(&mut b, "/chat/completions");
    } else {
        push_str(&mut b, "/v1/chat/completions");
    }
    b
}

} // verus!
