//! Tool result → metadata summary: what microcompaction leaves in place of a
//! result, enough for the model to decide whether to run the tool again.

use vstd::prelude::*;
use crate::json::{str_member, str_member_of};
use crate::text::{chars_of, dec, dec_i, fit_prefix, fit_prefix_len, i32_of, is_prefix, join, join_strings, lines, lines_of, matches_at, owned, parse_i32, push_i32, push_str, push_usize, slice_vec, str_eq, string_of, strs, take_vec, trim, trim_chars, vecs};
use crate::tokens::byte_len;
use crate::types::{AgentMessage, AgentMessageV, Content, ContentV, Message, MessageV, cv, mv};

verus! {

/// The texts of the text blocks, in order.
pub open spec fn text_parts(c: Seq<ContentV>) -> Seq<Seq<char>>
    decreases c.len(),
{
    if c.len() == 0 {
        Seq::empty()
    } else {
        text_parts(c.drop_last()) + match c.last() {
            ContentV::Text { text } => seq![text],
            _ => Seq::empty(),
        }
    }
}

/// The texts of the text blocks.
pub fn text_parts_of(content: &[Content]) -> (r: Vec<String>)
    ensures
        strs(r@) == text_parts(cv(content@)),
{
    let mut out: Vec<String> = Vec::new();
    let mut i: usize = 0;
    while i < content.len()
        invariant
            i <= content@.len(),
            strs(out@) == text_parts(cv(content@.take(i as int))),
        decreases content@.len() - i,
    {
        proof {
            assert(cv(content@.take(i + 1)).drop_last() =~= cv(content@.take(i as int)));
            assert(cv(content@.take(i + 1)).last() == content@[i as int]@);
        }
        let ghost po = out@;
        if let Content::Text { text } = &content[i] {
            out.push(text.clone());
            proof {
                assert(strs(out@) =~= strs(po) + seq![text@]);
            }
        } else {
            proof {
                assert(strs(out@) =~= strs(po) + Seq::<Seq<char>>::empty());
            }
        }
        i = i + 1;
    }
    proof {
        assert(content@.take(content@.len() as int) =~= content@);
    }
    out
}

/// The text blocks joined by line breaks.
pub fn extract_text(content: &[Content]) -> (r: String)
    ensures
        r@ == join(text_parts(cv(content@)), "\n"@),
{
    let parts = text_parts_of(content);
    join_strings(&parts, "\n")
}

/// The arguments of the first call `id` in a content list.
pub open spec fn first_call_args(c: Seq<ContentV>, id: Seq<char>) -> Option<Seq<char>>
    decreases c.len(),
{
    if c.len() == 0 {
        None
    } else {
        match c[0] {
            ContentV::ToolCall { id: x, arguments, .. } => if x == id {
                Some(arguments)
            } else {
                first_call_args(c.drop_first(), id)
            },
            _ => first_call_args(c.drop_first(), id),
        }
    }
}

/// The arguments of call `id` in the nearest assistant message before `k`
/// that holds it.
pub open spec fn call_args_before(ms: Seq<AgentMessageV>, k: int, id: Seq<char>) -> Option<Seq<char>>
    decreases k,
{
    if k <= 0 {
        None
    } else {
        match ms[k - 1] {
            AgentMessageV::Llm(MessageV::Assistant { content, .. }) => match first_call_args(content, id) {
                Some(a) => Some(a),
                None => call_args_before(ms, k - 1, id),
            },
            _ => call_args_before(ms, k - 1, id),
        }
    }
}

/// The string parameter `param` of the call answered by tool result `i`.
pub open spec fn tool_use_param(ms: Seq<AgentMessageV>, i: int, param: Seq<char>) -> Option<Seq<char>> {
    match ms[i] {
        AgentMessageV::Llm(MessageV::ToolResult { tool_call_id, .. }) => match call_args_before(ms, i, tool_call_id) {
            Some(a) => str_member(a, param),
            None => None,
        },
        _ => None,
    }
}

pub open spec fn or_unknown(o: Option<Seq<char>>) -> Seq<char> {
    match o {
        Some(v) => v,
        None => "unknown"@,
    }
}

/// The exit code of the first line `Exit code: N` whose `N` parses.
pub open spec fn exit_code(ls: Seq<Seq<char>>) -> Option<i32>
    decreases ls.len(),
{
    if ls.len() == 0 {
        None
    } else {
        let l = ls[0];
        let p = "Exit code: "@;
        if is_prefix(p, l) && i32_of(trim(l.skip(p.len() as int))) is Some {
            i32_of(trim(l.skip(p.len() as int)))
        } else {
            exit_code(ls.drop_first())
        }
    }
}

/// A command shown in at most 80 bytes: longer ones keep the characters of
/// their first 77 bytes and an ellipsis.
pub open spec fn short_command(cmd: Seq<char>) -> Seq<char> {
    if byte_len(cmd) > 80 {
        cmd.take(fit_prefix(cmd, 77) as int) + "..."@
    } else {
        cmd
    }
}

/// The metadata line for result `i`, a call of `name` with text `text`:
/// `Read` keeps the path and line count, `Bash` the command, the exit code
/// when printed and the line count, `Edit`/`Write` the path, `WebFetch` the
/// URL and byte count; other tools their name.
pub open spec fn metadata_text(name: Seq<char>, ms: Seq<AgentMessageV>, i: int, text: Seq<char>) -> Seq<char> {
    if name == "Read"@ {
        "[cleared — "@ + or_unknown(tool_use_param(ms, i, "path"@)) + ", "@ + dec(lines(text).len()) + " lines]"@
    } else if name == "Bash"@ {
        let exit = match exit_code(lines(text)) {
            Some(c) => ", exit "@ + dec_i(c as int),
            None => Seq::empty(),
        };
        "[cleared — `"@ + short_command(or_unknown(tool_use_param(ms, i, "command"@))) + "`"@ + exit + ", "@ + dec(
            lines(text).len(),
        ) + " lines]"@
    } else if name == "Edit"@ || name == "Write"@ {
        "[cleared — "@ + or_unknown(tool_use_param(ms, i, "path"@)) + "]"@
    } else if name == "WebFetch"@ {
        "[cleared — "@ + or_unknown(tool_use_param(ms, i, "url"@)) + ", "@ + dec(byte_len(text)) + " chars]"@
    } else {
        "[cleared — "@ + name + "]"@
    }
}

/// The tools whose metadata reads the call that a result answers.
pub open spec fn reads_call(name: Seq<char>) -> bool {
    name == "Read"@ || name == "Bash"@ || name == "Edit"@ || name == "Write"@ || name == "WebFetch"@
}

pub open spec fn opt_str(o: Option<String>) -> Option<Seq<char>> {
    match o {
        Some(s) => Some(s@),
        None => None,
    }
}

fn first_call_args_of(content: &[Content], id: &str) -> (r: Option<String>)
    ensures
        opt_str(r) == first_call_args(cv(content@), id@),
{
    let mut i: usize = 0;
    proof {
        assert(cv(content@).skip(0) =~= cv(content@));
    }
    while i < content.len()
        invariant
            i <= content@.len(),
            first_call_args(cv(content@), id@) == first_call_args(cv(content@).skip(i as int), id@),
        decreases content@.len() - i,
    {
        proof {
            assert(cv(content@).skip(i as int).drop_first() =~= cv(content@).skip(i + 1));
            assert(cv(content@).skip(i as int)[0] == content@[i as int]@);
        }
        if let Content::ToolCall { id: x, arguments, .. } = &content[i] {
            if str_eq(x.as_str(), id) {
                return Some(arguments.clone());
            }
        }
        i = i + 1;
    }
    None
}

/// Walks back from tool result `idx` to the call it answers and reads the
/// string parameter `param` of its input.
fn find_tool_use_param(messages: &[AgentMessage], idx: usize, param: &str) -> (r: Option<String>)
    requires
        idx < messages@.len(),
    ensures
        opt_str(r) == tool_use_param(mv(messages@), idx as int, param@),
{
    let ghost ms = mv(messages@);
    proof {
        assert(ms[idx as int] == messages@[idx as int]@);
    }
    let target = match &messages[idx] {
        AgentMessage::Llm(Message::ToolResult { tool_call_id, .. }) => tool_call_id,
        _ => return None,
    };
    let mut k = idx;
    while k > 0
        invariant
            k <= idx < messages@.len(),
            ms == mv(messages@),
            ms[idx as int] matches AgentMessageV::Llm(MessageV::ToolResult { tool_call_id, .. }) && tool_call_id == target@,
            call_args_before(ms, idx as int, target@) == call_args_before(ms, k as int, target@),
        decreases k,
    {
        proof {
            assert(ms[k - 1] == messages@[k - 1]@);
        }
        if let AgentMessage::Llm(Message::Assistant { content, .. }) = &messages[k - 1] {
            if let Some(args) = first_call_args_of(content.as_slice(), target.as_str()) {
                return str_member_of(args.as_str(), param);
            }
        }
        k = k - 1;
    }
    None
}

/// The string parameter `param` of call `id`, read from the nearest
/// assistant message before `i` that holds the call.
pub open spec fn call_param(ms: Seq<AgentMessageV>, i: int, id: Seq<char>, param: Seq<char>) -> Option<Seq<char>> {
    match call_args_before(ms, i, id) {
        Some(a) => str_member(a, param),
        None => None,
    }
}

/// Reads the string parameter `param` of call `target_id` from the messages
/// before `idx`.
pub fn find_tool_call_param(messages: &[AgentMessage], idx: usize, target_id: &str, param: &str) -> (r: Option<String>)
    requires
        idx <= messages@.len(),
    ensures
        opt_str(r) == call_param(mv(messages@), idx as int, target_id@, param@),
{
    let ghost ms = mv(messages@);
    let mut k = idx;
    while k > 0
        invariant
            k <= idx <= messages@.len(),
            ms == mv(messages@),
            call_args_before(ms, idx as int, target_id@) == call_args_before(ms, k as int, target_id@),
        decreases k,
    {
        proof {
            assert(ms[k - 1] == messages@[k - 1]@);
        }
        if let AgentMessage::Llm(Message::Assistant { content, .. }) = &messages[k - 1] {
            if let Some(args) = first_call_args_of(content.as_slice(), target_id) {
                return str_member_of(args.as_str(), param);
            }
        }
        k = k - 1;
    }
    None
}

fn unknown_or(o: Option<String>) -> (r: String)
    ensures
        r@ == or_unknown(opt_str(o)),
{
    match o {
        Some(v) => v,
        None => owned("unknown"),
    }
}

fn exit_code_of(text: &str) -> (r: Option<i32>)
    ensures
        r == exit_code(lines(text@)),
{
    let ls = lines_of(text);
    let ghost l = lines(text@);
    proof {
        assert(vecs(ls@) =~= l);
        assert(l.skip(0) =~= l);
    }
    let p = chars_of("Exit code: ");
    let mut i: usize = 0;
    while i < ls.len()
        invariant
            i <= ls@.len(),
            vecs(ls@) == l,
            l == lines(text@),
            p@ == "Exit code: "@,
            exit_code(l) == exit_code(l.skip(i as int)),
        decreases ls@.len() - i,
    {
        proof {
            assert(l.skip(i as int).drop_first() =~= l.skip(i + 1));
            assert(l.skip(i as int)[0] == ls@[i as int]@);
        }
        let line = &ls[i];
        if matches_at(line.as_slice(), p.as_slice(), 0) {
            let rest = slice_vec(line.as_slice(), p.len(), line.len());
            let rs = string_of(&rest);
            let t = trim_chars(rs.as_str());
            let ts = string_of(&t);
            let v = parse_i32(ts.as_str());
            proof {
                assert(line@.subrange(0, p@.len() as int) =~= line@.take(p@.len() as int));
                assert(rest@ =~= line@.skip(p@.len() as int));
            }
            if v.is_some() {
                proof {
                    assert(is_prefix(p@, l.skip(i as int)[0]));
                    assert(ts@ == trim(rest@));
                    assert(v == i32_of(trim(line@.skip(p@.len() as int))));
                    assert(l.skip(i as int)[0] == line@);
                    assert(exit_code(l.skip(i as int)) == i32_of(trim(l.skip(i as int)[0].skip(p@.len() as int))));
                }
                return v;
            }
        } else {
            proof {
                if is_prefix(p@, line@) {
                    assert(line@.subrange(0, p@.len() as int) =~= line@.take(p@.len() as int));
                }
            }
        }
        i = i + 1;
    }
    None
}

fn short_command_of(cmd: String) -> (r: String)
    ensures
        r@ == short_command(cmd@),
{
    let v = chars_of(cmd.as_str());
    if cmd.as_str().as_bytes().len() > 80 {
        let k = fit_prefix_len(&v, 77);
        let head = take_vec(&v, k);
        let mut s = string_of(&head);
        push_str(&mut s, "...");
        s
    } else {
        cmd
    }
}

/// The metadata that replaces a tool result; `[cleared — name]` for tools
/// without a richer form.
pub fn to_metadata(tool_name: &str, content: &[Content], messages: &[AgentMessage], msg_idx: usize) -> (r: Vec<Content>)
    requires
        reads_call(tool_name@) ==> msg_idx < messages@.len(),
    ensures
        cv(r@) == seq![
            ContentV::Text {
                text: metadata_text(tool_name@, mv(messages@), msg_idx as int, join(text_parts(cv(content@)), "\n"@)),
            },
        ],
{
    let text = extract_text(content);
    let summary = if str_eq(tool_name, "Read") {
        let path = unknown_or(find_tool_use_param(messages, msg_idx, "path"));
        let mut s = owned("[cleared — ");
        push_str(&mut s, path.as_str());
        push_str(&mut s, ", ");
        push_usize(&mut s, crate::text::line_count(text.as_str()));
        push_str(&mut s, " lines]");
        proof {
            assert(s@ =~= metadata_text(tool_name@, mv(messages@), msg_idx as int, text@));
        }
        s
    } else if str_eq(tool_name, "Bash") {
        let cmd = unknown_or(find_tool_use_param(messages, msg_idx, "command"));
        let short = short_command_of(cmd);
        let mut s = owned("[cleared — `");
        push_str(&mut s, short.as_str());
        push_str(&mut s, "`");
        let ghost s0 = s@;
        let code = exit_code_of(text.as_str());
        match code {
            Some(c) => {
                push_str(&mut s, ", exit ");
                push_i32(&mut s, c);
            },
            None => {},
        }
        let ghost exit = match code {
            Some(c) => ", exit "@ + dec_i(c as int),
            None => Seq::<char>::empty(),
        };
        proof {
            assert(s@ =~= s0 + exit);
        }
        push_str(&mut s, ", ");
        push_usize(&mut s, crate::text::line_count(text.as_str()));
        push_str(&mut s, " lines]");
        proof {
            assert(s@ =~= metadata_text(tool_name@, mv(messages@), msg_idx as int, text@));
        }
        s
    } else if str_eq(tool_name, "Edit") || str_eq(tool_name, "Write") {
        let path = unknown_or(find_tool_use_param(messages, msg_idx, "path"));
        let mut s = owned("[cleared — ");
        push_str(&mut s, path.as_str());
        push_str(&mut s, "]");
        proof {
            assert(s@ =~= metadata_text(tool_name@, mv(messages@), msg_idx as int, text@));
        }
        s
    } else if str_eq(tool_name, "WebFetch") {
        let url = unknown_or(find_tool_use_param(messages, msg_idx, "url"));
        let mut s = owned("[cleared — ");
        push_str(&mut s, url.as_str());
        push_str(&mut s, ", ");
        push_usize(&mut s, text.as_str().as_bytes().len());
        push_str(&mut s, " chars]");
        proof {
            assert(s@ =~= metadata_text(tool_name@, mv(messages@), msg_idx as int, text@));
        }
        s
    } else {
        let mut s = owned("[cleared — ");
        push_str(&mut s, tool_name);
        push_str(&mut s, "]");
        proof {
            assert(s@ =~= metadata_text(tool_name@, mv(messages@), msg_idx as int, text@));
        }
        s
    };
    let mut v: Vec<Content> = Vec::new();
    v.push(Content::Text { text: summary });
    proof {
        assert(cv(v@) =~= seq![ContentV::Text { text: summary@ }]);
    }
    v
}

} // verus!
