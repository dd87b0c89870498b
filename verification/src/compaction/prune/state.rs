//! The state one batch of the call round reads, fitted to a token budget.

use vstd::prelude::*;
use crate::compaction::metadata::{text_parts, text_parts_of};
use crate::text::{chars_of, dec, join, join_strings, owned, push_chars, push_str, push_usize, slice_vec, string_of, strs, take_vec};
use crate::types::{AgentMessage, AgentMessageV, Content, ContentV, Message, MessageV, cv, mv};
use crate::tokens::sat;
use crate::compaction::passes::shrink::pass::sat_sub;
use super::candidates::{Candidate, CandidateV, cands_view};

verus! {

/// Characters of a tool result shown to the judge before abridging.
pub const RESULT_EXCERPT_CHARS: usize = 1_600;

/// Characters of CJK scripts, counted as a token each.
pub open spec fn is_cjk(c: char) -> bool {
    let u = c as u32;
    ||| 0x3000 <= u <= 0x9FFF
    ||| 0xAC00 <= u <= 0xD7AF
    ||| 0xF900 <= u <= 0xFAFF
    ||| 0xFF00 <= u <= 0xFFEF
    ||| 0x20000 <= u <= 0x3134F
}

pub open spec fn cjk_count(s: Seq<char>) -> nat
    decreases s.len(),
{
    if s.len() == 0 {
        0
    } else {
        cjk_count(s.drop_last()) + if is_cjk(s.last()) { 1nat } else { 0nat }
    }
}

/// Tokens estimated by script: a CJK character is a token, other text
/// about four characters a token (rounded up). Deliberately pessimistic.
pub open spec fn script_tokens(s: Seq<char>) -> int {
    let cjk = cjk_count(s) as int;
    let other = s.len() - cjk;
    cjk + (other + 3) / 4
}

proof fn lemma_cjk_le(s: Seq<char>)
    ensures
        cjk_count(s) <= s.len(),
    decreases s.len(),
{
    if s.len() > 0 {
        lemma_cjk_le(s.drop_last());
    }
}

/// Tokens of `text`, estimated by script.
pub fn estimate_tokens(text: &str) -> (r: usize)
    ensures
        r == script_tokens(text@),
{
    let v = chars_of(text);
    let mut cjk: usize = 0;
    let mut other: usize = 0;
    let mut i: usize = 0;
    while i < v.len()
        invariant
            i <= v@.len(),
            v@ == text@,
            cjk == cjk_count(v@.take(i as int)),
            other == i - cjk,
        decreases v@.len() - i,
    {
        proof {
            assert(v@.take(i + 1).drop_last() =~= v@.take(i as int));
            lemma_cjk_le(v@.take(i as int));
        }
        let c = v[i] as u32;
        if (0x3000 <= c && c <= 0x9FFF) || (0xAC00 <= c && c <= 0xD7AF) || (0xF900 <= c && c <= 0xFAFF) || (0xFF00
            <= c && c <= 0xFFEF) || (0x20000 <= c && c <= 0x3134F) {
            cjk = cjk + 1;
        } else {
            other = other + 1;
        }
        i = i + 1;
    }
    proof {
        assert(v@.take(v@.len() as int) =~= v@);
    }
    cjk + (other / 4 + if other % 4 > 0 { 1 } else { 0 })
}

/// The text blocks joined by line breaks.
pub fn text_of(content: &[Content]) -> (r: String)
    ensures
        r@ == join(text_parts(cv(content@)), "\n"@),
{
    let parts = text_parts_of(content);
    join_strings(parts.as_slice(), "\n")
}

/// `text` cut to `cap` characters: two thirds from the head and one third
/// from the tail around ` […] `.
pub open spec fn abridged(s: Seq<char>, cap: int) -> Seq<char> {
    if s.len() <= cap {
        s
    } else {
        s.take(cap * 2 / 3) + " […] "@ + s.skip(s.len() - cap / 3)
    }
}

pub fn abridge(text: &str, cap: usize) -> (r: String)
    requires
        cap <= usize::MAX / 2,
    ensures
        r@ == abridged(text@, cap as int),
{
    let v = chars_of(text);
    let n = v.len();
    if n <= cap {
        return owned(text);
    }
    let head = take_vec(&v, cap * 2 / 3);
    let tail = slice_vec(&v, n - cap / 3, n);
    let mut s = string_of(&head);
    push_str(&mut s, " […] ");
    push_chars(&mut s, tail.as_slice());
    proof {
        assert(v@.subrange(n - cap / 3, n as int) =~= v@.skip(n - cap / 3));
    }
    s
}

/// The position of the last call in `ids` with id `id`: its tag number.
pub open spec fn tag_of(ids: Seq<Seq<char>>, id: Seq<char>) -> Option<int>
    decreases ids.len(),
{
    if ids.len() == 0 {
        None
    } else if ids.last() == id {
        Some(ids.len() - 1)
    } else {
        tag_of(ids.drop_last(), id)
    }
}

pub open spec fn tag_text(t: Option<int>) -> Seq<char> {
    match t {
        Some(n) => "t"@ + dec(n as nat) + " "@,
        None => Seq::empty(),
    }
}

/// The call lines of an assistant message, and whether any is judged.
pub open spec fn call_lines(c: Seq<ContentV>, ids: Seq<Seq<char>>) -> (Seq<Seq<char>>, bool)
    decreases c.len(),
{
    if c.len() == 0 {
        (Seq::empty(), false)
    } else {
        let (ls, j) = call_lines(c.drop_last(), ids);
        match c.last() {
            ContentV::ToolCall { id, name, arguments } => (
                ls.push(tag_text(tag_of(ids, id)) + "call "@ + name + " "@ + arguments),
                j || tag_of(ids, id) is Some,
            ),
            _ => (ls, j),
        }
    }
}

pub open spec fn msg_text(c: Seq<ContentV>) -> Seq<char> {
    join(text_parts(c), "\n"@)
}

/// How a message is shown to the judge, and whether it is judged.
pub open spec fn entry_spec(m: AgentMessageV, ids: Seq<Seq<char>>) -> Option<(Seq<char>, bool)> {
    match m {
        AgentMessageV::Llm(MessageV::User { content, .. }) => Some(("user: "@ + msg_text(content), false)),
        AgentMessageV::Llm(MessageV::Assistant { content, .. }) => {
            let t = msg_text(content);
            let head: Seq<Seq<char>> = if t.len() == 0 { Seq::empty() } else { seq!["assistant: "@ + t] };
            let (cl, j) = call_lines(content, ids);
            let lines = head + cl;
            if lines.len() == 0 {
                None
            } else {
                Some((join(lines, "\n"@), j))
            }
        },
        AgentMessageV::Llm(MessageV::ToolResult { tool_call_id, tool_name, content, is_error, .. }) => {
            let tg = tag_of(ids, tool_call_id);
            Some((
                tag_text(tg) + tool_name + " -> "@ + (if is_error { "error"@ } else { "ok"@ }) + "\n"@ + abridged(
                    msg_text(content),
                    RESULT_EXCERPT_CHARS as int,
                ),
                tg is Some,
            ))
        },
        _ => None,
    }
}

/// One rendered message.
pub struct Entry {
    pub text: String,
    pub judged: bool,
}

pub open spec fn entries_view(s: Seq<Entry>) -> Seq<(Seq<char>, bool)> {
    s.map_values(|e: Entry| (e.text@, e.judged))
}

fn tag_lookup(ids: &Vec<String>, id: &String) -> (r: Option<usize>)
    ensures
        match r {
            Some(n) => tag_of(strs(ids@), id@) == Some(n as int),
            None => tag_of(strs(ids@), id@) is None,
        },
{
    let mut k = ids.len();
    proof {
        assert(strs(ids@).take(k as int) =~= strs(ids@));
    }
    while k > 0
        invariant
            k <= ids@.len(),
            tag_of(strs(ids@), id@) == tag_of(strs(ids@).take(k as int), id@),
        decreases k,
    {
        proof {
            assert(strs(ids@).take(k - 1) =~= strs(ids@).take(k as int).drop_last());
        }
        if crate::text::str_eq(ids[k - 1].as_str(), id.as_str()) {
            return Some(k - 1);
        }
        k = k - 1;
    }
    None
}

fn push_tag(s: &mut String, t: Option<usize>)
    ensures
        final(s)@ == old(s)@ + tag_text(match t {
            Some(n) => Some(n as int),
            None => None,
        }),
{
    if let Some(n) = t {
        push_str(s, "t");
        push_usize(s, n);
        push_str(s, " ");
    } else {
        proof {
            assert(old(s)@ + Seq::<char>::empty() =~= old(s)@);
        }
    }
}

pub fn render_entry(message: &AgentMessage, ids: &Vec<String>) -> (r: Option<Entry>)
    ensures
        match r {
            Some(e) => entry_spec(message@, strs(ids@)) == Some((e.text@, e.judged)),
            None => entry_spec(message@, strs(ids@)) is None,
        },
{
    match message {
        AgentMessage::Llm(Message::User { content, .. }) => {
            let mut s = owned("user: ");
            let t = text_of(content.as_slice());
            push_str(&mut s, t.as_str());
            Some(Entry { text: s, judged: false })
        },
        AgentMessage::Llm(Message::Assistant { content, .. }) => {
            let mut lines: Vec<String> = Vec::new();
            let t = text_of(content.as_slice());
            if t.as_str().unicode_len() != 0 {
                let mut a = owned("assistant: ");
                push_str(&mut a, t.as_str());
                lines.push(a);
            }
            let ghost head = strs(lines@);
            proof {
                if t@.len() == 0 {
                    assert(head =~= Seq::<Seq<char>>::empty());
                } else {
                    assert(head =~= seq!["assistant: "@ + t@]);
                }
            }
            let mut judged = false;
            let mut i: usize = 0;
            while i < content.len()
                invariant
                    i <= content@.len(),
                    strs(lines@) == head + call_lines(cv(content@.take(i as int)), strs(ids@)).0,
                    judged == call_lines(cv(content@.take(i as int)), strs(ids@)).1,
                decreases content@.len() - i,
            {
                proof {
                    assert(cv(content@.take(i + 1)).drop_last() =~= cv(content@.take(i as int)));
                    assert(cv(content@.take(i + 1)).last() == content@[i as int]@);
                }
                if let Content::ToolCall { id, name, arguments } = &content[i] {
                    let tag = tag_lookup(ids, id);
                    let mut l = String::new();
                    push_tag(&mut l, tag);
                    push_str(&mut l, "call ");
                    push_str(&mut l, name.as_str());
                    push_str(&mut l, " ");
                    push_str(&mut l, arguments.as_str());
                    let ghost pl = lines@;
                    lines.push(l);
                    if tag.is_some() {
                        judged = true;
                    }
                    proof {
                        assert(strs(lines@) =~= strs(pl).push(l@));
                    }
                }
                i = i + 1;
            }
            proof {
                assert(content@.take(content@.len() as int) =~= content@);
            }
            if lines.len() == 0 {
                None
            } else {
                Some(Entry { text: join_strings(lines.as_slice(), "\n"), judged })
            }
        },
        AgentMessage::Llm(Message::ToolResult { tool_call_id, tool_name, content, is_error, .. }) => {
            let tag = tag_lookup(ids, tool_call_id);
            let mut s = String::new();
            push_tag(&mut s, tag);
            push_str(&mut s, tool_name.as_str());
            push_str(&mut s, " -> ");
            push_str(&mut s, if *is_error { "error" } else { "ok" });
            push_str(&mut s, "\n");
            let body = text_of(content.as_slice());
            let ab = abridge(body.as_str(), RESULT_EXCERPT_CHARS);
            push_str(&mut s, ab.as_str());
            Some(Entry { text: s, judged: tag.is_some() })
        },
        _ => None,
    }
}

/// Tokens of the entries, a line break each (saturating).
pub open spec fn entries_total(es: Seq<(Seq<char>, bool)>) -> int
    decreases es.len(),
{
    if es.len() == 0 {
        0
    } else {
        sat(entries_total(es.drop_last()) + sat(script_tokens(es.last().0) + 1))
    }
}

/// The first `k` entries longer than `cap` characters abridged to `cap`.
pub open spec fn abridge_first(es: Seq<(Seq<char>, bool)>, cap: int, k: int) -> Seq<(Seq<char>, bool)> {
    Seq::new(es.len(), |i: int| if i < k && es[i].0.len() > cap { (abridged(es[i].0, cap), es[i].1) } else { es[i] })
}

/// The first `k` entries that are not judged replaced by a note of their
/// length.
pub open spec fn omit_first(es: Seq<(Seq<char>, bool)>, k: int) -> Seq<(Seq<char>, bool)> {
    Seq::new(
        es.len(),
        |i: int| if i < k && !es[i].1 {
            ("[… "@ + dec(es[i].0.len()) + " chars omitted …]"@, es[i].1)
        } else {
            es[i]
        },
    )
}

/// Fitting into `budget`: the older three quarters abridged to 1000, 400,
/// 160, then 60 characters, then every entry to 400, 160, 60, stopping as
/// soon as the entries fit; if they still do not, the older entries that
/// are not judged become notes.
#[verifier::opaque]
pub open spec fn fit_spec(es: Seq<(Seq<char>, bool)>, budget: int) -> Seq<(Seq<char>, bool)> {
    let a = es.len() - es.len() / 4;
    let n = es.len() as int;
    let e1 = abridge_first(es, 1000, a);
    let e2 = abridge_first(e1, 400, a);
    let e3 = abridge_first(e2, 160, a);
    let e4 = abridge_first(e3, 60, a);
    let f1 = abridge_first(e4, 400, n);
    let f2 = abridge_first(f1, 160, n);
    let f3 = abridge_first(f2, 60, n);
    if entries_total(es) <= budget {
        es
    } else if entries_total(e1) <= budget {
        e1
    } else if entries_total(e2) <= budget {
        e2
    } else if entries_total(e3) <= budget {
        e3
    } else if entries_total(e4) <= budget {
        e4
    } else if entries_total(f1) <= budget {
        f1
    } else if entries_total(f2) <= budget {
        f2
    } else if entries_total(f3) <= budget {
        f3
    } else {
        omit_first(f3, a)
    }
}

fn total_of(entries: &Vec<Entry>) -> (r: usize)
    ensures
        r == entries_total(entries_view(entries@)),
{
    let mut acc: usize = 0;
    let mut i: usize = 0;
    while i < entries.len()
        invariant
            i <= entries@.len(),
            acc == entries_total(entries_view(entries@.take(i as int))),
        decreases entries@.len() - i,
    {
        proof {
            assert(entries_view(entries@.take(i + 1)).drop_last() =~= entries_view(entries@.take(i as int)));
            assert(entries_view(entries@.take(i + 1)).last() == (entries@[i as int].text@, entries@[i as int].judged));
        }
        acc = acc.saturating_add(estimate_tokens(entries[i].text.as_str()).saturating_add(1));
        i = i + 1;
    }
    proof {
        assert(entries@.take(entries@.len() as int) =~= entries@);
    }
    acc
}

fn abridge_entries(entries: Vec<Entry>, cap: usize, k: usize) -> (r: Vec<Entry>)
    requires
        cap <= 1000,
    ensures
        entries_view(r@) == abridge_first(entries_view(entries@), cap as int, k as int),
{
    let ghost raw = entries@;
    let n = entries.len();
    let mut out: Vec<Entry> = Vec::new();
    let mut i: usize = 0;
    for e in it: entries
        invariant
            it.seq() == raw,
            i == it.index(),
            n == raw.len(),
            cap <= 1000,
            entries_view(out@) == abridge_first(entries_view(raw), cap as int, k as int).take(i as int),
            out@.len() == i,
    {
        let ghost po = out@;
        proof {
            assert(entries_view(raw)[i as int] == (e.text@, e.judged));
            assert(i < n);
        }
        let len = e.text.as_str().unicode_len();
        if i < k && len > cap {
            out.push(Entry { text: abridge(e.text.as_str(), cap), judged: e.judged });
        } else {
            out.push(e);
        }
        proof {
            let x = abridge_first(entries_view(raw), cap as int, k as int);
            assert(entries_view(out@) =~= entries_view(po).push(x[i as int]));
            assert(x.take(i + 1) =~= x.take(i as int).push(x[i as int]));
        }
        i = i + 1;
    }
    proof {
        let x = abridge_first(entries_view(raw), cap as int, k as int);
        assert(x.take(raw.len() as int) =~= x);
    }
    out
}

fn omit_entries(entries: Vec<Entry>, k: usize) -> (r: Vec<Entry>)
    ensures
        entries_view(r@) == omit_first(entries_view(entries@), k as int),
{
    let ghost raw = entries@;
    let n = entries.len();
    let mut out: Vec<Entry> = Vec::new();
    let mut i: usize = 0;
    for e in it: entries
        invariant
            it.seq() == raw,
            i == it.index(),
            n == raw.len(),
            entries_view(out@) == omit_first(entries_view(raw), k as int).take(i as int),
            out@.len() == i,
    {
        let ghost po = out@;
        proof {
            assert(entries_view(raw)[i as int] == (e.text@, e.judged));
            assert(i < n);
        }
        if i < k && !e.judged {
            let mut s = owned("[… ");
            push_usize(&mut s, e.text.as_str().unicode_len());
            push_str(&mut s, " chars omitted …]");
            out.push(Entry { text: s, judged: e.judged });
        } else {
            out.push(e);
        }
        proof {
            let x = omit_first(entries_view(raw), k as int);
            assert(entries_view(out@) =~= entries_view(po).push(x[i as int]));
            assert(x.take(i + 1) =~= x.take(i as int).push(x[i as int]));
        }
        i = i + 1;
    }
    proof {
        let x = omit_first(entries_view(raw), k as int);
        assert(x.take(raw.len() as int) =~= x);
    }
    out
}

/// Abridges oldest entries first until the state fits.
pub fn fit(entries: Vec<Entry>, budget: usize) -> (r: Vec<Entry>)
    ensures
        entries_view(r@) == fit_spec(entries_view(entries@), budget as int),
{
    reveal(fit_spec);
    if total_of(&entries) <= budget {
        return entries;
    }
    let n = entries.len();
    let a = n - n / 4;
    let e1 = abridge_entries(entries, 1000, a);
    if total_of(&e1) <= budget {
        return e1;
    }
    let e2 = abridge_entries(e1, 400, a);
    if total_of(&e2) <= budget {
        return e2;
    }
    let e3 = abridge_entries(e2, 160, a);
    if total_of(&e3) <= budget {
        return e3;
    }
    let e4 = abridge_entries(e3, 60, a);
    if total_of(&e4) <= budget {
        return e4;
    }
    let f1 = abridge_entries(e4, 400, n);
    if total_of(&f1) <= budget {
        return f1;
    }
    let f2 = abridge_entries(f1, 160, n);
    if total_of(&f2) <= budget {
        return f2;
    }
    let f3 = abridge_entries(f2, 60, n);
    if total_of(&f3) <= budget {
        return f3;
    }
    omit_entries(f3, a)
}

/// The first message a batch's state shows: the earliest call (0 for no
/// call).
pub open spec fn min_call(b: Seq<CandidateV>) -> int
    decreases b.len(),
{
    if b.len() == 0 {
        0
    } else if b.len() == 1 {
        b[0].call_index
    } else {
        let m = min_call(b.drop_last());
        if b.last().call_index < m { b.last().call_index } else { m }
    }
}

pub open spec fn end_of(c: CandidateV) -> int {
    match c.result_index {
        Some(x) => x as int,
        None => c.call_index,
    }
}

/// The latest result (or call, for a call without result) of a batch.
pub open spec fn max_end(b: Seq<CandidateV>, from: int) -> int
    decreases b.len(),
{
    if b.len() == 0 {
        from
    } else if b.len() == 1 {
        end_of(b[0])
    } else {
        let m = max_end(b.drop_last(), from);
        if end_of(b.last()) > m { end_of(b.last()) } else { m }
    }
}

/// The last message a batch's state shows.
pub open spec fn render_to(ms: Seq<AgentMessageV>, b: Seq<CandidateV>) -> int {
    let e = max_end(b, min_call(b));
    let last = sat_sub(ms.len() as int, 1);
    if e < last { e } else { last }
}

/// The entries of messages `[lo, hi)`.
pub open spec fn entries_between(ms: Seq<AgentMessageV>, ids: Seq<Seq<char>>, lo: int, hi: int) -> Seq<(Seq<char>, bool)>
    decreases hi - lo,
{
    if hi <= lo {
        Seq::empty()
    } else {
        entries_between(ms, ids, lo, hi - 1) + match entry_spec(ms[hi - 1], ids) {
            Some(e) => seq![e],
            None => Seq::empty(),
        }
    }
}

pub open spec fn call_ids_of(b: Seq<CandidateV>) -> Seq<Seq<char>> {
    b.map_values(|c: CandidateV| c.call_id)
}

pub open spec fn texts(es: Seq<(Seq<char>, bool)>) -> Seq<Seq<char>> {
    es.map_values(|e: (Seq<char>, bool)| e.0)
}

/// The state one batch reads: the task, then the stretch of conversation
/// from the batch's first call to its last result, fitted into `budget`
/// tokens, and a line on how much conversation follows.
pub open spec fn render_spec(ms: Seq<AgentMessageV>, b: Seq<CandidateV>, task: Seq<char>, budget: int) -> (Seq<char>, int, int) {
    let from = min_call(b);
    let to = render_to(ms, b);
    let es = entries_between(ms, call_ids_of(b), from, to + 1);
    let after = sat_sub(ms.len() as int, to + 1);
    let head = head_spec(task, from, to, ms.len() as int);
    let tail = tail_spec(after);
    let fitted = fit_spec(es, sat_sub(budget, sat(script_tokens(head) + script_tokens(tail))));
    (head + "\n"@ + join(texts(fitted), "\n"@) + "\n"@ + tail, from, to)
}

pub proof fn lemma_min_call_bound(b: Seq<CandidateV>, n: int)
    requires
        forall|k: int| 0 <= k < b.len() ==> 0 <= #[trigger] b[k].call_index < n,
        n > 0,
    ensures
        0 <= min_call(b) < n,
    decreases b.len(),
{
    if b.len() > 1 {
        lemma_min_call_bound(b.drop_last(), n);
        assert(b.drop_last().len() > 0);
    }
}

pub(crate) fn batch_range(batch: &[Candidate]) -> (r: (Vec<String>, usize, usize))
    ensures
        strs(r.0@) == call_ids_of(cands_view(batch@)),
        r.1 == min_call(cands_view(batch@)),
        r.2 == max_end(cands_view(batch@), min_call(cands_view(batch@))),
{
    let ghost b = cands_view(batch@);
    let mut ids: Vec<String> = Vec::new();
    let mut from: usize = 0;
    let mut maxe: usize = 0;
    let mut k: usize = 0;
    while k < batch.len()
        invariant
            k <= batch@.len(),
            b == cands_view(batch@),
            strs(ids@) == call_ids_of(b.take(k as int)),
            k == 0 ==> from == 0,
            k > 0 ==> from == min_call(b.take(k as int)),
            k > 0 ==> maxe == max_end(b.take(k as int), min_call(b.take(k as int))),
        decreases batch@.len() - k,
    {
        let c = &batch[k];
        proof {
            assert(b[k as int] == c@);
            assert(b.take(k + 1).drop_last() =~= b.take(k as int));
            assert(b.take(k + 1).last() == c@);
            if k == 0 {
                assert(b.take(1).len() == 1);
                assert(b.take(1)[0] == c@);
            }
        }
        let e = match c.result_index {
            Some(x) => x,
            None => c.call_index,
        };
        if k == 0 || c.call_index < from {
            from = c.call_index;
        }
        if k == 0 || e > maxe {
            maxe = e;
        }
        let ghost pi = ids@;
        ids.push(c.call_id.clone());
        proof {
            assert(strs(ids@) =~= strs(pi).push(c.call_id@));
            assert(call_ids_of(b.take(k + 1)) =~= call_ids_of(b.take(k as int)).push(c@.call_id));
            if k > 0 {
                lemma_max_end_from(b.take(k as int), min_call(b.take(k + 1)), min_call(b.take(k as int)));
            }
        }
        k = k + 1;
    }
    proof {
        assert(b.len() == batch@.len());
        assert(b.take(k as int) =~= b);
        if k > 0 {
            assert(from == min_call(b));
            assert(maxe == max_end(b, min_call(b)));
        }
    }
    if batch.len() == 0 {
        maxe = from;
    }
    (ids, from, maxe)
}

fn entries_of(messages: &[AgentMessage], ids: &Vec<String>, from: usize, to: usize) -> (r: Vec<Entry>)
    requires
        from <= to + 1,
        to < messages@.len(),
    ensures
        entries_view(r@) == entries_between(mv(messages@), strs(ids@), from as int, to + 1),
{
    let ghost ms = mv(messages@);
    let mut entries: Vec<Entry> = Vec::new();
    let mut i = from;
    while i <= to
        invariant
            from <= i <= to + 1,
            to < messages@.len(),
            ms == mv(messages@),
            entries_view(entries@) == entries_between(ms, strs(ids@), from as int, i as int),
        decreases to + 1 - i,
    {
        proof {
            assert(ms[i as int] == messages@[i as int]@);
        }
        let ghost pe = entries@;
        match render_entry(&messages[i], ids) {
            Some(e) => {
                entries.push(e);
                proof {
                    assert(entries_view(entries@) =~= entries_view(pe) + seq![(entries@[entries@.len() - 1].text@, entries@[entries@.len() - 1].judged)]);
                }
            },
            None => {
                proof {
                    assert(entries_view(entries@) =~= entries_view(pe) + Seq::<(Seq<char>, bool)>::empty());
                }
            },
        }
        i = i + 1;
    }
    entries
}

fn joined_texts(fitted: &Vec<Entry>) -> (r: String)
    ensures
        r@ == join(texts(entries_view(fitted@)), "\n"@),
{
    let mut parts: Vec<String> = Vec::new();
    let mut j: usize = 0;
    let ghost fv = entries_view(fitted@);
    while j < fitted.len()
        invariant
            j <= fitted@.len(),
            fv == entries_view(fitted@),
            strs(parts@) == texts(fv).take(j as int),
        decreases fitted@.len() - j,
    {
        let ghost pp = parts@;
        parts.push(fitted[j].text.clone());
        proof {
            assert(strs(parts@) =~= strs(pp).push(fitted@[j as int].text@));
            assert(texts(fv).take(j + 1) =~= texts(fv).take(j as int).push(texts(fv)[j as int]));
        }
        j = j + 1;
    }
    proof {
        assert(texts(fv).take(fv.len() as int) =~= texts(fv));
    }
    join_strings(parts.as_slice(), "\n")
}

pub open spec fn head_spec(task: Seq<char>, from: int, to: int, n: int) -> Seq<char> {
    task + "\n\n# Conversation (messages "@ + dec(from as nat) + "–"@ + dec(to as nat) + " of "@ + dec(n as nat)
        + "; the calls to judge are tagged t0, t1, …)"@
}

pub open spec fn tail_spec(after: int) -> Seq<char> {
    if after > 0 {
        "[… "@ + dec(after as nat) + " later messages follow, up to the present …]"@
    } else {
        "[end of conversation]"@
    }
}

fn head_text(task: &str, from: usize, to: usize, n: usize) -> (r: String)
    ensures
        r@ == head_spec(task@, from as int, to as int, n as int),
{
    let mut head = owned(task);
    push_str(&mut head, "\n\n# Conversation (messages ");
    push_usize(&mut head, from);
    push_str(&mut head, "–");
    push_usize(&mut head, to);
    push_str(&mut head, " of ");
    push_usize(&mut head, n);
    push_str(&mut head, "; the calls to judge are tagged t0, t1, …)");
    head
}

fn tail_text(after: usize) -> (r: String)
    ensures
        r@ == tail_spec(after as int),
{
    if after > 0 {
        let mut t = owned("[… ");
        push_usize(&mut t, after);
        push_str(&mut t, " later messages follow, up to the present …]");
        t
    } else {
        owned("[end of conversation]")
    }
}

/// Renders the state of a batch; returns it with the message range shown.
pub fn render(messages: &[AgentMessage], batch: &[Candidate], task: &str, budget: usize) -> (r: (String, usize, usize))
    requires
        messages@.len() > 0,
        min_call(cands_view(batch@)) <= render_to(mv(messages@), cands_view(batch@)) + 1,
    ensures
        (r.0@, r.1 as int, r.2 as int) == render_spec(mv(messages@), cands_view(batch@), task@, budget as int),
{
    let (ids, from, maxe) = batch_range(batch);
    let last = messages.len() - 1;
    let to = if maxe < last { maxe } else { last };
    let entries = entries_of(messages, &ids, from, to);
    let after = messages.len().saturating_sub(to + 1);
    let head = head_text(task, from, to, messages.len());
    let tail = tail_text(after);
    let room = budget.saturating_sub(estimate_tokens(head.as_str()).saturating_add(estimate_tokens(tail.as_str())));
    let fitted = fit(entries, room);
    let body = joined_texts(&fitted);
    let mut out = head;
    push_str(&mut out, "\n");
    push_str(&mut out, body.as_str());
    push_str(&mut out, "\n");
    push_str(&mut out, tail.as_str());
    (out, from, to)
}

proof fn lemma_max_end_from(b: Seq<CandidateV>, f1: int, f2: int)
    requires
        b.len() > 0,
    ensures
        max_end(b, f1) == max_end(b, f2),
    decreases b.len(),
{
    if b.len() > 1 {
        lemma_max_end_from(b.drop_last(), f1, f2);
    }
}

} // verus!
