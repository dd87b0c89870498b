//! Head/tail text truncation.

use vstd::prelude::*;
use crate::text::{chars_of, dec, join, lines, lines_of, owned, push_char, push_chars, push_str, push_usize, slice_vec, take_vec, vecs};
use crate::types::{Content, ContentV, cv};
use crate::tokens::{content_tokens, ctoks};
use super::outline::{ToolCallEntry, entries_view, try_outline, try_outline_spec};

verus! {

/// Each line followed by a line break.
pub open spec fn terminated(ls: Seq<Seq<char>>) -> Seq<char>
    decreases ls.len(),
{
    if ls.len() == 0 {
        Seq::empty()
    } else {
        terminated(ls.drop_last()) + ls.last() + seq!['\n']
    }
}

/// Character budget of a single-block truncation.
pub open spec fn max_chars_of(max_lines: int) -> int {
    (if max_lines < 1 { 1 } else { max_lines }) * 120
}

/// A text of few lines cut to `max(max_lines, 1) * 120` characters: the
/// first three fifths and the last two fifths of the budget around a marker.
pub open spec fn single_block_spec(s: Seq<char>, max_lines: int) -> Seq<char> {
    let m = max_chars_of(max_lines);
    if s.len() <= m {
        s
    } else {
        let h = m * 3 / 5;
        s.take(h) + "\n\n[... "@ + dec((s.len() - m) as nat) + " chars truncated ...]\n\n"@ + s.skip(s.len() - (m - h))
    }
}

/// `text` cut to `max_lines` lines: the first three fifths and the last two
/// fifths around a marker that counts the omitted lines. A text within the
/// line budget is cut by characters instead.
pub open spec fn head_tail_spec(s: Seq<char>, max_lines: int) -> Seq<char> {
    let ls = lines(s);
    if ls.len() <= max_lines {
        single_block_spec(s, max_lines)
    } else {
        let h = max_lines * 3 / 5;
        let t = max_lines - h;
        terminated(ls.take(h)) + "\n\n[... "@ + dec((ls.len() - h - t) as nat) + " lines truncated ...]\n\n"@
            + join(ls.skip(ls.len() - t), "\n"@)
    }
}

fn truncate_single_block(text: &str, max_lines: usize) -> (r: String)
    requires
        max_lines <= usize::MAX / 360,
    ensures
        r@ == single_block_spec(text@, max_lines as int),
{
    let max_chars: usize = if max_lines < 1 { 120 } else { max_lines * 120 };
    assert(max_chars * 3 <= usize::MAX) by (nonlinear_arith)
        requires
            max_chars == 120 || max_chars == max_lines * 120,
            max_lines <= usize::MAX / 360,
    ;
    let v = chars_of(text);
    let n = v.len();
    if n <= max_chars {
        return owned(text);
    }
    let head_chars = max_chars * 3 / 5;
    let tail_chars = max_chars - head_chars;
    let head = take_vec(&v, head_chars);
    let tail = slice_vec(&v, n - tail_chars, n);
    let mut r = String::new();
    push_chars(&mut r, head.as_slice());
    push_str(&mut r, "\n\n[... ");
    push_usize(&mut r, n - max_chars);
    push_str(&mut r, " chars truncated ...]\n\n");
    push_chars(&mut r, tail.as_slice());
    proof {
        assert(v@.subrange(n - tail_chars, n as int) =~= v@.skip(n - tail_chars));
        assert(r@ =~= single_block_spec(text@, max_lines as int));
    }
    r
}

/// Truncates text keeping head and tail with a marker in between. A single
/// long line is cut to `max_lines * 120` characters, three fifths of them
/// from the head: that product times three must fit in a `usize`, hence the
/// bound on `max_lines`.
pub fn truncate_text_head_tail(text: &str, max_lines: usize) -> (r: String)
    requires
        max_lines <= usize::MAX / 360,
    ensures
        r@ == head_tail_spec(text@, max_lines as int),
{
    let ls = lines_of(text);
    let ghost l = lines(text@);
    proof {
        assert(vecs(ls@) =~= l);
    }
    if ls.len() <= max_lines {
        return truncate_single_block(text, max_lines);
    }
    let head_count = (max_lines * 3) / 5;
    let tail_count = max_lines - head_count;
    let omitted = ls.len() - head_count - tail_count;
    let mut r = String::new();
    let mut i: usize = 0;
    while i < head_count
        invariant
            head_count <= max_lines < ls@.len(),
            vecs(ls@) == l,
            i <= head_count,
            r@ == terminated(l.take(i as int)),
        decreases head_count - i,
    {
        proof {
            assert(l.take(i + 1).drop_last() =~= l.take(i as int));
            assert(l[i as int] == ls@[i as int]@);
        }
        push_chars(&mut r, ls[i].as_slice());
        push_char(&mut r, '\n');
        i = i + 1;
    }
    push_str(&mut r, "\n\n[... ");
    push_usize(&mut r, omitted);
    push_str(&mut r, " lines truncated ...]\n\n");
    let ghost prefix = r@;
    let start = ls.len() - tail_count;
    let ghost tail = l.skip(start as int);
    let mut j: usize = 0;
    while j < tail_count
        invariant
            start + tail_count == ls.len(),
            vecs(ls@) == l,
            tail == l.skip(start as int),
            j <= tail_count,
            r@ == prefix + join(tail.take(j as int), "\n"@),
        decreases tail_count - j,
    {
        proof {
            assert(tail.take(j + 1).drop_last() =~= tail.take(j as int));
            assert(tail[j as int] == ls@[start + j]@);
        }
        let ghost before = r@;
        if j > 0 {
            push_char(&mut r, '\n');
        }
        push_chars(&mut r, ls[start + j].as_slice());
        proof {
            if j == 0 {
                assert(join(tail.take(1), "\n"@) == tail[0]);
                assert(r@ =~= prefix + join(tail.take(j + 1), "\n"@));
            } else {
                reveal_strlit("\n");
                assert(tail.take(j + 1).last() == tail[j as int]);
                assert(join(tail.take(j + 1), "\n"@) == join(tail.take(j as int), "\n"@) + "\n"@ + tail[j as int]);
                assert(r@ =~= prefix + join(tail.take(j + 1), "\n"@));
            }
        }
        j = j + 1;
    }
    proof {
        assert(tail.take(tail_count as int) =~= tail);
        assert(r@ =~= head_tail_spec(text@, max_lines as int));
    }
    r
}

/// A block with its text cut by `head_tail_spec`; other blocks unchanged.
pub open spec fn head_tail_block(b: ContentV, max_lines: int) -> ContentV {
    match b {
        ContentV::Text { text } => ContentV::Text { text: head_tail_spec(text, max_lines) },
        _ => b,
    }
}

pub open spec fn head_tail_blocks(c: Seq<ContentV>, max_lines: int) -> Seq<ContentV> {
    c.map_values(|b: ContentV| head_tail_block(b, max_lines))
}

/// Every text block cut to `max_lines`.
pub fn head_tail_content(content: &[Content], max_lines: usize) -> (r: Vec<Content>)
    requires
        max_lines <= usize::MAX / 360,
    ensures
        cv(r@) == head_tail_blocks(cv(content@), max_lines as int),
{
    let mut out: Vec<Content> = Vec::new();
    let mut i: usize = 0;
    while i < content.len()
        invariant
            i <= content@.len(),
            max_lines <= usize::MAX / 360,
            cv(out@) == head_tail_blocks(cv(content@.take(i as int)), max_lines as int),
        decreases content@.len() - i,
    {
        let ghost po = out@;
        match &content[i] {
            Content::Text { text } => {
                out.push(Content::Text { text: truncate_text_head_tail(text.as_str(), max_lines) });
            },
            other => {
                out.push(other.clone());
            },
        }
        proof {
            assert(cv(out@) =~= cv(po).push(out@[i as int]@));
            assert(head_tail_blocks(cv(content@.take(i + 1)), max_lines as int) =~= head_tail_blocks(
                cv(content@.take(i as int)),
                max_lines as int,
            ).push(head_tail_block(content@[i as int]@, max_lines as int)));
        }
        i = i + 1;
    }
    proof {
        assert(content@.take(content@.len() as int) =~= content@);
    }
    out
}

/// A tool result cut to `max_lines`: the structural outline where the tool
/// prefers one and the outline is smaller than both the original and the
/// head/tail cut, otherwise the head/tail cut.
pub open spec fn truncate_content_spec(
    c: Seq<ContentV>,
    tool_call_id: Seq<char>,
    index: Seq<(Seq<char>, Seq<char>)>,
    max_lines: int,
    prefer_outline: bool,
) -> Seq<ContentV> {
    let ht = head_tail_blocks(c, max_lines);
    match try_outline_spec(c, tool_call_id, index) {
        Some(o) => if prefer_outline && ctoks(o) < ctoks(c) && ctoks(o) <= ctoks(ht) {
            o
        } else {
            ht
        },
        None => ht,
    }
}

/// Truncates tool result content using an outline or head/tail.
pub fn truncate_content(
    content: &[Content],
    tool_name: &str,
    tool_call_id: &str,
    tool_call_index: &[ToolCallEntry],
    max_lines: usize,
    prefer_outline: bool,
) -> (r: Vec<Content>)
    requires
        max_lines <= usize::MAX / 360,
    ensures
        cv(r@) == truncate_content_spec(
            cv(content@),
            tool_call_id@,
            entries_view(tool_call_index@),
            max_lines as int,
            prefer_outline,
        ),
{
    let original_tokens = content_tokens(content);
    let head_tail = head_tail_content(content, max_lines);
    if prefer_outline {
        if let Some(outlined) = try_outline(content, tool_name, tool_call_id, tool_call_index) {
            let ot = content_tokens(&outlined);
            if ot < original_tokens && ot <= content_tokens(&head_tail) {
                return outlined;
            }
        }
    }
    head_tail
}

} // verus!
