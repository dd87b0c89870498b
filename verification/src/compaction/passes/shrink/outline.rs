//! Outline-based truncation for code files: the definition lines of a long
//! source listing stand in for its body.

use vstd::prelude::*;
use crate::text::{all_ascii_digits, chars_of, ends_with, find_sub, has_sub, is_prefix, is_suffix, join, lines, lines_of, occurs_at, push_str, slice_vec, starts_with, string_of, take_vec, trim, trim_chars, trim_start, trim_start_chars, vecs};
use crate::types::{Content, ContentV, cv};

verus! {

/// One tool call seen in the history: its id and the compact JSON text of
/// its input.
pub struct ToolCallEntry {
    pub id: String,
    pub arguments: String,
}

/// The (id, arguments) views of an index.
pub open spec fn entries_view(v: Seq<ToolCallEntry>) -> Seq<(Seq<char>, Seq<char>)> {
    v.map_values(|e: ToolCallEntry| (e.id@, e.arguments@))
}

/// The arguments recorded last under `id` (a later call with the same id
/// replaces an earlier one).
pub open spec fn lookup_last(es: Seq<(Seq<char>, Seq<char>)>, id: Seq<char>) -> Option<Seq<char>>
    decreases es.len(),
{
    if es.len() == 0 {
        None
    } else if es.last().0 == id {
        Some(es.last().1)
    } else {
        lookup_last(es.drop_last(), id)
    }
}

/// The arguments recorded under `id`.
pub fn index_lookup(index: &[ToolCallEntry], id: &str) -> (r: Option<String>)
    ensures
        opt_str(r) == lookup_last(entries_view(index@), id@),
{
    let mut n = index.len();
    proof {
        assert(entries_view(index@).take(n as int) =~= entries_view(index@));
    }
    while n > 0
        invariant
            n <= index@.len(),
            lookup_last(entries_view(index@), id@) == lookup_last(entries_view(index@).take(n as int), id@),
        decreases n,
    {
        proof {
            assert(entries_view(index@).take(n - 1) =~= entries_view(index@).take(n as int).drop_last());
        }
        if crate::text::str_eq(index[n - 1].id.as_str(), id) {
            return Some(index[n - 1].arguments.clone());
        }
        n = n - 1;
    }
    None
}

pub open spec fn opt_str(o: Option<String>) -> Option<Seq<char>> {
    match o {
        Some(s) => Some(s@),
        None => None,
    }
}

/// The position of the first occurrence of `p` in `s` (meaningful when it
/// occurs).
pub open spec fn first_occ(s: Seq<char>, p: Seq<char>) -> int {
    choose|i: int| occurs_at(s, p, i) && forall|j: int| 0 <= j < i ==> !occurs_at(s, p, j)
}

proof fn lemma_first_occ(s: Seq<char>, p: Seq<char>, i: int)
    requires
        occurs_at(s, p, i),
        forall|j: int| 0 <= j < i ==> !occurs_at(s, p, j),
    ensures
        first_occ(s, p) == i,
{
    let k = first_occ(s, p);
    assert(occurs_at(s, p, k) && forall|j: int| 0 <= j < k ==> !occurs_at(s, p, j));
    if k < i {
        assert(!occurs_at(s, p, k));
    }
    if k > i {
        assert(!occurs_at(s, p, i));
    }
}

fn find_first(s: &[char], p: &[char]) -> (r: Option<usize>)
    ensures
        match r {
            Some(i) => has_sub(s@, p@) && i == first_occ(s@, p@) && i + p@.len() <= s@.len(),
            None => !has_sub(s@, p@),
        },
{
    let r = find_sub(s, p);
    proof {
        if let Some(i) = r {
            lemma_first_occ(s@, p@, i as int);
        }
    }
    r
}

/// The string value of the first `"path"` member of a JSON text, read
/// loosely: the key, optional spaces, a colon, optional spaces, and a quoted
/// value up to the next quote.
#[verifier::opaque]
pub open spec fn extract_path_spec(input: Seq<char>) -> Option<Seq<char>> {
    let pat = "\"path\""@;
    if !has_sub(input, pat) {
        None
    } else {
        let a1 = trim_start(input.skip(first_occ(input, pat) + pat.len()));
        if a1.len() == 0 || a1[0] != ':' {
            None
        } else {
            let a2 = trim_start(a1.skip(1));
            if a2.len() == 0 || a2[0] != '"' {
                None
            } else {
                let a3 = a2.skip(1);
                if !has_sub(a3, seq!['"']) {
                    None
                } else {
                    Some(a3.take(first_occ(a3, seq!['"'])))
                }
            }
        }
    }
}

fn quote_vec() -> (v: Vec<char>)
    ensures
        v@ == seq!['"'],
{
    let mut v: Vec<char> = Vec::new();
    v.push('"');
    v
}

fn extract_path(input: &str) -> (r: Option<String>)
    ensures
        opt_str(r) == extract_path_spec(input@),
{
    proof {
        reveal(extract_path_spec);
    }
    let s = chars_of(input);
    let n = s.len();
    let pat = chars_of("\"path\"");
    let pos = match find_first(&s, &pat) {
        Some(p) => p,
        None => return None,
    };
    let rest = slice_vec(&s, pos + pat.len(), n);
    let a1 = trim_start_chars(&rest);
    proof {
        assert(rest@ =~= s@.skip(pos + pat@.len()));
    }
    if a1.len() == 0 || a1[0] != ':' {
        return None;
    }
    let r1 = slice_vec(&a1, 1, a1.len());
    let a2 = trim_start_chars(&r1);
    proof {
        assert(r1@ =~= a1@.skip(1));
    }
    if a2.len() == 0 || a2[0] != '"' {
        return None;
    }
    let a3 = slice_vec(&a2, 1, a2.len());
    proof {
        assert(a3@ =~= a2@.skip(1));
    }
    let q = quote_vec();
    match find_first(&a3, &q) {
        Some(end) => {
            let v = take_vec(&a3, end);
            Some(string_of(&v))
        },
        None => None,
    }
}

/// Paths with a source-code extension.
#[verifier::opaque]
pub open spec fn is_code_path(p: Seq<char>) -> bool {
    ||| is_suffix(".rs"@, p)
    ||| is_suffix(".py"@, p)
    ||| is_suffix(".ts"@, p)
    ||| is_suffix(".tsx"@, p)
    ||| is_suffix(".js"@, p)
    ||| is_suffix(".jsx"@, p)
    ||| is_suffix(".go"@, p)
    ||| is_suffix(".java"@, p)
    ||| is_suffix(".c"@, p)
    ||| is_suffix(".cpp"@, p)
    ||| is_suffix(".h"@, p)
    ||| is_suffix(".hpp"@, p)
    ||| is_suffix(".rb"@, p)
    ||| is_suffix(".swift"@, p)
    ||| is_suffix(".kt"@, p)
}

fn is_code_file(path: &str) -> (r: bool)
    ensures
        r == is_code_path(path@),
{
    reveal(is_code_path);
    ends_with(path, ".rs") || ends_with(path, ".py") || ends_with(path, ".ts") || ends_with(path, ".tsx")
        || ends_with(path, ".js") || ends_with(path, ".jsx") || ends_with(path, ".go") || ends_with(
        path,
        ".java",
    ) || ends_with(path, ".c") || ends_with(path, ".cpp") || ends_with(path, ".h") || ends_with(path, ".hpp")
        || ends_with(path, ".rb") || ends_with(path, ".swift") || ends_with(path, ".kt")
}

/// Lines that open a definition in common languages.
#[verifier::opaque]
pub open spec fn is_definition(l: Seq<char>) -> bool {
    ||| is_prefix("fn "@, l)
    ||| is_prefix("pub fn "@, l)
    ||| is_prefix("pub(crate) fn "@, l)
    ||| is_prefix("async fn "@, l)
    ||| is_prefix("pub async fn "@, l)
    ||| is_prefix("struct "@, l)
    ||| is_prefix("pub struct "@, l)
    ||| is_prefix("enum "@, l)
    ||| is_prefix("pub enum "@, l)
    ||| is_prefix("trait "@, l)
    ||| is_prefix("pub trait "@, l)
    ||| is_prefix("impl "@, l)
    ||| is_prefix("mod "@, l)
    ||| is_prefix("pub mod "@, l)
    ||| is_prefix("pub(crate) mod "@, l)
    ||| is_prefix("def "@, l)
    ||| is_prefix("class "@, l)
    ||| is_prefix("function "@, l)
    ||| is_prefix("export "@, l)
    ||| is_prefix("interface "@, l)
    ||| is_prefix("func "@, l)
    ||| is_prefix("type "@, l)
    ||| is_prefix("const "@, l)
    ||| is_prefix("pub const "@, l)
}

fn is_definition_line(line: &str) -> (r: bool)
    ensures
        r == is_definition(line@),
{
    reveal(is_definition);
    starts_with(line, "fn ") || starts_with(line, "pub fn ") || starts_with(line, "pub(crate) fn ")
        || starts_with(line, "async fn ") || starts_with(line, "pub async fn ") || starts_with(line, "struct ")
        || starts_with(line, "pub struct ") || starts_with(line, "enum ") || starts_with(line, "pub enum ")
        || starts_with(line, "trait ") || starts_with(line, "pub trait ") || starts_with(line, "impl ")
        || starts_with(line, "mod ") || starts_with(line, "pub mod ") || starts_with(line, "pub(crate) mod ")
        || starts_with(line, "def ") || starts_with(line, "class ") || starts_with(line, "function ")
        || starts_with(line, "export ") || starts_with(line, "interface ") || starts_with(line, "func ")
        || starts_with(line, "type ") || starts_with(line, "const ") || starts_with(line, "pub const ")
}

/// A `N|` line-number prefix (as file readers print) removed.
#[verifier::opaque]
pub open spec fn strip_line_prefix(line: Seq<char>) -> Seq<char> {
    let t = trim_start(line);
    if has_sub(t, seq!['|']) {
        let k = first_occ(t, seq!['|']);
        if all_ascii_digits(trim(t.take(k))) {
            t.skip(k + 1)
        } else {
            line
        }
    } else {
        line
    }
}

fn bar_vec() -> (v: Vec<char>)
    ensures
        v@ == seq!['|'],
{
    let mut v: Vec<char> = Vec::new();
    v.push('|');
    v
}

fn all_digits(v: &[char]) -> (r: bool)
    ensures
        r == all_ascii_digits(v@),
{
    let mut i: usize = 0;
    while i < v.len()
        invariant
            i <= v@.len(),
            forall|k: int| 0 <= k < i ==> '0' <= #[trigger] v@[k] <= '9',
        decreases v@.len() - i,
    {
        if v[i] < '0' || v[i] > '9' {
            return false;
        }
        i = i + 1;
    }
    true
}

fn strip_tool_line_prefix(line: &[char]) -> (r: Vec<char>)
    ensures
        r@ == strip_line_prefix(line@),
{
    reveal(strip_line_prefix);
    let t = trim_start_chars(line);
    let tn = t.len();
    let bar = bar_vec();
    match find_first(&t, &bar) {
        Some(k) => {
            let prefix = take_vec(&t, k);
            let p = string_of(&prefix);
            let pt = trim_chars(p.as_str());
            if all_digits(&pt) {
                slice_vec(&t, k + 1, tn)
            } else {
                slice_vec(line, 0, line.len())
            }
        },
        None => slice_vec(line, 0, line.len()),
    }
}

/// The trimmed definition lines among `ls`, in order.
pub open spec fn definition_lines(ls: Seq<Seq<char>>) -> Seq<Seq<char>>
    decreases ls.len(),
{
    if ls.len() == 0 {
        Seq::empty()
    } else {
        let t = trim(strip_line_prefix(ls.last()));
        definition_lines(ls.drop_last()) + if is_definition(t) {
            seq![t]
        } else {
            Seq::empty()
        }
    }
}

/// The definition lines of a text of at least twenty lines, one per line;
/// `None` for a short text or one without definitions.
#[verifier::opaque]
pub open spec fn outline_spec(text: Seq<char>) -> Option<Seq<char>> {
    let ls = lines(text);
    if ls.len() < 20 {
        None
    } else {
        let d = definition_lines(ls);
        if d.len() == 0 {
            None
        } else {
            Some(join(d, "\n"@))
        }
    }
}

fn build_outline(text: &str) -> (r: Option<String>)
    ensures
        opt_str(r) == outline_spec(text@),
{
    reveal(outline_spec);
    let ls = lines_of(text);
    let ghost l = lines(text@);
    proof {
        assert(vecs(ls@) =~= l);
    }
    if ls.len() < 20 {
        return None;
    }
    let mut out: Vec<Vec<char>> = Vec::new();
    let mut i: usize = 0;
    while i < ls.len()
        invariant
            i <= ls@.len(),
            vecs(ls@) == l,
            vecs(out@) == definition_lines(l.take(i as int)),
        decreases ls@.len() - i,
    {
        proof {
            assert(l.take(i + 1).drop_last() =~= l.take(i as int));
            assert(l[i as int] == ls@[i as int]@);
        }
        let stripped = strip_tool_line_prefix(ls[i].as_slice());
        let s = string_of(&stripped);
        let t = trim_chars(s.as_str());
        let ts = string_of(&t);
        let ghost po = out@;
        if is_definition_line(ts.as_str()) {
            out.push(t);
        }
        proof {
            if is_definition(t@) {
                assert(vecs(out@) =~= vecs(po) + seq![t@]);
            } else {
                assert(vecs(out@) =~= vecs(po) + Seq::<Seq<char>>::empty());
            }
        }
        i = i + 1;
    }
    proof {
        assert(l.take(l.len() as int) =~= l);
    }
    if out.len() == 0 {
        return None;
    }
    Some(crate::text::join_vecs(&out, "\n"))
}

/// The text of the first text block.
pub open spec fn first_text(c: Seq<ContentV>) -> Option<Seq<char>>
    decreases c.len(),
{
    if c.len() == 0 {
        None
    } else if let ContentV::Text { text } = c[0] {
        Some(text)
    } else {
        first_text(c.drop_first())
    }
}

fn first_text_of(content: &[Content]) -> (r: Option<String>)
    ensures
        opt_str(r) == first_text(cv(content@)),
{
    let mut i: usize = 0;
    proof {
        assert(cv(content@).skip(0) =~= cv(content@));
    }
    while i < content.len()
        invariant
            i <= content@.len(),
            first_text(cv(content@)) == first_text(cv(content@).skip(i as int)),
        decreases content@.len() - i,
    {
        proof {
            assert(cv(content@).skip(i as int).drop_first() =~= cv(content@).skip(i + 1));
            assert(cv(content@).skip(i as int)[0] == content@[i as int]@);
        }
        if let Content::Text { text } = &content[i] {
            return Some(text.clone());
        }
        i = i + 1;
    }
    None
}

/// The outline that replaces a tool result: the call behind `tool_call_id`
/// names a source file by its `path` argument, and the first text block is
/// long enough to have definition lines.
pub open spec fn try_outline_spec(
    c: Seq<ContentV>,
    tool_call_id: Seq<char>,
    index: Seq<(Seq<char>, Seq<char>)>,
) -> Option<Seq<ContentV>> {
    match lookup_last(index, tool_call_id) {
        None => None,
        Some(input) => match extract_path_spec(input) {
            None => None,
            Some(path) => if !is_code_path(path) {
                None
            } else {
                match first_text(c) {
                    None => None,
                    Some(text) => match outline_spec(text) {
                        None => None,
                        Some(o) => if o.len() == 0 {
                            None
                        } else {
                            Some(seq![ContentV::Text { text: "[Structural outline of "@ + path + "]\n"@ + o }])
                        },
                    },
                }
            },
        },
    }
}

/// Tries to replace a code listing by its structural outline.
pub fn try_outline(
    content: &[Content],
    _tool_name: &str,
    tool_call_id: &str,
    tool_call_index: &[ToolCallEntry],
) -> (r: Option<Vec<Content>>)
    ensures
        match r {
            Some(v) => try_outline_spec(cv(content@), tool_call_id@, entries_view(tool_call_index@)) == Some(cv(v@)),
            None => try_outline_spec(cv(content@), tool_call_id@, entries_view(tool_call_index@)) is None,
        },
{
    let input = match index_lookup(tool_call_index, tool_call_id) {
        Some(i) => i,
        None => return None,
    };
    let path = match extract_path(input.as_str()) {
        Some(p) => p,
        None => return None,
    };
    if !is_code_file(path.as_str()) {
        return None;
    }
    let text = match first_text_of(content) {
        Some(t) => t,
        None => return None,
    };
    let outline = match build_outline(text.as_str()) {
        Some(o) => o,
        None => return None,
    };
    if outline.as_str().unicode_len() == 0 {
        proof {
            assert(outline@.len() == 0);
        }
        return None;
    }
    let mut s = crate::text::owned("[Structural outline of ");
    push_str(&mut s, path.as_str());
    push_str(&mut s, "]\n");
    push_str(&mut s, outline.as_str());
    let mut v: Vec<Content> = Vec::new();
    v.push(Content::Text { text: s });
    proof {
        assert(cv(v@) =~= seq![ContentV::Text { text: "[Structural outline of "@ + path@ + "]\n"@ + outline@ }]);
    }
    Some(v)
}

} // verus!
