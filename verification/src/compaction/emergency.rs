//! Emergency compact summary: the deterministic fallback used only for
//! overflow recovery.

use vstd::prelude::*;
use crate::text::{join, join_strings, owned, push_str, push_usize, dec, strs};
use super::file_ops::{FileOps, FileOpsV, minus_seq, union_seq};

verus! {

/// What a summary is made from.
pub struct SummarizerInput {
    /// Messages removed from the context.
    pub evicted_count: usize,
    pub completed_requests: Vec<String>,
    pub file_ops: FileOps,
    pub env_discoveries: Vec<String>,
    /// Text of the removed prefix of a split turn.
    pub turn_prefix: Option<String>,
    pub last_conclusion: Option<String>,
}

/// A summary.
pub struct SummarizerOutput {
    pub summary: String,
}

/// A heading followed by one `- ` line per item.
pub open spec fn bullet_list(heading: Seq<char>, items: Seq<Seq<char>>) -> Seq<char>
    decreases items.len(),
{
    if items.len() == 0 {
        heading
    } else {
        bullet_list(heading, items.drop_last()) + "\n- "@ + items.last()
    }
}

/// Files modified, then files only read, each as a list when not empty.
pub open spec fn file_section(ops: FileOpsV) -> Seq<char> {
    let modified = union_seq(ops.edited, ops.written);
    let read_only = minus_seq(ops.read, modified);
    let parts = (if modified.len() > 0 { seq![bullet_list("Files modified:"@, modified)] } else { Seq::empty() }) + (
    if read_only.len() > 0 {
        seq![bullet_list("Files read:"@, read_only)]
    } else {
        Seq::empty()
    });
    join(parts, "\n"@)
}

/// The sections of the emergency summary, in order: the removal count,
/// completed requests, file operations, environment discoveries, the
/// removed prefix of a split turn, and the last assistant conclusion; each
/// but the first only when it has content.
pub open spec fn summary_sections(
    evicted: int,
    completed: Seq<Seq<char>>,
    ops: FileOpsV,
    env: Seq<Seq<char>>,
    turn_prefix: Option<Seq<char>>,
    conclusion: Option<Seq<char>>,
) -> Seq<Seq<char>> {
    let files = file_section(ops);
    seq!["[Context compacted: "@ + dec(evicted as nat) + " messages removed]"@]
        + (if completed.len() > 0 { seq![bullet_list("Completed requests (do not revisit):"@, completed)] } else { Seq::empty() })
        + (if files.len() > 0 { seq![files] } else { Seq::empty() })
        + (if env.len() > 0 { seq![bullet_list("Environment:"@, env)] } else { Seq::empty() })
        + (match turn_prefix {
        Some(p) => if p.len() > 0 { seq!["Current turn context (prefix removed):\n"@ + p] } else { Seq::empty() },
        None => Seq::empty(),
    }) + (match conclusion {
        Some(c) => seq!["Last assistant conclusion:\n"@ + c],
        None => Seq::empty(),
    })
}

fn bullets(heading: &str, items: &[String]) -> (r: String)
    ensures
        r@ == bullet_list(heading@, strs(items@)),
{
    let mut s = owned(heading);
    let mut i: usize = 0;
    while i < items.len()
        invariant
            i <= items@.len(),
            s@ == bullet_list(heading@, strs(items@.take(i as int))),
        decreases items@.len() - i,
    {
        proof {
            assert(strs(items@.take(i + 1)).drop_last() =~= strs(items@.take(i as int)));
            assert(strs(items@.take(i + 1)).last() == items@[i as int]@);
        }
        push_str(&mut s, "\n- ");
        push_str(&mut s, items[i].as_str());
        i = i + 1;
    }
    proof {
        assert(items@.take(i as int) =~= items@);
    }
    s
}

fn format_file_ops(ops: &FileOps) -> (r: String)
    ensures
        r@ == file_section(ops@),
{
    let mut sections: Vec<String> = Vec::new();
    let modified = ops.modified();
    if modified.len() > 0 {
        sections.push(bullets("Files modified:", modified.as_slice()));
    }
    let read_only = ops.read_only();
    if read_only.len() > 0 {
        sections.push(bullets("Files read:", read_only.as_slice()));
    }
    proof {
        let m = union_seq(ops@.edited, ops@.written);
        let ro = minus_seq(ops@.read, m);
        assert(strs(sections@) =~= (if m.len() > 0 { seq![bullet_list("Files modified:"@, m)] } else { Seq::empty() }) + (
        if ro.len() > 0 {
            seq![bullet_list("Files read:"@, ro)]
        } else {
            Seq::empty()
        }));
    }
    join_strings(sections.as_slice(), "\n")
}

/// A deterministic emergency summary from the compact memory extraction.
pub fn summarize(input: &SummarizerInput) -> (r: SummarizerOutput)
    ensures
        r.summary@ == join(
            summary_sections(
                input.evicted_count as int,
                strs(input.completed_requests@),
                input.file_ops@,
                strs(input.env_discoveries@),
                match input.turn_prefix {
                    Some(p) => Some(p@),
                    None => None,
                },
                match input.last_conclusion {
                    Some(c) => Some(c@),
                    None => None,
                },
            ),
            "\n\n"@,
        ),
{
    let mut sections: Vec<String> = Vec::new();
    let mut overview = owned("[Context compacted: ");
    push_usize(&mut overview, input.evicted_count);
    push_str(&mut overview, " messages removed]");
    sections.push(overview);
    let ghost s1 = strs(sections@);
    if input.completed_requests.len() > 0 {
        sections.push(bullets("Completed requests (do not revisit):", input.completed_requests.as_slice()));
    }
    let ghost s2 = strs(sections@);
    let files = format_file_ops(&input.file_ops);
    let has_files = crate::text::chars_of(files.as_str()).len() > 0;
    if has_files {
        sections.push(files);
    }
    let ghost s3 = strs(sections@);
    if input.env_discoveries.len() > 0 {
        sections.push(bullets("Environment:", input.env_discoveries.as_slice()));
    }
    let ghost s4 = strs(sections@);
    if let Some(prefix) = &input.turn_prefix {
        if crate::text::chars_of(prefix.as_str()).len() > 0 {
            let mut p = owned("Current turn context (prefix removed):\n");
            push_str(&mut p, prefix.as_str());
            sections.push(p);
        }
    }
    let ghost s5 = strs(sections@);
    if let Some(conclusion) = &input.last_conclusion {
        let mut c = owned("Last assistant conclusion:\n");
        push_str(&mut c, conclusion.as_str());
        sections.push(c);
    }
    proof {
        assert(strs(sections@) =~= summary_sections(
            input.evicted_count as int,
            strs(input.completed_requests@),
            input.file_ops@,
            strs(input.env_discoveries@),
            match input.turn_prefix {
                Some(p) => Some(p@),
                None => None,
            },
            match input.last_conclusion {
                Some(c) => Some(c@),
                None => None,
            },
        ));
    }
    SummarizerOutput { summary: join_strings(sections.as_slice(), "\n\n") }
}

} // verus!
