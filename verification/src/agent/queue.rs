//! Stable, editable prompt queues: entries keep an id and a version, and
//! every edit names the version it was made against.

use vstd::prelude::*;
use crate::text::{dec, owned, push_dec, push_str, str_eq};
use crate::types::{AgentMessage, AgentMessageV, mv};

verus! {

/// Queue mode for steering and follow-up messages.
#[derive(Clone, Copy, Debug, PartialEq, Eq, Structural)]
pub enum QueueMode {
    /// Deliver one message per turn.
    OneAtATime,
    /// Deliver all queued messages at once.
    All,
}

/// How many queued prompts a drain takes.
#[derive(Clone, Copy, Debug, PartialEq, Eq, Structural)]
pub enum QueueDrainMode {
    One,
    All,
}

pub struct PromptQueueEntry {
    pub id: String,
    pub version: u64,
    pub message: AgentMessage,
}

/// Mathematical view of a queue entry.
pub ghost struct EntryV {
    pub id: Seq<char>,
    pub version: u64,
    pub message: AgentMessageV,
}

impl View for PromptQueueEntry {
    type V = EntryV;

    open spec fn view(&self) -> EntryV {
        EntryV { id: self.id@, version: self.version, message: self.message@ }
    }
}

impl PromptQueueEntry {
    pub fn copy(&self) -> (r: PromptQueueEntry)
        ensures
            r@ == self@,
    {
        PromptQueueEntry { id: self.id.clone(), version: self.version, message: self.message.clone() }
    }
}

pub open spec fn entries_view(s: Seq<PromptQueueEntry>) -> Seq<EntryV> {
    s.map_values(|e: PromptQueueEntry| e@)
}

pub enum PromptQueueError {
    NotFound(String),
    VersionConflict { expected: u64, actual: u64 },
}

impl PromptQueueError {
    /// The error's message.
    pub fn to_string(&self) -> (r: String)
        ensures
            r@ == match self {
                PromptQueueError::NotFound(id) => "queued prompt not found: "@ + id@,
                PromptQueueError::VersionConflict { expected, actual } => "queued prompt version conflict: expected "@ + dec(
                    *expected as nat,
                ) + ", actual "@ + dec(*actual as nat),
            },
    {
        match self {
            PromptQueueError::NotFound(id) => {
                let mut s = owned("queued prompt not found: ");
                push_str(&mut s, id.as_str());
                s
            },
            PromptQueueError::VersionConflict { expected, actual } => {
                let mut s = owned("queued prompt version conflict: expected ");
                push_dec(&mut s, *expected);
                push_str(&mut s, ", actual ");
                push_dec(&mut s, *actual);
                s
            },
        }
    }
}

/// A fresh random identifier (`uuid::Uuid::new_v4`, hyphenated): 36
/// characters, lowercase hex digits in groups of 8-4-4-4-12 joined by `-`.
/// Only its length is stated; its digits are random.
#[verifier::external_body]
pub(crate) fn new_id() -> (r: String)
    ensures
        r@.len() == 36,
{
    uuid::Uuid::new_v4().to_string()
}

/// Index of the first entry with `id`.
pub open spec fn position_of(q: Seq<EntryV>, id: Seq<char>) -> Option<int>
    decreases q.len(),
{
    if q.len() == 0 {
        None
    } else {
        match position_of(q.drop_last(), id) {
            Some(i) => Some(i),
            None => if q.last().id == id {
                Some(q.len() - 1)
            } else {
                None
            },
        }
    }
}

/// `v + 1`, capped at `u64::MAX`.
pub open spec fn bump(v: u64) -> u64 {
    if v == u64::MAX { v } else { (v + 1) as u64 }
}

/// Where an entry at `i` of a queue of `len` goes when moved one place up
/// (towards the front) or down, staying inside the queue.
pub open spec fn move_target(i: int, len: int, down: bool) -> int {
    if down {
        if i + 1 < len { i + 1 } else { len - 1 }
    } else {
        if i > 0 { i - 1 } else { 0 }
    }
}

/// The queue after a move of the entry at `i` to `t`: the two swap places
/// and both get a new version. Moving in place changes nothing.
pub open spec fn moved(q: Seq<EntryV>, i: int, t: int) -> Seq<EntryV> {
    if t == i {
        q
    } else {
        q.update(i, EntryV { version: bump(q[t].version), ..q[t] }).update(t, EntryV { version: bump(q[i].version), ..q[i] })
    }
}

/// A shared, editable queue of prompts, oldest first.
pub struct PromptQueue {
    entries: Vec<PromptQueueEntry>,
}

impl View for PromptQueue {
    type V = Seq<EntryV>;

    closed spec fn view(&self) -> Seq<EntryV> {
        entries_view(self.entries@)
    }
}

impl PromptQueue {
    pub fn new() -> (r: PromptQueue)
        ensures
            r@ == Seq::<EntryV>::empty(),
    {
        let r = PromptQueue { entries: Vec::new() };
        proof {
            assert(r@ =~= Seq::<EntryV>::empty());
        }
        r
    }

    fn find(&self, id: &str) -> (r: Option<usize>)
        ensures
            match r {
                Some(i) => position_of(self@, id@) == Some(i as int) && i < self@.len(),
                None => position_of(self@, id@) is None,
            },
    {
        let ghost q = self@;
        let mut i: usize = 0;
        while i < self.entries.len()
            invariant
                i <= self.entries@.len(),
                q == entries_view(self.entries@),
                position_of(q.take(i as int), id@) is None,
            decreases self.entries@.len() - i,
        {
            proof {
                assert(q.take(i + 1).drop_last() =~= q.take(i as int));
                assert(q.take(i + 1).last() == self.entries@[i as int]@);
            }
            if str_eq(self.entries[i].id.as_str(), id) {
                proof {
                    lemma_position_extends(q, i as int + 1, id@);
                }
                return Some(i);
            }
            i = i + 1;
        }
        proof {
            assert(q.take(i as int) =~= q);
        }
        None
    }

    /// Appends a prompt under a fresh id at version 0.
    pub fn enqueue(&mut self, message: AgentMessage) -> (r: PromptQueueEntry)
        ensures
            r.version == 0,
            r.message@ == message@,
            final(self)@ == old(self)@.push(r@),
    {
        let entry = PromptQueueEntry { id: new_id(), version: 0, message };
        let ghost before = self.entries@;
        self.entries.push(entry.copy());
        proof {
            assert(entries_view(self.entries@) =~= entries_view(before).push(entry@));
        }
        entry
    }

    /// Every entry, oldest first.
    pub fn list(&self) -> (r: Vec<PromptQueueEntry>)
        ensures
            entries_view(r@) == self@,
    {
        let mut out: Vec<PromptQueueEntry> = Vec::new();
        let mut i: usize = 0;
        while i < self.entries.len()
            invariant
                i <= self.entries@.len(),
                entries_view(out@) == entries_view(self.entries@).take(i as int),
            decreases self.entries@.len() - i,
        {
            let ghost before = out@;
            out.push(self.entries[i].copy());
            proof {
                assert(entries_view(out@) =~= entries_view(before).push(self.entries@[i as int]@));
                assert(entries_view(self.entries@).take(i + 1) =~= entries_view(self.entries@).take(i as int).push(self.entries@[i as int]@));
            }
            i = i + 1;
        }
        proof {
            assert(entries_view(self.entries@).take(i as int) =~= entries_view(self.entries@));
        }
        out
    }

    pub fn is_empty(&self) -> (r: bool)
        ensures
            r == (self@.len() == 0),
    {
        self.entries.len() == 0
    }

    pub fn clear(&mut self)
        ensures
            final(self)@ == Seq::<EntryV>::empty(),
    {
        self.entries = Vec::new();
        proof {
            assert(self@ =~= Seq::<EntryV>::empty());
        }
    }

    /// Replaces the prompt of entry `id`, provided it is still at
    /// `expected_version`; its version goes up by one. Fails, changing
    /// nothing, when there is no such entry or its version differs.
    pub fn update(&mut self, id: &str, expected_version: u64, message: AgentMessage) -> (r: Result<PromptQueueEntry, PromptQueueError>)
        ensures
            match position_of(old(self)@, id@) {
                None => r matches Err(PromptQueueError::NotFound(s)) && s@ == id@ && final(self)@ == old(self)@,
                Some(i) => if old(self)@[i].version != expected_version {
                    r matches Err(PromptQueueError::VersionConflict { expected, actual }) && expected == expected_version
                        && actual == old(self)@[i].version && final(self)@ == old(self)@
                } else {
                    let e = EntryV { version: bump(old(self)@[i].version), message: message@, ..old(self)@[i] };
                    r matches Ok(x) && x@ == e && final(self)@ == old(self)@.update(i, e)
                },
            },
    {
        let index = match self.find(id) {
            Some(i) => i,
            None => return Err(PromptQueueError::NotFound(owned(id))),
        };
        let actual = self.entries[index].version;
        if actual != expected_version {
            return Err(PromptQueueError::VersionConflict { expected: expected_version, actual });
        }
        let entry = PromptQueueEntry {
            id: self.entries[index].id.clone(),
            version: actual.saturating_add(1),
            message,
        };
        let ghost before = self.entries@;
        self.entries.set(index, entry.copy());
        proof {
            assert(entries_view(self.entries@) =~= entries_view(before).update(index as int, entry@));
        }
        Ok(entry)
    }

    /// Removes entry `id`, provided it is still at `expected_version` when
    /// one is given.
    pub fn remove(&mut self, id: &str, expected_version: Option<u64>) -> (r: Result<PromptQueueEntry, PromptQueueError>)
        ensures
            match position_of(old(self)@, id@) {
                None => r matches Err(PromptQueueError::NotFound(s)) && s@ == id@ && final(self)@ == old(self)@,
                Some(i) => if expected_version matches Some(e) && old(self)@[i].version != e {
                    r matches Err(PromptQueueError::VersionConflict { expected, actual }) && Some(expected) == expected_version
                        && actual == old(self)@[i].version && final(self)@ == old(self)@
                } else {
                    r matches Ok(x) && x@ == old(self)@[i] && final(self)@ == old(self)@.remove(i)
                },
            },
    {
        let index = match self.find(id) {
            Some(i) => i,
            None => return Err(PromptQueueError::NotFound(owned(id))),
        };
        if let Some(expected) = expected_version {
            let actual = self.entries[index].version;
            if actual != expected {
                return Err(PromptQueueError::VersionConflict { expected, actual });
            }
        }
        let ghost before = self.entries@;
        let removed = self.entries.remove(index);
        proof {
            assert(entries_view(self.entries@) =~= entries_view(before).remove(index as int));
        }
        Ok(removed)
    }

    /// Moves entry `id` one place towards the front.
    pub fn move_up(&mut self, id: &str, expected_version: u64) -> (r: Result<PromptQueueEntry, PromptQueueError>)
        ensures
            move_spec(old(self)@, final(self)@, id@, expected_version, false, r),
    {
        self.move_by(id, expected_version, false)
    }

    /// Moves entry `id` one place towards the back.
    pub fn move_down(&mut self, id: &str, expected_version: u64) -> (r: Result<PromptQueueEntry, PromptQueueError>)
        ensures
            move_spec(old(self)@, final(self)@, id@, expected_version, true, r),
    {
        self.move_by(id, expected_version, true)
    }

    fn move_by(&mut self, id: &str, expected_version: u64, down: bool) -> (r: Result<PromptQueueEntry, PromptQueueError>)
        ensures
            move_spec(old(self)@, final(self)@, id@, expected_version, down, r),
    {
        let index = match self.find(id) {
            Some(i) => i,
            None => return Err(PromptQueueError::NotFound(owned(id))),
        };
        let actual = self.entries[index].version;
        if actual != expected_version {
            return Err(PromptQueueError::VersionConflict { expected: expected_version, actual });
        }
        let len = self.entries.len();
        let target = if down {
            if index + 1 < len { index + 1 } else { len - 1 }
        } else {
            if index > 0 { index - 1 } else { 0 }
        };
        if target != index {
            let a = self.entries[index].copy();
            let b = self.entries[target].copy();
            let ghost before = self.entries@;
            self.entries.set(index, PromptQueueEntry { id: b.id, version: b.version.saturating_add(1), message: b.message });
            self.entries.set(target, PromptQueueEntry { id: a.id, version: a.version.saturating_add(1), message: a.message });
            proof {
                assert(entries_view(self.entries@) =~= moved(entries_view(before), index as int, target as int));
            }
        }
        Ok(self.entries[target].copy())
    }

    /// Puts an entry back at the end, with a new version.
    pub fn push_existing(&mut self, entry: PromptQueueEntry) -> (r: PromptQueueEntry)
        ensures
            r@ == (EntryV { version: bump(entry.version), ..entry@ }),
            final(self)@ == old(self)@.push(r@),
    {
        let e = PromptQueueEntry { id: entry.id, version: entry.version.saturating_add(1), message: entry.message };
        let ghost before = self.entries@;
        self.entries.push(e.copy());
        proof {
            assert(entries_view(self.entries@) =~= entries_view(before).push(e@));
        }
        e
    }

    /// Takes the oldest prompt (`One`) or every prompt (`All`), in order.
    pub fn drain_messages(&mut self, mode: QueueDrainMode) -> (r: Vec<AgentMessage>)
        ensures
            match mode {
                QueueDrainMode::One => if old(self)@.len() == 0 {
                    r@.len() == 0 && final(self)@ == old(self)@
                } else {
                    mv(r@) == seq![old(self)@[0].message] && final(self)@ == old(self)@.drop_first()
                },
                QueueDrainMode::All => mv(r@) == old(self)@.map_values(|e: EntryV| e.message) && final(self)@ == Seq::<EntryV>::empty(),
            },
    {
        match mode {
            QueueDrainMode::One => {
                let mut out: Vec<AgentMessage> = Vec::new();
                if self.entries.len() > 0 {
                    let ghost before = self.entries@;
                    let first = self.entries.remove(0);
                    out.push(first.message);
                    proof {
                        assert(entries_view(self.entries@) =~= entries_view(before).drop_first());
                        assert(mv(out@) =~= seq![entries_view(before)[0].message]);
                    }
                }
                out
            },
            QueueDrainMode::All => {
                let ghost q = self@;
                let mut out: Vec<AgentMessage> = Vec::new();
                let mut i: usize = 0;
                while i < self.entries.len()
                    invariant
                        i <= self.entries@.len(),
                        q == entries_view(self.entries@),
                        mv(out@) == q.take(i as int).map_values(|e: EntryV| e.message),
                    decreases self.entries@.len() - i,
                {
                    let ghost before = out@;
                    out.push(self.entries[i].message.clone());
                    proof {
                        assert(mv(out@) =~= mv(before).push(q[i as int].message));
                        assert(q.take(i + 1).map_values(|e: EntryV| e.message) =~= q.take(i as int).map_values(|e: EntryV| e.message).push(
                            q[i as int].message,
                        ));
                    }
                    i = i + 1;
                }
                proof {
                    assert(q.take(i as int) =~= q);
                }
                self.entries = Vec::new();
                proof {
                    assert(self@ =~= Seq::<EntryV>::empty());
                }
                out
            },
        }
    }
}

/// What a move does: nothing and an error when the entry is missing or
/// its version differs; otherwise the entry and its neighbour swap places
/// (both versions go up) and the moved entry is returned.
pub open spec fn move_spec(
    q: Seq<EntryV>,
    after: Seq<EntryV>,
    id: Seq<char>,
    expected_version: u64,
    down: bool,
    r: Result<PromptQueueEntry, PromptQueueError>,
) -> bool {
    match position_of(q, id) {
        None => r matches Err(PromptQueueError::NotFound(s)) && s@ == id && after == q,
        Some(i) => if q[i].version != expected_version {
            r matches Err(PromptQueueError::VersionConflict { expected, actual }) && expected == expected_version && actual
                == q[i].version && after == q
        } else {
            let t = move_target(i, q.len() as int, down);
            r matches Ok(x) && after == moved(q, i, t) && x@ == after[t]
        },
    }
}

proof fn lemma_position_extends(q: Seq<EntryV>, n: int, id: Seq<char>)
    requires
        0 < n <= q.len(),
        position_of(q.take(n - 1), id) is None,
        q[n - 1].id == id,
    ensures
        position_of(q, id) == Some(n - 1),
    decreases q.len() - n,
{
    assert(q.take(n).drop_last() =~= q.take(n - 1));
    if n == q.len() {
        assert(q.take(n) =~= q);
    } else {
        lemma_position_prefix(q, n, id);
    }
}

proof fn lemma_position_prefix(q: Seq<EntryV>, n: int, id: Seq<char>)
    requires
        0 <= n <= q.len(),
        position_of(q.take(n), id) is Some,
    ensures
        position_of(q, id) == position_of(q.take(n), id),
    decreases q.len() - n,
{
    if n == q.len() {
        assert(q.take(n) =~= q);
    } else {
        assert(q.take(n + 1).drop_last() =~= q.take(n));
        lemma_position_prefix(q, n + 1, id);
    }
}

/// Optimistic concurrency: once an edit succeeds, a second edit made
/// against the same version fails with a version conflict (while the
/// version has not reached `u64::MAX`).
pub proof fn lemma_stale_edit_conflicts(q: Seq<EntryV>, id: Seq<char>, expected: u64, message: AgentMessageV)
    requires
        position_of(q, id) matches Some(i) && q[i].version == expected,
        expected < u64::MAX,
    ensures
        ({
            let i = position_of(q, id)->0;
            let e = EntryV { version: bump(q[i].version), message, ..q[i] };
            let after = q.update(i, e);
            position_of(after, id) == Some(i) && after[i].version != expected
        }),
{
    lemma_position_range(q, id);
    let i = position_of(q, id)->0;
    let e = EntryV { version: bump(q[i].version), message, ..q[i] };
    lemma_position_same_ids(q, q.update(i, e), id);
}

proof fn lemma_position_range(q: Seq<EntryV>, id: Seq<char>)
    ensures
        position_of(q, id) matches Some(i) ==> 0 <= i < q.len() && q[i].id == id,
    decreases q.len(),
{
    if q.len() > 0 {
        lemma_position_range(q.drop_last(), id);
    }
}

proof fn lemma_position_same_ids(a: Seq<EntryV>, b: Seq<EntryV>, id: Seq<char>)
    requires
        a.len() == b.len(),
        forall|k: int| 0 <= k < a.len() ==> (#[trigger] a[k]).id == b[k].id,
    ensures
        position_of(a, id) == position_of(b, id),
    decreases a.len(),
{
    if a.len() > 0 {
        lemma_position_same_ids(a.drop_last(), b.drop_last(), id);
    }
}

} // verus!
