//! The ledger: verdicts collected across turns, and the decide / apply steps
//! that fill and drain it.
//!
//! A decide round runs in three steps around the judge, which the caller
//! asks: [`PruneLedger::begin_decide`] picks the candidates,
//! [`plan_batches`] renders one request per batch, and
//! [`PruneLedger::finish_decide`] takes the replies back and records the
//! verdicts.

use vstd::prelude::*;
use crate::sanitize::{call_ids, contains_string, result_ids};
use crate::text::{str_eq, strs};
use crate::tokens::{sat, total_tokens, ttoks};
use crate::types::{AgentMessage, AgentMessageV, mv};
use super::candidates::{Candidate, CandidateV, candidates_spec, cands_view, collect};
use super::edit::{apply as apply_edits, edit_spec, lemma_edit_removes};
use super::options::PruneOptions;
use super::questions::{
    AnswerEntry, PER_CANDIDATE, Question, QuestionV, answers_view, for_candidate, questions_spec, questions_tokens,
    answer_for, decide_pair, question_ids, questions_view, tokens, verdict, verdict_spec,
};
use super::state::{batch_range, call_ids_of, end_of, lemma_min_call_bound, max_end, min_call, render, render_spec, render_to};
use crate::compaction::passes::shrink::pass::sat_sub;
use super::report::{
    ApplyReport, ApplyTrigger, BatchReport, BatchReportV, DecideReport, Decision, RequestRelevance, Verdict, VerdictV,
    batch_reports_view, verdicts_view,
};
use super::requests::{JudgeReply, rels_view};

verus! {

/// A call judged `Keep`, and how large the context was then.
pub struct KeptCall {
    pub call_id: String,
    pub at_tokens: usize,
}

/// Decide/apply state across turns of one session.
pub struct PruneLedger {
    /// Verdicts not yet applied, one per call id. Only removals and
    /// truncations are pending; a keep is final until the call is judged
    /// again.
    pub pending: Vec<Verdict>,
    /// Calls judged `Keep`, one entry per call id; asked again once the
    /// conversation has moved on enough.
    pub kept_at: Vec<KeptCall>,
    /// Context size when the judge was last asked.
    pub decided_at_tokens: usize,
    /// Wall-clock time of the last main-model request the ledger saw.
    pub last_request_ms: u64,
}

/// Mathematical view of a ledger.
pub ghost struct LedgerV {
    pub pending: Seq<VerdictV>,
    pub kept_at: Seq<(Seq<char>, int)>,
    pub decided_at_tokens: int,
    pub last_request_ms: int,
}

pub open spec fn kept_view(s: Seq<KeptCall>) -> Seq<(Seq<char>, int)> {
    s.map_values(|k: KeptCall| (k.call_id@, k.at_tokens as int))
}

impl View for PruneLedger {
    type V = LedgerV;

    open spec fn view(&self) -> LedgerV {
        LedgerV {
            pending: verdicts_view(self.pending@),
            kept_at: kept_view(self.kept_at@),
            decided_at_tokens: self.decided_at_tokens as int,
            last_request_ms: self.last_request_ms as int,
        }
    }
}

/// The call ids of pending verdicts.
pub open spec fn pending_ids(p: Seq<VerdictV>) -> Seq<Seq<char>> {
    p.map_values(|v: VerdictV| v.call_id)
}

/// The call ids of kept calls.
pub open spec fn kept_ids(k: Seq<(Seq<char>, int)>) -> Seq<Seq<char>> {
    k.map_values(|e: (Seq<char>, int)| e.0)
}

/// A ledger holds at most one pending verdict and one kept entry per call.
pub open spec fn ledger_wf(l: LedgerV) -> bool {
    pending_ids(l.pending).no_duplicates() && kept_ids(l.kept_at).no_duplicates()
}

/// Sum of the tokens the pending verdicts free.
pub open spec fn saves_sum(p: Seq<VerdictV>) -> int
    decreases p.len(),
{
    if p.len() == 0 {
        0
    } else {
        saves_sum(p.drop_last()) + p.last().saves_tokens
    }
}

/// When a call was judged `Keep`, if it was.
pub open spec fn kept_at_of(k: Seq<(Seq<char>, int)>, id: Seq<char>) -> Option<int>
    decreases k.len(),
{
    if k.len() == 0 {
        None
    } else if k.last().0 == id {
        Some(k.last().1)
    } else {
        kept_at_of(k.drop_last(), id)
    }
}

/// Whether the main model's prompt cache has gone cold. A ledger that saw
/// no request in this process has no warm prefix to protect either.
pub open spec fn cache_cold_spec(last_request_ms: int, now_ms: int, ttl_ms: int) -> bool {
    last_request_ms == 0 || (if now_ms > last_request_ms { now_ms - last_request_ms } else { 0 }) >= ttl_ms
}

/// Whether pending savings reach `share_ppm` parts per million of the
/// context (an empty context counts as one token).
pub open spec fn savings_reached(pending_tokens: int, context_tokens: int, share_ppm: int) -> bool {
    pending_tokens * 1_000_000 >= share_ppm * (if context_tokens > 1 { context_tokens } else { 1 })
}

pub open spec fn apply_trigger_spec(l: LedgerV, context_tokens: int, now_ms: int, o: PruneOptions) -> Option<ApplyTrigger> {
    if l.pending.len() == 0 {
        None
    } else if savings_reached(sat(saves_sum(l.pending)), context_tokens, o.apply_min_share_ppm as int) {
        Some(ApplyTrigger::Savings)
    } else if cache_cold_spec(l.last_request_ms, now_ms, o.cache_ttl_ms as int) {
        Some(ApplyTrigger::ColdCache)
    } else {
        None
    }
}

/// Whether the judge should be asked about a candidate: the ledger holds no
/// removal or truncation for its call, and its last `Keep`, when there is
/// one, dates from at least `revisit` tokens ago.
pub open spec fn is_undecided(l: LedgerV, c: CandidateV, now: int, revisit: int) -> bool {
    &&& !pending_ids(l.pending).contains(c.call_id)
    &&& match kept_at_of(l.kept_at, c.call_id) {
        Some(at) => now >= sat(at + revisit),
        None => true,
    }
}

pub open spec fn undecided_of(l: LedgerV, cs: Seq<CandidateV>, now: int, revisit: int) -> Seq<CandidateV>
    decreases cs.len(),
{
    if cs.len() == 0 {
        Seq::empty()
    } else {
        undecided_of(l, cs.drop_last(), now, revisit) + if is_undecided(l, cs.last(), now, revisit) {
            seq![cs.last()]
        } else {
            Seq::empty()
        }
    }
}

/// The candidates of a history the ledger has no live verdict for.
pub open spec fn undecided_spec(l: LedgerV, ms: Seq<AgentMessageV>, o: PruneOptions) -> Seq<CandidateV> {
    undecided_of(l, candidates_spec(ms, o.preserve_recent as int), ttoks(ms), o.revisit_kept_tokens as int)
}

pub open spec fn should_decide_spec(l: LedgerV, ms: Seq<AgentMessageV>, context_tokens: int, o: PruneOptions) -> bool {
    &&& !(l.decided_at_tokens > 0 && context_tokens < sat(l.decided_at_tokens + o.decide_growth_tokens))
    &&& undecided_spec(l, ms, o).len() >= o.decide_min_candidates
}

/// Calls asked about per judge request: what the judge's question limit
/// allows, at least one.
pub open spec fn calls_per_request_spec(max_questions: int) -> int {
    let c = max_questions / PER_CANDIDATE as int;
    if c > 1 { c } else { 1 }
}

/// Candidates asked about in one round.
pub open spec fn round_cap(calls_per_request: int, max_requests: int) -> int {
    sat(calls_per_request * (if max_requests > 1 { max_requests } else { 1 }))
}

/// The candidates of one decide round: the undecided ones, oldest first,
/// up to the round's cap.
pub open spec fn round_candidates(l: LedgerV, ms: Seq<AgentMessageV>, o: PruneOptions, max_questions: int) -> Seq<CandidateV> {
    let u = undecided_spec(l, ms, o);
    let cap = round_cap(calls_per_request_spec(max_questions), o.max_requests_per_decide as int);
    if cap < u.len() { u.take(cap) } else { u }
}

/// The candidates a decide round asks about, and what it was sized by.
pub struct DecideStart {
    pub candidates: Vec<Candidate>,
    pub calls_per_request: usize,
    pub context_tokens: usize,
}

/// One judge request of the call round, before it is sent.
pub struct Batch {
    pub state: String,
    pub questions: Vec<Question>,
    pub call_ids: Vec<String>,
    pub from: usize,
    pub to: usize,
}

/// Candidate `j * n` up to the next multiple of `n` (or the end).
pub open spec fn chunk(cs: Seq<CandidateV>, n: int, j: int) -> Seq<CandidateV> {
    cs.subrange(j * n, if (j + 1) * n < cs.len() { (j + 1) * n } else { cs.len() as int })
}

/// How many chunks of `n` a list of `len` splits into.
pub open spec fn chunk_count(len: int, n: int) -> int {
    (len + n - 1) / n
}

/// The questions of a list of candidates, in order.
pub open spec fn chunk_questions(cs: Seq<CandidateV>) -> Seq<QuestionV>
    decreases cs.len(),
{
    if cs.len() == 0 {
        Seq::empty()
    } else {
        chunk_questions(cs.drop_last()) + questions_spec(cs.last())
    }
}

/// A batch as planned for a chunk: its questions, and the state rendered
/// into what is left of the request budget once the questions are counted.
pub open spec fn batch_spec(b: Batch, ms: Seq<AgentMessageV>, c: Seq<CandidateV>, task: Seq<char>, request_tokens: int) -> bool {
    let qs = chunk_questions(c);
    let budget = sat_sub(request_tokens, questions_tokens(qs));
    &&& questions_view(b.questions@) == qs
    &&& strs(b.call_ids@) == call_ids_of(c)
    &&& (b.state@, b.from as int, b.to as int) == render_spec(ms, c, task, budget)
}

/// Whether a chunk's state can be rendered: there are messages, and the
/// chunk's first call does not lie past the last message it shows.
pub open spec fn chunk_renderable(ms: Seq<AgentMessageV>, c: Seq<CandidateV>) -> bool {
    ms.len() > 0 && min_call(c) <= render_to(ms, c) + 1
}

/// Whether every chunk of `n` candidates can be rendered.
pub open spec fn batches_renderable(ms: Seq<AgentMessageV>, cs: Seq<CandidateV>, n: int) -> bool {
    forall|j: int| 0 <= j < chunk_count(cs.len() as int, n) ==> chunk_renderable(ms, #[trigger] chunk(cs, n, j))
}

/// Every candidate's result, if any, comes after its call.
pub open spec fn results_follow_calls(cs: Seq<CandidateV>) -> bool {
    forall|k: int| 0 <= k < cs.len() ==> end_of(#[trigger] cs[k]) >= cs[k].call_index
}

/// `p` without the verdict on `id`.
pub open spec fn without_pending(p: Seq<VerdictV>, id: Seq<char>) -> Seq<VerdictV>
    decreases p.len(),
{
    if p.len() == 0 {
        Seq::empty()
    } else {
        without_pending(p.drop_last(), id) + if p.last().call_id == id { Seq::empty() } else { seq![p.last()] }
    }
}

/// `k` without the entry of `id`.
pub open spec fn without_kept(k: Seq<(Seq<char>, int)>, id: Seq<char>) -> Seq<(Seq<char>, int)>
    decreases k.len(),
{
    if k.len() == 0 {
        Seq::empty()
    } else {
        without_kept(k.drop_last(), id) + if k.last().0 == id { Seq::empty() } else { seq![k.last()] }
    }
}

/// The ledger after a verdict given at `context_tokens`: a keep is final
/// (no longer pending, remembered with the context size); a removal or a
/// truncation replaces whatever was pending for the call.
pub open spec fn record(l: LedgerV, v: VerdictV, context_tokens: int) -> LedgerV {
    if v.decision == Decision::Keep {
        LedgerV {
            pending: without_pending(l.pending, v.call_id),
            kept_at: without_kept(l.kept_at, v.call_id).push((v.call_id, context_tokens)),
            ..l
        }
    } else {
        LedgerV {
            pending: without_pending(l.pending, v.call_id).push(v),
            kept_at: without_kept(l.kept_at, v.call_id),
            ..l
        }
    }
}

pub open spec fn record_all(l: LedgerV, vs: Seq<VerdictV>, context_tokens: int) -> LedgerV
    decreases vs.len(),
{
    if vs.len() == 0 {
        l
    } else {
        record(record_all(l, vs.drop_last(), context_tokens), vs.last(), context_tokens)
    }
}

/// Whether a batch's request was cancelled.
pub open spec fn is_cancelled(o: (BatchReport, JudgeReply)) -> bool {
    o.1 is Cancelled
}

/// The call ids of the batches that failed.
pub open spec fn failed_ids(o: Seq<(BatchReport, JudgeReply)>) -> Seq<Seq<char>>
    decreases o.len(),
{
    if o.len() == 0 {
        Seq::empty()
    } else {
        failed_ids(o.drop_last()) + match o.last().1 {
            JudgeReply::Failed(_) => o.last().0@.call_ids,
            _ => Seq::empty(),
        }
    }
}

/// The error of the last batch that failed.
pub open spec fn last_failure(o: Seq<(BatchReport, JudgeReply)>) -> Option<Seq<char>>
    decreases o.len(),
{
    if o.len() == 0 {
        None
    } else {
        match o.last().1 {
            JudgeReply::Failed(e) => Some(e@),
            _ => last_failure(o.drop_last()),
        }
    }
}

/// Every answer of the batches that answered, in order.
pub open spec fn all_answers(o: Seq<(BatchReport, JudgeReply)>) -> Seq<(Seq<char>, Option<u32>)>
    decreases o.len(),
{
    if o.len() == 0 {
        Seq::empty()
    } else {
        all_answers(o.drop_last()) + match o.last().1 {
            JudgeReply::Answers(a) => answers_view(a@),
            _ => Seq::empty(),
        }
    }
}

/// A batch's report, with its error when it failed.
pub open spec fn report_of(o: (BatchReport, JudgeReply)) -> BatchReportV {
    match o.1 {
        JudgeReply::Failed(e) => BatchReportV { failed: Some(e@), ..o.0@ },
        _ => o.0@,
    }
}

/// Where a report with `from` goes in a list sorted by `from`: after every
/// report that starts no later.
pub open spec fn insert_pos(s: Seq<BatchReportV>, from: int) -> int
    decreases s.len(),
{
    if s.len() == 0 {
        0
    } else if s.last().from <= from {
        s.len() as int
    } else {
        insert_pos(s.drop_last(), from)
    }
}

/// Reports sorted by `from`, stably.
pub open spec fn sorted_reports(s: Seq<BatchReportV>) -> Seq<BatchReportV>
    decreases s.len(),
{
    if s.len() == 0 {
        Seq::empty()
    } else {
        let t = sorted_reports(s.drop_last());
        t.insert(insert_pos(t, s.last().from), s.last())
    }
}

/// The candidates whose batch did not fail.
pub open spec fn judged(cs: Seq<CandidateV>, failed: Seq<Seq<char>>) -> Seq<CandidateV>
    decreases cs.len(),
{
    if cs.len() == 0 {
        Seq::empty()
    } else {
        judged(cs.drop_last(), failed) + if failed.contains(cs.last().call_id) { Seq::empty() } else { seq![cs.last()] }
    }
}

/// Whether the round failed as a whole: a batch failed, and so did every
/// candidate's batch.
pub open spec fn round_failed(cs: Seq<CandidateV>, o: Seq<(BatchReport, JudgeReply)>) -> bool {
    &&& last_failure(o) is Some
    &&& forall|k: int| 0 <= k < cs.len() ==> failed_ids(o).contains(#[trigger] cs[k].call_id)
}


/// The verdicts on a list of candidates, given the answers.
pub open spec fn verdicts_for(cs: Seq<CandidateV>, answers: Seq<(Seq<char>, Option<u32>)>, threshold: u32) -> Seq<VerdictV> {
    cs.map_values(|c: CandidateV| verdict_spec(c, answers, threshold))
}

/// The tokens one candidate frees under the answers: none when the result
/// is worth keeping, the truncation's share when only the call is, the
/// whole pair otherwise.
pub open spec fn pair_saving(c: CandidateV, answers: Seq<(Seq<char>, Option<u32>)>, threshold: u32) -> int {
    let (call_q, result_q) = question_ids(c.call_id);
    match decide_pair(answer_for(answers, call_q), answer_for(answers, result_q), threshold) {
        Decision::Keep => 0,
        Decision::Truncate => c.truncation_tokens,
        Decision::Remove => c.pair_tokens,
    }
}

/// The tokens a list of candidates frees under the answers.
pub open spec fn freed_by(cs: Seq<CandidateV>, answers: Seq<(Seq<char>, Option<u32>)>, threshold: u32) -> int
    decreases cs.len(),
{
    if cs.len() == 0 {
        0
    } else {
        freed_by(cs.drop_last(), answers, threshold) + pair_saving(cs.last(), answers, threshold)
    }
}

/// The savings the verdicts on a list of candidates add up to are what the
/// candidates free: a kept pair counts nothing, a truncated one its
/// truncation tokens, a removed one its pair tokens.
pub proof fn lemma_verdict_savings_sum(cs: Seq<CandidateV>, answers: Seq<(Seq<char>, Option<u32>)>, threshold: u32)
    ensures
        saves_sum(verdicts_for(cs, answers, threshold)) == freed_by(cs, answers, threshold),
    decreases cs.len(),
{
    if cs.len() > 0 {
        lemma_verdict_savings_sum(cs.drop_last(), answers, threshold);
        let v = verdicts_for(cs, answers, threshold);
        assert(v.drop_last() =~= verdicts_for(cs.drop_last(), answers, threshold));
        assert(v.last() == verdict_spec(cs.last(), answers, threshold));
    }
}

/// The reports of a round's batches, each with its error if it failed.
pub open spec fn reports_of(o: Seq<(BatchReport, JudgeReply)>) -> Seq<BatchReportV> {
    o.map_values(|x: (BatchReport, JudgeReply)| report_of(x))
}

/// The verdicts a round that did not fail records.
pub open spec fn round_verdicts(cs: Seq<CandidateV>, o: Seq<(BatchReport, JudgeReply)>, threshold: u32) -> Seq<VerdictV> {
    verdicts_for(judged(cs, failed_ids(o)), all_answers(o), threshold)
}


/// The calls of a history a pending verdict may still edit: those of its
/// current candidates.
pub open spec fn live_ids(ms: Seq<AgentMessageV>, preserve_recent: int) -> Seq<Seq<char>> {
    call_ids_of(candidates_spec(ms, preserve_recent))
}

/// The ids of the pending verdicts with decision `d` whose call is live.
pub open spec fn applied_ids(p: Seq<VerdictV>, live: Seq<Seq<char>>, d: Decision) -> Seq<Seq<char>>
    decreases p.len(),
{
    if p.len() == 0 {
        Seq::empty()
    } else {
        applied_ids(p.drop_last(), live, d) + if live.contains(p.last().call_id) && p.last().decision == d {
            seq![p.last().call_id]
        } else {
            Seq::empty()
        }
    }
}

/// How many pending verdicts concern a call that is pinned or gone.
pub open spec fn skipped_count(p: Seq<VerdictV>, live: Seq<Seq<char>>) -> int
    decreases p.len(),
{
    if p.len() == 0 {
        0
    } else {
        skipped_count(p.drop_last(), live) + if live.contains(p.last().call_id) { 0int } else { 1int }
    }
}

/// Why a decide round produced no report.
pub enum DecideError {
    /// The round was cancelled.
    Cancelled,
    /// Every batch failed; the last error.
    Failed(String),
}

impl Default for PruneLedger {
    fn default() -> (r: Self)
        ensures
            r@.pending.len() == 0,
            r@.kept_at.len() == 0,
            r@.decided_at_tokens == 0,
            r@.last_request_ms == 0,
            ledger_wf(r@),
    {
        let r = PruneLedger { pending: Vec::new(), kept_at: Vec::new(), decided_at_tokens: 0, last_request_ms: 0 };
        proof {
            assert(pending_ids(r@.pending) =~= Seq::<Seq<char>>::empty());
            assert(kept_ids(r@.kept_at) =~= Seq::<Seq<char>>::empty());
        }
        r
    }
}

impl PruneLedger {
    /// Tokens the pending verdicts would free, capped at `usize::MAX`.
    pub fn pending_tokens(&self) -> (r: usize)
        ensures
            r == sat(saves_sum(self@.pending)),
    {
        let mut acc: usize = 0;
        let mut i: usize = 0;
        while i < self.pending.len()
            invariant
                i <= self.pending@.len(),
                acc == sat(saves_sum(verdicts_view(self.pending@).take(i as int))),
            decreases self.pending@.len() - i,
        {
            proof {
                assert(verdicts_view(self.pending@).take(i + 1).drop_last() =~= verdicts_view(self.pending@).take(i as int));
                lemma_saves_sum_nonneg(verdicts_view(self.pending@).take(i as int));
            }
            acc = acc.saturating_add(self.pending[i].saves_tokens);
            i = i + 1;
        }
        proof {
            assert(verdicts_view(self.pending@).take(i as int) =~= verdicts_view(self.pending@));
        }
        acc
    }

    pub fn pending_count(&self) -> (r: usize)
        ensures
            r == self@.pending.len(),
    {
        self.pending.len()
    }

    /// Records that the main model was just asked; feeds the cold-cache rule.
    pub fn note_request(&mut self, now_ms: u64)
        ensures
            final(self)@ == (LedgerV { last_request_ms: now_ms as int, ..old(self)@ }),
    {
        self.last_request_ms = now_ms;
    }

    /// Whether the main model's prompt cache has gone cold by `now_ms`.
    pub fn cache_is_cold(&self, now_ms: u64, ttl_ms: u64) -> (r: bool)
        ensures
            r == cache_cold_spec(self@.last_request_ms, now_ms as int, ttl_ms as int),
    {
        self.last_request_ms == 0 || now_ms.saturating_sub(self.last_request_ms) >= ttl_ms
    }

    /// True until the judge has been asked once in this process: a resumed
    /// session starts here even when its history is long.
    pub fn is_fresh(&self) -> (r: bool)
        ensures
            r == (self@.decided_at_tokens == 0),
    {
        self.decided_at_tokens == 0
    }

    fn pending_has(&self, id: &String) -> (r: bool)
        ensures
            r == pending_ids(self@.pending).contains(id@),
    {
        let ghost ids = pending_ids(self@.pending);
        let mut i: usize = 0;
        while i < self.pending.len()
            invariant
                i <= self.pending@.len(),
                ids == pending_ids(self@.pending),
                forall|j: int| 0 <= j < i ==> ids[j] != id@,
            decreases self.pending@.len() - i,
        {
            if str_eq(self.pending[i].call_id.as_str(), id.as_str()) {
                proof {
                    assert(ids[i as int] == id@);
                }
                return true;
            }
            i = i + 1;
        }
        false
    }

    fn kept_lookup(&self, id: &String) -> (r: Option<usize>)
        ensures
            match r {
                Some(at) => kept_at_of(self@.kept_at, id@) == Some(at as int),
                None => kept_at_of(self@.kept_at, id@) is None,
            },
    {
        let ghost k = self@.kept_at;
        let mut i = self.kept_at.len();
        proof {
            assert(k.take(i as int) =~= k);
        }
        while i > 0
            invariant
                i <= self.kept_at@.len(),
                k == kept_view(self.kept_at@),
                kept_at_of(k, id@) == kept_at_of(k.take(i as int), id@),
            decreases i,
        {
            proof {
                assert(k.take(i - 1) =~= k.take(i as int).drop_last());
            }
            if str_eq(self.kept_at[i - 1].call_id.as_str(), id.as_str()) {
                return Some(self.kept_at[i - 1].at_tokens);
            }
            i = i - 1;
        }
        None
    }

    /// Candidates the ledger has no live verdict for. A `Keep` is revisited
    /// once the context has grown by `revisit_kept_tokens` since it was given.
    pub fn undecided(&self, messages: &[AgentMessage], options: &PruneOptions) -> (r: Vec<Candidate>)
        ensures
            cands_view(r@) == undecided_spec(self@, mv(messages@), *options),
            forall|k: int| 0 <= k < r@.len() ==> (#[trigger] r@[k]).call_index < messages@.len() && (r@[k].result_index matches Some(x) ==> x < messages@.len()),
    {
        let now = total_tokens(messages);
        let all = collect(messages, options.preserve_recent);
        let ghost cs = cands_view(all@);
        let mut out: Vec<Candidate> = Vec::new();
        let mut i: usize = 0;
        while i < all.len()
            invariant
                i <= all@.len(),
                cs == cands_view(all@),
                now == ttoks(mv(messages@)),
                cands_view(out@) == undecided_of(self@, cs.take(i as int), now as int, options.revisit_kept_tokens as int),
                forall|k: int| 0 <= k < all@.len() ==> (#[trigger] all@[k]).call_index < messages@.len() && (all@[k].result_index matches Some(x) ==> x < messages@.len()),
                forall|k: int| 0 <= k < out@.len() ==> (#[trigger] out@[k]).call_index < messages@.len() && (out@[k].result_index matches Some(x) ==> x < messages@.len()),
            decreases all@.len() - i,
        {
            let c = &all[i];
            proof {
                assert(cs.take(i + 1).drop_last() =~= cs.take(i as int));
                assert(cs.take(i + 1).last() == c@);
            }
            let fresh = if self.pending_has(&c.call_id) {
                false
            } else {
                match self.kept_lookup(&c.call_id) {
                    Some(at) => now >= at.saturating_add(options.revisit_kept_tokens),
                    None => true,
                }
            };
            if fresh {
                let ghost before = out@;
                out.push(c.copy());
                proof {
                    assert(cands_view(out@) =~= cands_view(before).push(c@));
                }
            }
            i = i + 1;
        }
        proof {
            assert(cs.take(i as int) =~= cs);
        }
        out
    }

    /// Whether it is time to ask the judge again: a ledger that has never
    /// asked may ask now; afterwards the context must have grown by
    /// `decide_growth_tokens`, and enough candidates must be undecided.
    pub fn should_decide(&self, messages: &[AgentMessage], context_tokens: usize, options: &PruneOptions) -> (r: bool)
        ensures
            r == should_decide_spec(self@, mv(messages@), context_tokens as int, *options),
    {
        let asked_before = self.decided_at_tokens > 0;
        if asked_before && context_tokens < self.decided_at_tokens.saturating_add(options.decide_growth_tokens) {
            return false;
        }
        self.undecided(messages, options).len() >= options.decide_min_candidates
    }

    /// Starts a decide round: picks the undecided candidates, oldest first,
    /// as many as the round's requests can ask about, and records the
    /// context size the round was asked at.
    pub fn begin_decide(&mut self, messages: &[AgentMessage], options: &PruneOptions, max_questions: usize) -> (r: DecideStart)
        ensures
            r.context_tokens == ttoks(mv(messages@)),
            r.calls_per_request == calls_per_request_spec(max_questions as int),
            cands_view(r.candidates@) == round_candidates(old(self)@, mv(messages@), *options, max_questions as int),
            forall|k: int| 0 <= k < r.candidates@.len() ==> (#[trigger] r.candidates@[k]).call_index < messages@.len() && (r.candidates@[k].result_index matches Some(x) ==> x < messages@.len()),
            final(self)@ == (LedgerV { decided_at_tokens: ttoks(mv(messages@)), ..old(self)@ }),
    {
        let context_tokens = total_tokens(messages);
        let per = max_questions / PER_CANDIDATE;
        let calls_per_request: usize = if per > 1 { per } else { 1 };
        let requests: usize = if options.max_requests_per_decide > 1 { options.max_requests_per_decide } else { 1 };
        let cap: usize = match calls_per_request.checked_mul(requests) {
            Some(x) => x,
            None => usize::MAX,
        };
        let mut candidates = self.undecided(messages, options);
        let ghost u = candidates@;
        candidates.truncate(cap);
        proof {
            if cap < u.len() {
                assert(cands_view(candidates@) =~= cands_view(u).take(cap as int));
            }
        }
        self.decided_at_tokens = context_tokens;
        DecideStart { candidates, calls_per_request, context_tokens }
    }

    fn remove_pending(&mut self, id: &String)
        ensures
            final(self)@ == (LedgerV { pending: without_pending(old(self)@.pending, id@), ..old(self)@ }),
    {
        let ghost p = old(self)@.pending;
        let mut out: Vec<Verdict> = Vec::new();
        let mut i: usize = 0;
        while i < self.pending.len()
            invariant
                i <= self.pending@.len(),
                self@ == old(self)@,
                p == verdicts_view(self.pending@),
                verdicts_view(out@) == without_pending(p.take(i as int), id@),
            decreases self.pending@.len() - i,
        {
            proof {
                assert(p.take(i + 1).drop_last() =~= p.take(i as int));
                assert(p.take(i + 1).last() == self.pending@[i as int]@);
            }
            if !str_eq(self.pending[i].call_id.as_str(), id.as_str()) {
                let ghost before = out@;
                out.push(self.pending[i].copy());
                proof {
                    assert(verdicts_view(out@) =~= verdicts_view(before) + seq![self.pending@[i as int]@]);
                }
            } else {
                proof {
                    assert(without_pending(p.take(i + 1), id@) =~= without_pending(p.take(i as int), id@));
                }
            }
            i = i + 1;
        }
        proof {
            assert(p.take(i as int) =~= p);
        }
        self.pending = out;
    }

    fn remove_kept(&mut self, id: &String)
        ensures
            final(self)@ == (LedgerV { kept_at: without_kept(old(self)@.kept_at, id@), ..old(self)@ }),
    {
        let ghost k = old(self)@.kept_at;
        let mut out: Vec<KeptCall> = Vec::new();
        let mut i: usize = 0;
        while i < self.kept_at.len()
            invariant
                i <= self.kept_at@.len(),
                self@ == old(self)@,
                k == kept_view(self.kept_at@),
                kept_view(out@) == without_kept(k.take(i as int), id@),
            decreases self.kept_at@.len() - i,
        {
            proof {
                assert(k.take(i + 1).drop_last() =~= k.take(i as int));
                assert(k.take(i + 1).last() == (self.kept_at@[i as int].call_id@, self.kept_at@[i as int].at_tokens as int));
            }
            if !str_eq(self.kept_at[i].call_id.as_str(), id.as_str()) {
                let ghost before = out@;
                out.push(KeptCall { call_id: self.kept_at[i].call_id.clone(), at_tokens: self.kept_at[i].at_tokens });
                proof {
                    assert(kept_view(out@) =~= kept_view(before) + seq![k[i as int]]);
                }
            } else {
                proof {
                    assert(without_kept(k.take(i + 1), id@) =~= without_kept(k.take(i as int), id@));
                }
            }
            i = i + 1;
        }
        proof {
            assert(k.take(i as int) =~= k);
        }
        self.kept_at = out;
    }

    fn record_verdict(&mut self, v: &Verdict, context_tokens: usize)
        ensures
            final(self)@ == record(old(self)@, v@, context_tokens as int),
    {
        self.remove_pending(&v.call_id);
        self.remove_kept(&v.call_id);
        match v.decision {
            Decision::Keep => {
                let ghost before = self.kept_at@;
                self.kept_at.push(KeptCall { call_id: v.call_id.clone(), at_tokens: context_tokens });
                proof {
                    assert(kept_view(self.kept_at@) =~= kept_view(before).push((v.call_id@, context_tokens as int)));
                }
            },
            _ => {
                let ghost before = self.pending@;
                self.pending.push(v.copy());
                proof {
                    assert(verdicts_view(self.pending@) =~= verdicts_view(before).push(v@));
                }
            },
        }
    }

    /// Ends a decide round with the judge's replies, one per planned batch,
    /// in whatever order they came back. A cancelled batch cancels the round;
    /// a failed batch leaves its calls undecided for the next round, and only
    /// a round in which every call's batch failed is an error. Otherwise the
    /// verdicts on every call whose batch answered are recorded: a keep as
    /// final, a removal or truncation as pending.
    pub fn finish_decide(
        &mut self,
        candidates: &[Candidate],
        outcomes: Vec<(BatchReport, JudgeReply)>,
        options: &PruneOptions,
        context_tokens: usize,
        task_requests: usize,
        user_requests: Vec<RequestRelevance>,
        elapsed_ms: u64,
    ) -> (r: Result<DecideReport, DecideError>)
        requires
            ledger_wf(old(self)@),
        ensures
            ledger_wf(final(self)@),
            ({
                let o = outcomes@;
                let cs = cands_view(candidates@);
                let vs = round_verdicts(cs, o, options.keep_threshold_ppm);
                if exists|k: int| 0 <= k < o.len() && #[trigger] is_cancelled(o[k]) {
                    r matches Err(DecideError::Cancelled) && final(self)@ == old(self)@
                } else if round_failed(cs, o) {
                    r matches Err(DecideError::Failed(e)) && last_failure(o) == Some(e@) && final(self)@ == old(self)@
                } else {
                    &&& r matches Ok(rep)
                    &&& final(self)@ == record_all(old(self)@, vs, context_tokens as int)
                    &&& verdicts_view(rep.verdicts@) == vs
                    &&& rep.context_tokens == context_tokens
                    &&& rep.pending_tokens == sat(saves_sum(final(self)@.pending))
                    &&& rep.requests == sat(o.len() + task_requests)
                    &&& rep.elapsed_ms == elapsed_ms
                    &&& rels_view(rep.user_requests@) == rels_view(user_requests@)
                    &&& batch_reports_view(rep.batches@) == sorted_reports(reports_of(o))
                }
            }),
    {
        let ghost o = outcomes@;
        let ghost cs = cands_view(candidates@);
        let n_outcomes = outcomes.len();
        let mut answers: Vec<AnswerEntry> = Vec::new();
        let mut reports: Vec<BatchReport> = Vec::new();
        let mut failed: Vec<String> = Vec::new();
        let mut last_error: Option<String> = None;
        for item in it: outcomes
            invariant
                it.seq() == o,
                self@ == old(self)@,
                ledger_wf(self@),
                forall|k: int| 0 <= k < it.index() ==> !#[trigger] is_cancelled(o[k]),
                answers_view(answers@) == all_answers(o.take(it.index() as int)),
                strs(failed@) == failed_ids(o.take(it.index() as int)),
                (match last_error {
                    Some(e) => Some(e@),
                    None => None,
                }) == last_failure(o.take(it.index() as int)),
                batch_reports_view(reports@) == reports_of(o.take(it.index() as int)),
        {
            let ghost k = it.index() as int;
            proof {
                assert(o.take(k + 1).drop_last() =~= o.take(k));
                assert(o.take(k + 1).last() == o[k]);
                assert(o[k] == item);
            }
            let (mut report, reply) = item;
            match reply {
                JudgeReply::Answers(mut a) => {
                    let ghost before = answers@;
                    let ghost av = a@;
                    answers.append(&mut a);
                    proof {
                        assert(answers_view(answers@) =~= answers_view(before) + answers_view(av));
                        assert(failed_ids(o.take(k + 1)) =~= failed_ids(o.take(k)));
                    }
                },
                JudgeReply::Cancelled => {
                    proof {
                        assert(is_cancelled(o[k]));
                    }
                    return Err(DecideError::Cancelled);
                },
                JudgeReply::Failed(error) => {
                    let mut i: usize = 0;
                    let ghost before = failed@;
                    while i < report.call_ids.len()
                        invariant
                            i <= report.call_ids@.len(),
                            strs(failed@) == strs(before) + strs(report.call_ids@.take(i as int)),
                        decreases report.call_ids@.len() - i,
                    {
                        let ghost f0 = failed@;
                        failed.push(report.call_ids[i].clone());
                        proof {
                            assert(strs(failed@) =~= strs(f0).push(report.call_ids@[i as int]@));
                            assert(strs(report.call_ids@.take(i + 1)) =~= strs(report.call_ids@.take(i as int)).push(report.call_ids@[i as int]@));
                        }
                        i = i + 1;
                    }
                    proof {
                        assert(report.call_ids@.take(i as int) =~= report.call_ids@);
                        assert(strs(report.call_ids@) =~= report@.call_ids);
                        assert(all_answers(o.take(k + 1)) =~= all_answers(o.take(k)));
                    }
                    report.failed = Some(error.clone());
                    last_error = Some(error);
                },
            }
            let ghost rb = reports@;
            reports.push(report);
            proof {
                assert(batch_reports_view(reports@) =~= batch_reports_view(rb).push(report_of(o[k])));
                assert(reports_of(o.take(k + 1)) =~= reports_of(o.take(k)).push(report_of(o[k])));
            }
        }
        proof {
            assert(o.take(o.len() as int) =~= o);
        }
        if let Some(error) = last_error {
            let mut all_failed = true;
            let mut i: usize = 0;
            while i < candidates.len()
                invariant
                    i <= candidates@.len(),
                    cs == cands_view(candidates@),
                    all_failed == forall|k: int| 0 <= k < i ==> strs(failed@).contains(#[trigger] cs[k].call_id),
                decreases candidates@.len() - i,
            {
                let found = contains_string(failed.as_slice(), &candidates[i].call_id);
                proof {
                    assert(cs[i as int] == candidates@[i as int]@);
                    if !found {
                        assert(!strs(failed@).contains(cs[i as int].call_id));
                    }
                    if !all_failed {
                        let w = choose|k: int| 0 <= k < i && !strs(failed@).contains(#[trigger] cs[k].call_id);
                        assert(0 <= w < i + 1 && !strs(failed@).contains(cs[w].call_id));
                    }
                }
                if !found {
                    all_failed = false;
                }
                i = i + 1;
            }
            if all_failed {
                return Err(DecideError::Failed(error));
            }
        }
        let batches = sort_reports(reports);
        let mut verdicts: Vec<Verdict> = Vec::new();
        let mut i: usize = 0;
        let ghost threshold = options.keep_threshold_ppm;
        let ghost fid = strs(failed@);
        let ghost ans = answers_view(answers@);
        while i < candidates.len()
            invariant
                i <= candidates@.len(),
                cs == cands_view(candidates@),
                fid == strs(failed@),
                ans == answers_view(answers@),
                threshold == options.keep_threshold_ppm,
                ledger_wf(self@),
                verdicts_view(verdicts@) == verdicts_for(judged(cs.take(i as int), fid), ans, threshold),
                self@ == record_all(old(self)@, verdicts_view(verdicts@), context_tokens as int),
            decreases candidates@.len() - i,
        {
            proof {
                assert(cs.take(i + 1).drop_last() =~= cs.take(i as int));
                assert(cs.take(i + 1).last() == candidates@[i as int]@);
            }
            let c = &candidates[i];
            if !contains_string(failed.as_slice(), &c.call_id) {
                let v = verdict(c, answers.as_slice(), options);
                proof {
                    lemma_record_places(self@, v@, context_tokens as int, v@.call_id + seq!['x']);
                }
                self.record_verdict(&v, context_tokens);
                let ghost before = verdicts@;
                verdicts.push(v);
                proof {
                    assert(verdicts_view(verdicts@) =~= verdicts_view(before).push(verdicts@.last()@));
                    assert(verdicts_view(verdicts@).drop_last() =~= verdicts_view(before));
                    assert(verdicts_for(judged(cs.take(i + 1), fid), ans, threshold) =~= verdicts_for(judged(cs.take(i as int), fid), ans, threshold).push(verdict_spec(c@, ans, threshold)));
                }
            } else {
                proof {
                    assert(judged(cs.take(i + 1), fid) =~= judged(cs.take(i as int), fid));
                }
            }
            i = i + 1;
        }
        proof {
            assert(cs.take(i as int) =~= cs);
        }
        let pending_tokens = self.pending_tokens();
        Ok(DecideReport {
            verdicts,
            context_tokens,
            pending_tokens,
            requests: n_outcomes.saturating_add(task_requests),
            elapsed_ms,
            user_requests,
            batches,
        })
    }

    /// Applies every pending verdict in one batch. Verdicts whose call is
    /// now pinned or no longer present are dropped without editing.
    /// Everything judged so far is then either applied or stale: the ledger
    /// is emptied, and the next round is measured from the edited history.
    pub fn apply(&mut self, messages: Vec<AgentMessage>, options: &PruneOptions, trigger: ApplyTrigger) -> (r: (
        Vec<AgentMessage>,
        ApplyReport,
    ))
        ensures
            ({
                let ms = mv(messages@);
                let p = old(self)@.pending;
                let live = live_ids(ms, options.preserve_recent as int);
                let rm = applied_ids(p, live, Decision::Remove);
                let tr = applied_ids(p, live, Decision::Truncate);
                &&& mv(r.0@) == edit_spec(ms, rm, tr, options.truncate_head_chars as int)
                &&& r.1.removed == rm.len()
                &&& r.1.truncated == tr.len()
                &&& r.1.skipped == skipped_count(p, live)
                &&& r.1.before_tokens == ttoks(ms)
                &&& r.1.after_tokens == ttoks(mv(r.0@))
                &&& r.1.before_messages == ms.len()
                &&& r.1.after_messages == r.0@.len()
                &&& r.1.trigger == trigger
                &&& final(self)@ == (LedgerV {
                    pending: Seq::empty(),
                    kept_at: Seq::empty(),
                    decided_at_tokens: ttoks(mv(r.0@)),
                    last_request_ms: old(self)@.last_request_ms,
                })
            }),
            ledger_wf(final(self)@),
    {
        let ghost ms = mv(messages@);
        let ghost p = old(self)@.pending;
        let before_tokens = total_tokens(messages.as_slice());
        let before_messages = messages.len();
        let cands = collect(messages.as_slice(), options.preserve_recent);
        let ghost cv = cands_view(cands@);
        let mut live: Vec<String> = Vec::new();
        let mut i: usize = 0;
        while i < cands.len()
            invariant
                i <= cands@.len(),
                cv == cands_view(cands@),
                strs(live@) == call_ids_of(cv.take(i as int)),
            decreases cands@.len() - i,
        {
            let ghost before = live@;
            live.push(cands[i].call_id.clone());
            proof {
                assert(strs(live@) =~= strs(before).push(cands@[i as int].call_id@));
                assert(call_ids_of(cv.take(i + 1)) =~= call_ids_of(cv.take(i as int)).push(cv[i as int].call_id));
            }
            i = i + 1;
        }
        proof {
            assert(cv.take(i as int) =~= cv);
        }
        let ghost lv = strs(live@);
        let mut remove: Vec<String> = Vec::new();
        let mut truncate: Vec<String> = Vec::new();
        let mut skipped: usize = 0;
        let mut k: usize = 0;
        while k < self.pending.len()
            invariant
                k <= self.pending@.len(),
                self@ == old(self)@,
                p == verdicts_view(self.pending@),
                lv == strs(live@),
                strs(remove@) == applied_ids(p.take(k as int), lv, Decision::Remove),
                strs(truncate@) == applied_ids(p.take(k as int), lv, Decision::Truncate),
                skipped == skipped_count(p.take(k as int), lv),
                skipped <= k,
            decreases self.pending@.len() - k,
        {
            proof {
                assert(p.take(k + 1).drop_last() =~= p.take(k as int));
                assert(p.take(k + 1).last() == self.pending@[k as int]@);
            }
            let v = &self.pending[k];
            if !contains_string(live.as_slice(), &v.call_id) {
                skipped = skipped + 1;
                proof {
                    assert(applied_ids(p.take(k + 1), lv, Decision::Remove) =~= applied_ids(p.take(k as int), lv, Decision::Remove));
                    assert(applied_ids(p.take(k + 1), lv, Decision::Truncate) =~= applied_ids(p.take(k as int), lv, Decision::Truncate));
                }
            } else {
                match v.decision {
                    Decision::Remove => {
                        let ghost before = remove@;
                        remove.push(v.call_id.clone());
                        proof {
                            assert(strs(remove@) =~= strs(before).push(v.call_id@));
                            assert(applied_ids(p.take(k + 1), lv, Decision::Truncate) =~= applied_ids(p.take(k as int), lv, Decision::Truncate));
                        }
                    },
                    Decision::Truncate => {
                        let ghost before = truncate@;
                        truncate.push(v.call_id.clone());
                        proof {
                            assert(strs(truncate@) =~= strs(before).push(v.call_id@));
                            assert(applied_ids(p.take(k + 1), lv, Decision::Remove) =~= applied_ids(p.take(k as int), lv, Decision::Remove));
                        }
                    },
                    Decision::Keep => {
                        proof {
                            assert(applied_ids(p.take(k + 1), lv, Decision::Remove) =~= applied_ids(p.take(k as int), lv, Decision::Remove));
                            assert(applied_ids(p.take(k + 1), lv, Decision::Truncate) =~= applied_ids(p.take(k as int), lv, Decision::Truncate));
                        }
                    },
                }
            }
            k = k + 1;
        }
        proof {
            assert(p.take(k as int) =~= p);
        }
        let removed = remove.len();
        let truncated = truncate.len();
        let edited = apply_edits(messages, &remove, &truncate, options.truncate_head_chars);
        self.pending = Vec::new();
        self.kept_at = Vec::new();
        let after_tokens = total_tokens(edited.as_slice());
        self.decided_at_tokens = after_tokens;
        let after_messages = edited.len();
        proof {
            assert(verdicts_view(self.pending@) =~= Seq::<VerdictV>::empty());
            assert(kept_view(self.kept_at@) =~= Seq::<(Seq<char>, int)>::empty());
            assert(pending_ids(self@.pending) =~= Seq::<Seq<char>>::empty());
            assert(kept_ids(self@.kept_at) =~= Seq::<Seq<char>>::empty());
        }
        let report = ApplyReport {
            removed,
            truncated,
            skipped,
            before_tokens,
            after_tokens,
            before_messages,
            after_messages,
            trigger,
        };
        (edited, report)
    }

    /// Why the pending edits should be applied now, if at all: their savings
    /// reached the configured share of the context, or the cache went cold.
    pub fn apply_trigger(&self, context_tokens: usize, now_ms: u64, options: &PruneOptions) -> (r: Option<ApplyTrigger>)
        ensures
            r == apply_trigger_spec(self@, context_tokens as int, now_ms as int, *options),
    {
        if self.pending.len() == 0 {
            return None;
        }
        let saved = self.pending_tokens();
        let base: usize = if context_tokens > 1 { context_tokens } else { 1 };
        proof {
            assert((saved as int) * 1_000_000 <= 0xffff_ffff_ffff_ffffu64 * 1_000_000) by (nonlinear_arith)
                requires
                    saved <= 0xffff_ffff_ffff_ffffu64,
            ;
            assert((options.apply_min_share_ppm as int) * (base as int) <= 0xffff_ffffu32 * 0xffff_ffff_ffff_ffffu64)
                by (nonlinear_arith)
                requires
                    options.apply_min_share_ppm <= 0xffff_ffffu32,
                    base <= 0xffff_ffff_ffff_ffffu64,
            ;
        }
        let lhs: u128 = (saved as u128) * 1_000_000u128;
        let rhs: u128 = (options.apply_min_share_ppm as u128) * (base as u128);
        if lhs >= rhs {
            return Some(ApplyTrigger::Savings);
        }
        if self.cache_is_cold(now_ms, options.cache_ttl_ms) {
            return Some(ApplyTrigger::ColdCache);
        }
        None
    }
}

/// Sorts batch reports by the first message they show, stably.
fn sort_reports(reports: Vec<BatchReport>) -> (r: Vec<BatchReport>)
    ensures
        batch_reports_view(r@) == sorted_reports(batch_reports_view(reports@)),
{
    let ghost raw = reports@;
    let ghost s = batch_reports_view(reports@);
    let mut out: Vec<BatchReport> = Vec::new();
    for b in it: reports
        invariant
            it.seq() == raw,
            s == batch_reports_view(raw),
            batch_reports_view(out@) == sorted_reports(s.take(it.index() as int)),
    {
        let ghost k = it.index() as int;
        let ghost t = batch_reports_view(out@);
        proof {
            assert(s.take(k + 1).drop_last() =~= s.take(k));
            assert(s.take(k + 1).last() == raw[k]@);
            assert(raw[k] == b);
        }
        let key = b.from;
        let mut p = out.len();
        proof {
            assert(t.take(p as int) =~= t);
        }
        loop
            invariant_except_break
                p <= out@.len(),
                t == batch_reports_view(out@),
                insert_pos(t, key as int) == insert_pos(t.take(p as int), key as int),
            ensures
                p <= out@.len(),
                insert_pos(t, key as int) == p,
            decreases p,
        {
            if p == 0 {
                break;
            }
            if out[p - 1].from <= key {
                proof {
                    assert(t.take(p as int).last() == out@[p - 1]@);
                }
                break;
            }
            proof {
                assert(t.take(p as int).drop_last() =~= t.take(p - 1));
                assert(t.take(p as int).last() == out@[p - 1]@);
            }
            p = p - 1;
        }
        let ghost bv = b@;
        out.insert(p, b);
        proof {
            assert(batch_reports_view(out@) =~= t.insert(p as int, bv));
        }
    }
    proof {
        assert(s.take(s.len() as int) =~= s);
    }
    out
}

/// The questions of a batch, in candidate order.
fn questions_of(batch: &[Candidate]) -> (r: Vec<Question>)
    ensures
        questions_view(r@) == chunk_questions(cands_view(batch@)),
{
    let ghost cs = cands_view(batch@);
    let mut out: Vec<Question> = Vec::new();
    let mut i: usize = 0;
    while i < batch.len()
        invariant
            i <= batch@.len(),
            cs == cands_view(batch@),
            questions_view(out@) == chunk_questions(cs.take(i as int)),
        decreases batch@.len() - i,
    {
        proof {
            assert(cs.take(i + 1).drop_last() =~= cs.take(i as int));
            assert(cs.take(i + 1).last() == batch@[i as int]@);
        }
        let mut qs = for_candidate(&batch[i]);
        let ghost before = out@;
        let ghost added = qs@;
        out.append(&mut qs);
        proof {
            assert(questions_view(out@) =~= questions_view(before) + questions_view(added));
        }
        i = i + 1;
    }
    proof {
        assert(cs.take(i as int) =~= cs);
    }
    out
}

proof fn lemma_min_call_le_max_end(b: Seq<CandidateV>, f: int)
    requires
        b.len() > 0,
        results_follow_calls(b),
    ensures
        min_call(b) <= max_end(b, f),
    decreases b.len(),
{
    if b.len() > 1 {
        let d = b.drop_last();
        assert(results_follow_calls(d)) by {
            assert forall|k: int| 0 <= k < d.len() implies end_of(#[trigger] d[k]) >= d[k].call_index by {
                assert(d[k] == b[k]);
            }
        }
        lemma_min_call_le_max_end(d, f);
        assert(end_of(b[b.len() - 1]) >= b[b.len() - 1].call_index);
    } else {
        assert(end_of(b[0]) >= b[0].call_index);
    }
}

proof fn lemma_chunk_count(len: int, n: int, k: int)
    requires
        n > 0,
        k > 0,
        (k - 1) * n < len,
        len <= k * n,
    ensures
        chunk_count(len, n) == k,
{
    assert((len + n - 1) / n == k) by (nonlinear_arith)
        requires
            n > 0,
            k > 0,
            (k - 1) * n < len,
            len <= k * n,
    ;
}

proof fn lemma_chunk_index(len: int, n: int, k: int)
    requires
        n > 0,
        k >= 0,
        k * n < len,
    ensures
        k < chunk_count(len, n),
{
    assert(k < (len + n - 1) / n) by (nonlinear_arith)
        requires
            n > 0,
            k >= 0,
            k * n < len,
    ;
}

proof fn lemma_chunk_nonempty(len: int, n: int, j: int)
    requires
        n > 0,
        0 <= j < chunk_count(len, n),
    ensures
        j * n < len,
{
    assert(j * n < len) by (nonlinear_arith)
        requires
            n > 0,
            0 <= j,
            j < (len + n - 1) / n,
    ;
}

/// Histories whose results come after their calls can always be rendered,
/// however their candidates are split.
pub proof fn lemma_follow_calls_renderable(ms: Seq<AgentMessageV>, cs: Seq<CandidateV>, n: int)
    requires
        n > 0,
        forall|k: int| 0 <= k < cs.len() ==> 0 <= (#[trigger] cs[k]).call_index < ms.len(),
        results_follow_calls(cs),
    ensures
        batches_renderable(ms, cs, n),
{
    assert forall|j: int| 0 <= j < chunk_count(cs.len() as int, n) implies chunk_renderable(ms, #[trigger] chunk(cs, n, j)) by {
        lemma_chunk_nonempty(cs.len() as int, n, j);
        let c = chunk(cs, n, j);
        assert(0 <= j * n) by (nonlinear_arith)
            requires
                n > 0,
                j >= 0,
        ;
        assert((j + 1) * n == j * n + n) by (nonlinear_arith);
        assert(c.len() > 0);
        assert forall|i: int| 0 <= i < c.len() implies end_of(#[trigger] c[i]) >= c[i].call_index && 0 <= c[i].call_index < ms.len() by {
            assert(c[i] == cs[j * n + i]);
        }
        assert(c[0].call_index < ms.len());
        lemma_min_call_bound(c, ms.len() as int);
        lemma_min_call_le_max_end(c, min_call(c));
    }
}

/// Whether [`plan_batches`] can render every batch of `calls_per_request`
/// of these candidates (a batch whose first call lies past the last message
/// it would show cannot be).
pub fn renderable(messages: &[AgentMessage], candidates: &[Candidate], calls_per_request: usize) -> (r: bool)
    requires
        calls_per_request > 0,
    ensures
        r == batches_renderable(mv(messages@), cands_view(candidates@), calls_per_request as int),
{
    let ghost cs = cands_view(candidates@);
    let ghost ms = mv(messages@);
    let n = calls_per_request;
    let len = candidates.len();
    let mut start: usize = 0;
    let ghost mut k: int = 0;
    proof {
        assert(k * n == 0) by (nonlinear_arith)
            requires
                k == 0,
        ;
    }
    while start < len
        invariant
            len == candidates@.len(),
            cs == cands_view(candidates@),
            ms == mv(messages@),
            n == calls_per_request,
            n > 0,
            k >= 0,
            start == (if k * n < len { k * n } else { len as int }),
            k > 0 ==> (k - 1) * n < len,
            forall|j: int| 0 <= j < k ==> chunk_renderable(ms, #[trigger] chunk(cs, n as int, j)),
        decreases len - start,
    {
        let end: usize = if len - start > n { start + n } else { len };
        proof {
            assert((k + 1) * n == k * n + n) by (nonlinear_arith);
            assert(start == k * n);
        }
        let batch = vstd::slice::slice_subrange(candidates, start, end);
        proof {
            assert(cands_view(batch@) =~= chunk(cs, n as int, k));
            lemma_chunk_index(len as int, n as int, k);
        }
        let (_, from, maxe) = batch_range(batch);
        let ok = messages.len() > 0 && from <= (if maxe < messages.len() - 1 { maxe } else { messages.len() - 1 }) + 1;
        if !ok {
            proof {
                assert(!chunk_renderable(ms, chunk(cs, n as int, k)));
            }
            return false;
        }
        start = end;
        proof {
            k = k + 1;
        }
    }
    proof {
        if k > 0 {
            lemma_chunk_count(len as int, n as int, k);
        } else {
            assert(len == 0);
            assert(chunk_count(0, n as int) == 0) by (nonlinear_arith)
                requires n > 0;
        }
    }
    true
}

/// Splits a round's candidates into batches of `calls_per_request`, oldest
/// first, and plans one judge request per batch. The questions ride in the
/// same request as the state, so they come out of the same budget.
pub fn plan_batches(
    messages: &[AgentMessage],
    candidates: &[Candidate],
    task: &str,
    calls_per_request: usize,
    request_tokens: usize,
) -> (r: Vec<Batch>)
    requires
        calls_per_request > 0,
        batches_renderable(mv(messages@), cands_view(candidates@), calls_per_request as int),
    ensures
        r@.len() == chunk_count(candidates@.len() as int, calls_per_request as int),
        forall|j: int| 0 <= j < r@.len() ==> batch_spec(
            #[trigger] r@[j],
            mv(messages@),
            chunk(cands_view(candidates@), calls_per_request as int, j),
            task@,
            request_tokens as int,
        ),
{
    let ghost cs = cands_view(candidates@);
    let ghost ms = mv(messages@);
    let n = calls_per_request;
    let len = candidates.len();
    let mut out: Vec<Batch> = Vec::new();
    let mut start: usize = 0;
    proof {
        assert(out@.len() * n == 0) by (nonlinear_arith)
            requires
                out@.len() == 0,
        ;
    }
    while start < len
        invariant
            len == candidates@.len(),
            cs == cands_view(candidates@),
            ms == mv(messages@),
            n == calls_per_request,
            n > 0,
            batches_renderable(ms, cs, n as int),
            start == (if out@.len() * n < len { out@.len() * n } else { len as int }),
            out@.len() > 0 ==> (out@.len() - 1) * n < len,
            forall|j: int| 0 <= j < out@.len() ==> batch_spec(#[trigger] out@[j], ms, chunk(cs, n as int, j), task@, request_tokens as int),
        decreases len - start,
    {
        let ghost k = out@.len() as int;
        let end: usize = if len - start > n { start + n } else { len };
        proof {
            assert((k + 1) * n == k * n + n) by (nonlinear_arith);
            assert(start == k * n);
        }
        let batch = vstd::slice::slice_subrange(candidates, start, end);
        let ghost c = cands_view(batch@);
        proof {
            assert(c =~= chunk(cs, n as int, k));
            lemma_chunk_index(len as int, n as int, k);
            assert(chunk_renderable(ms, chunk(cs, n as int, k)));
        }
        let questions = questions_of(batch);
        let budget = request_tokens.saturating_sub(tokens(questions.as_slice()));
        let (state, from, to) = render(messages, batch, task, budget);
        let mut call_ids: Vec<String> = Vec::new();
        let mut i: usize = 0;
        while i < batch.len()
            invariant
                i <= batch@.len(),
                c == cands_view(batch@),
                strs(call_ids@) == call_ids_of(c.take(i as int)),
            decreases batch@.len() - i,
        {
            let ghost before = call_ids@;
            call_ids.push(batch[i].call_id.clone());
            proof {
                assert(strs(call_ids@) =~= strs(before).push(batch@[i as int].call_id@));
                assert(call_ids_of(c.take(i + 1)) =~= call_ids_of(c.take(i as int)).push(c[i as int].call_id));
            }
            i = i + 1;
        }
        proof {
            assert(c.take(i as int) =~= c);
        }
        let b = Batch { state, questions, call_ids, from, to };
        proof {
            assert(batch_spec(b, ms, c, task@, request_tokens as int));
        }
        out.push(b);
        start = end;
    }
    proof {
        let k = out@.len() as int;
        if k > 0 {
            lemma_chunk_count(len as int, n as int, k);
        } else {
            assert(len == 0);
            assert(chunk_count(0, n as int) == 0) by (nonlinear_arith)
                requires n > 0;
        }
    }
    out
}

proof fn lemma_push_no_dup<A>(s: Seq<A>, x: A)
    requires
        s.no_duplicates(),
        !s.contains(x),
    ensures
        s.push(x).no_duplicates(),
{
    assert forall|i: int, j: int| 0 <= i < s.len() && 0 <= j < 1 implies s[i] != seq![x][j] by {
        assert(s.contains(s[i]));
    }
    vstd::seq_lib::lemma_no_dup_in_concat(s, seq![x]);
    assert(s + seq![x] =~= s.push(x));
}

proof fn lemma_without_pending(p: Seq<VerdictV>, id: Seq<char>)
    ensures
        forall|x: Seq<char>| #[trigger] pending_ids(without_pending(p, id)).contains(x) <==> (x != id && pending_ids(p).contains(x)),
        pending_ids(p).no_duplicates() ==> pending_ids(without_pending(p, id)).no_duplicates(),
    decreases p.len(),
{
    broadcast use vstd::seq_lib::lemma_seq_concat_contains_all_elements;
    if p.len() == 0 {
        assert(pending_ids(without_pending(p, id)) =~= Seq::<Seq<char>>::empty());
        assert(pending_ids(p) =~= Seq::<Seq<char>>::empty());
        assert forall|x: Seq<char>| #[trigger] pending_ids(without_pending(p, id)).contains(x) <==> (x != id && pending_ids(p).contains(x)) by {
            assert(!Seq::<Seq<char>>::empty().contains(x));
        }
    } else {
        let d = p.drop_last();
        lemma_without_pending(d, id);
        let w = without_pending(d, id);
        let tail: Seq<VerdictV> = if p.last().call_id == id { Seq::empty() } else { seq![p.last()] };
        assert(without_pending(p, id) == w + tail);
        assert(pending_ids(w + tail) =~= pending_ids(w) + pending_ids(tail));
        assert(pending_ids(p) =~= pending_ids(d) + seq![p.last().call_id]);
        assert forall|x: Seq<char>| #[trigger] pending_ids(w + tail).contains(x) <==> (x != id && pending_ids(p).contains(x)) by {
            assert(pending_ids(w + tail).contains(x) <==> pending_ids(w).contains(x) || pending_ids(tail).contains(x));
            assert(pending_ids(p).contains(x) <==> pending_ids(d).contains(x) || seq![p.last().call_id].contains(x));
            if seq![p.last().call_id].contains(x) {
                assert(x == p.last().call_id);
            }
            if x == p.last().call_id {
                assert(seq![p.last().call_id][0] == x);
            }
            if pending_ids(tail).contains(x) {
                assert(tail.len() == 1);
                assert(pending_ids(tail)[0] == p.last().call_id);
                assert(x == p.last().call_id);
            }
            if x == p.last().call_id && x != id {
                assert(pending_ids(tail)[0] == x);
            }
        }
        if pending_ids(p).no_duplicates() {
            assert forall|i: int, j: int| 0 <= i < j < pending_ids(d).len() implies pending_ids(d)[i] != pending_ids(d)[j] by {
                assert(pending_ids(d)[i] == pending_ids(p)[i]);
                assert(pending_ids(d)[j] == pending_ids(p)[j]);
            }
            assert forall|i: int| 0 <= i < pending_ids(d).len() implies pending_ids(d)[i] != p.last().call_id by {
                assert(pending_ids(d)[i] == pending_ids(p)[i]);
                assert(pending_ids(p)[p.len() - 1] == p.last().call_id);
            }
            assert(!pending_ids(d).contains(p.last().call_id));
            assert forall|i: int, j: int| 0 <= i < pending_ids(w).len() && 0 <= j < pending_ids(tail).len() implies pending_ids(w)[i] != pending_ids(tail)[j] by {
                assert(pending_ids(w).contains(pending_ids(w)[i]));
            }
            vstd::seq_lib::lemma_no_dup_in_concat(pending_ids(w), pending_ids(tail));
        }
    }
}

proof fn lemma_without_kept(k: Seq<(Seq<char>, int)>, id: Seq<char>)
    ensures
        forall|x: Seq<char>| #[trigger] kept_ids(without_kept(k, id)).contains(x) <==> (x != id && kept_ids(k).contains(x)),
        kept_ids(k).no_duplicates() ==> kept_ids(without_kept(k, id)).no_duplicates(),
    decreases k.len(),
{
    broadcast use vstd::seq_lib::lemma_seq_concat_contains_all_elements;
    if k.len() == 0 {
        assert(kept_ids(without_kept(k, id)) =~= Seq::<Seq<char>>::empty());
        assert(kept_ids(k) =~= Seq::<Seq<char>>::empty());
        assert forall|x: Seq<char>| #[trigger] kept_ids(without_kept(k, id)).contains(x) <==> (x != id && kept_ids(k).contains(x)) by {
            assert(!Seq::<Seq<char>>::empty().contains(x));
        }
    } else {
        let d = k.drop_last();
        lemma_without_kept(d, id);
        let w = without_kept(d, id);
        let tail: Seq<(Seq<char>, int)> = if k.last().0 == id { Seq::empty() } else { seq![k.last()] };
        assert(without_kept(k, id) == w + tail);
        assert(kept_ids(w + tail) =~= kept_ids(w) + kept_ids(tail));
        assert(kept_ids(k) =~= kept_ids(d) + seq![k.last().0]);
        assert forall|x: Seq<char>| #[trigger] kept_ids(w + tail).contains(x) <==> (x != id && kept_ids(k).contains(x)) by {
            assert(kept_ids(w + tail).contains(x) <==> kept_ids(w).contains(x) || kept_ids(tail).contains(x));
            assert(kept_ids(k).contains(x) <==> kept_ids(d).contains(x) || seq![k.last().0].contains(x));
            if seq![k.last().0].contains(x) {
                assert(x == k.last().0);
            }
            if x == k.last().0 {
                assert(seq![k.last().0][0] == x);
            }
            if kept_ids(tail).contains(x) {
                assert(tail.len() == 1);
                assert(kept_ids(tail)[0] == k.last().0);
                assert(x == k.last().0);
            }
            if x == k.last().0 && x != id {
                assert(kept_ids(tail)[0] == x);
            }
        }
        if kept_ids(k).no_duplicates() {
            assert forall|i: int, j: int| 0 <= i < j < kept_ids(d).len() implies kept_ids(d)[i] != kept_ids(d)[j] by {
                assert(kept_ids(d)[i] == kept_ids(k)[i]);
                assert(kept_ids(d)[j] == kept_ids(k)[j]);
            }
            assert forall|i: int| 0 <= i < kept_ids(d).len() implies kept_ids(d)[i] != k.last().0 by {
                assert(kept_ids(d)[i] == kept_ids(k)[i]);
                assert(kept_ids(k)[k.len() - 1] == k.last().0);
            }
            assert(!kept_ids(d).contains(k.last().0));
            assert forall|i: int, j: int| 0 <= i < kept_ids(w).len() && 0 <= j < kept_ids(tail).len() implies kept_ids(w)[i] != kept_ids(tail)[j] by {
                assert(kept_ids(w).contains(kept_ids(w)[i]));
            }
            vstd::seq_lib::lemma_no_dup_in_concat(kept_ids(w), kept_ids(tail));
        }
    }
}

/// Recording a verdict puts the call in exactly one place: pending when it
/// is a removal or a truncation, kept when it is a keep. Every other call
/// stays where it was, and the ledger keeps one entry per call.
pub proof fn lemma_record_places(l: LedgerV, v: VerdictV, context_tokens: int, other: Seq<char>)
    requires
        ledger_wf(l),
        other != v.call_id,
    ensures
        ledger_wf(record(l, v, context_tokens)),
        pending_ids(record(l, v, context_tokens).pending).contains(v.call_id) <==> v.decision != Decision::Keep,
        kept_ids(record(l, v, context_tokens).kept_at).contains(v.call_id) <==> v.decision == Decision::Keep,
        pending_ids(record(l, v, context_tokens).pending).contains(other) == pending_ids(l.pending).contains(other),
        kept_ids(record(l, v, context_tokens).kept_at).contains(other) == kept_ids(l.kept_at).contains(other),
{
    broadcast use vstd::seq_lib::lemma_seq_contains_after_push;
    lemma_without_pending(l.pending, v.call_id);
    lemma_without_kept(l.kept_at, v.call_id);
    let wp = without_pending(l.pending, v.call_id);
    let wk = without_kept(l.kept_at, v.call_id);
    let r = record(l, v, context_tokens);
    if v.decision == Decision::Keep {
        assert(kept_ids(wk.push((v.call_id, context_tokens))) =~= kept_ids(wk).push(v.call_id));
        lemma_push_no_dup(kept_ids(wk), v.call_id);
        assert(kept_ids(r.kept_at).contains(v.call_id));
    } else {
        assert(pending_ids(wp.push(v)) =~= pending_ids(wp).push(v.call_id));
        lemma_push_no_dup(pending_ids(wp), v.call_id);
        assert(pending_ids(r.pending).contains(v.call_id));
    }
}

proof fn lemma_applied_contains(p: Seq<VerdictV>, live: Seq<Seq<char>>, d: Decision, k: int)
    requires
        0 <= k < p.len(),
        p[k].decision == d,
        live.contains(p[k].call_id),
    ensures
        applied_ids(p, live, d).contains(p[k].call_id),
    decreases p.len(),
{
    broadcast use vstd::seq_lib::lemma_seq_concat_contains_all_elements;
    let tail = if live.contains(p.last().call_id) && p.last().decision == d {
        seq![p.last().call_id]
    } else {
        Seq::empty()
    };
    assert(applied_ids(p, live, d) == applied_ids(p.drop_last(), live, d) + tail);
    if k < p.len() - 1 {
        assert(p.drop_last()[k] == p[k]);
        lemma_applied_contains(p.drop_last(), live, d, k);
    } else {
        assert(tail[0] == p[k].call_id);
        assert(tail.contains(p[k].call_id));
    }
}

/// Applying removes what was decided: a pending removal whose call is
/// still live leaves neither the call nor its result in the history.
pub proof fn lemma_apply_removes(p: Seq<VerdictV>, ms: Seq<AgentMessageV>, preserve_recent: int, head: int, k: int)
    requires
        0 <= k < p.len(),
        p[k].decision == Decision::Remove,
        live_ids(ms, preserve_recent).contains(p[k].call_id),
    ensures
        ({
            let live = live_ids(ms, preserve_recent);
            let out = edit_spec(ms, applied_ids(p, live, Decision::Remove), applied_ids(p, live, Decision::Truncate), head);
            !call_ids(out).contains(p[k].call_id) && !result_ids(out).contains(p[k].call_id)
        }),
{
    let live = live_ids(ms, preserve_recent);
    lemma_applied_contains(p, live, Decision::Remove, k);
    lemma_edit_removes(ms, applied_ids(p, live, Decision::Remove), applied_ids(p, live, Decision::Truncate), head, p[k].call_id);
}

/// A call just judged is not asked about again in the same conversation
/// state: a removal or truncation waits, pending, to be applied; a keep
/// waits until the context has grown by `revisit` tokens past the size it
/// was given at.
pub proof fn lemma_judged_waits(l: LedgerV, v: VerdictV, context_tokens: int, c: CandidateV, now: int, revisit: int)
    requires
        ledger_wf(l),
        c.call_id == v.call_id,
        v.decision == Decision::Keep ==> now < sat(context_tokens + revisit),
    ensures
        !is_undecided(record(l, v, context_tokens), c, now, revisit),
{
    lemma_record_places(l, v, context_tokens, v.call_id + seq!['x']);
    if v.decision == Decision::Keep {
        let wk = without_kept(l.kept_at, v.call_id);
        assert(wk.push((v.call_id, context_tokens)).drop_last() =~= wk);
        assert(kept_at_of(record(l, v, context_tokens).kept_at, c.call_id) == Some(context_tokens));
    }
}

pub open spec fn from_sorted(s: Seq<BatchReportV>) -> bool {
    forall|i: int, j: int| 0 <= i < j < s.len() ==> s[i].from <= s[j].from
}

proof fn lemma_insert_pos(t: Seq<BatchReportV>, key: int)
    ensures
        0 <= insert_pos(t, key) <= t.len(),
        forall|k: int| insert_pos(t, key) <= k < t.len() ==> t[k].from > key,
        insert_pos(t, key) > 0 ==> t[insert_pos(t, key) - 1].from <= key,
    decreases t.len(),
{
    if t.len() > 0 && t.last().from > key {
        lemma_insert_pos(t.drop_last(), key);
        assert forall|k: int| insert_pos(t, key) <= k < t.len() implies t[k].from > key by {
            if k < t.len() - 1 {
                assert(t.drop_last()[k] == t[k]);
            }
        }
    }
}

/// Batch reports come back ordered by the first message each batch shows,
/// whatever order the judge answered in.
pub proof fn lemma_reports_sorted(s: Seq<BatchReportV>)
    ensures
        from_sorted(sorted_reports(s)),
        sorted_reports(s).len() == s.len(),
    decreases s.len(),
{
    if s.len() > 0 {
        lemma_reports_sorted(s.drop_last());
        let t = sorted_reports(s.drop_last());
        let x = s.last();
        let p = insert_pos(t, x.from);
        lemma_insert_pos(t, x.from);
        let r = t.insert(p, x);
        assert forall|i: int, j: int| 0 <= i < j < r.len() implies r[i].from <= r[j].from by {
            if j < p {
                assert(r[i] == t[i] && r[j] == t[j]);
            } else if j == p {
                assert(r[i] == t[i]);
                assert(t[i].from <= t[p - 1].from);
            } else if i < p {
                assert(r[i] == t[i] && r[j] == t[j - 1]);
                assert(t[i].from <= t[p - 1].from);
            } else if i == p {
                assert(r[j] == t[j - 1]);
            } else {
                assert(r[i] == t[i - 1] && r[j] == t[j - 1]);
            }
        }
    }
}

proof fn lemma_kept_at_other(k: Seq<(Seq<char>, int)>, x: Seq<char>, id: Seq<char>)
    requires
        x != id,
    ensures
        kept_at_of(without_kept(k, x), id) == kept_at_of(k, id),
    decreases k.len(),
{
    if k.len() > 0 {
        lemma_kept_at_other(k.drop_last(), x, id);
        let w = without_kept(k.drop_last(), x);
        if k.last().0 != x {
            assert((w + seq![k.last()]).drop_last() =~= w);
            assert((w + seq![k.last()]).last() == k.last());
        } else {
            assert(w + Seq::<(Seq<char>, int)>::empty() =~= w);
        }
    }
}

/// Recording a verdict on another call leaves a call's standing as it was.
proof fn lemma_record_other(l: LedgerV, v: VerdictV, context_tokens: int, id: Seq<char>)
    requires
        ledger_wf(l),
        v.call_id != id,
    ensures
        ledger_wf(record(l, v, context_tokens)),
        pending_ids(record(l, v, context_tokens).pending).contains(id) == pending_ids(l.pending).contains(id),
        kept_at_of(record(l, v, context_tokens).kept_at, id) == kept_at_of(l.kept_at, id),
{
    lemma_record_places(l, v, context_tokens, id);
    lemma_kept_at_other(l.kept_at, v.call_id, id);
    let wk = without_kept(l.kept_at, v.call_id);
    if v.decision == Decision::Keep {
        assert(wk.push((v.call_id, context_tokens)).drop_last() =~= wk);
    }
}

proof fn lemma_judged_not_failed(cs: Seq<CandidateV>, failed: Seq<Seq<char>>)
    ensures
        forall|k: int| 0 <= k < judged(cs, failed).len() ==> !failed.contains(#[trigger] judged(cs, failed)[k].call_id),
    decreases cs.len(),
{
    if cs.len() > 0 {
        lemma_judged_not_failed(cs.drop_last(), failed);
        let a = judged(cs.drop_last(), failed);
        let b: Seq<CandidateV> = if failed.contains(cs.last().call_id) { Seq::empty() } else { seq![cs.last()] };
        assert(judged(cs, failed) == a + b);
        assert forall|k: int| 0 <= k < (a + b).len() implies !failed.contains(#[trigger] (a + b)[k].call_id) by {
            if k >= a.len() {
                assert((a + b)[k] == b[k - a.len()]);
            }
        }
    }
}

proof fn lemma_record_all_other(l: LedgerV, vs: Seq<VerdictV>, context_tokens: int, id: Seq<char>)
    requires
        ledger_wf(l),
        forall|k: int| 0 <= k < vs.len() ==> (#[trigger] vs[k]).call_id != id,
    ensures
        ledger_wf(record_all(l, vs, context_tokens)),
        pending_ids(record_all(l, vs, context_tokens).pending).contains(id) == pending_ids(l.pending).contains(id),
        kept_at_of(record_all(l, vs, context_tokens).kept_at, id) == kept_at_of(l.kept_at, id),
    decreases vs.len(),
{
    if vs.len() > 0 {
        let d = vs.drop_last();
        assert forall|k: int| 0 <= k < d.len() implies (#[trigger] d[k]).call_id != id by {
            assert(d[k] == vs[k]);
        }
        lemma_record_all_other(l, d, context_tokens, id);
        assert(vs[vs.len() - 1].call_id != id);
        lemma_record_other(record_all(l, d, context_tokens), vs.last(), context_tokens, id);
    }
}

/// A batch that fails leaves its calls as they stood: no verdict of the
/// round concerns them, so whether they are asked about again is what it
/// was before the round.
pub proof fn lemma_failed_calls_unchanged(
    l: LedgerV,
    cs: Seq<CandidateV>,
    o: Seq<(BatchReport, JudgeReply)>,
    threshold: u32,
    context_tokens: int,
    c: CandidateV,
    now: int,
    revisit: int,
)
    requires
        ledger_wf(l),
        failed_ids(o).contains(c.call_id),
    ensures
        ({
            let r = record_all(l, round_verdicts(cs, o, threshold), context_tokens);
            &&& ledger_wf(r)
            &&& is_undecided(r, c, now, revisit) == is_undecided(l, c, now, revisit)
        }),
{
    let failed = failed_ids(o);
    let j = judged(cs, failed);
    let vs = round_verdicts(cs, o, threshold);
    lemma_judged_not_failed(cs, failed);
    assert forall|k: int| 0 <= k < vs.len() implies (#[trigger] vs[k]).call_id != c.call_id by {
        assert(vs[k] == verdict_spec(j[k], all_answers(o), threshold));
        assert(!failed.contains(j[k].call_id));
    }
    lemma_record_all_other(l, vs, context_tokens, c.call_id);
}

proof fn lemma_saves_sum_nonneg(p: Seq<VerdictV>)
    requires
        forall|k: int| 0 <= k < p.len() ==> #[trigger] p[k].saves_tokens >= 0,
    ensures
        saves_sum(p) >= 0,
    decreases p.len(),
{
    if p.len() > 0 {
        lemma_saves_sum_nonneg(p.drop_last());
    }
}

} // verus!
