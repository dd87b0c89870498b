//! The two questions asked about each candidate, and the verdict their
//! answers add up to.

use vstd::prelude::*;
use crate::text::{chars_of, owned, push_char, push_str, str_eq, string_of, take_vec};
use crate::tokens::sat;
use super::candidates::{Candidate, CandidateV};
use super::options::PruneOptions;
use super::report::{Decision, Verdict, VerdictV};
use super::state::{abridge, abridged, estimate_tokens, script_tokens};

verus! {

/// Questions per candidate: keep the call, keep the result.
pub const PER_CANDIDATE: usize = 2;
/// Characters of the call arguments quoted in a question.
pub const QUESTION_ARGUMENT_CHARS: usize = 240;
/// Tokens the schema around one question costs, beyond its text.
pub const SCHEMA_OVERHEAD_TOKENS: usize = 12;

/// A yes/no question for the judge, answered with a probability, with what
/// a yes and a no mean.
pub struct Question {
    pub id: String,
    pub instructions: String,
    pub yes: Option<String>,
    pub no: Option<String>,
}

/// Mathematical view of a question.
pub ghost struct QuestionV {
    pub id: Seq<char>,
    pub instructions: Seq<char>,
    pub yes: Option<Seq<char>>,
    pub no: Option<Seq<char>>,
}

pub open spec fn ostr(o: Option<String>) -> Option<Seq<char>> {
    match o {
        Some(s) => Some(s@),
        None => None,
    }
}

impl View for Question {
    type V = QuestionV;

    open spec fn view(&self) -> QuestionV {
        QuestionV { id: self.id@, instructions: self.instructions@, yes: ostr(self.yes), no: ostr(self.no) }
    }
}

pub open spec fn questions_view(s: Seq<Question>) -> Seq<QuestionV> {
    s.map_values(|q: Question| q@)
}

/// The judge's answer to one question: its probability in parts per
/// million, when it gave one.
pub struct AnswerEntry {
    pub id: String,
    pub probability: Option<u32>,
}

pub open spec fn answers_view(s: Seq<AnswerEntry>) -> Seq<(Seq<char>, Option<u32>)> {
    s.map_values(|a: AnswerEntry| (a.id@, a.probability))
}

/// The probability answered last for `id`.
pub open spec fn answer_for(s: Seq<(Seq<char>, Option<u32>)>, id: Seq<char>) -> Option<u32>
    decreases s.len(),
{
    if s.len() == 0 {
        None
    } else if s.last().0 == id {
        s.last().1
    } else {
        answer_for(s.drop_last(), id)
    }
}

pub fn find_answer(answers: &[AnswerEntry], id: &String) -> (r: Option<u32>)
    ensures
        r == answer_for(answers_view(answers@), id@),
{
    let mut k = answers.len();
    proof {
        assert(answers_view(answers@).take(k as int) =~= answers_view(answers@));
    }
    while k > 0
        invariant
            k <= answers@.len(),
            answer_for(answers_view(answers@), id@) == answer_for(answers_view(answers@).take(k as int), id@),
        decreases k,
    {
        proof {
            assert(answers_view(answers@).take(k - 1) =~= answers_view(answers@).take(k as int).drop_last());
        }
        if str_eq(answers[k - 1].id.as_str(), id.as_str()) {
            return answers[k - 1].probability;
        }
        k = k - 1;
    }
    None
}

/// A call id with everything but ASCII letters and digits replaced by `_`.
pub open spec fn id_key(s: Seq<char>) -> Seq<char> {
    s.map_values(|c: char| if ('a' <= c <= 'z') || ('A' <= c <= 'Z') || ('0' <= c <= '9') { c } else { '_' })
}

/// The ids of the two questions about a call.
pub open spec fn question_ids(call_id: Seq<char>) -> (Seq<char>, Seq<char>) {
    ("call_"@ + id_key(call_id), "result_"@ + id_key(call_id))
}

pub fn ids(candidate: &Candidate) -> (r: (String, String))
    ensures
        (r.0@, r.1@) == question_ids(candidate.call_id@),
{
    let v = chars_of(candidate.call_id.as_str());
    let mut key = String::new();
    let mut i: usize = 0;
    while i < v.len()
        invariant
            i <= v@.len(),
            v@ == candidate.call_id@,
            key@ == id_key(v@.take(i as int)),
        decreases v@.len() - i,
    {
        let c = v[i];
        let k = if ('a' <= c && c <= 'z') || ('A' <= c && c <= 'Z') || ('0' <= c && c <= '9') { c } else { '_' };
        push_char(&mut key, k);
        proof {
            assert(id_key(v@.take(i + 1)) =~= id_key(v@.take(i as int)).push(k));
        }
        i = i + 1;
    }
    proof {
        assert(v@.take(v@.len() as int) =~= v@);
    }
    let mut a = owned("call_");
    push_str(&mut a, key.as_str());
    let mut b = owned("result_");
    push_str(&mut b, key.as_str());
    (a, b)
}

/// What both questions are about.
pub open spec fn about(c: CandidateV) -> Seq<char> {
    "the "@ + c.tool_name + " call `"@ + c.call_id + "` (arguments "@ + abridged(c.arguments, QUESTION_ARGUMENT_CHARS as int)
        + "; result "@ + c.result_note + ")"@
}

/// The two questions about a candidate: does the call still matter, is its
/// verbatim result still needed.
pub open spec fn questions_spec(c: CandidateV) -> Seq<QuestionV> {
    let (call_id, result_id) = question_ids(c.call_id);
    seq![
        QuestionV {
            id: call_id,
            instructions: "Does knowing that "@ + about(c) + " was made still matter for the ongoing task?"@,
            yes: Some("the task still depends on this having happened"@),
            no: Some("irrelevant now; forgetting it changes nothing"@),
        },
        QuestionV {
            id: result_id,
            instructions: "Is the verbatim content of the result of "@ + about(c) + " still needed?"@,
            yes: Some("its contents will be read again and re-running the tool is not an option"@),
            no: Some("superseded, already acted on, or cheap to re-run"@),
        },
    ]
}

pub fn for_candidate(candidate: &Candidate) -> (r: Vec<Question>)
    ensures
        questions_view(r@) == questions_spec(candidate@),
{
    let (call_id, result_id) = ids(candidate);
    let mut ab = owned("the ");
    push_str(&mut ab, candidate.tool_name.as_str());
    push_str(&mut ab, " call `");
    push_str(&mut ab, candidate.call_id.as_str());
    push_str(&mut ab, "` (arguments ");
    let args = abridge(candidate.arguments.as_str(), QUESTION_ARGUMENT_CHARS);
    push_str(&mut ab, args.as_str());
    push_str(&mut ab, "; result ");
    push_str(&mut ab, candidate.result_note.as_str());
    push_str(&mut ab, ")");
    let mut q1 = owned("Does knowing that ");
    push_str(&mut q1, ab.as_str());
    push_str(&mut q1, " was made still matter for the ongoing task?");
    let mut q2 = owned("Is the verbatim content of the result of ");
    push_str(&mut q2, ab.as_str());
    push_str(&mut q2, " still needed?");
    let mut v: Vec<Question> = Vec::new();
    v.push(Question {
        id: call_id,
        instructions: q1,
        yes: Some(owned("the task still depends on this having happened")),
        no: Some(owned("irrelevant now; forgetting it changes nothing")),
    });
    v.push(Question {
        id: result_id,
        instructions: q2,
        yes: Some(owned("its contents will be read again and re-running the tool is not an option")),
        no: Some(owned("superseded, already acted on, or cheap to re-run")),
    });
    proof {
        assert(ab@ =~= about(candidate@));
        assert(questions_view(v@) =~= questions_spec(candidate@));
    }
    v
}

/// Estimated tokens one question adds to a request.
pub open spec fn question_tokens(q: QuestionV) -> int {
    let y = match q.yes {
        Some(t) => script_tokens(t),
        None => 0,
    };
    let n = match q.no {
        Some(t) => script_tokens(t),
        None => 0,
    };
    sat(sat(sat(sat(script_tokens(q.instructions) + script_tokens(q.id)) + sat(y + n)) + SCHEMA_OVERHEAD_TOKENS))
}

pub open spec fn questions_tokens(s: Seq<QuestionV>) -> int
    decreases s.len(),
{
    if s.len() == 0 {
        0
    } else {
        sat(questions_tokens(s.drop_last()) + question_tokens(s.last()))
    }
}

fn opt_tokens(o: &Option<String>) -> (r: usize)
    ensures
        r == match ostr(*o) {
            Some(t) => script_tokens(t),
            None => 0,
        },
{
    match o {
        Some(t) => estimate_tokens(t.as_str()),
        None => 0,
    }
}

/// Estimated tokens the questions add to a request: instructions, criteria
/// and ids, plus the schema around each.
pub fn tokens(questions: &[Question]) -> (r: usize)
    ensures
        r == questions_tokens(questions_view(questions@)),
{
    let mut acc: usize = 0;
    let mut i: usize = 0;
    while i < questions.len()
        invariant
            i <= questions@.len(),
            acc == questions_tokens(questions_view(questions@.take(i as int))),
        decreases questions@.len() - i,
    {
        proof {
            assert(questions_view(questions@.take(i + 1)).drop_last() =~= questions_view(questions@.take(i as int)));
            assert(questions_view(questions@.take(i + 1)).last() == questions@[i as int]@);
        }
        let q = &questions[i];
        let crit = opt_tokens(&q.yes).saturating_add(opt_tokens(&q.no));
        let t = estimate_tokens(q.instructions.as_str()).saturating_add(estimate_tokens(q.id.as_str())).saturating_add(
            crit,
        ).saturating_add(SCHEMA_OVERHEAD_TOKENS);
        acc = acc.saturating_add(t);
        i = i + 1;
    }
    proof {
        assert(questions@.take(questions@.len() as int) =~= questions@);
    }
    acc
}

/// The decision for a pair. Silence never deletes: an unanswered question
/// counts as a keep for what it asked about. A result still needed keeps
/// both; a call that still matters keeps the call and truncates the result;
/// otherwise the pair goes.
pub open spec fn decide_pair(keep_call: Option<u32>, keep_result: Option<u32>, threshold: u32) -> Decision {
    let result_kept = match keep_result {
        Some(p) => p >= threshold,
        None => true,
    };
    let call_kept = match keep_call {
        Some(p) => p >= threshold,
        None => true,
    };
    if result_kept {
        Decision::Keep
    } else if call_kept {
        Decision::Truncate
    } else {
        Decision::Remove
    }
}

/// The verdict on a candidate given the answers.
pub open spec fn verdict_spec(c: CandidateV, answers: Seq<(Seq<char>, Option<u32>)>, threshold: u32) -> VerdictV {
    let (call_id, result_id) = question_ids(c.call_id);
    let keep_call = answer_for(answers, call_id);
    let keep_result = answer_for(answers, result_id);
    let d = decide_pair(keep_call, keep_result, threshold);
    VerdictV {
        call_id: c.call_id,
        tool_name: c.tool_name,
        arguments: if c.arguments.len() <= 200 { c.arguments } else { c.arguments.take(200) },
        decision: d,
        keep_call,
        keep_result,
        saves_tokens: match d {
            Decision::Keep => 0,
            Decision::Truncate => c.truncation_tokens,
            Decision::Remove => c.pair_tokens,
        },
    }
}

pub fn verdict(candidate: &Candidate, answers: &[AnswerEntry], options: &PruneOptions) -> (r: Verdict)
    ensures
        r@ == verdict_spec(candidate@, answers_view(answers@), options.keep_threshold_ppm),
{
    let (call_id, result_id) = ids(candidate);
    let keep_call = find_answer(answers, &call_id);
    let keep_result = find_answer(answers, &result_id);
    let threshold = options.keep_threshold_ppm;
    let result_kept = match keep_result {
        Some(p) => p >= threshold,
        None => true,
    };
    let call_kept = match keep_call {
        Some(p) => p >= threshold,
        None => true,
    };
    let decision = if result_kept {
        Decision::Keep
    } else if call_kept {
        Decision::Truncate
    } else {
        Decision::Remove
    };
    let saves_tokens = match decision {
        Decision::Keep => 0,
        Decision::Truncate => candidate.truncation_tokens,
        Decision::Remove => candidate.pair_tokens,
    };
    let v = chars_of(candidate.arguments.as_str());
    let arguments = if v.len() <= 200 {
        candidate.arguments.clone()
    } else {
        let h = take_vec(&v, 200);
        string_of(&h)
    };
    Verdict {
        call_id: candidate.call_id.clone(),
        tool_name: candidate.tool_name.clone(),
        arguments,
        decision,
        keep_call,
        keep_result,
        saves_tokens,
    }
}

/// What a verdict saves: nothing when the pair is kept, the tokens that
/// truncating its result frees when it is truncated, and the whole pair's
/// tokens when it is removed.
pub proof fn lemma_verdict_saves(c: CandidateV, answers: Seq<(Seq<char>, Option<u32>)>, threshold: u32)
    ensures
        verdict_spec(c, answers, threshold).decision is Keep ==> verdict_spec(c, answers, threshold).saves_tokens == 0,
        verdict_spec(c, answers, threshold).decision is Truncate ==> verdict_spec(c, answers, threshold).saves_tokens
            == c.truncation_tokens,
        verdict_spec(c, answers, threshold).decision is Remove ==> verdict_spec(c, answers, threshold).saves_tokens
            == c.pair_tokens,
{
}

/// Silence never deletes: a pair is removed only when both questions were
/// answered below the threshold, and truncated only when the result
/// question was.
pub proof fn lemma_silence_never_deletes(keep_call: Option<u32>, keep_result: Option<u32>, threshold: u32)
    ensures
        decide_pair(keep_call, keep_result, threshold) == Decision::Remove ==> (keep_call is Some && keep_call->0
            < threshold && keep_result is Some && keep_result->0 < threshold),
        decide_pair(keep_call, keep_result, threshold) == Decision::Truncate ==> (keep_result is Some
            && keep_result->0 < threshold),
        keep_call is None && keep_result is None ==> decide_pair(keep_call, keep_result, threshold) == Decision::Keep,
{
}

} // verus!
