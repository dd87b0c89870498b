//! The user-request round: which of the user's requests are still in play.
//! Its answer is the task every call is then judged against.

use vstd::prelude::*;
use crate::compaction::metadata::text_parts;
use crate::text::{dec, join, owned, push_str, push_usize, trim, trimmed};
use crate::types::{AgentMessage, AgentMessageV, Message, MessageV, mv};
use super::options::PruneOptions;
use super::questions::{AnswerEntry, Question, QuestionV, answer_for, answers_view, find_answer, questions_view};
use super::report::RequestRelevance;
use super::state::{abridge, abridged, text_of};

verus! {

/// User requests judged per round. Older ones are out of play by age.
pub const MAX_REQUESTS_JUDGED: usize = 40;
/// Characters of a request shown to the judge.
pub const REQUEST_CHARS: usize = 300;
/// Characters of the assistant's closing reply shown next to a request.
pub const CLOSING_CHARS: usize = 200;
/// Characters of a request kept in the task header and the report.
pub const TASK_REQUEST_CHARS: usize = 300;
/// When the round fails, only this many latest requests count as in play.
pub const IN_PLAY_ON_FAILURE: usize = 5;

/// What the judge made of a round of questions.
pub enum JudgeReply {
    Answers(Vec<AnswerEntry>),
    Cancelled,
    Failed(String),
}

/// A user request and how the assistant left it: the last text reply
/// before the next request (or the end of the history).
pub struct UserRequest {
    pub message_index: usize,
    pub text: String,
    pub closing: Option<String>,
}

pub ghost struct RequestV {
    pub message_index: int,
    pub text: Seq<char>,
    pub closing: Option<Seq<char>>,
}

impl View for UserRequest {
    type V = RequestV;

    open spec fn view(&self) -> RequestV {
        RequestV {
            message_index: self.message_index as int,
            text: self.text@,
            closing: match self.closing {
                Some(c) => Some(c@),
                None => None,
            },
        }
    }
}

pub open spec fn reqs_view(s: Seq<UserRequest>) -> Seq<RequestV> {
    s.map_values(|r: UserRequest| r@)
}

pub open spec fn msg_text(c: Seq<crate::types::ContentV>) -> Seq<char> {
    join(text_parts(c), "\n"@)
}

/// The requests of the messages below `k`.
pub open spec fn reqs_upto(ms: Seq<AgentMessageV>, k: int) -> Seq<RequestV>
    decreases k,
{
    if k <= 0 {
        Seq::empty()
    } else {
        let prev = reqs_upto(ms, k - 1);
        match ms[k - 1] {
            AgentMessageV::Llm(MessageV::User { content, .. }) => if trim(msg_text(content)).len() == 0 {
                prev
            } else {
                prev.push(RequestV { message_index: k - 1, text: msg_text(content), closing: None })
            },
            AgentMessageV::Llm(MessageV::Assistant { content, .. }) => if trim(msg_text(content)).len() == 0
                || prev.len() == 0 {
                prev
            } else {
                prev.update(prev.len() - 1, RequestV { closing: Some(msg_text(content)), ..prev.last() })
            },
            _ => prev,
        }
    }
}

pub fn user_requests(messages: &[AgentMessage]) -> (r: Vec<UserRequest>)
    ensures
        reqs_view(r@) == reqs_upto(mv(messages@), messages@.len() as int),
        forall|k: int| 0 <= k < r@.len() ==> (#[trigger] r@[k]).message_index < messages@.len(),
{
    let ghost ms = mv(messages@);
    let mut out: Vec<UserRequest> = Vec::new();
    let mut i: usize = 0;
    while i < messages.len()
        invariant
            i <= messages@.len(),
            ms == mv(messages@),
            reqs_view(out@) == reqs_upto(ms, i as int),
            forall|k: int| 0 <= k < out@.len() ==> (#[trigger] out@[k]).message_index < messages@.len(),
        decreases messages@.len() - i,
    {
        proof {
            assert(ms[i as int] == messages@[i as int]@);
        }
        let ghost po = out@;
        match &messages[i] {
            AgentMessage::Llm(Message::User { content, .. }) => {
                let text = text_of(content.as_slice());
                let t = trimmed(text.as_str());
                if t.as_str().unicode_len() != 0 {
                    out.push(UserRequest { message_index: i, text, closing: None });
                    proof {
                        assert(reqs_view(out@) =~= reqs_view(po).push(out@[out@.len() - 1]@));
                    }
                }
            },
            AgentMessage::Llm(Message::Assistant { content, .. }) => {
                let text = text_of(content.as_slice());
                let t = trimmed(text.as_str());
                if t.as_str().unicode_len() != 0 && out.len() > 0 {
                    let last = out.pop().unwrap();
                    let ghost lv = last@;
                    out.push(UserRequest { message_index: last.message_index, text: last.text, closing: Some(text) });
                    proof {
                        assert(reqs_view(out@) =~= reqs_view(po).update(po.len() - 1, RequestV { closing: Some(text@), ..reqs_view(po).last() }));
                    }
                }
            },
            _ => {},
        }
        i = i + 1;
    }
    out
}

/// What the report starts as: every request abridged, none asked, the
/// latest in play.
pub ghost struct RelV {
    pub message_index: int,
    pub text: Seq<char>,
    pub probability: Option<u32>,
    pub in_play: bool,
}

impl View for RequestRelevance {
    type V = RelV;

    open spec fn view(&self) -> RelV {
        RelV { message_index: self.message_index as int, text: self.text@, probability: self.probability, in_play: self.in_play }
    }
}

pub open spec fn rels_view(s: Seq<RequestRelevance>) -> Seq<RelV> {
    s.map_values(|r: RequestRelevance| r@)
}

pub open spec fn initial_report(rs: Seq<RequestV>) -> Seq<RelV> {
    Seq::new(
        rs.len(),
        |k: int| RelV {
            message_index: rs[k].message_index,
            text: abridged(rs[k].text, TASK_REQUEST_CHARS as int),
            probability: None,
            in_play: k == rs.len() - 1,
        },
    )
}

/// The id of the question about the request at message `i`.
pub open spec fn request_qid(i: int) -> Seq<char> {
    "request_"@ + dec(i as nat)
}

/// The question about the request at message `i`.
pub open spec fn request_question(i: int) -> QuestionV {
    QuestionV {
        id: request_qid(i),
        instructions: "Is the user's request at message "@ + dec(i as nat)
            + " still part of what the user is working on now?"@,
        yes: Some("the current work continues it, builds on it, or refers back to it"@),
        no: Some("finished and closed, abandoned, or a greeting or aside with no task in it"@),
    }
}

/// The lines of the round's state for requests `[0, k)` of `rs`.
pub open spec fn req_lines(rs: Seq<RequestV>, k: int) -> Seq<char>
    decreases k,
{
    if k <= 0 {
        Seq::empty()
    } else {
        let r = rs[k - 1];
        req_lines(rs, k - 1) + "\n["@ + dec(r.message_index as nat) + "] user: "@ + abridged(r.text, REQUEST_CHARS as int)
            + (if k == rs.len() { "   ← now"@ } else { Seq::empty() }) + match r.closing {
            Some(c) => "\n    assistant: "@ + abridged(c, CLOSING_CHARS as int),
            None => Seq::empty(),
        }
    }
}

/// The state of the user-request round: every asked request with the
/// assistant's closing reply, oldest first.
pub open spec fn requests_state_spec(rs: Seq<RequestV>, total: int) -> Seq<char> {
    "# User requests, oldest first (message index in brackets; "@ + dec(total as nat)
        + " messages so far)\nEach request is followed by how the assistant left it. The last request is the one being worked on now."@
        + req_lines(rs, rs.len() as int)
}

pub fn requests_state(requests: &[UserRequest], total_messages: usize) -> (r: String)
    ensures
        r@ == requests_state_spec(reqs_view(requests@), total_messages as int),
{
    let mut s = owned("# User requests, oldest first (message index in brackets; ");
    push_usize(&mut s, total_messages);
    push_str(&mut s, " messages so far)\nEach request is followed by how the assistant left it. The last request is the one being worked on now.");
    let ghost head = s@;
    let ghost rs = reqs_view(requests@);
    let mut k: usize = 0;
    while k < requests.len()
        invariant
            k <= requests@.len(),
            rs == reqs_view(requests@),
            s@ == head + req_lines(rs, k as int),
        decreases requests@.len() - k,
    {
        let r = &requests[k];
        proof {
            assert(rs[k as int] == r@);
        }
        push_str(&mut s, "\n[");
        push_usize(&mut s, r.message_index);
        push_str(&mut s, "] user: ");
        let t = abridge(r.text.as_str(), REQUEST_CHARS);
        push_str(&mut s, t.as_str());
        if k + 1 == requests.len() {
            push_str(&mut s, "   ← now");
        }
        if let Some(c) = &r.closing {
            push_str(&mut s, "\n    assistant: ");
            let a = abridge(c.as_str(), CLOSING_CHARS);
            push_str(&mut s, a.as_str());
        }
        proof {
            assert(s@ =~= head + req_lines(rs, k + 1));
        }
        k = k + 1;
    }
    s
}

/// A planned user-request round.
pub struct RequestRound {
    /// The report as it stands before any answer.
    pub report: Vec<RequestRelevance>,
    /// Requests older than the judged window.
    pub skip: usize,
    /// Whether the judge needs to be asked (at least two requests in the window).
    pub ask: bool,
    pub state: String,
    pub questions: Vec<Question>,
}

pub fn plan_request_round(messages: &[AgentMessage]) -> (r: RequestRound)
    ensures
        ({
            let rs = reqs_upto(mv(messages@), messages@.len() as int);
            let skip = if rs.len() > MAX_REQUESTS_JUDGED { rs.len() - MAX_REQUESTS_JUDGED } else { 0 };
            let asked = rs.skip(skip);
            &&& rels_view(r.report@) == initial_report(rs)
            &&& r.skip == skip
            &&& r.ask == (asked.len() >= 2)
            &&& r.ask ==> r.state@ == requests_state_spec(asked, messages@.len() as int)
            &&& r.ask ==> questions_view(r.questions@) == Seq::new(
                (asked.len() - 1) as nat,
                |k: int| request_question(asked[k].message_index),
            )
        }),
{
    let all = user_requests(messages);
    let ghost rs = reqs_view(all@);
    let skip = all.len().saturating_sub(MAX_REQUESTS_JUDGED);
    let mut report: Vec<RequestRelevance> = Vec::new();
    let mut k: usize = 0;
    while k < all.len()
        invariant
            k <= all@.len(),
            rs == reqs_view(all@),
            rels_view(report@) == initial_report(rs).take(k as int),
        decreases all@.len() - k,
    {
        let r = &all[k];
        proof {
            assert(rs[k as int] == r@);
        }
        let ghost pr = report@;
        report.push(RequestRelevance {
            message_index: r.message_index,
            text: abridge(r.text.as_str(), TASK_REQUEST_CHARS),
            probability: None,
            in_play: k + 1 == all.len(),
        });
        proof {
            assert(rels_view(report@) =~= rels_view(pr).push(report@[k as int]@));
            assert(report@[k as int]@ == initial_report(rs)[k as int]);
            assert(initial_report(rs).take(k + 1) =~= initial_report(rs).take(k as int).push(initial_report(rs)[k as int]));
            assert(rels_view(report@) =~= initial_report(rs).take(k + 1));
        }
        k = k + 1;
    }
    proof {
        assert(initial_report(rs).take(rs.len() as int) =~= initial_report(rs));
    }
    let asked_len = all.len() - skip;
    if asked_len < 2 {
        return RequestRound { report, skip, ask: false, state: String::new(), questions: Vec::new() };
    }
    let mut asked: Vec<UserRequest> = Vec::new();
    let mut j: usize = skip;
    while j < all.len()
        invariant
            skip <= j <= all@.len(),
            rs == reqs_view(all@),
            reqs_view(asked@) == rs.subrange(skip as int, j as int),
        decreases all@.len() - j,
    {
        let r = &all[j];
        let ghost pa = asked@;
        asked.push(UserRequest {
            message_index: r.message_index,
            text: r.text.clone(),
            closing: match &r.closing {
                Some(c) => Some(c.clone()),
                None => None,
            },
        });
        proof {
            assert(asked@[asked@.len() - 1]@ == r@);
            assert(reqs_view(asked@) =~= reqs_view(pa).push(r@));
            assert(rs[j as int] == r@);
            assert(rs.subrange(skip as int, j + 1) =~= rs.subrange(skip as int, j as int).push(rs[j as int]));
            assert(reqs_view(asked@) =~= rs.subrange(skip as int, j + 1));
        }
        j = j + 1;
    }
    proof {
        assert(rs.subrange(skip as int, rs.len() as int) =~= rs.skip(skip as int));
    }
    let state = requests_state(asked.as_slice(), messages.len());
    let mut questions: Vec<Question> = Vec::new();
    let mut q: usize = 0;
    let ghost av = reqs_view(asked@);
    while q < asked.len() - 1
        invariant
            q < asked@.len(),
            av == reqs_view(asked@),
            questions_view(questions@) == Seq::new(q as nat, |k: int| request_question(av[k].message_index)),
            questions@.len() == q,
        decreases asked@.len() - q,
    {
        let i = asked[q].message_index;
        proof {
            assert(av[q as int].message_index == i);
        }
        let ghost pq = questions@;
        let mut id = owned("request_");
        push_usize(&mut id, i);
        let mut text = owned("Is the user's request at message ");
        push_usize(&mut text, i);
        push_str(&mut text, " still part of what the user is working on now?");
        questions.push(Question {
            id,
            instructions: text,
            yes: Some(owned("the current work continues it, builds on it, or refers back to it")),
            no: Some(owned("finished and closed, abandoned, or a greeting or aside with no task in it")),
        });
        proof {
            assert(questions@[q as int]@ == request_question(av[q as int].message_index));
            assert(questions_view(questions@) =~= questions_view(pq).push(questions@[q as int]@));
            assert(questions_view(questions@) =~= Seq::new((q + 1) as nat, |k: int| request_question(av[k].message_index)));
        }
        q = q + 1;
    }
    RequestRound { report, skip, ask: true, state, questions }
}

/// The report after the judge answered: each asked request not yet
/// settled takes its probability, and is in play when it is at least the
/// threshold or unanswered.
pub open spec fn answered_report(rep: Seq<RelV>, skip: int, answers: Seq<(Seq<char>, Option<u32>)>, threshold: u32) -> Seq<RelV> {
    Seq::new(
        rep.len(),
        |k: int| if k < skip || rep[k].probability is Some || rep[k].in_play {
            rep[k]
        } else {
            let p = answer_for(answers, request_qid(rep[k].message_index));
            RelV {
                probability: p,
                in_play: match p {
                    Some(x) => x >= threshold,
                    None => true,
                },
                ..rep[k]
            }
        },
    )
}

/// The report after the round failed: the latest few requests are in play.
pub open spec fn failed_report(rep: Seq<RelV>) -> Seq<RelV> {
    let from = if rep.len() > IN_PLAY_ON_FAILURE { rep.len() - IN_PLAY_ON_FAILURE } else { 0 };
    Seq::new(rep.len(), |k: int| if k >= from { RelV { in_play: true, ..rep[k] } } else { rep[k] })
}

/// The round's outcome: the report and how many judge requests it took;
/// `None` when the judge was cancelled.
pub fn finish_request_round(round: RequestRound, reply: JudgeReply, options: &PruneOptions) -> (r: Option<(Vec<RequestRelevance>, usize)>)
    ensures
        !round.ask ==> (r is Some && rels_view((r->0).0@) == rels_view(round.report@) && (r->0).1 == 0),
        round.ask ==> match reply {
            JudgeReply::Answers(a) => r is Some && (r->0).1 == 1 && rels_view((r->0).0@) == answered_report(
                rels_view(round.report@),
                round.skip as int,
                answers_view(a@),
                options.keep_threshold_ppm,
            ),
            JudgeReply::Cancelled => r is None,
            JudgeReply::Failed(_) => r is Some && (r->0).1 == 1 && rels_view((r->0).0@) == failed_report(rels_view(round.report@)),
        },
{
    if !round.ask {
        return Some((round.report, 0));
    }
    let ghost rep = rels_view(round.report@);
    match reply {
        JudgeReply::Answers(answers) => {
            let mut out: Vec<RequestRelevance> = Vec::new();
            let mut k: usize = 0;
            let ghost ans = answers_view(answers@);
            let thr = options.keep_threshold_ppm;
            let n = round.report.len();
            let report = round.report;
            for e in it: report
                invariant
                    it.seq() == round.report@,
                    rep == rels_view(round.report@),
                    n == rep.len(),
                    k == it.index(),
                    ans == answers_view(answers@),
                    thr == options.keep_threshold_ppm,
                    rels_view(out@) == answered_report(rep, round.skip as int, ans, thr).take(k as int),
                    out@.len() == k,
            {
                proof {
                    assert(rep[k as int] == e@);
                    assert(k < n);
                }
                let ghost po = out@;
                let ghost ev = e@;
                if k < round.skip || e.probability.is_some() || e.in_play {
                    out.push(e);
                } else {
                    let mut id = owned("request_");
                    push_usize(&mut id, e.message_index);
                    let p = find_answer(answers.as_slice(), &id);
                    let in_play = match p {
                        Some(x) => x >= thr,
                        None => true,
                    };
                    out.push(RequestRelevance { message_index: e.message_index, text: e.text, probability: p, in_play });
                }
                proof {
                    let ar = answered_report(rep, round.skip as int, ans, thr);
                    assert(out@[k as int]@ == ar[k as int]);
                    assert(rels_view(out@) =~= rels_view(po).push(out@[k as int]@));
                    assert(ar.take(k + 1) =~= ar.take(k as int).push(ar[k as int]));
                    assert(rels_view(out@) =~= ar.take(k + 1));
                }
                k = k + 1;
            }
            proof {
                assert(answered_report(rep, round.skip as int, ans, thr).take(rep.len() as int) =~= answered_report(rep, round.skip as int, ans, thr));
            }
            Some((out, 1))
        },
        JudgeReply::Cancelled => None,
        JudgeReply::Failed(_) => {
            let mut out: Vec<RequestRelevance> = Vec::new();
            let n = round.report.len();
            let from = n.saturating_sub(IN_PLAY_ON_FAILURE);
            let mut k: usize = 0;
            let report = round.report;
            for e in it: report
                invariant
                    it.seq() == round.report@,
                    rep == rels_view(round.report@),
                    k == it.index(),
                    n == rep.len(),
                    from == (if rep.len() > IN_PLAY_ON_FAILURE { rep.len() - IN_PLAY_ON_FAILURE } else { 0 }),
                    rels_view(out@) == failed_report(rep).take(k as int),
                    out@.len() == k,
            {
                proof {
                    assert(rep[k as int] == e@);
                }
                let ghost po = out@;
                let in_play = if k >= from { true } else { e.in_play };
                out.push(RequestRelevance { message_index: e.message_index, text: e.text, probability: e.probability, in_play });
                proof {
                    let fr = failed_report(rep);
                    assert(out@[k as int]@ == fr[k as int]);
                    assert(rels_view(out@) =~= rels_view(po).push(out@[k as int]@));
                    assert(fr.take(k + 1) =~= fr.take(k as int).push(fr[k as int]));
                    assert(rels_view(out@) =~= fr.take(k + 1));
                }
                k = k + 1;
            }
            proof {
                assert(failed_report(rep).take(rep.len() as int) =~= failed_report(rep));
            }
            Some((out, 1))
        },
    }
}

/// The lines of the task for the first `k` requests: those in play.
pub open spec fn task_lines(rs: Seq<RelV>, k: int) -> Seq<char>
    decreases k,
{
    if k <= 0 {
        Seq::empty()
    } else {
        task_lines(rs, k - 1) + if rs[k - 1].in_play {
            "\n["@ + dec(rs[k - 1].message_index as nat) + "] "@ + rs[k - 1].text
        } else {
            Seq::empty()
        }
    }
}

/// The task header: the user requests still in play, with their indices.
pub open spec fn task_header_spec(rs: Seq<RelV>) -> Seq<char> {
    "# Task (user requests still in play, message index in brackets)"@ + task_lines(rs, rs.len() as int)
}

pub fn task_header(requests: &[RequestRelevance]) -> (r: String)
    ensures
        r@ == task_header_spec(rels_view(requests@)),
{
    let mut s = owned("# Task (user requests still in play, message index in brackets)");
    let ghost head = s@;
    let ghost rs = rels_view(requests@);
    let mut k: usize = 0;
    while k < requests.len()
        invariant
            k <= requests@.len(),
            rs == rels_view(requests@),
            s@ == head + task_lines(rs, k as int),
        decreases requests@.len() - k,
    {
        proof {
            assert(rs[k as int] == requests@[k as int]@);
        }
        if requests[k].in_play {
            push_str(&mut s, "\n[");
            push_usize(&mut s, requests[k].message_index);
            push_str(&mut s, "] ");
            push_str(&mut s, requests[k].text.as_str());
        }
        proof {
            assert(s@ =~= head + task_lines(rs, k + 1));
        }
        k = k + 1;
    }
    s
}

} // verus!
