//! The sessions a leader keeps: who executes and who verifies, the scores
//! received for each executor's response, and the choice of the winner.

use crate::keyed::{distinct_keys, lemma_pairs_dom, lemma_pairs_push, lemma_pairs_update, lemma_pairs_value, pairs_map};
use crate::parse::{f32_text, is_f32_text};
use crate::protocol::IPayload;
use crate::mesh::{clone_strings, contains_string};
use crate::text::views;
use vstd::prelude::*;

verus! {

/// A response received for a session, with the scores it was given, in
/// the order they arrived, and the verifier that sent each of them. A
/// score is kept as the text the verifier sent, which `f32::from_str`
/// reads.
#[derive(Debug)]
pub struct ResponseEntry {
    pub generator: String,
    pub response: String,
    pub scores: Vec<String>,
    pub scorers: Vec<String>,
}

/// The winner of a session: the executor whose response has the highest
/// average score, with the scores that response received.
#[derive(Debug)]
pub struct TaskWinner {
    pub generator: String,
    pub prompt: String,
    pub response: String,
    pub scores: Vec<String>,
}

/// What a leader keeps about one session.
#[derive(Debug)]
pub struct SessionStorage {
    pub prompt: String,
    pub winner: Option<TaskWinner>,
    pub execs: Vec<String>,
    pub verifiers: Vec<String>,
    pub rtc_score_count: u32,
    pub responses: Vec<ResponseEntry>,
}

/// A response and its scores, as values.
pub struct ResponseView {
    pub generator: Seq<char>,
    pub response: Seq<char>,
    pub scores: Seq<Seq<char>>,
    pub scorers: Seq<Seq<char>>,
}

/// A task winner, as values.
pub struct WinnerView {
    pub generator: Seq<char>,
    pub prompt: Seq<char>,
    pub response: Seq<char>,
    pub scores: Seq<Seq<char>>,
}

impl View for TaskWinner {
    type V = WinnerView;

    open spec fn view(&self) -> WinnerView {
        WinnerView {
            generator: self.generator@,
            prompt: self.prompt@,
            response: self.response@,
            scores: views(self.scores@),
        }
    }
}

/// A session, as values.
pub struct SessionView {
    pub prompt: Seq<char>,
    pub winner: Option<WinnerView>,
    pub execs: Seq<Seq<char>>,
    pub verifiers: Seq<Seq<char>>,
    pub score_count: nat,
    pub responses: Seq<ResponseView>,
}

impl View for ResponseEntry {
    type V = ResponseView;

    open spec fn view(&self) -> ResponseView {
        ResponseView {
            generator: self.generator@,
            response: self.response@,
            scores: views(self.scores@),
            scorers: views(self.scorers@),
        }
    }
}

/// The values of a sequence of responses.
pub open spec fn responses_view(r: Seq<ResponseEntry>) -> Seq<ResponseView> {
    r.map_values(|e: ResponseEntry| e@)
}

impl View for SessionStorage {
    type V = SessionView;

    open spec fn view(&self) -> SessionView {
        SessionView {
            prompt: self.prompt@,
            winner: match self.winner {
                Some(w) => Some(w@),
                None => None,
            },
            execs: views(self.execs@),
            verifiers: views(self.verifiers@),
            score_count: self.rtc_score_count as nat,
            responses: responses_view(self.responses@),
        }
    }
}

/// The session a leader opens when it advertises: nothing assigned yet.
pub open spec fn empty_session() -> SessionView {
    SessionView {
        prompt: seq![],
        winner: None,
        execs: seq![],
        verifiers: seq![],
        score_count: 0,
        responses: seq![],
    }
}

/// The number of scores held by the responses `r`.
pub open spec fn total_scores(r: Seq<ResponseView>) -> nat
    decreases r.len(),
{
    if r.len() == 0 {
        0
    } else {
        total_scores(r.drop_last()) + r.last().scores.len()
    }
}

/// Whether no generator occurs twice in `r`.
pub open spec fn distinct_generators(r: Seq<ResponseView>) -> bool {
    forall|i: int, j: int|
        0 <= i < r.len() && 0 <= j < r.len() && i != j ==> #[trigger] r[i].generator
            != #[trigger] r[j].generator
}

/// Whether every response of `r` holds at least one score, and names the
/// verifier of each.
pub open spec fn entries_scored(r: Seq<ResponseView>) -> bool {
    forall|i: int|
        0 <= i < r.len() ==> (#[trigger] r[i]).scores.len() >= 1 && r[i].scorers.len()
            == r[i].scores.len()
}

/// Whether no verifier scored the same response twice.
pub open spec fn distinct_scorers(r: Seq<ResponseView>) -> bool {
    forall|i: int, a: int, b: int|
        0 <= i < r.len() && 0 <= a < r[i].scorers.len() && 0 <= b < r[i].scorers.len() && a != b
            ==> #[trigger] r[i].scorers[a] != #[trigger] r[i].scorers[b]
}

/// What holds of every session a leader keeps: one entry per generator,
/// each holding at least one score and at most one from each verifier, and
/// the score count equal to the number of scores held.
pub open spec fn session_wf(v: SessionView) -> bool {
    &&& distinct_generators(v.responses)
    &&& entries_scored(v.responses)
    &&& distinct_scorers(v.responses)
    &&& total_scores(v.responses) == v.score_count
    &&& v.score_count <= u32::MAX
}

/// Index of the first response of `g` in `r`, or `r.len()`.
pub open spec fn gen_index(r: Seq<ResponseView>, g: Seq<char>) -> int
    decreases r.len(),
{
    if r.len() == 0 {
        0
    } else if r[0].generator == g {
        0
    } else {
        1 + gen_index(r.drop_first(), g)
    }
}

/// `r` after the verifier `verifier` sends a score `score` for `response`
/// of `g`: appended, with its verifier, to the entry of `g` if it has one
/// (its response is kept), else a new entry with that one score.
pub open spec fn add_score(
    r: Seq<ResponseView>,
    g: Seq<char>,
    response: Seq<char>,
    verifier: Seq<char>,
    score: Seq<char>,
) -> Seq<ResponseView> {
    let i = gen_index(r, g);
    if i < r.len() {
        r.update(
            i,
            ResponseView {
                scores: r[i].scores.push(score),
                scorers: r[i].scorers.push(verifier),
                ..r[i]
            },
        )
    } else {
        r.push(
            ResponseView { generator: g, response, scores: seq![score], scorers: seq![verifier] },
        )
    }
}

/// Session `v` after a score arrives.
pub open spec fn with_score(
    v: SessionView,
    g: Seq<char>,
    response: Seq<char>,
    verifier: Seq<char>,
    score: Seq<char>,
) -> SessionView {
    SessionView {
        responses: add_score(v.responses, g, response, verifier, score),
        score_count: v.score_count + 1,
        ..v
    }
}

/// Whether session `v` already holds a score from `verifier` for the
/// response of `g`.
pub open spec fn already_scored(v: SessionView, g: Seq<char>, verifier: Seq<char>) -> bool {
    let i = gen_index(v.responses, g);
    i < v.responses.len() && v.responses[i].scorers.contains(verifier)
}

/// Session `v` with the winner `w` stored.
pub open spec fn with_winner(v: SessionView, w: WinnerView) -> SessionView {
    SessionView { winner: Some(w), ..v }
}

/// Session `v` with roles and prompt assigned.
pub open spec fn with_roles(
    v: SessionView,
    prompt: Seq<char>,
    execs: Seq<Seq<char>>,
    verifiers: Seq<Seq<char>>,
) -> SessionView {
    SessionView { prompt, execs, verifiers, ..v }
}

proof fn lemma_gen_index_at(r: Seq<ResponseView>, g: Seq<char>, k: int)
    requires
        0 <= k <= r.len(),
        forall|i: int| 0 <= i < k ==> (#[trigger] r[i]).generator != g,
        k == r.len() || r[k].generator == g,
    ensures
        gen_index(r, g) == k,
    decreases k,
{
    if k > 0 {
        let t = r.drop_first();
        assert forall|i: int| 0 <= i < k - 1 implies (#[trigger] t[i]).generator != g by {
            assert(t[i] == r[i + 1]);
        }
        assert(k - 1 == t.len() || t[k - 1] == r[k]);
        lemma_gen_index_at(t, g, k - 1);
    }
}

proof fn lemma_total_update(r: Seq<ResponseView>, i: int, x: ResponseView)
    requires
        0 <= i < r.len(),
    ensures
        total_scores(r.update(i, x)) + r[i].scores.len() == total_scores(r) + x.scores.len(),
    decreases r.len(),
{
    let u = r.update(i, x);
    if i == r.len() - 1 {
        assert(u.drop_last() =~= r.drop_last());
    } else {
        lemma_total_update(r.drop_last(), i, x);
        assert(u.drop_last() =~= r.drop_last().update(i, x));
    }
}

proof fn lemma_total_ge_entry(r: Seq<ResponseView>, i: int)
    requires
        0 <= i < r.len(),
    ensures
        r[i].scores.len() <= total_scores(r),
    decreases r.len(),
{
    if i < r.len() - 1 {
        lemma_total_ge_entry(r.drop_last(), i);
        assert(r.drop_last()[i] == r[i]);
    }
}

/// Adding a score that the session does not hold yet keeps it well formed,
/// as long as the count has room.
pub proof fn lemma_with_score_wf(
    v: SessionView,
    g: Seq<char>,
    response: Seq<char>,
    verifier: Seq<char>,
    score: Seq<char>,
)
    requires
        session_wf(v),
        !already_scored(v, g, verifier),
        v.score_count < u32::MAX,
    ensures
        session_wf(with_score(v, g, response, verifier, score)),
{
    let r = v.responses;
    let n = add_score(r, g, response, verifier, score);
    let i = gen_index(r, g);
    lemma_gen_index_props(r, g);
    if i < r.len() {
        let x = ResponseView {
            scores: r[i].scores.push(score),
            scorers: r[i].scorers.push(verifier),
            ..r[i]
        };
        lemma_total_update(r, i, x);
        assert forall|a: int, b: int|
            0 <= a < n.len() && 0 <= b < n.len() && a != b implies #[trigger] n[a].generator
            != #[trigger] n[b].generator by {
            assert(n[a].generator == r[a].generator);
            assert(n[b].generator == r[b].generator);
        }
        assert forall|a: int| 0 <= a < n.len() implies (#[trigger] n[a]).scores.len() >= 1
            && n[a].scorers.len() == n[a].scores.len() by {
            if a != i {
                assert(n[a] == r[a]);
            }
        }
        assert(!r[i].scorers.contains(verifier));
        assert forall|e: int, a: int, b: int|
            0 <= e < n.len() && 0 <= a < n[e].scorers.len() && 0 <= b < n[e].scorers.len() && a
                != b implies #[trigger] n[e].scorers[a] != #[trigger] n[e].scorers[b] by {
            if e != i {
                assert(n[e] == r[e]);
            } else {
                let m = r[i].scorers.len() as int;
                if a == m {
                    assert(n[e].scorers[b] == r[i].scorers[b]);
                } else if b == m {
                    assert(n[e].scorers[a] == r[i].scorers[a]);
                } else {
                    assert(n[e].scorers[a] == r[i].scorers[a]);
                    assert(n[e].scorers[b] == r[i].scorers[b]);
                }
            }
        }
    } else {
        assert(n.drop_last() =~= r);
        assert forall|a: int, b: int|
            0 <= a < n.len() && 0 <= b < n.len() && a != b implies #[trigger] n[a].generator
            != #[trigger] n[b].generator by {
            if a < r.len() {
                assert(n[a] == r[a]);
            }
            if b < r.len() {
                assert(n[b] == r[b]);
            }
        }
        assert forall|a: int| 0 <= a < n.len() implies (#[trigger] n[a]).scores.len() >= 1
            && n[a].scorers.len() == n[a].scores.len() by {
            if a < r.len() {
                assert(n[a] == r[a]);
            }
        }
        assert forall|e: int, a: int, b: int|
            0 <= e < n.len() && 0 <= a < n[e].scorers.len() && 0 <= b < n[e].scorers.len() && a
                != b implies #[trigger] n[e].scorers[a] != #[trigger] n[e].scorers[b] by {
            if e < r.len() {
                assert(n[e] == r[e]);
            }
        }
    }
}

/// `gen_index` finds the first entry of `g`, or reports that none has it.
pub proof fn lemma_gen_index_props(r: Seq<ResponseView>, g: Seq<char>)
    ensures
        0 <= gen_index(r, g) <= r.len(),
        gen_index(r, g) < r.len() ==> r[gen_index(r, g)].generator == g,
        gen_index(r, g) == r.len() ==> forall|i: int| 0 <= i < r.len() ==> (#[trigger] r[i]).generator != g,
    decreases r.len(),
{
    if r.len() > 0 && r[0].generator != g {
        let t = r.drop_first();
        lemma_gen_index_props(t, g);
        if gen_index(r, g) == r.len() {
            assert forall|i: int| 0 <= i < r.len() implies (#[trigger] r[i]).generator != g by {
                if i > 0 {
                    assert(r[i] == t[i - 1]);
                }
            }
        } else {
            assert(r[gen_index(r, g)] == t[gen_index(t, g)]);
        }
    }
}

proof fn lemma_gen_index_first(r: Seq<ResponseView>, g: Seq<char>, j: int)
    requires
        0 <= j < gen_index(r, g),
    ensures
        r[j].generator != g,
    decreases r.len(),
{
    lemma_gen_index_props(r, g);
    if r.len() > 0 && r[0].generator != g && j > 0 {
        lemma_gen_index_first(r.drop_first(), g, j - 1);
        assert(r[j] == r.drop_first()[j - 1]);
    }
}

/// Adds a score to the responses, as `add_score` describes.
fn push_score(
    responses: &mut Vec<ResponseEntry>,
    g: String,
    response: String,
    verifier: String,
    score: String,
)
    ensures
        responses_view(final(responses)@) == add_score(
            responses_view(old(responses)@),
            g@,
            response@,
            verifier@,
            score@,
        ),
{
    let ghost rv = responses_view(responses@);
    let mut j: usize = 0;
    while j < responses.len() && !(responses[j].generator == g)
        invariant
            j <= responses@.len(),
            rv == responses_view(responses@),
            responses@ == old(responses)@,
            forall|k: int| 0 <= k < j ==> (#[trigger] rv[k]).generator != g@,
        decreases responses@.len() - j,
    {
        j = j + 1;
    }
    proof {
        lemma_gen_index_at(rv, g@, j as int);
    }
    if j < responses.len() {
        let ghost old_r = responses@;
        let mut entry = responses.remove(j);
        let ghost old_entry = entry;
        let ghost sv = score@;
        entry.scores.push(score);
        entry.scorers.push(verifier);
        proof {
            assert(views(entry.scores@) =~= views(old_entry.scores@).push(sv));
            assert(views(entry.scorers@) =~= views(old_entry.scorers@).push(verifier@));
        }
        responses.insert(j, entry);
        proof {
            assert(responses@ =~= old_r.update(j as int, entry));
            assert(responses_view(responses@) =~= rv.update(
                j as int,
                ResponseView {
                    scores: rv[j as int].scores.push(sv),
                    scorers: rv[j as int].scorers.push(verifier@),
                    ..rv[j as int]
                },
            ));
        }
    } else {
        let ghost sv = score@;
        let mut scores = Vec::new();
        scores.push(score);
        let mut scorers = Vec::new();
        scorers.push(verifier);
        let entry = ResponseEntry { generator: g, response, scores, scorers };
        proof {
            assert(views(entry.scores@) =~= seq![sv]);
            assert(views(entry.scorers@) =~= seq![entry.scorers@[0]@]);
        }
        let ghost old_r = responses@;
        responses.push(entry);
        proof {
            assert(responses_view(responses@) =~= rv.push(entry@));
        }
    }
}

/// Whether the responses hold a score from `verifier` for the response of
/// `g`, as `already_scored` describes.
fn has_scored(responses: &Vec<ResponseEntry>, g: &String, verifier: &String) -> (r: bool)
    ensures
        r == (gen_index(responses_view(responses@), g@) < responses@.len() && responses_view(
            responses@,
        )[gen_index(responses_view(responses@), g@)].scorers.contains(verifier@)),
{
    let ghost rv = responses_view(responses@);
    let mut j: usize = 0;
    while j < responses.len() && !(responses[j].generator == *g)
        invariant
            j <= responses@.len(),
            rv == responses_view(responses@),
            forall|k: int| 0 <= k < j ==> (#[trigger] rv[k]).generator != g@,
        decreases responses@.len() - j,
    {
        j = j + 1;
    }
    proof {
        lemma_gen_index_at(rv, g@, j as int);
    }
    if j < responses.len() {
        contains_string(&responses[j].scorers, verifier)
    } else {
        false
    }
}

/// What became of a score sent to a node.
#[derive(Debug, PartialEq, Eq, Structural)]
pub enum RecordOutcome {
    /// The node does not lead the session; the score is ignored.
    NotLeader,
    /// The score was added to the session.
    Recorded,
    /// The session already holds this verifier's score for this response;
    /// a repeated delivery changes nothing.
    Duplicate,
}

/// Why a score could not be recorded.
#[derive(Debug, PartialEq, Eq, Structural)]
pub enum RecordError {
    MissingGenerator,
    MissingScore,
    UnreadableScore,
    MissingResponse,
    UnknownTask,
    CountOverflow,
}

/// The outcome of sending the score payload `p` to the node `local` whose
/// sessions are `t`. Only the leader records; the checks come in order.
pub open spec fn record_result(t: Map<Seq<char>, SessionView>, local: Seq<char>, p: IPayload) -> Result<
    RecordOutcome,
    RecordError,
> {
    if p.leader@ != local {
        Ok(RecordOutcome::NotLeader)
    } else if p.generator is None {
        Err(RecordError::MissingGenerator)
    } else if p.verify_score is None {
        Err(RecordError::MissingScore)
    } else if !f32_text(p.verify_score->0@) {
        Err(RecordError::UnreadableScore)
    } else if p.res is None {
        Err(RecordError::MissingResponse)
    } else if !t.dom().contains(p.task_id@) {
        Err(RecordError::UnknownTask)
    } else if already_scored(t[p.task_id@], p.generator->0@, p.source@) {
        Ok(RecordOutcome::Duplicate)
    } else if t[p.task_id@].score_count >= u32::MAX {
        Err(RecordError::CountOverflow)
    } else {
        Ok(RecordOutcome::Recorded)
    }
}

/// The sessions `t` once the score of `p` is recorded.
pub open spec fn recorded(t: Map<Seq<char>, SessionView>, p: IPayload) -> Map<Seq<char>, SessionView> {
    t.insert(
        p.task_id@,
        with_score(
            t[p.task_id@],
            p.generator->0@,
            p.res->0@,
            p.source@,
            p.verify_score->0@,
        ),
    )
}

/// Whether response `i` wins, the responses being ranked by `ranks`: the
/// rank of each response's average score, in an order that agrees with
/// the averages' order, `None` for an average that is not a number. The
/// winner's rank is above `floor` (the rank of the starting best average,
/// `-1`), no rank is higher, and every rank before it is lower: the first
/// of the best, as a scan that keeps the strictly higher average finds it.
pub open spec fn is_winner(ranks: Seq<Option<i64>>, floor: int, i: int) -> bool {
    &&& 0 <= i < ranks.len()
    &&& ranks[i] is Some
    &&& ranks[i]->0 > floor
    &&& forall|j: int|
        #![trigger ranks[j]]
        0 <= j < ranks.len() && ranks[j] is Some ==> ranks[j]->0 <= ranks[i]->0
    &&& forall|j: int| #![trigger ranks[j]] 0 <= j < i && ranks[j] is Some ==> ranks[j]->0 < ranks[i]->0
}

/// Whether some rank is above `floor`.
pub open spec fn has_contender(ranks: Seq<Option<i64>>, floor: int) -> bool {
    exists|j: int| #![trigger ranks[j]] 0 <= j < ranks.len() && ranks[j] is Some && ranks[j]->0 > floor
}

/// The winner that response `i` of session `v` makes.
pub open spec fn winner_view_of(v: SessionView, i: int) -> WinnerView {
    WinnerView {
        generator: v.responses[i].generator,
        prompt: v.prompt,
        response: v.responses[i].response,
        scores: v.responses[i].scores,
    }
}

/// The task winner `w` reports response `i` of session `v`.
pub open spec fn reports(w: TaskWinner, v: SessionView, i: int) -> bool {
    w@ == winner_view_of(v, i)
}

/// A copy of the winner `w`.
fn copy_winner(w: &TaskWinner) -> (r: TaskWinner)
    ensures
        r@ == w@,
{
    TaskWinner {
        generator: w.generator.clone(),
        prompt: w.prompt.clone(),
        response: w.response.clone(),
        scores: clone_strings(&w.scores),
    }
}

/// The winner among the responses of `s`, ranked by `ranks` with the
/// starting best `floor`, as `is_winner` describes.
fn winner_of(s: &SessionStorage, ranks: &Vec<Option<i64>>, floor: i64) -> (w: Option<TaskWinner>)
    requires
        ranks@.len() == s@.responses.len(),
    ensures
        w is None <==> !has_contender(ranks@, floor as int),
        w matches Some(w) ==> exists|i: int| is_winner(ranks@, floor as int, i) && reports(w, s@, i),
{
    let ghost rk = ranks@;
    let mut has_best = false;
    let mut best: usize = 0;
    let mut best_rank: i64 = floor;
    let mut k: usize = 0;
    while k < ranks.len()
        invariant
            rk == ranks@,
            k <= rk.len(),
            has_best ==> best < k && rk[best as int] == Some(best_rank) && best_rank > floor,
            has_best ==> forall|j: int|
                #![trigger rk[j]]
                0 <= j < k && rk[j] is Some ==> rk[j]->0 <= best_rank,
            has_best ==> forall|j: int|
                #![trigger rk[j]]
                0 <= j < best && rk[j] is Some ==> rk[j]->0 < best_rank,
            !has_best ==> best_rank == floor,
            !has_best ==> forall|j: int|
                #![trigger rk[j]]
                0 <= j < k && rk[j] is Some ==> rk[j]->0 <= floor,
        decreases rk.len() - k,
    {
        match ranks[k] {
            Some(r) => {
                if r > best_rank {
                    has_best = true;
                    best = k;
                    best_rank = r;
                }
            },
            None => {},
        }
        k = k + 1;
    }
    if has_best {
        let e = &s.responses[best];
        let w = TaskWinner {
            generator: e.generator.clone(),
            prompt: s.prompt.clone(),
            response: e.response.clone(),
            scores: clone_strings(&e.scores),
        };
        proof {
            assert(is_winner(rk, floor as int, best as int));
            assert(s@.responses[best as int] == e@);
            assert(reports(w, s@, best as int));
        }
        Some(w)
    } else {
        proof {
            if has_contender(rk, floor as int) {
                let j = choose|j: int|
                    #![trigger rk[j]]
                    0 <= j < rk.len() && rk[j] is Some && rk[j]->0 > floor;
                assert(rk[j]->0 <= floor);
            }
        }
        None
    }
}

/// A score for `g` that the session does not hold yet lands in the one
/// entry of `g`: appended, with its verifier, to its scores when it had an
/// entry (its first response is kept), or as the only score of a new entry;
/// the other entries stay as they were, and the session holds exactly one
/// score more.
pub proof fn lemma_score_lands_in_generator_entry(
    v: SessionView,
    g: Seq<char>,
    response: Seq<char>,
    verifier: Seq<char>,
    score: Seq<char>,
)
    requires
        session_wf(v),
        !already_scored(v, g, verifier),
        v.score_count < u32::MAX,
    ensures
        ({
            let w = with_score(v, g, response, verifier, score);
            let r = v.responses;
            let n = w.responses;
            &&& session_wf(w)
            &&& total_scores(n) == total_scores(r) + 1
            &&& w.score_count == v.score_count + 1
            &&& exists|i: int|
                #![trigger n[i]]
                0 <= i < n.len() && n[i].generator == g && (if i < r.len() {
                    n[i].scores == r[i].scores.push(score) && n[i].scorers == r[i].scorers.push(
                        verifier,
                    ) && n[i].response == r[i].response && r[i].generator == g
                } else {
                    n[i].scores == seq![score] && n[i].scorers == seq![verifier] && n[i].response
                        == response && forall|j: int|
                        #![trigger r[j]]
                        0 <= j < r.len() ==> r[j].generator != g
                })
            &&& forall|j: int|
                #![trigger r[j]]
                0 <= j < r.len() && r[j].generator != g ==> n[j] == r[j]
        }),
{
    lemma_with_score_wf(v, g, response, verifier, score);
    let r = v.responses;
    let n = add_score(r, g, response, verifier, score);
    let i = gen_index(r, g);
    lemma_gen_index_props(r, g);
    if i < r.len() {
        lemma_total_update(
            r,
            i,
            ResponseView {
                scores: r[i].scores.push(score),
                scorers: r[i].scorers.push(verifier),
                ..r[i]
            },
        );
        assert(n[i].generator == g);
    } else {
        assert(n.drop_last() =~= r);
        assert(n[r.len() as int].generator == g);
        assert forall|j: int| #![trigger r[j]] 0 <= j < r.len() && r[j].generator != g implies n[j] == r[j] by {
            assert(n[j] == r[j]);
        }
    }
}

/// A score payload delivered twice is recorded once: once the leader has
/// recorded it, the same payload again is answered `Duplicate`, which
/// leaves the sessions as they are.
pub proof fn lemma_duplicate_delivery_ignored(
    t: Map<Seq<char>, SessionView>,
    local: Seq<char>,
    p: IPayload,
)
    requires
        record_result(t, local, p) == Ok::<RecordOutcome, RecordError>(RecordOutcome::Recorded),
    ensures
        record_result(recorded(t, p), local, p) == Ok::<RecordOutcome, RecordError>(
            RecordOutcome::Duplicate,
        ),
{
    let v = t[p.task_id@];
    let g = p.generator->0@;
    let r = v.responses;
    let n = add_score(r, g, p.res->0@, p.source@, p.verify_score->0@);
    lemma_gen_index_props(r, g);
    lemma_gen_index_props(n, g);
    let i = gen_index(r, g);
    if i < r.len() {
        assert(n[i].generator == g);
        assert forall|j: int| 0 <= j < i implies (#[trigger] n[j]).generator != g by {
            lemma_gen_index_first(r, g, j);
            assert(n[j] == r[j]);
        }
        lemma_gen_index_at(n, g, i);
        assert(n[i].scorers.last() == p.source@);
        assert(n[i].scorers.contains(p.source@));
    } else {
        assert(n.drop_last() =~= r);
        assert forall|j: int| 0 <= j < r.len() implies (#[trigger] n[j]).generator != g by {
            assert(n[j] == r[j]);
        }
        lemma_gen_index_at(n, g, r.len() as int);
        assert(n[r.len() as int].scorers[0] == p.source@);
        assert(n[r.len() as int].scorers.contains(p.source@));
    }
}

/// At most one response wins a session.
pub proof fn lemma_winner_unique(ranks: Seq<Option<i64>>, floor: int, i: int, j: int)
    requires
        is_winner(ranks, floor, i),
        is_winner(ranks, floor, j),
    ensures
        i == j,
{
    if i < j {
        assert(ranks[i]->0 < ranks[j]->0);
    } else if j < i {
        assert(ranks[j]->0 < ranks[i]->0);
    }
}

/// The sessions of a leader, one per task id.
pub struct Session {
    pub task_id: String,
    pub storage: SessionStorage,
}

/// The key/value pairs of a sequence of sessions.
pub open spec fn session_pairs(s: Seq<Session>) -> Seq<(Seq<char>, SessionView)> {
    s.map_values(|x: Session| (x.task_id@, x.storage@))
}

/// The sessions a leader keeps, by task id.
pub struct SessionTable {
    sessions: Vec<Session>,
}

impl View for SessionTable {
    type V = Map<Seq<char>, SessionView>;

    closed spec fn view(&self) -> Map<Seq<char>, SessionView> {
        pairs_map(session_pairs(self.sessions@))
    }
}

impl SessionTable {
    #[verifier::type_invariant]
    spec fn wf(self) -> bool {
        &&& distinct_keys(session_pairs(self.sessions@))
        &&& forall|i: int| 0 <= i < self.sessions@.len() ==> session_wf(#[trigger] self.sessions@[i].storage@)
    }

    /// No sessions.
    pub fn new() -> (t: SessionTable)
        ensures
            t@ == Map::<Seq<char>, SessionView>::empty(),
    {
        let t = SessionTable { sessions: Vec::new() };
        proof {
            assert(session_pairs(t.sessions@) =~= Seq::<(Seq<char>, SessionView)>::empty());
        }
        t
    }

    /// Where the session `topic` stands, if there is one.
    fn find(&self, topic: &String) -> (r: Option<usize>)
        ensures
            match r {
                Some(i) => i < self.sessions@.len() && self.sessions@[i as int].task_id@ == topic@
                    && self@.dom().contains(topic@) && self@[topic@] == self.sessions@[i as int].storage@,
                None => !self@.dom().contains(topic@),
            },
    {
        proof {
            use_type_invariant(self);
        }
        let ghost pairs = session_pairs(self.sessions@);
        let mut i: usize = 0;
        while i < self.sessions.len()
            invariant
                i <= self.sessions@.len(),
                pairs == session_pairs(self.sessions@),
                distinct_keys(pairs),
                forall|j: int| 0 <= j < i ==> (#[trigger] self.sessions@[j]).task_id@ != topic@,
            decreases self.sessions@.len() - i,
        {
            if self.sessions[i].task_id == *topic {
                proof {
                    assert(pairs[i as int].0 == topic@);
                    lemma_pairs_value(pairs, i as int);
                }
                return Some(i);
            }
            i = i + 1;
        }
        proof {
            lemma_pairs_dom(pairs, topic@);
            if self@.dom().contains(topic@) {
                let j = choose|j: int| 0 <= j < pairs.len() && (#[trigger] pairs[j]).0 == topic@;
                assert(self.sessions@[j].task_id@ == topic@);
            }
        }
        None
    }

    /// Whether there is a session `topic`.
    pub fn contains(&self, topic: &String) -> (r: bool)
        ensures
            r == self@.dom().contains(topic@),
    {
        self.find(topic).is_some()
    }

    /// The session `topic`, if there is one.
    pub fn get(&self, topic: &String) -> (r: Option<&SessionStorage>)
        ensures
            match r {
                Some(s) => self@.dom().contains(topic@) && s@ == self@[topic@] && session_wf(s@),
                None => !self@.dom().contains(topic@),
            },
    {
        proof {
            use_type_invariant(self);
        }
        match self.find(topic) {
            Some(i) => Some(&self.sessions[i].storage),
            None => None,
        }
    }

    /// Replaces the session at index `i` (which has task id `topic`) by `s`.
    fn replace_at(&mut self, i: usize, s: SessionStorage)
        requires
            i < old(self).sessions@.len(),
            session_wf(s@),
        ensures
            final(self)@ == old(self)@.insert(old(self).sessions@[i as int].task_id@, s@),
    {
        proof {
            use_type_invariant(&*self);
        }
        let ghost old_sessions = self.sessions@;
        let ghost key = old_sessions[i as int].task_id@;
        let mut sessions = Vec::new();
        std::mem::swap(&mut sessions, &mut self.sessions);
        let old_entry = sessions.remove(i);
        let entry = Session { task_id: old_entry.task_id, storage: s };
        sessions.insert(i, entry);
        proof {
            assert(sessions@ =~= old_sessions.update(i as int, entry));
            assert(session_pairs(sessions@) =~= session_pairs(old_sessions).update(
                i as int,
                (session_pairs(old_sessions)[i as int].0, s@),
            ));
            lemma_pairs_update(session_pairs(old_sessions), i as int, s@);
            assert forall|j: int| 0 <= j < sessions@.len() implies session_wf(
                #[trigger] sessions@[j].storage@,
            ) by {
                if j != i {
                    assert(sessions@[j] == old_sessions[j]);
                }
            }
        }
        self.sessions = sessions;
    }

    /// Opens the session `topic` with nothing assigned yet, replacing any
    /// session of that name.
    pub fn open(&mut self, topic: String)
        ensures
            final(self)@ == old(self)@.insert(topic@, empty_session()),
    {
        proof {
            use_type_invariant(&*self);
        }
        let s = SessionStorage {
            prompt: String::new(),
            winner: None,
            execs: Vec::new(),
            verifiers: Vec::new(),
            rtc_score_count: 0,
            responses: Vec::new(),
        };
        proof {
            assert(s@.execs =~= Seq::<Seq<char>>::empty());
            assert(s@.verifiers =~= Seq::<Seq<char>>::empty());
            assert(s@.responses =~= Seq::<ResponseView>::empty());
            assert(s@ == empty_session());
            assert(session_wf(s@));
        }
        match self.find(&topic) {
            Some(i) => {
                self.replace_at(i, s);
            },
            None => {
                let ghost old_sessions = self.sessions@;
                let ghost sv = s@;
                let entry = Session { task_id: topic, storage: s };
                let mut sessions = Vec::new();
                std::mem::swap(&mut sessions, &mut self.sessions);
                sessions.push(entry);
                proof {
                    assert(session_pairs(sessions@) =~= session_pairs(old_sessions).push(
                        (entry.task_id@, sv),
                    ));
                    lemma_pairs_push(session_pairs(old_sessions), entry.task_id@, sv);
                    assert forall|j: int| 0 <= j < sessions@.len() implies session_wf(
                        #[trigger] sessions@[j].storage@,
                    ) by {
                        if j < old_sessions.len() {
                            assert(sessions@[j] == old_sessions[j]);
                        }
                    }
                }
                self.sessions = sessions;
            },
        }
    }

    /// Records the roles and the prompt of the session `topic`.
    pub fn assign_roles(
        &mut self,
        topic: &String,
        execs: Vec<String>,
        verifiers: Vec<String>,
        prompt: String,
    )
        requires
            old(self)@.dom().contains(topic@),
        ensures
            final(self)@ == old(self)@.insert(
                topic@,
                with_roles(old(self)@[topic@], prompt@, views(execs@), views(verifiers@)),
            ),
    {
        proof {
            use_type_invariant(&*self);
        }
        let i = self.find(topic).unwrap();
        let storage = self.take_at(i);
        let s = SessionStorage {
            prompt,
            winner: storage.winner,
            execs,
            verifiers,
            rtc_score_count: storage.rtc_score_count,
            responses: storage.responses,
        };
        self.replace_at(i, s);
    }

    /// Handles a score payload `p` at the node `local`: the leader of the
    /// session adds the score, with its verifier, to the generator's entry
    /// and counts it; a score it already holds from that verifier for that
    /// generator is not added again.
    pub fn record_score(&mut self, local: &String, p: IPayload) -> (r: Result<
        RecordOutcome,
        RecordError,
    >)
        ensures
            r == record_result(old(self)@, local@, p),
            r == Ok::<RecordOutcome, RecordError>(RecordOutcome::Recorded) ==> final(self)@ == recorded(
                old(self)@,
                p,
            ),
            r != Ok::<RecordOutcome, RecordError>(RecordOutcome::Recorded) ==> final(self)@ == old(
                self,
            )@,
    {
        let ghost p0 = p;
        if p.leader != *local {
            return Ok(RecordOutcome::NotLeader);
        }
        let generator = match p.generator {
            Some(g) => g,
            None => {
                return Err(RecordError::MissingGenerator);
            },
        };
        let score = match p.verify_score {
            Some(t) => if is_f32_text(t.as_str()) {
                t
            } else {
                return Err(RecordError::UnreadableScore);
            },
            None => {
                return Err(RecordError::MissingScore);
            },
        };
        let response = match p.res {
            Some(r) => r,
            None => {
                return Err(RecordError::MissingResponse);
            },
        };
        let i = match self.find(&p.task_id) {
            Some(i) => i,
            None => {
                return Err(RecordError::UnknownTask);
            },
        };
        if has_scored(&self.sessions[i].storage.responses, &generator, &p.source) {
            return Ok(RecordOutcome::Duplicate);
        }
        if self.sessions[i].storage.rtc_score_count == 0xffff_ffff {
            return Err(RecordError::CountOverflow);
        }
        let ghost before = self@;
        let mut storage = self.take_at(i);
        let ghost sv = storage@;
        let ghost score_view = score@;
        proof {
            lemma_with_score_wf(sv, generator@, response@, p0.source@, score_view);
        }
        push_score(&mut storage.responses, generator, response, p.source, score);
        storage.rtc_score_count = storage.rtc_score_count + 1;
        proof {
            assert(storage@ == with_score(
                sv,
                p0.generator->0@,
                p0.res->0@,
                p0.source@,
                p0.verify_score->0@,
            ));
        }
        self.replace_at(i, storage);
        proof {
            assert(self@ =~= recorded(before, p0));
        }
        Ok(RecordOutcome::Recorded)
    }

    /// Chooses the winner of the session `topic` and stores it in the
    /// session: the first response, in the order they arrived, with the
    /// highest average score, provided that average is above `-1`. The
    /// averages come ranked: `ranks[i]` is the rank of the average of
    /// response `i` (`None` when it is not a number) and `floor` the rank of
    /// `-1`, in an order that agrees with that of the averages. When no
    /// response qualifies the sessions stay as they are.
    pub fn select_winner(&mut self, topic: &String, ranks: &Vec<Option<i64>>, floor: i64) -> (w:
        Option<TaskWinner>)
        requires
            old(self)@.dom().contains(topic@),
            ranks@.len() == old(self)@[topic@].responses.len(),
        ensures
            w is None <==> !has_contender(ranks@, floor as int),
            w matches Some(w) ==> exists|i: int|
                is_winner(ranks@, floor as int, i) && reports(w, old(self)@[topic@], i),
            w matches Some(w) ==> final(self)@ == old(self)@.insert(
                topic@,
                with_winner(old(self)@[topic@], w@),
            ),
            w is None ==> final(self)@ == old(self)@,
    {
        proof {
            use_type_invariant(&*self);
        }
        let i = self.find(topic).unwrap();
        let w = winner_of(&self.sessions[i].storage, ranks, floor);
        match w {
            None => None,
            Some(w) => {
                let ghost before = self@;
                let mut storage = self.take_at(i);
                storage.winner = Some(copy_winner(&w));
                self.replace_at(i, storage);
                proof {
                    assert(self@ =~= before.insert(topic@, with_winner(before[topic@], w@)));
                }
                Some(w)
            },
        }
    }

    /// Whether the session `topic` has one score for every pair of an
    /// executor and a verifier.
    pub fn scores_complete(&self, topic: &String) -> (r: bool)
        requires
            self@.dom().contains(topic@),
        ensures
            r == (self@[topic@].score_count == self@[topic@].execs.len()
                * self@[topic@].verifiers.len()),
    {
        let s = self.get(topic).unwrap();
        let a = s.execs.len() as u128;
        let b = s.verifiers.len() as u128;
        assert(a * b <= u64::MAX as u128 * u64::MAX as u128) by (nonlinear_arith)
            requires
                a <= u64::MAX,
                b <= u64::MAX,
        ;
        let expected = a * b;
        (s.rtc_score_count as u128) == expected
    }

    /// Takes out the session at index `i`, leaving an empty one in its place.
    fn take_at(&mut self, i: usize) -> (r: SessionStorage)
        requires
            i < old(self).sessions@.len(),
        ensures
            final(self).sessions@.len() == old(self).sessions@.len(),
            final(self).sessions@[i as int].task_id == old(self).sessions@[i as int].task_id,
            final(self)@ == old(self)@.insert(old(self).sessions@[i as int].task_id@, empty_session()),
            r@ == old(self)@[old(self).sessions@[i as int].task_id@],
            session_wf(r@),
    {
        proof {
            use_type_invariant(&*self);
            lemma_pairs_value(session_pairs(self.sessions@), i as int);
        }
        let ghost old_sessions = self.sessions@;
        let empty = SessionStorage {
            prompt: String::new(),
            winner: None,
            execs: Vec::new(),
            verifiers: Vec::new(),
            rtc_score_count: 0,
            responses: Vec::new(),
        };
        proof {
            assert(empty@.execs =~= Seq::<Seq<char>>::empty());
            assert(empty@.verifiers =~= Seq::<Seq<char>>::empty());
            assert(empty@.responses =~= Seq::<ResponseView>::empty());
            assert(empty@ == empty_session());
        }
        let mut sessions = Vec::new();
        std::mem::swap(&mut sessions, &mut self.sessions);
        let old_entry = sessions.remove(i);
        let entry = Session { task_id: old_entry.task_id, storage: empty };
        sessions.insert(i, entry);
        proof {
            assert(sessions@ =~= old_sessions.update(i as int, entry));
            assert(session_pairs(sessions@) =~= session_pairs(old_sessions).update(
                i as int,
                (session_pairs(old_sessions)[i as int].0, empty_session()),
            ));
            lemma_pairs_update(session_pairs(old_sessions), i as int, empty_session());
            assert forall|j: int| 0 <= j < sessions@.len() implies session_wf(
                #[trigger] sessions@[j].storage@,
            ) by {
                if j != i {
                    assert(sessions@[j] == old_sessions[j]);
                }
            }
        }
        self.sessions = sessions;
        old_entry.storage
    }
}

} // verus!
