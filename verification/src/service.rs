//! What a leader does to run a session: advertise it, assign roles among
//! the peers that joined, and wait for every score.

use crate::common::{random_split, split_at_index};
use crate::mesh::{clone_strings, Mesh};
use crate::parse::f32_text;
use crate::protocol::{
    adv_payload, exec_of, exec_payload, final_of, incoming_spec, verf_of, IPayload, IStage, Incoming,
    PayloadError,
};
use crate::session::{
    already_scored, empty_session, record_result, recorded, with_roles, with_score, RecordError,
    RecordOutcome,
    SessionTable, SessionView,
};
use crate::text::views;
use vstd::prelude::*;

verus! {

/// Leader side of advertising: opens an empty session `topic` and returns
/// the advertisement to publish on the provider mesh topic.
pub fn advertise(sessions: &mut SessionTable, local: &String, topic: String) -> (p: IPayload)
    ensures
        p.stage == IStage::Adv,
        p.leader == *local,
        p.source == *local,
        p.task_id@ == topic@,
        p.prompt is None && p.res is None && p.generator is None,
        p.verify_score is None && p.executors is None && p.verifiers is None,
        final(sessions)@ == old(sessions)@.insert(topic@, empty_session()),
{
    let p = adv_payload(local, &topic);
    sessions.open(topic);
    p
}

/// Leader side of role assignment with the split point chosen: the first
/// `split` participants execute, the others verify. Records the roles and
/// the prompt, and returns the payload to publish on the session topic.
pub fn assign_with_split(
    sessions: &mut SessionTable,
    local: &String,
    topic: &String,
    participants: Vec<String>,
    split: usize,
    prompt: String,
) -> (p: IPayload)
    requires
        old(sessions)@.dom().contains(topic@),
        split <= participants.len(),
    ensures
        p.stage == IStage::Exec,
        p.leader == *local,
        p.source == *local,
        p.task_id == *topic,
        p.prompt == Some(prompt),
        p.res is None && p.generator is None && p.verify_score is None,
        p.executors matches Some(e) && e@ == participants@.take(split as int),
        p.verifiers matches Some(v) && v@ == participants@.skip(split as int),
        final(sessions)@ == old(sessions)@.insert(
            topic@,
            with_roles(
                old(sessions)@[topic@],
                prompt@,
                views(participants@.take(split as int)),
                views(participants@.skip(split as int)),
            ),
        ),
{
    let (execs, verifiers) = split_at_index(participants, split);
    sessions.assign_roles(topic, clone_strings(&execs), clone_strings(&verifiers), prompt.clone());
    exec_payload(local, topic, prompt, execs, verifiers)
}

/// Leader side of role assignment: splits the peers subscribed to `topic`
/// at a random point into executors and verifiers (both non-empty), records
/// them with the prompt, and returns the payload to publish on `topic`.
pub fn assign_roles(
    sessions: &mut SessionTable,
    local: &String,
    mesh: &Mesh,
    topic: &String,
    prompt: String,
) -> (p: IPayload)
    requires
        old(sessions)@.dom().contains(topic@),
        mesh@.dom().contains(topic@),
        mesh@[topic@].len() >= 2,
    ensures
        p.stage == IStage::Exec,
        p.leader == *local,
        p.source == *local,
        p.task_id == *topic,
        p.prompt == Some(prompt),
        p.res is None && p.generator is None && p.verify_score is None,
        p.executors matches Some(e) && p.verifiers matches Some(v) && {
            &&& e@.len() >= 1
            &&& v@.len() >= 1
            &&& views(e@) + views(v@) == mesh@[topic@]
            &&& final(sessions)@ == old(sessions)@.insert(
                topic@,
                with_roles(old(sessions)@[topic@], prompt@, views(e@), views(v@)),
            )
        },
{
    let participants = clone_strings(mesh.get(topic).unwrap());
    let (execs, verifiers) = random_split(participants);
    proof {
        assert(views(execs@) + views(verifiers@) =~= views(execs@ + verifiers@));
    }
    sessions.assign_roles(topic, clone_strings(&execs), clone_strings(&verifiers), prompt.clone());
    exec_payload(local, topic, prompt, execs, verifiers)
}

/// How a session runs from the leader's role assignment to the score it
/// records: each node listed as executor executes; each node listed as
/// verifier scores the executor's response; the leader (and only the
/// leader) adds that score, with its verifier, to the entry of the executor
/// that answered, counted once.
pub proof fn lemma_session_flow(
    leader: String,
    topic: String,
    prompt: String,
    execs: Vec<String>,
    verifiers: Vec<String>,
    executor: String,
    response: String,
    verifier: String,
    score: String,
    t: Map<Seq<char>, SessionView>,
    other: Seq<char>,
)
    requires
        views(execs@).contains(executor@),
        t.dom().contains(topic@),
        t[topic@].score_count < u32::MAX,
        !already_scored(t[topic@], executor@, verifier@),
        f32_text(score@),
    ensures
        ({
            let a = exec_of(leader, topic, prompt, execs, verifiers);
            let v = verf_of(a, executor, response);
            let f = final_of(v, verifier, score);
            &&& incoming_spec(executor@, a) == Ok::<Incoming, PayloadError>(Incoming::Execute)
            &&& views(verifiers@).contains(verifier@) ==> incoming_spec(verifier@, v) == Ok::<
                Incoming,
                PayloadError,
            >(Incoming::Verify)
            &&& incoming_spec(leader@, f) == Ok::<Incoming, PayloadError>(Incoming::Record)
            &&& record_result(t, leader@, f) == Ok::<RecordOutcome, RecordError>(
                RecordOutcome::Recorded,
            )
            &&& recorded(t, f) == t.insert(
                topic@,
                with_score(t[topic@], executor@, response@, verifier@, score@),
            )
            &&& other != leader@ ==> record_result(t, other, f) == Ok::<
                RecordOutcome,
                RecordError,
            >(RecordOutcome::NotLeader)
        }),
{
}

/// The number of peers subscribed to `topic` in `mesh` (none if absent).
pub open spec fn participant_count(mesh: Map<Seq<char>, Seq<Seq<char>>>, topic: Seq<char>) -> nat {
    if mesh.dom().contains(topic) {
        mesh[topic].len()
    } else {
        0
    }
}

/// Whether exactly `provider_count` peers have joined the session `topic`.
pub fn participants_ready(mesh: &Mesh, topic: &String, provider_count: usize) -> (r: bool)
    ensures
        r == (participant_count(mesh@, topic@) == provider_count),
{
    match mesh.get(topic) {
        Some(p) => p.len() == provider_count,
        None => provider_count == 0,
    }
}

/// Where the automated pipeline stands.
#[derive(Debug, Clone, Copy, PartialEq, Eq, Structural)]
pub enum PipelinePhase {
    /// The session is advertised; waiting for the peers to join it.
    AwaitParticipants,
    /// Roles are assigned; waiting for every score.
    AwaitScores,
    /// The winner has been chosen.
    Done,
}

/// What the pipeline does next; each delay is in milliseconds.
#[derive(Debug, PartialEq, Eq, Structural)]
pub enum PipelineAction {
    /// Sleep, then look again.
    Wait(u64),
    /// Sleep, then assign roles and send the prompt.
    Assign(u64),
    /// Sleep, then choose the winner.
    Finalize(u64),
    /// Nothing is left to do.
    Stop,
}

/// The position of a phase in the order the pipeline goes through them.
pub open spec fn phase_rank(p: PipelinePhase) -> nat {
    match p {
        PipelinePhase::AwaitParticipants => 0,
        PipelinePhase::AwaitScores => 1,
        PipelinePhase::Done => 2,
    }
}

/// The next phase and action of the pipeline in phase `phase`, where
/// `ready` tells whether what that phase waits for has come: all the peers
/// (three seconds between looks; four before assigning roles), or every
/// score (two seconds between looks; two before choosing the winner).
pub open spec fn pipeline_next(phase: PipelinePhase, ready: bool) -> (PipelinePhase, PipelineAction) {
    match phase {
        PipelinePhase::AwaitParticipants => if ready {
            (PipelinePhase::AwaitScores, PipelineAction::Assign(4000))
        } else {
            (PipelinePhase::AwaitParticipants, PipelineAction::Wait(3000))
        },
        PipelinePhase::AwaitScores => if ready {
            (PipelinePhase::Done, PipelineAction::Finalize(2000))
        } else {
            (PipelinePhase::AwaitScores, PipelineAction::Wait(2000))
        },
        PipelinePhase::Done => (PipelinePhase::Done, PipelineAction::Stop),
    }
}

/// One step of the automated pipeline, as `pipeline_next` describes.
pub fn pipeline_step(phase: PipelinePhase, ready: bool) -> (r: (PipelinePhase, PipelineAction))
    ensures
        r == pipeline_next(phase, ready),
{
    match phase {
        PipelinePhase::AwaitParticipants => if ready {
            (PipelinePhase::AwaitScores, PipelineAction::Assign(4000))
        } else {
            (PipelinePhase::AwaitParticipants, PipelineAction::Wait(3000))
        },
        PipelinePhase::AwaitScores => if ready {
            (PipelinePhase::Done, PipelineAction::Finalize(2000))
        } else {
            (PipelinePhase::AwaitScores, PipelineAction::Wait(2000))
        },
        PipelinePhase::Done => (PipelinePhase::Done, PipelineAction::Stop),
    }
}

/// The pipeline goes through its phases in order and never back: a step
/// moves on by exactly one phase when what it waits for has come, and stays
/// put otherwise; roles are assigned only on leaving the wait for peers,
/// and the winner is chosen only on leaving the wait for scores.
pub proof fn lemma_pipeline_in_order(phase: PipelinePhase, ready: bool)
    ensures
        phase_rank(pipeline_next(phase, ready).0) == if ready && phase != PipelinePhase::Done {
            phase_rank(phase) + 1
        } else {
            phase_rank(phase)
        },
        pipeline_next(phase, ready).1 is Assign <==> (phase == PipelinePhase::AwaitParticipants
            && ready),
        pipeline_next(phase, ready).1 is Finalize <==> (phase == PipelinePhase::AwaitScores
            && ready),
        pipeline_next(phase, ready).1 is Stop <==> phase == PipelinePhase::Done,
{
}

/// The prompt that the automated pipeline sends.
pub open spec fn pipeline_prompt_text() -> Seq<char> {
    "Hey hows it going, let have somemfun talk about decentralized computaion, say when a distributed swarm of LLMs"@
}

/// The prompt that the automated pipeline sends.
pub fn pipeline_prompt() -> (r: String)
    ensures
        r@ == pipeline_prompt_text(),
{
    String::from_str(
        "Hey hows it going, let have somemfun talk about decentralized computaion, say when a distributed swarm of LLMs",
    )
}

} // verus!
