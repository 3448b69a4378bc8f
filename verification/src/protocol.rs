//! Messages of the swarm inference protocol and the decisions a node takes
//! when one arrives.

use crate::mesh::{contains_string, Mesh};
use crate::text::views;
use vstd::prelude::*;

verus! {

/// The stage of a session that a payload belongs to.
#[derive(Clone, Copy, Debug, PartialEq, Eq, Structural)]
pub enum IStage {
    Adv,
    Exec,
    Verf,
    Final,
}

/// The envelope of every session message.
#[derive(Debug)]
pub struct IPayload {
    pub stage: IStage,
    pub leader: String,
    pub source: String,
    pub task_id: String,
    pub prompt: Option<String>,
    pub res: Option<String>,
    pub generator: Option<String>,
    pub verify_score: Option<String>,
    pub executors: Option<Vec<String>>,
    pub verifiers: Option<Vec<String>>,
}

/// Everything a node publishes over floodsub.
#[derive(Debug)]
pub enum IMsgType {
    General(String),
    Service(IPayload),
    Bootmesh(Mesh),
}

/// The topic that every node subscribes to and that advertisements and the
/// bootstrap mesh are published on.
pub open spec fn provider_mesh_topic() -> Seq<char> {
    "swarm/mesh"@
}

/// The name of the topic that every node subscribes to.
pub fn provider_mesh() -> (r: String)
    ensures
        r@ == provider_mesh_topic(),
{
    String::from_str("swarm/mesh")
}

/// The advertisement a leader at `local` publishes for a new session `topic`.
pub open spec fn adv_of(local: String, topic: String) -> IPayload {
    IPayload {
        stage: IStage::Adv,
        leader: local,
        source: local,
        task_id: topic,
        prompt: None,
        res: None,
        generator: None,
        verify_score: None,
        executors: None,
        verifiers: None,
    }
}

/// The role assignment a leader at `local` publishes on the session topic.
pub open spec fn exec_of(
    local: String,
    topic: String,
    prompt: String,
    execs: Vec<String>,
    verifiers: Vec<String>,
) -> IPayload {
    IPayload {
        stage: IStage::Exec,
        leader: local,
        source: local,
        task_id: topic,
        prompt: Some(prompt),
        res: None,
        generator: None,
        verify_score: None,
        executors: Some(execs),
        verifiers: Some(verifiers),
    }
}

/// The response an executor at `local` publishes for the role assignment
/// `assigned`, having generated `response` for its prompt: the leader, the
/// task, the prompt and the verifiers are carried over.
pub open spec fn verf_of(assigned: IPayload, local: String, response: String) -> IPayload {
    IPayload {
        stage: IStage::Verf,
        leader: assigned.leader,
        source: local,
        task_id: assigned.task_id,
        prompt: assigned.prompt,
        res: Some(response),
        generator: Some(local),
        verify_score: None,
        executors: None,
        verifiers: assigned.verifiers,
    }
}

/// The score a verifier at `local` publishes for the executor response
/// `answered`: the executor that sent it becomes the generator.
pub open spec fn final_of(answered: IPayload, local: String, score: String) -> IPayload {
    IPayload {
        stage: IStage::Final,
        leader: answered.leader,
        source: local,
        task_id: answered.task_id,
        prompt: answered.prompt,
        res: answered.res,
        generator: Some(answered.source),
        verify_score: Some(score),
        executors: None,
        verifiers: None,
    }
}

/// Builds the advertisement of `adv_of`.
pub fn adv_payload(local: &String, topic: &String) -> (p: IPayload)
    ensures
        p == adv_of(*local, *topic),
{
    IPayload {
        stage: IStage::Adv,
        leader: local.clone(),
        source: local.clone(),
        task_id: topic.clone(),
        prompt: None,
        res: None,
        generator: None,
        verify_score: None,
        executors: None,
        verifiers: None,
    }
}

/// Builds the role assignment of `exec_of`.
pub fn exec_payload(
    local: &String,
    topic: &String,
    prompt: String,
    execs: Vec<String>,
    verifiers: Vec<String>,
) -> (p: IPayload)
    ensures
        p == exec_of(*local, *topic, prompt, execs, verifiers),
{
    IPayload {
        stage: IStage::Exec,
        leader: local.clone(),
        source: local.clone(),
        task_id: topic.clone(),
        prompt: Some(prompt),
        res: None,
        generator: None,
        verify_score: None,
        executors: Some(execs),
        verifiers: Some(verifiers),
    }
}

/// Builds the response of `verf_of`.
pub fn verf_payload(assigned: IPayload, local: &String, response: String) -> (p: IPayload)
    ensures
        p == verf_of(assigned, *local, response),
{
    IPayload {
        stage: IStage::Verf,
        leader: assigned.leader,
        source: local.clone(),
        task_id: assigned.task_id,
        prompt: assigned.prompt,
        res: Some(response),
        generator: Some(local.clone()),
        verify_score: None,
        executors: None,
        verifiers: assigned.verifiers,
    }
}

/// Builds the score of `final_of`.
pub fn final_payload(answered: IPayload, local: &String, score: String) -> (p: IPayload)
    ensures
        p == final_of(answered, *local, score),
{
    IPayload {
        stage: IStage::Final,
        leader: answered.leader,
        source: local.clone(),
        task_id: answered.task_id,
        prompt: answered.prompt,
        res: answered.res,
        generator: Some(answered.source),
        verify_score: Some(score),
        executors: None,
        verifiers: None,
    }
}

/// What a node does with a session payload it receives.
#[derive(Debug, PartialEq, Eq, Structural)]
pub enum Incoming {
    /// Open a floodsub stream to the advertising leader, then subscribe to
    /// the session topic.
    Join,
    /// This node is an executor: generate a response and publish it.
    Execute,
    /// This node is not an executor: wait for the executors' responses.
    AwaitExecutors,
    /// This node is a verifier of the response: score it and publish.
    Verify,
    /// This node does not verify this response.
    Ignore,
    /// A score for the leader to record.
    Record,
}

/// A payload that lacks a field its stage needs.
#[derive(Debug, PartialEq, Eq, Structural)]
pub enum PayloadError {
    MissingExecutors,
    MissingVerifiers,
}

/// The decision for payload `p` at the node whose address is `local`.
pub open spec fn incoming_spec(local: Seq<char>, p: IPayload) -> Result<Incoming, PayloadError> {
    match p.stage {
        IStage::Adv => Ok(Incoming::Join),
        IStage::Exec => match p.executors {
            Some(e) => if views(e@).contains(local) {
                Ok(Incoming::Execute)
            } else {
                Ok(Incoming::AwaitExecutors)
            },
            None => Err(PayloadError::MissingExecutors),
        },
        IStage::Verf => match p.verifiers {
            Some(v) => if views(v@).contains(local) {
                Ok(Incoming::Verify)
            } else {
                Ok(Incoming::Ignore)
            },
            None => Err(PayloadError::MissingVerifiers),
        },
        IStage::Final => Ok(Incoming::Record),
    }
}

/// Decides what the node at `local` does with the payload `p`: advertisements
/// are joined, role assignments executed by the executors they name,
/// responses scored by the verifiers they name, scores recorded.
pub fn incoming_action(local: &String, p: &IPayload) -> (r: Result<Incoming, PayloadError>)
    ensures
        r == incoming_spec(local@, *p),
{
    match p.stage {
        IStage::Adv => Ok(Incoming::Join),
        IStage::Exec => match &p.executors {
            Some(e) => if contains_string(e, local) {
                Ok(Incoming::Execute)
            } else {
                Ok(Incoming::AwaitExecutors)
            },
            None => Err(PayloadError::MissingExecutors),
        },
        IStage::Verf => match &p.verifiers {
            Some(v) => if contains_string(v, local) {
                Ok(Incoming::Verify)
            } else {
                Ok(Incoming::Ignore)
            },
            None => Err(PayloadError::MissingVerifiers),
        },
        IStage::Final => Ok(Incoming::Record),
    }
}

/// Whether `who` is one of the addresses in `list`.
pub open spec fn listed(list: Seq<String>, who: Seq<char>) -> bool {
    exists|i: int| 0 <= i < list.len() && (#[trigger] list[i])@ == who
}

proof fn lemma_views_contains(list: Seq<String>, who: Seq<char>)
    ensures
        views(list).contains(who) == listed(list, who),
{
    if listed(list, who) {
        let i = choose|i: int| 0 <= i < list.len() && (#[trigger] list[i])@ == who;
        assert(views(list)[i] == who);
    }
    if views(list).contains(who) {
        let i = choose|i: int| 0 <= i < views(list).len() && views(list)[i] == who;
        assert(list[i]@ == who);
    }
}

/// What a node does with a session payload depends on its stage and on
/// whether the node is named in it: every node joins an advertised
/// session; a role assignment is executed by exactly the nodes it lists as
/// executors, the others wait; a response is scored by exactly the nodes it
/// lists as verifiers, every other node (the leader included, unless it is
/// listed) ignores it; a score is recorded. A payload without the list its
/// stage needs is refused.
pub proof fn lemma_incoming_by_role(local: Seq<char>, p: IPayload)
    ensures
        p.stage == IStage::Adv ==> incoming_spec(local, p) == Ok::<Incoming, PayloadError>(
            Incoming::Join,
        ),
        p.stage == IStage::Final ==> incoming_spec(local, p) == Ok::<Incoming, PayloadError>(
            Incoming::Record,
        ),
        p.stage == IStage::Exec ==> match p.executors {
            Some(e) => incoming_spec(local, p) == Ok::<Incoming, PayloadError>(
                if listed(e@, local) {
                    Incoming::Execute
                } else {
                    Incoming::AwaitExecutors
                },
            ),
            None => incoming_spec(local, p) == Err::<Incoming, PayloadError>(
                PayloadError::MissingExecutors,
            ),
        },
        p.stage == IStage::Verf ==> match p.verifiers {
            Some(v) => incoming_spec(local, p) == Ok::<Incoming, PayloadError>(
                if listed(v@, local) {
                    Incoming::Verify
                } else {
                    Incoming::Ignore
                },
            ),
            None => incoming_spec(local, p) == Err::<Incoming, PayloadError>(
                PayloadError::MissingVerifiers,
            ),
        },
{
    if let Some(e) = p.executors {
        lemma_views_contains(e@, local);
    }
    if let Some(v) = p.verifiers {
        lemma_views_contains(v@, local);
    }
}

} // verus!
