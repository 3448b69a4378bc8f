//! Decisions of a node about the mesh: how it listens, what it does once
//! started, and how it keeps its view of the bootstrap mesh current.

use crate::mesh::Mesh;
use crate::protocol::{IMsgType, IPayload};
use vstd::prelude::*;

verus! {

/// Whether a node tracks the mesh for everyone or takes part in sessions.
#[derive(Debug, Clone, Copy, PartialEq, Eq, Structural)]
pub enum Mode {
    Provider,
    Bootstrap,
}

/// Where a node listens, and whether it takes its identity from the fixed
/// bootstrap key.
#[derive(Debug)]
pub struct ListenPlan {
    pub address: String,
    pub uses_bootstrap_key: bool,
}

/// The listen address of the bootstrap node.
pub open spec fn bootstrap_listen() -> Seq<char> {
    "ip4/127.0.0.1/tcp/8888"@
}

/// The listen address of a provider node: any free port.
pub open spec fn provider_listen() -> Seq<char> {
    "ip4/127.0.0.1/tcp/0"@
}

/// How a node of mode `mode` listens: the bootstrap node on a fixed port with
/// the fixed key, a provider on a free port with a fresh identity.
pub fn listen_plan(mode: Mode) -> (r: ListenPlan)
    ensures
        r.address@ == (match mode {
            Mode::Bootstrap => bootstrap_listen(),
            Mode::Provider => provider_listen(),
        }),
        r.uses_bootstrap_key == (mode == Mode::Bootstrap),
{
    match mode {
        Mode::Bootstrap => ListenPlan {
            address: String::from_str("ip4/127.0.0.1/tcp/8888"),
            uses_bootstrap_key: true,
        },
        Mode::Provider => ListenPlan {
            address: String::from_str("ip4/127.0.0.1/tcp/0"),
            uses_bootstrap_key: false,
        },
    }
}

/// What a node does once it has joined the provider mesh topic.
#[derive(Debug, PartialEq, Eq, Structural)]
pub enum StartupAction {
    /// Keep polling the mesh and broadcast each change of it.
    RunMeshUpdates,
    /// Open a floodsub stream to the bootstrap node.
    ConnectToBootstrap,
}

/// The bootstrap node tracks the mesh; a provider connects to it.
pub fn startup_action(mode: Mode) -> (r: StartupAction)
    ensures
        r == (match mode {
            Mode::Bootstrap => StartupAction::RunMeshUpdates,
            Mode::Provider => StartupAction::ConnectToBootstrap,
        }),
{
    match mode {
        Mode::Bootstrap => StartupAction::RunMeshUpdates,
        Mode::Provider => StartupAction::ConnectToBootstrap,
    }
}

/// The bootstrap mesh a node of mode `mode` holds after it receives the
/// message `msg` while holding `cached`: the bootstrap node discards every
/// incoming message; on a provider a mesh message replaces the cache and any
/// other keeps it.
pub open spec fn after_message(
    mode: Mode,
    cached: Map<Seq<char>, Seq<Seq<char>>>,
    msg: IMsgType,
) -> Map<Seq<char>, Seq<Seq<char>>> {
    match mode {
        Mode::Bootstrap => cached,
        Mode::Provider => match msg {
            IMsgType::Bootmesh(m) => m@,
            _ => cached,
        },
    }
}

/// What a published message leads to once the node has taken it in.
#[derive(Debug)]
pub enum Delivery {
    /// The node does not process incoming messages (the bootstrap node).
    Discarded,
    /// A free-form text to log.
    General(String),
    /// The cached bootstrap mesh was replaced.
    MeshUpdated,
    /// A session payload, to be handled by its stage.
    Service(IPayload),
}

/// The outcome of `msg` at a node of mode `mode`.
pub open spec fn delivery_of(mode: Mode, msg: IMsgType) -> Delivery {
    match mode {
        Mode::Bootstrap => Delivery::Discarded,
        Mode::Provider => match msg {
            IMsgType::General(t) => Delivery::General(t),
            IMsgType::Service(p) => Delivery::Service(p),
            IMsgType::Bootmesh(_) => Delivery::MeshUpdated,
        },
    }
}

/// Takes in a message published to a node of mode `mode`: the bootstrap
/// node discards it; a provider caches a mesh message as its copy of the
/// bootstrap mesh and hands session payloads on to be handled by stage.
pub fn apply_message(mode: Mode, bootmesh: &mut Mesh, msg: IMsgType) -> (r: Delivery)
    ensures
        final(bootmesh)@ == after_message(mode, old(bootmesh)@, msg),
        r == delivery_of(mode, msg),
{
    match mode {
        Mode::Bootstrap => Delivery::Discarded,
        Mode::Provider => match msg {
            IMsgType::General(t) => Delivery::General(t),
            IMsgType::Service(p) => Delivery::Service(p),
            IMsgType::Bootmesh(m) => {
                *bootmesh = m;
                Delivery::MeshUpdated
            },
        },
    }
}

/// One poll of the bootstrap node: the cached mesh afterwards, and the mesh
/// to broadcast, if it changed.
pub open spec fn poll_spec(
    cached: Map<Seq<char>, Seq<Seq<char>>>,
    latest: Map<Seq<char>, Seq<Seq<char>>>,
) -> (Map<Seq<char>, Seq<Seq<char>>>, Option<Map<Seq<char>, Seq<Seq<char>>>>) {
    if cached == latest {
        (cached, None)
    } else {
        (latest, Some(latest))
    }
}

/// Compares the cached mesh with the latest one; when they differ, caches
/// the latest and returns it for broadcast.
pub fn poll_mesh(cached: &mut Mesh, latest: Mesh) -> (r: Option<Mesh>)
    ensures
        final(cached)@ == poll_spec(old(cached)@, latest@).0,
        match r {
            Some(m) => poll_spec(old(cached)@, latest@).1 == Some(m@),
            None => poll_spec(old(cached)@, latest@).1 is None,
        },
{
    if cached.same_as(&latest) {
        None
    } else {
        *cached = latest.duplicate();
        Some(latest)
    }
}

/// Once a change has been cached, polling again with the same mesh does
/// not broadcast it a second time.
pub proof fn lemma_poll_settles(
    cached: Map<Seq<char>, Seq<Seq<char>>>,
    latest: Map<Seq<char>, Seq<Seq<char>>>,
)
    ensures
        poll_spec(poll_spec(cached, latest).0, latest).1 is None,
        poll_spec(poll_spec(cached, latest).0, latest).0 == latest,
{
}

/// The bootstrap node takes part in nothing: every message it receives,
/// whatever its kind, is discarded and leaves its cached mesh as it was.
/// A provider logs text, caches a published mesh as it was sent, and hands
/// session payloads on unchanged; only a mesh message changes its cache.
pub proof fn lemma_message_outcomes(cached: Map<Seq<char>, Seq<Seq<char>>>, msg: IMsgType)
    ensures
        delivery_of(Mode::Bootstrap, msg) is Discarded,
        after_message(Mode::Bootstrap, cached, msg) == cached,
        !(delivery_of(Mode::Provider, msg) is Discarded),
        msg matches IMsgType::General(t) ==> delivery_of(Mode::Provider, msg) matches Delivery::General(
            u,
        ) && u == t && after_message(Mode::Provider, cached, msg) == cached,
        msg matches IMsgType::Service(p) ==> delivery_of(Mode::Provider, msg) matches Delivery::Service(
            q,
        ) && q == p && after_message(Mode::Provider, cached, msg) == cached,
        msg matches IMsgType::Bootmesh(m) ==> delivery_of(Mode::Provider, msg) is MeshUpdated
            && after_message(Mode::Provider, cached, msg) == m@,
{
}

/// A poll always leaves the latest mesh cached, and it has a mesh to
/// broadcast exactly when the latest mesh differs from the cached one as a
/// map (a topic added, removed, or with other peers); that mesh is the
/// latest one.
pub proof fn lemma_poll_broadcasts_every_change(
    cached: Map<Seq<char>, Seq<Seq<char>>>,
    latest: Map<Seq<char>, Seq<Seq<char>>>,
)
    ensures
        poll_spec(cached, latest).0 == latest,
        poll_spec(cached, latest).1 is None <==> cached == latest,
        poll_spec(cached, latest).1 is Some ==> poll_spec(cached, latest).1 == Some(latest),
        cached.dom() != latest.dom() ==> poll_spec(cached, latest).1 == Some(latest),
{
}

} // verus!

