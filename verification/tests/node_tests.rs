use inode::mesh::Mesh;
use inode::node::{
    apply_message, listen_plan, poll_mesh, startup_action, Delivery, Mode, StartupAction,
};
use inode::protocol::{adv_payload, IMsgType, IStage};

fn mesh_of(pairs: &[(&str, &[&str])]) -> Mesh {
    let mut m = Mesh::new();
    for (t, ps) in pairs {
        m.insert(t.to_string(), ps.iter().map(|p| p.to_string()).collect());
    }
    m
}

#[test]
fn listen_plans() {
    let b = listen_plan(Mode::Bootstrap);
    assert_eq!(b.address, "ip4/127.0.0.1/tcp/8888");
    assert!(b.uses_bootstrap_key);
    let p = listen_plan(Mode::Provider);
    assert_eq!(p.address, "ip4/127.0.0.1/tcp/0");
    assert!(!p.uses_bootstrap_key);
}

#[test]
fn startup_actions() {
    assert_eq!(startup_action(Mode::Bootstrap), StartupAction::RunMeshUpdates);
    assert_eq!(startup_action(Mode::Provider), StartupAction::ConnectToBootstrap);
}

#[test]
fn bootmesh_messages_replace_the_cache() {
    let mut cache = mesh_of(&[("old", &["x"])]);
    let d = apply_message(Mode::Provider, &mut cache, IMsgType::General("hello".to_string()));
    assert!(matches!(d, Delivery::General(ref t) if t == "hello"));
    assert!(cache.same_as(&mesh_of(&[("old", &["x"])])));
    let d = apply_message(
        Mode::Provider,
        &mut cache,
        IMsgType::Bootmesh(mesh_of(&[("swarm/mesh", &["a", "b"])])),
    );
    assert!(matches!(d, Delivery::MeshUpdated));
    assert!(cache.same_as(&mesh_of(&[("swarm/mesh", &["a", "b"])])));
}

#[test]
fn service_payloads_are_handed_on() {
    let mut cache = mesh_of(&[("old", &["x"])]);
    let local = "ip4/127.0.0.1/tcp/9".to_string();
    let topic = "my-task-01".to_string();
    let d = apply_message(Mode::Provider, &mut cache, IMsgType::Service(adv_payload(&local, &topic)));
    match d {
        Delivery::Service(p) => {
            assert_eq!(p.stage, IStage::Adv);
            assert_eq!(p.task_id, "my-task-01");
        }
        _ => panic!("expected a service payload"),
    }
    assert!(cache.same_as(&mesh_of(&[("old", &["x"])])));
}

#[test]
fn bootstrap_node_discards_incoming_messages() {
    let mut cache = mesh_of(&[("old", &["x"])]);
    let d = apply_message(
        Mode::Bootstrap,
        &mut cache,
        IMsgType::Bootmesh(mesh_of(&[("swarm/mesh", &["a"])])),
    );
    assert!(matches!(d, Delivery::Discarded));
    assert!(cache.same_as(&mesh_of(&[("old", &["x"])])));
    let d = apply_message(Mode::Bootstrap, &mut cache, IMsgType::General("hi".to_string()));
    assert!(matches!(d, Delivery::Discarded));
}

#[test]
fn polling_broadcasts_each_change_once() {
    let mut cache = Mesh::new();
    let first = poll_mesh(&mut cache, mesh_of(&[("swarm/mesh", &["a"])]));
    assert!(first.unwrap().same_as(&mesh_of(&[("swarm/mesh", &["a"])])));
    assert!(cache.same_as(&mesh_of(&[("swarm/mesh", &["a"])])));
    assert!(poll_mesh(&mut cache, mesh_of(&[("swarm/mesh", &["a"])])).is_none());
    let changed = poll_mesh(&mut cache, mesh_of(&[("swarm/mesh", &["a", "b"])]));
    assert!(changed.is_some());
    assert!(poll_mesh(&mut cache, mesh_of(&[("swarm/mesh", &["a", "b"])])).is_none());
}
