use inode::protocol::{
    adv_payload, exec_payload, final_payload, incoming_action, provider_mesh, verf_payload, IStage,
    Incoming, PayloadError,
};

fn s(x: &str) -> String {
    x.to_string()
}

fn strings(v: &[&str]) -> Vec<String> {
    v.iter().map(|x| x.to_string()).collect()
}

#[test]
fn provider_mesh_topic() {
    assert_eq!(provider_mesh(), "swarm/mesh");
}

#[test]
fn payload_fields_follow_the_stage_table() {
    let leader = s("/ip4/127.0.0.1/tcp/1");
    let adv = adv_payload(&leader, &s("task1"));
    assert_eq!(adv.stage, IStage::Adv);
    assert_eq!(adv.leader, leader);
    assert_eq!(adv.source, leader);
    assert_eq!(adv.task_id, "task1");
    assert!(adv.prompt.is_none() && adv.res.is_none() && adv.generator.is_none());
    assert!(adv.verify_score.is_none() && adv.executors.is_none() && adv.verifiers.is_none());

    let ex = exec_payload(&leader, &s("task1"), s("why?"), strings(&["e1"]), strings(&["v1", "v2"]));
    assert_eq!(ex.stage, IStage::Exec);
    assert_eq!(ex.prompt.as_deref(), Some("why?"));
    assert_eq!(ex.executors, Some(strings(&["e1"])));
    assert_eq!(ex.verifiers, Some(strings(&["v1", "v2"])));
    assert!(ex.res.is_none() && ex.generator.is_none() && ex.verify_score.is_none());

    let vf = verf_payload(ex, &s("e1"), s("because"));
    assert_eq!(vf.stage, IStage::Verf);
    assert_eq!(vf.leader, leader);
    assert_eq!(vf.source, "e1");
    assert_eq!(vf.task_id, "task1");
    assert_eq!(vf.prompt.as_deref(), Some("why?"));
    assert_eq!(vf.res.as_deref(), Some("because"));
    assert_eq!(vf.generator.as_deref(), Some("e1"));
    assert!(vf.executors.is_none() && vf.verify_score.is_none());
    assert_eq!(vf.verifiers, Some(strings(&["v1", "v2"])));

    let fin = final_payload(vf, &s("v2"), s("0.75"));
    assert_eq!(fin.stage, IStage::Final);
    assert_eq!(fin.leader, leader);
    assert_eq!(fin.source, "v2");
    assert_eq!(fin.generator.as_deref(), Some("e1"));
    assert_eq!(fin.verify_score.as_deref(), Some("0.75"));
    assert_eq!(fin.res.as_deref(), Some("because"));
    assert!(fin.executors.is_none() && fin.verifiers.is_none());
}

#[test]
fn incoming_decisions() {
    let leader = s("L");
    assert_eq!(incoming_action(&s("any"), &adv_payload(&leader, &s("t"))), Ok(Incoming::Join));
    let ex = exec_payload(&leader, &s("t"), s("p"), strings(&["e1", "e2"]), strings(&["v1"]));
    assert_eq!(incoming_action(&s("e2"), &ex), Ok(Incoming::Execute));
    assert_eq!(incoming_action(&s("v1"), &ex), Ok(Incoming::AwaitExecutors));
    assert_eq!(incoming_action(&s("stranger"), &ex), Ok(Incoming::AwaitExecutors));
    let vf = verf_payload(ex, &s("e1"), s("r"));
    assert_eq!(incoming_action(&s("v1"), &vf), Ok(Incoming::Verify));
    assert_eq!(incoming_action(&s("e2"), &vf), Ok(Incoming::Ignore));
    let fin = final_payload(vf, &s("v1"), s("0.5"));
    assert_eq!(incoming_action(&s("L"), &fin), Ok(Incoming::Record));
    assert_eq!(incoming_action(&s("e1"), &fin), Ok(Incoming::Record));
}

#[test]
fn incoming_missing_lists() {
    let mut ex = exec_payload(&s("L"), &s("t"), s("p"), strings(&["e"]), strings(&["v"]));
    ex.executors = None;
    assert_eq!(incoming_action(&s("e"), &ex), Err(PayloadError::MissingExecutors));
    let mut vf = verf_payload(exec_payload(&s("L"), &s("t"), s("p"), strings(&["e"]), strings(&["v"])), &s("e"), s("r"));
    vf.verifiers = None;
    assert_eq!(incoming_action(&s("v"), &vf), Err(PayloadError::MissingVerifiers));
}
