use inode::mesh::Mesh;
use inode::protocol::{final_payload, verf_payload, IStage};
use inode::service::{
    advertise, assign_roles, assign_with_split, participants_ready, pipeline_prompt, pipeline_step,
    PipelineAction, PipelinePhase,
};
use inode::session::{RecordOutcome, SessionTable};

fn s(x: &str) -> String {
    x.to_string()
}

fn strings(v: &[&str]) -> Vec<String> {
    v.iter().map(|x| x.to_string()).collect()
}

#[test]
fn advertise_opens_a_session() {
    let mut t = SessionTable::new();
    let p = advertise(&mut t, &s("L"), s("task7"));
    assert_eq!(p.stage, IStage::Adv);
    assert_eq!(p.leader, "L");
    assert_eq!(p.source, "L");
    assert_eq!(p.task_id, "task7");
    assert!(t.contains(&s("task7")));
}

#[test]
fn assign_with_split_records_roles() {
    let mut t = SessionTable::new();
    advertise(&mut t, &s("L"), s("t"));
    let p = assign_with_split(&mut t, &s("L"), &s("t"), strings(&["a", "b", "c"]), 2, s("q"));
    assert_eq!(p.stage, IStage::Exec);
    assert_eq!(p.executors, Some(strings(&["a", "b"])));
    assert_eq!(p.verifiers, Some(strings(&["c"])));
    assert_eq!(p.prompt.as_deref(), Some("q"));
    let st = t.get(&s("t")).unwrap();
    assert_eq!(st.execs, strings(&["a", "b"]));
    assert_eq!(st.verifiers, strings(&["c"]));
    assert_eq!(st.prompt, "q");
}

#[test]
fn assign_roles_splits_the_mesh() {
    let mut mesh = Mesh::new();
    mesh.insert(s("t"), strings(&["p1", "p2", "p3", "p4"]));
    for _ in 0..50 {
        let mut t = SessionTable::new();
        advertise(&mut t, &s("L"), s("t"));
        let p = assign_roles(&mut t, &s("L"), &mesh, &s("t"), s("q"));
        let e = p.executors.clone().unwrap();
        let v = p.verifiers.clone().unwrap();
        assert!(!e.is_empty() && !v.is_empty());
        let mut all = e.clone();
        all.extend(v.clone());
        assert_eq!(all, strings(&["p1", "p2", "p3", "p4"]));
        let st = t.get(&s("t")).unwrap();
        assert_eq!(st.execs, e);
        assert_eq!(st.verifiers, v);
    }
}

#[test]
fn participants_ready_counts_the_topic() {
    let mut mesh = Mesh::new();
    assert!(participants_ready(&mesh, &s("t"), 0));
    assert!(!participants_ready(&mesh, &s("t"), 3));
    mesh.insert(s("t"), strings(&["a", "b", "c"]));
    assert!(participants_ready(&mesh, &s("t"), 3));
    assert!(!participants_ready(&mesh, &s("t"), 2));
}

#[test]
fn pipeline_prompt_text() {
    assert!(pipeline_prompt().starts_with("Hey hows it going"));
    assert!(pipeline_prompt().ends_with("distributed swarm of LLMs"));
}

#[test]
fn a_full_session() {
    let mut t = SessionTable::new();
    advertise(&mut t, &s("L"), s("t"));
    let assignment = assign_with_split(&mut t, &s("L"), &s("t"), strings(&["e1", "e2", "v1", "v2"]), 2, s("q"));
    for (executor, answer) in [("e1", "one"), ("e2", "two")] {
        for (verifier, score) in [("v1", if executor == "e1" { "0.4" } else { "0.8" }), ("v2", "0.6")] {
            let copy = inode::protocol::exec_payload(
                &assignment.leader,
                &assignment.task_id,
                assignment.prompt.clone().unwrap(),
                assignment.executors.clone().unwrap(),
                assignment.verifiers.clone().unwrap(),
            );
            let answered = verf_payload(copy, &s(executor), s(answer));
            let scored = final_payload(answered, &s(verifier), s(score));
            assert_eq!(t.record_score(&s("L"), scored), Ok(RecordOutcome::Recorded));
        }
    }
    assert!(t.scores_complete(&s("t")));
    let ranks: Vec<Option<i64>> = t
        .get(&s("t"))
        .unwrap()
        .responses
        .iter()
        .map(|e| {
            let sum: f32 = e.scores.iter().map(|x| x.parse::<f32>().unwrap()).sum();
            Some((sum / e.scores.len() as f32).to_bits() as i64)
        })
        .collect();
    // Every average here is positive, so its bits order as its value does.
    let w = t.select_winner(&s("t"), &ranks, -1).unwrap();
    assert_eq!(w.generator, "e2");
    assert_eq!(w.response, "two");
    assert_eq!(w.scores, strings(&["0.8", "0.6"]));
}

#[test]
fn the_pipeline_steps_through_its_phases() {
    let mut phase = PipelinePhase::AwaitParticipants;
    let mut actions = Vec::new();
    for ready in [false, false, true, false, true, true] {
        let (next, action) = pipeline_step(phase, ready);
        actions.push(action);
        phase = next;
    }
    assert_eq!(phase, PipelinePhase::Done);
    assert_eq!(
        actions,
        vec![
            PipelineAction::Wait(3000),
            PipelineAction::Wait(3000),
            PipelineAction::Assign(4000),
            PipelineAction::Wait(2000),
            PipelineAction::Finalize(2000),
            PipelineAction::Stop,
        ]
    );
}
