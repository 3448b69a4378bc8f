use inode::protocol::{exec_payload, final_payload, verf_payload, IPayload};
use inode::session::{RecordError, RecordOutcome, SessionTable, TaskWinner};

fn s(x: &str) -> String {
    x.to_string()
}

fn strings(v: &[&str]) -> Vec<String> {
    v.iter().map(|x| x.to_string()).collect()
}

fn score_payload(leader: &str, task: &str, executor: &str, response: &str, verifier: &str, score: &str) -> IPayload {
    let ex = exec_payload(&s(leader), &s(task), s("prompt"), strings(&[executor]), strings(&[verifier]));
    let vf = verf_payload(ex, &s(executor), s(response));
    final_payload(vf, &s(verifier), s(score))
}

/// The rank of an average: integers in the order of the `f32` values,
/// `None` for NaN.
fn rank(f: f32) -> Option<i64> {
    if f.is_nan() {
        None
    } else if f == 0.0 {
        Some(0)
    } else {
        let b = f.to_bits() as i32;
        Some(if b < 0 { -((b & 0x7fff_ffff) as i64) } else { b as i64 })
    }
}

fn average(scores: &[String]) -> f32 {
    let sum: f32 = scores.iter().map(|x| x.parse::<f32>().unwrap()).sum();
    sum / (scores.len() as f32)
}

fn select(t: &mut SessionTable, task: &str) -> Option<TaskWinner> {
    let ranks: Vec<Option<i64>> =
        t.get(&s(task)).unwrap().responses.iter().map(|e| rank(average(&e.scores))).collect();
    t.select_winner(&s(task), &ranks, rank(-1.0).unwrap())
}

fn table_with(task: &str) -> SessionTable {
    let mut t = SessionTable::new();
    t.open(s(task));
    t.assign_roles(&s(task), strings(&["e1", "e2"]), strings(&["v1", "v2"]), s("the prompt"));
    t
}

#[test]
fn open_and_assign() {
    let mut t = SessionTable::new();
    assert!(!t.contains(&s("t")));
    t.open(s("t"));
    let st = t.get(&s("t")).unwrap();
    assert_eq!(st.prompt, "");
    assert!(st.execs.is_empty() && st.verifiers.is_empty() && st.responses.is_empty());
    assert_eq!(st.rtc_score_count, 0);
    assert!(st.winner.is_none());
    t.assign_roles(&s("t"), strings(&["a"]), strings(&["b", "c"]), s("p"));
    let st = t.get(&s("t")).unwrap();
    assert_eq!(st.prompt, "p");
    assert_eq!(st.execs, strings(&["a"]));
    assert_eq!(st.verifiers, strings(&["b", "c"]));
    assert!(t.get(&s("u")).is_none());
}

#[test]
fn reopening_resets_the_session() {
    let mut t = table_with("t");
    t.record_score(&s("L"), score_payload("L", "t", "e1", "r", "v1", "0.5")).unwrap();
    t.open(s("t"));
    let st = t.get(&s("t")).unwrap();
    assert_eq!(st.rtc_score_count, 0);
    assert!(st.responses.is_empty());
}

#[test]
fn scores_accumulate_per_generator() {
    let mut t = table_with("t");
    assert_eq!(t.record_score(&s("L"), score_payload("L", "t", "e1", "first", "v1", "0.50")), Ok(RecordOutcome::Recorded));
    assert_eq!(t.record_score(&s("L"), score_payload("L", "t", "e2", "other", "v1", "0.30")), Ok(RecordOutcome::Recorded));
    assert_eq!(t.record_score(&s("L"), score_payload("L", "t", "e1", "second", "v2", "0.70")), Ok(RecordOutcome::Recorded));
    let st = t.get(&s("t")).unwrap();
    assert_eq!(st.rtc_score_count, 3);
    assert_eq!(st.responses.len(), 2);
    assert_eq!(st.responses[0].generator, "e1");
    assert_eq!(st.responses[0].response, "first");
    assert_eq!(st.responses[0].scores, strings(&["0.50", "0.70"]));
    assert_eq!(st.responses[0].scorers, strings(&["v1", "v2"]));
    assert_eq!(st.responses[1].generator, "e2");
    assert_eq!(st.responses[1].scores, strings(&["0.30"]));
}

#[test]
fn only_the_leader_records() {
    let mut t = table_with("t");
    assert_eq!(t.record_score(&s("someone"), score_payload("L", "t", "e1", "r", "v1", "0.5")), Ok(RecordOutcome::NotLeader));
    assert_eq!(t.get(&s("t")).unwrap().rtc_score_count, 0);
}

#[test]
fn record_errors() {
    let mut t = table_with("t");
    let mut p = score_payload("L", "t", "e1", "r", "v1", "0.5");
    p.generator = None;
    assert_eq!(t.record_score(&s("L"), p), Err(RecordError::MissingGenerator));
    let mut p = score_payload("L", "t", "e1", "r", "v1", "0.5");
    p.verify_score = None;
    assert_eq!(t.record_score(&s("L"), p), Err(RecordError::MissingScore));
    let p = score_payload("L", "t", "e1", "r", "v1", "high");
    assert_eq!(t.record_score(&s("L"), p), Err(RecordError::UnreadableScore));
    let mut p = score_payload("L", "t", "e1", "r", "v1", "0.5");
    p.res = None;
    assert_eq!(t.record_score(&s("L"), p), Err(RecordError::MissingResponse));
    let p = score_payload("L", "nope", "e1", "r", "v1", "0.5");
    assert_eq!(t.record_score(&s("L"), p), Err(RecordError::UnknownTask));
    let st = t.get(&s("t")).unwrap();
    assert_eq!(st.rtc_score_count, 0);
    assert!(st.responses.is_empty());
}

#[test]
fn winner_has_highest_average() {
    let mut t = table_with("t");
    for (g, v, sc) in [("e1", "v1", "0.5"), ("e2", "v1", "0.9"), ("e1", "v2", "0.7"), ("e2", "v2", "0.6")] {
        t.record_score(&s("L"), score_payload("L", "t", g, &format!("answer of {}", g), v, sc)).unwrap();
    }
    let w = select(&mut t, "t").unwrap();
    assert_eq!(w.generator, "e2");
    assert_eq!(w.response, "answer of e2");
    assert_eq!(w.prompt, "the prompt");
    assert_eq!(w.scores, strings(&["0.9", "0.6"]));
}

#[test]
fn ties_go_to_the_first_response() {
    let mut t = table_with("t");
    t.record_score(&s("L"), score_payload("L", "t", "e1", "a", "v1", "0.5")).unwrap();
    t.record_score(&s("L"), score_payload("L", "t", "e2", "b", "v1", "0.25")).unwrap();
    t.record_score(&s("L"), score_payload("L", "t", "e2", "b", "v2", "0.75")).unwrap();
    let w = select(&mut t, "t").unwrap();
    assert_eq!(w.generator, "e1");
}

#[test]
fn zero_scores_still_win() {
    let mut t = table_with("t");
    t.record_score(&s("L"), score_payload("L", "t", "e1", "a", "v", "0.00")).unwrap();
    let w = select(&mut t, "t").unwrap();
    assert_eq!(w.generator, "e1");
    assert_eq!(w.scores, strings(&["0.00"]));
}

#[test]
fn no_winner_without_scores_above_minus_one() {
    let mut t = table_with("t");
    assert!(select(&mut t, "t").is_none());
    assert!(t.get(&s("t")).unwrap().winner.is_none());
    let mut t = table_with("t");
    t.record_score(&s("L"), score_payload("L", "t", "e1", "a", "v1", "-1")).unwrap();
    t.record_score(&s("L"), score_payload("L", "t", "e2", "b", "v1", "-3.5")).unwrap();
    assert!(select(&mut t, "t").is_none());
    assert!(t.get(&s("t")).unwrap().winner.is_none());
    t.record_score(&s("L"), score_payload("L", "t", "e2", "b", "v2", "5")).unwrap();
    assert_eq!(select(&mut t, "t").unwrap().generator, "e2");
}

#[test]
fn scores_complete_counts_every_pair() {
    let mut t = table_with("t");
    assert!(!t.scores_complete(&s("t")));
    for (g, v) in [("e1", "v1"), ("e1", "v2"), ("e2", "v1")] {
        t.record_score(&s("L"), score_payload("L", "t", g, "r", v, "0.1")).unwrap();
        assert!(!t.scores_complete(&s("t")));
    }
    t.record_score(&s("L"), score_payload("L", "t", "e2", "r", "v2", "0.1")).unwrap();
    assert!(t.scores_complete(&s("t")));
    let mut empty = SessionTable::new();
    empty.open(s("x"));
    assert!(empty.scores_complete(&s("x")));
}

#[test]
fn a_repeated_score_is_recorded_once() {
    let mut t = table_with("t");
    let p = || score_payload("L", "t", "e1", "r", "v1", "0.5");
    assert_eq!(t.record_score(&s("L"), p()), Ok(RecordOutcome::Recorded));
    assert_eq!(t.record_score(&s("L"), p()), Ok(RecordOutcome::Duplicate));
    let st = t.get(&s("t")).unwrap();
    assert_eq!(st.rtc_score_count, 1);
    assert_eq!(st.responses[0].scores, strings(&["0.5"]));
    // The same verifier may still score another executor.
    assert_eq!(t.record_score(&s("L"), score_payload("L", "t", "e2", "r2", "v1", "0.5")), Ok(RecordOutcome::Recorded));
    assert_eq!(t.get(&s("t")).unwrap().rtc_score_count, 2);
}

#[test]
fn the_winner_is_stored_in_the_session() {
    let mut t = table_with("t");
    t.record_score(&s("L"), score_payload("L", "t", "e1", "a", "v1", "0.4")).unwrap();
    t.record_score(&s("L"), score_payload("L", "t", "e2", "b", "v1", "0.8")).unwrap();
    assert!(t.get(&s("t")).unwrap().winner.is_none());
    let w = select(&mut t, "t").unwrap();
    let stored = t.get(&s("t")).unwrap().winner.as_ref().unwrap();
    assert_eq!(stored.generator, w.generator);
    assert_eq!(stored.generator, "e2");
    assert_eq!(stored.response, "b");
    assert_eq!(stored.prompt, "the prompt");
    assert_eq!(stored.scores, strings(&["0.8"]));
    assert_eq!(t.get(&s("t")).unwrap().rtc_score_count, 2);
}

#[test]
fn every_f32_score_is_recorded() {
    let mut t = table_with("t");
    let all = ["1e10", "inf", "-Infinity", "NaN", "1e-2", "3.4e39"];
    for (k, sc) in all.iter().enumerate() {
        let v = format!("v{}", k);
        assert_eq!(t.record_score(&s("L"), score_payload("L", "t", "e1", "r", &v, sc)), Ok(RecordOutcome::Recorded), "{}", sc);
    }
    let st = t.get(&s("t")).unwrap();
    assert_eq!(st.rtc_score_count, 6);
    assert_eq!(st.responses[0].scores, strings(&all));
}

#[test]
fn nan_and_infinite_averages() {
    let mut t = table_with("t");
    t.record_score(&s("L"), score_payload("L", "t", "e1", "a", "v1", "NaN")).unwrap();
    assert!(select(&mut t, "t").is_none());
    t.record_score(&s("L"), score_payload("L", "t", "e2", "b", "v1", "0.3")).unwrap();
    assert_eq!(select(&mut t, "t").unwrap().generator, "e2");
    t.record_score(&s("L"), score_payload("L", "t", "e3", "c", "v1", "inf")).unwrap();
    assert_eq!(select(&mut t, "t").unwrap().generator, "e3");
}
