use hs_loop::mission::{child_status, lost_update, restored_costs, ChildStatus};
use hs_loop::json::{Json, JsonNumber};
use hs_loop::mission::{
    check_mission_id, convergence_note, duplicate_note, gate_tool, next_verifier_round, plan_tool, read_verdict,
    red_feedback, spawn_preflight, step_tail, stop_decision, DoomNudges, Interventions, StepTail, ToolGate,
    VerifierVerdict,
};

fn obj(members: Vec<(&str, Json)>) -> Json {
    Json::Object(members.into_iter().map(|(k, v)| (k.to_string(), v)).collect())
}

fn s(t: &str) -> Json {
    Json::Str(t.to_string())
}

#[test]
fn mission_ids_must_be_one_safe_component() {
    assert_eq!(check_mission_id("task-1"), Ok(()));
    assert_eq!(
        check_mission_id("a/b"),
        Err("mission id must be a single safe path component, got \"a/b\"".to_string())
    );
    assert!(check_mission_id("..").is_err());
    assert!(check_mission_id(".").is_err());
    assert!(check_mission_id("").is_err());
    assert!(check_mission_id("a\\b").is_err());
}

#[test]
fn convergence_pressure_at_half_and_three_quarters() {
    let n = convergence_note(25, 50, true, false).unwrap();
    assert_eq!(n, "CONVERGENCE: step 25 of 50 and you have not run a test or check yourself. Verify your current hypothesis NOW: run a test, a build, or the checker before your next edit.");
    assert!(convergence_note(38, 50, true, false).is_some());
    assert!(convergence_note(26, 50, true, false).is_none());
    assert!(convergence_note(25, 50, false, false).is_none());
    assert!(convergence_note(25, 50, true, true).is_none());
    assert!(convergence_note(3, 5, true, false).is_some());
    assert!(convergence_note(4, 5, true, false).is_some());
}

#[test]
fn the_volatile_tail_reads_in_order() {
    let t = StepTail {
        step: 2,
        max_steps: 10,
        wall: Some((100, 30)),
        spend: Some(("0.12".to_string(), "1.00".to_string())),
        feedback_injection: true,
        feedback: vec!["bad".to_string()],
        delegation: vec![],
        steering: vec!["go".to_string()],
        answer_path: "/a".to_string(),
        artifact: String::new(),
        convergence: None,
        ledger_summary: Some("L\n".to_string()),
    };
    let (text, injected) = step_tail(&t);
    assert!(injected);
    assert_eq!(
        text,
        "ATTEMPT: step 2 of 10, T-minus 70s, $0.12 of $1.00 spentFEEDBACK:\n- bad\nSTEERING (operator, mid-mission; overrides earlier plans where they conflict):\n- go\n\nANSWER_PATH: /a\nARTIFACT (the graded answer file on disk - updated ONLY by answer.submit; NOT live candidate state):\n<none>\nLEDGER (your work so far, always current):\nL\n"
    );
    let quiet = StepTail { wall: Some((10, 30)), spend: None, feedback_injection: false, ledger_summary: None, ..t };
    let (text, injected) = step_tail(&quiet);
    assert!(!injected);
    assert!(text.starts_with("ATTEMPT: step 2 of 10, T-minus 0sSTEERING"));
}

#[test]
fn untested_submissions_wait_for_a_check() {
    let no_dead: Vec<String> = vec![];
    let refuse = |g: ToolGate| match g {
        ToolGate::Refuse(m) => m,
        ToolGate::Dispatch => panic!("dispatched"),
    };
    let m = refuse(gate_tool(&Some("answer.submit".to_string()), &no_dead, false, 3, 10, true));
    assert!(m.starts_with("answer.submit REJECTED: no verification run yet."));
    assert!(m.ends_with("Steps remaining: 7"));
    assert!(matches!(gate_tool(&Some("answer.submit".to_string()), &no_dead, false, 10, 10, true), ToolGate::Dispatch));
    assert!(matches!(gate_tool(&Some("answer.submit".to_string()), &no_dead, true, 3, 10, true), ToolGate::Dispatch));
    assert!(matches!(gate_tool(&Some("answer.write".to_string()), &no_dead, false, 3, 10, false), ToolGate::Dispatch));
    let m = refuse(gate_tool(&None, &no_dead, false, 1, 10, true));
    assert!(m.starts_with("your reply carried no tool call"));
    let dead = vec!["repo.read".to_string()];
    let m = refuse(gate_tool(&Some("repo.read".to_string()), &dead, false, 1, 10, true));
    assert_eq!(m, "tool repo.read is dead for the rest of this mission - pick another tool (the answer path, edit.patch/answer.submit, is intact)");
}

#[test]
fn the_plan_names_its_tool() {
    let plan = Some(obj(vec![("args", obj(vec![])), ("tool", s("repo.exec"))]));
    assert_eq!(plan_tool(&plan), Some("repo.exec".to_string()));
    assert_eq!(plan_tool(&Some(obj(vec![("tool", Json::Null)]))), None);
    assert_eq!(plan_tool(&None), None);
}

#[test]
fn spawn_needs_its_outcome_poll() {
    assert_eq!(spawn_preflight("agent.spawn", true, true), None);
    assert!(spawn_preflight("agent.spawn", false, true).unwrap().contains("registered but its subjects exclude the operator subject"));
    assert!(spawn_preflight("agent.spawn", false, false).unwrap().contains("requires agent.spawn_poll registered"));
    assert_eq!(
        duplicate_note("repo.read", 12),
        "duplicate call: identical repo.read args already served at seq 12 - that result is in your transcript/ledger; do not re-run it"
    );
}

#[test]
fn doom_nudges_refire_only_on_growth() {
    let mut d = DoomNudges::new();
    let first = d.nudge("repo.exec", 3, false).unwrap();
    assert!(first.starts_with("DOOM LOOP: repo.exec with effectively the same args 3 times in the last 8 calls - repeating it is not working. STOP"));
    assert_eq!(d.nudge("repo.exec", 4, false), None);
    let again = d.nudge("repo.exec", 5, true).unwrap();
    assert!(again.contains("The verifier REFUTED your last submission"));
    assert!(d.nudge("repo.read", 3, false).is_some());
    assert_eq!(d.nudge("repo.exec", 6, false), None);
}

#[test]
fn interventions_detections_and_repairs() {
    let mut b = Interventions::new();
    b.on_checker(false, "declared checks failed: test_x");
    b.on_checker(false, "timeout");
    b.on_checker(true, "");
    b.on_checker(false, "critic refuted the submission: nope");
    assert_eq!((b.interventions, b.detections, b.repairs), (3, 2, 0));
    b.on_refutation();
    b.on_pass();
    assert_eq!((b.interventions, b.detections, b.repairs), (4, 3, 1));
    let mut clean = Interventions::new();
    clean.on_pass();
    assert_eq!(clean.repairs, 0);
}

#[test]
fn the_checker_and_the_goal_decide_the_stop() {
    assert_eq!(stop_decision(true, Some(false)), (true, true));
    assert_eq!(stop_decision(false, Some(true)), (true, false));
    assert_eq!(stop_decision(false, None), (false, false));
    assert_eq!(stop_decision(true, None), (true, false));
    assert_eq!(red_feedback(false, "3 tests failed"), "3 tests failed");
    assert!(red_feedback(true, "").starts_with("checker reported pass but the GOAL EVALUATOR is red"));
}

#[test]
fn verifier_replies_are_read_strictly() {
    let refuted = obj(vec![
        (
            "args",
            obj(vec![
                ("blocking", s("high")),
                (
                    "findings",
                    Json::Array(vec![obj(vec![("detail", s("a"))]), obj(vec![("x", Json::Null)]), obj(vec![("detail", s("b"))])]),
                ),
                ("refuted", Json::Bool(true)),
            ]),
        ),
        ("tool", s("verdict.submit")),
    ]);
    match read_verdict(&Some(refuted)) {
        VerifierVerdict::Refuted { findings, blocking, feedback } => {
            assert_eq!(findings, vec!["a".to_string(), "b".to_string()]);
            assert_eq!(blocking, "high");
            assert_eq!(feedback, "VERIFIER REFUTED (blocking=high): a; b");
        }
        _ => panic!("not refuted"),
    }
    let cleared = obj(vec![("args", obj(vec![("refuted", Json::Bool(false))])), ("tool", s("verdict.submit"))]);
    assert!(matches!(read_verdict(&Some(cleared)), VerifierVerdict::Cleared));
    match read_verdict(&Some(obj(vec![("tool", s("other"))]))) {
        VerifierVerdict::Malfunction(d) => assert_eq!(d, "verdict was not a verdict.submit tool call (prose/wrong-tool reply)"),
        _ => panic!(),
    }
    match read_verdict(&Some(obj(vec![("args", obj(vec![])), ("tool", s("verdict.submit"))]))) {
        VerifierVerdict::Malfunction(d) => assert_eq!(d, "verdict JSON missing the refuted field"),
        _ => panic!(),
    }
    assert!(matches!(read_verdict(&None), VerifierVerdict::Malfunction(_)));
    match read_verdict(&Some(obj(vec![("args", obj(vec![("refuted", Json::Bool(true))])), ("tool", s("verdict.submit"))]))) {
        VerifierVerdict::Refuted { findings, blocking, feedback } => {
            assert!(findings.is_empty());
            assert_eq!(blocking, "none");
            assert_eq!(feedback, "VERIFIER REFUTED (blocking=none): ");
        }
        _ => panic!(),
    }
}

#[test]
fn verifier_rounds_are_capped_at_three() {
    assert_eq!(next_verifier_round(0), Some(1));
    assert_eq!(next_verifier_round(2), Some(3));
    assert_eq!(next_verifier_round(3), None);
}

fn poll(status: &str, extra: Vec<(&str, Json)>) -> Json {
    let mut m: Vec<(String, Json)> = extra.into_iter().map(|(k, v)| (k.to_string(), v)).collect();
    m.push(("status".to_string(), Json::Str(status.to_string())));
    m.sort_by(|a, b| a.0.cmp(&b.0));
    Json::Object(m)
}

#[test]
fn child_polls_fold_finished_children() {
    assert_eq!(child_status(None), ChildStatus::Running);
    assert_eq!(child_status(Some(&poll("running", vec![]))), ChildStatus::Running);
    let done = poll(
        "done",
        vec![
            ("passed", Json::Bool(true)),
            ("steps", Json::Number(JsonNumber::PosInt(9))),
            ("cost_usd_micros", Json::Number(JsonNumber::PosInt(12_500))),
        ],
    );
    assert_eq!(
        child_status(Some(&done)),
        ChildStatus::Done { passed: true, cost_add: 12_500, steps: 9, reported_cost: 12_500 }
    );
    let refund = poll("done", vec![("cost_usd_micros", Json::Number(JsonNumber::NegInt(-5)))]);
    assert_eq!(
        child_status(Some(&refund)),
        ChildStatus::Done { passed: false, cost_add: 0, steps: 0, reported_cost: -5 }
    );
    assert_eq!(
        child_status(Some(&poll("lost", vec![]))),
        ChildStatus::Lost { reason: "stale registry marker".to_string() }
    );
    assert_eq!(
        child_status(Some(&poll("lost", vec![("reason", Json::Str("plugin exited".to_string()))]))),
        ChildStatus::Lost { reason: "plugin exited".to_string() }
    );
}

#[test]
fn lost_child_update_names_the_child() {
    assert_eq!(
        lost_update("0123456789abcdef", "fix parser", "plugin exited"),
        "child 01234567 (\"fix parser\") LOST - its plugin process died mid-run (plugin exited); re-delegate if the work still matters"
    );
    assert_eq!(
        lost_update("abc", "m", "r"),
        "child abc (\"m\") LOST - its plugin process died mid-run (r); re-delegate if the work still matters"
    );
}

fn priced(cost: i64, conservative: Option<i64>) -> Json {
    let n = |v: i64| if v < 0 { Json::Number(JsonNumber::NegInt(v)) } else { Json::Number(JsonNumber::PosInt(v as u64)) };
    let mut m = vec![];
    if let Some(c) = conservative {
        m.push(("conservative_cost_usd_micros".to_string(), n(c)));
    }
    m.push(("cost_usd_micros".to_string(), n(cost)));
    Json::Object(m)
}

#[test]
fn resumed_streams_keep_what_they_spent() {
    assert_eq!(restored_costs(&vec![]), (0, 0));
    let ps = vec![Some(priced(1_000, Some(1_500))), None, Some(priced(-40, None)), Some(priced(250, Some(300)))];
    assert_eq!(restored_costs(&ps), (1_250, 1_800));
    let huge = vec![Some(priced(i64::MAX, None)), Some(priced(i64::MAX, None)), Some(priced(i64::MAX, None))];
    assert_eq!(restored_costs(&huge).0, u64::MAX);
}
