use hs_loop::critic::{critic_reply_from, gate_brief, gate_verdict, no_anchor_row, no_model_row, phase_one_green};
use hs_loop::json::{Json, JsonNumber};
use hs_loop::critic::{
    opening_prompt, parse_verdict, probe_result_text, verdict_from_fields, CriticReply, RefuteConfig,
    RefuteGate, RefuteState, RefuteStep, ScriptedCritic,
};

fn finish(step: RefuteStep) -> (bool, String) {
    match step {
        RefuteStep::Finish { passed, reason } => (passed, reason),
        _ => panic!("expected a finish"),
    }
}

#[test]
fn verdict_parse_tolerates_prose() {
    assert_eq!(
        parse_verdict("sure: {\"refuted\": false, \"reason\": \"ran tests\"} done"),
        Some((false, "ran tests".to_string()))
    );
    assert_eq!(parse_verdict("{\"refuted\": true}"), Some((true, String::new())));
    assert_eq!(parse_verdict("{\"reason\": \"no flag\"}"), None);
    assert_eq!(parse_verdict("{\"refuted\": \"yes\"}"), None);
    assert_eq!(parse_verdict("no json here"), None);
    assert_eq!(parse_verdict("} backwards {"), None);
    assert_eq!(parse_verdict("{not json}"), None);
}

#[test]
fn verdict_fields_default_the_reason() {
    assert_eq!(verdict_from_fields(Some(true), None), Some((true, String::new())));
    assert_eq!(verdict_from_fields(None, Some("x".to_string())), None);
}

#[test]
fn default_caps() {
    let c = RefuteConfig::default();
    assert_eq!((c.max_steps, c.wall_secs, c.budget_micros, c.cmd_timeout_secs), (48, 1800, 1_000_000, 120));
}

#[test]
fn caps_stop_the_loop_fail_closed() {
    let cfg = RefuteConfig::default();
    let mut st = RefuteState { steps: 48, probes: 0, verdict_retried: false };
    match st.gate(&cfg, 0, 0, "1.00") {
        RefuteGate::Stop(r) => assert_eq!(r, "critic hit its step cap (48) without a verdict - fail-closed"),
        _ => panic!("expected stop"),
    }
    let mut st = RefuteState::new();
    match st.gate(&cfg, 1800, 0, "1.00") {
        RefuteGate::Stop(r) => assert_eq!(r, "critic hit its wall cap (1800s) without a verdict - fail-closed"),
        _ => panic!("expected stop"),
    }
    match st.gate(&cfg, 5, 1_000_000, "1.00") {
        RefuteGate::Stop(r) => assert_eq!(r, "critic hit its budget cap ($1.00) without a verdict - fail-closed"),
        _ => panic!("expected stop"),
    }
    assert_eq!(st.steps, 0);
}

#[test]
fn last_two_calls_are_final_only() {
    let cfg = RefuteConfig::default();
    let mut st = RefuteState::new();
    assert!(matches!(st.gate(&cfg, 0, 0, "1.00"), RefuteGate::Call { final_only: false }));
    assert_eq!(st.steps, 1);
    let mut st = RefuteState { steps: 46, probes: 3, verdict_retried: false };
    assert!(matches!(st.gate(&cfg, 0, 0, "1.00"), RefuteGate::Call { final_only: true }));
    assert_eq!(st.steps, 47);
}

#[test]
fn a_pass_needs_a_probe_and_a_clean_verdict() {
    let cfg = RefuteConfig::default();
    let clean = Ok(CriticReply::Final("{\"refuted\": false, \"reason\": \"re-derived\"}".to_string()));
    let mut st = RefuteState { steps: 1, probes: 0, verdict_retried: false };
    assert_eq!(
        finish(st.on_reply(&cfg, false, &clean)),
        (false, "critic returned a clean verdict without a single machine probe - fail-closed".to_string())
    );
    let probes = Ok(CriticReply::ToolCalls(vec![("c1".to_string(), "ls".to_string()), ("c2".to_string(), "pwd".to_string())]));
    assert!(matches!(st.on_reply(&cfg, false, &probes), RefuteStep::RunProbes));
    assert_eq!(st.probes, 2);
    assert_eq!(finish(st.on_reply(&cfg, false, &clean)), (true, "re-derived".to_string()));
    let refuted = Ok(CriticReply::Final("{\"refuted\": true, \"reason\": \"file missing\"}".to_string()));
    assert_eq!(
        finish(st.on_reply(&cfg, false, &refuted)),
        (false, "critic refuted the submission: file missing".to_string())
    );
}

#[test]
fn model_errors_and_bad_verdicts_fail_closed() {
    let cfg = RefuteConfig::default();
    let mut st = RefuteState { steps: 1, probes: 1, verdict_retried: false };
    assert_eq!(
        finish(st.on_reply(&cfg, false, &Err("timeout".to_string()))),
        (false, "critic model error: timeout - fail-closed".to_string())
    );
    let junk = Ok(CriticReply::Final("maybe".to_string()));
    assert!(matches!(st.on_reply(&cfg, false, &junk), RefuteStep::RetryVerdict));
    assert!(st.verdict_retried);
    assert_eq!(
        finish(st.on_reply(&cfg, false, &junk)),
        (false, "critic verdict unparseable after retry - fail-closed".to_string())
    );
}

#[test]
fn tool_calls_after_the_final_demand_are_not_run() {
    let cfg = RefuteConfig::default();
    let calls = Ok(CriticReply::ToolCalls(vec![("c1".to_string(), "ls".to_string())]));
    let mut st = RefuteState { steps: 47, probes: 1, verdict_retried: false };
    assert!(matches!(st.on_reply(&cfg, true, &calls), RefuteStep::RejectTools));
    assert_eq!(st.probes, 1);
    let mut st = RefuteState { steps: 48, probes: 1, verdict_retried: false };
    assert_eq!(
        finish(st.on_reply(&cfg, true, &calls)),
        (false, "critic hit its step cap after ignoring the required final verdict twice - fail-closed".to_string())
    );
}

#[test]
fn scripted_critic_replays_its_script() {
    let mut c = ScriptedCritic::from_script("tool:ls -la|refute:bad \"output\"|bogus|clean");
    match c.step(&vec![]) {
        Ok(CriticReply::ToolCalls(calls)) => assert_eq!(calls, vec![("c1".to_string(), "ls -la".to_string())]),
        other => panic!("unexpected {other:?}"),
    }
    match c.step(&vec!["exit 0".to_string()]) {
        Ok(CriticReply::Final(t)) => assert_eq!(t, "{\"reason\":\"bad \\\"output\\\"\",\"refuted\":true}"),
        other => panic!("unexpected {other:?}"),
    }
    match c.step(&vec!["exit 0".to_string(), "exit 1".to_string()]) {
        Ok(CriticReply::Final(t)) => assert_eq!(t, "{\"reason\":\"scripted clean\",\"refuted\":false}"),
        other => panic!("unexpected {other:?}"),
    }
    match c.step(&vec![]) {
        Ok(CriticReply::Final(t)) => assert_eq!(t, "script exhausted without a verdict"),
        other => panic!("unexpected {other:?}"),
    }
    assert_eq!(c.seen_tool_results(), &vec!["exit 0".to_string(), "exit 1".to_string()]);
}

#[test]
fn failing_critic_always_errs() {
    let mut c = ScriptedCritic::failing("down");
    assert_eq!(c.step(&vec!["r".to_string()]).unwrap_err(), "down");
    assert_eq!(c.seen_tool_results(), &vec!["r".to_string()]);
    let mut n = ScriptedCritic::new(vec![CriticReply::Final("x".to_string())]);
    assert!(matches!(n.step(&vec![]), Ok(CriticReply::Final(t)) if t == "x"));
}

#[test]
fn probe_results_and_prompt() {
    assert_eq!(probe_result_text(Some(0), "out", "err"), "exit 0\nstdout:\nout\nstderr:\nerr");
    assert_eq!(probe_result_text(None, "", ""), "exit ?\nstdout:\n\nstderr:\n");
    let long = "x".repeat(7000);
    let t = probe_result_text(Some(-1), &long, "");
    assert_eq!(t.len(), 6000);
    assert!(t.ends_with("x\nstderr:\n"));
    assert_eq!(
        opening_prompt("do it", "check 1", "/w"),
        "TASK INSTRUCTION (verbatim):\ndo it\n\nTHE SUBMISSION UNDER REVIEW declares these checks (already green):\ncheck 1\n\nWorkdir: /w. Refute the submission or clear it."
    );
}

#[test]
fn critic_brief_anchors_to_the_instruction() {
    assert_eq!(gate_brief(Some("fix it"), Some("local"), None), Some("fix it".to_string()));
    assert_eq!(gate_brief(Some("  \n"), Some("local"), None), Some("local".to_string()));
    assert_eq!(gate_brief(None, None, Some("done")), None);
    assert_eq!(gate_brief(None, Some(" "), None), None);
    assert_eq!(
        gate_brief(None, Some("task"), Some("I fixed it")),
        Some("task\n\nAUTHOR'S SUBMISSION SUMMARY:\nI fixed it".to_string())
    );
    assert_eq!(gate_brief(Some("task"), None, Some("   ")), Some("task".to_string()));
}

#[test]
fn gate_rows_fail_closed() {
    let text_of = |j: &Json, i: usize| match j {
        Json::Object(m) => match &m[i].1 {
            Json::Str(s) => s.clone(),
            _ => panic!("not text"),
        },
        _ => panic!("not an object"),
    };
    assert!(text_of(&no_anchor_row(), 0).starts_with("critic gate: no instruction anchor"));
    assert_eq!(text_of(&no_model_row("no key"), 0), "critic gate: no critic model available: no key - fail-closed");
    let refused = gate_verdict(false, 3, 10, "reproduced failure");
    assert_eq!(text_of(&refused, 0), "independent critic: reproduced failure");
    match gate_verdict(true, 4, 250, "re-derived") {
        Json::Object(m) => {
            assert_eq!(m.iter().map(|(k, _)| k.as_str()).collect::<Vec<_>>(), vec!["critic", "error", "passed"]);
            assert!(matches!(m[2].1, Json::Bool(true)));
            match &m[0].1 {
                Json::Object(c) => {
                    assert!(matches!(c[0].1, Json::Number(JsonNumber::PosInt(250))));
                    assert!(matches!(c[2].1, Json::Number(JsonNumber::PosInt(4))));
                }
                _ => panic!("no critic block"),
            }
        }
        _ => panic!("not an object"),
    }
    let green = Json::Object(vec![("passed".to_string(), Json::Bool(true))]);
    let red = Json::Object(vec![("passed".to_string(), Json::Bool(false))]);
    assert!(phase_one_green(&green));
    assert!(!phase_one_green(&red));
    assert!(!phase_one_green(&Json::Null));
}

fn jstr(s: &str) -> Json {
    Json::Str(s.to_string())
}

fn tool_call(id: Option<&str>, name: &str, args: Option<&str>) -> Json {
    let mut f = vec![];
    if let Some(a) = args {
        f.push(("arguments".to_string(), jstr(a)));
    }
    f.push(("name".to_string(), jstr(name)));
    let mut m = vec![("function".to_string(), Json::Object(f))];
    if let Some(i) = id {
        m.push(("id".to_string(), jstr(i)));
    }
    Json::Object(m)
}

fn message(calls: Vec<Json>, content: Option<&str>) -> Json {
    let mut m = vec![];
    if let Some(c) = content {
        m.push(("content".to_string(), jstr(c)));
    }
    m.push(("tool_calls".to_string(), Json::Array(calls)));
    Json::Object(m)
}

#[test]
fn provider_tool_calls_become_probes() {
    let msg = message(
        vec![
            tool_call(Some("a1"), "term_exec", Some("{\"command\":\"ls -la\"}")),
            tool_call(None, "term_exec", Some("{\"command\":\"cat x\"}")),
        ],
        None,
    );
    match critic_reply_from("glm", &msg).unwrap() {
        CriticReply::ToolCalls(cs) => {
            assert_eq!(cs, vec![("a1".to_string(), "ls -la".to_string()), ("c0".to_string(), "cat x".to_string())]);
        }
        _ => panic!("expected tool calls"),
    }
}

#[test]
fn provider_content_is_the_final_verdict() {
    let msg = message(vec![], Some("{\"refuted\": false}"));
    match critic_reply_from("glm", &msg).unwrap() {
        CriticReply::Final(t) => assert_eq!(t, "{\"refuted\": false}"),
        _ => panic!("expected a final reply"),
    }
    let empty = Json::Object(vec![]);
    assert_eq!(
        critic_reply_from("glm", &empty).err().unwrap(),
        "glm critic: completion carried neither tool calls nor content"
    );
}

#[test]
fn provider_replies_are_refused_on_bad_calls() {
    let other = message(vec![tool_call(Some("x"), "rm_rf", Some("{}"))], None);
    assert_eq!(critic_reply_from("ds", &other).err().unwrap(), "ds critic: unknown tool \"rm_rf\"");
    let bad = message(vec![tool_call(Some("x"), "term_exec", Some("{not json"))], None);
    assert!(critic_reply_from("ds", &bad).err().unwrap().starts_with("ds critic: bad tool arguments: "));
    let missing = message(vec![tool_call(Some("x"), "term_exec", None)], None);
    assert_eq!(critic_reply_from("ds", &missing).err().unwrap(), "ds critic: tool call missing command");
    // the first refusal wins, even after good calls
    let mixed = message(
        vec![tool_call(Some("a"), "term_exec", Some("{\"command\":\"ls\"}")), tool_call(Some("b"), "nope", None)],
        None,
    );
    assert_eq!(critic_reply_from("ds", &mixed).err().unwrap(), "ds critic: unknown tool \"nope\"");
}

/// Drive the step functions as the loop does over scripted replies.
fn run_replies(cfg: &RefuteConfig, replies: Vec<Result<CriticReply, String>>) -> (bool, String, u32) {
    let mut st = RefuteState::new();
    let mut it = replies.into_iter();
    loop {
        let final_only = match st.gate(cfg, 0, 0, "1.00") {
            RefuteGate::Stop(r) => return (false, r, st.steps),
            RefuteGate::Call { final_only } => final_only,
        };
        let reply = it.next().unwrap_or(Err("script ended".to_string()));
        if let RefuteStep::Finish { passed, reason } = st.on_reply(cfg, final_only, &reply) {
            return (passed, reason, st.steps);
        }
    }
}

#[test]
fn a_whole_refutation_passes_only_after_a_probe_and_within_its_cap() {
    let cfg = RefuteConfig { max_steps: 4, wall_secs: 60, budget_micros: 10, cmd_timeout_secs: 5 };
    let probe = || Ok(CriticReply::ToolCalls(vec![("c".to_string(), "ls".to_string())]));
    let clean = || Ok(CriticReply::Final("{\"refuted\": false, \"reason\": \"ok\"}".to_string()));
    assert_eq!(run_replies(&cfg, vec![probe(), clean()]), (true, "ok".to_string(), 2));
    let (passed, _, steps) = run_replies(&cfg, vec![clean()]);
    assert!(!passed && steps == 1);
    // probing forever: the final-only calls reject tools, then the cap stops it
    let (passed, reason, steps) = run_replies(&cfg, vec![probe(), probe(), probe(), probe(), probe()]);
    assert!(!passed);
    assert!(steps <= 4);
    assert_eq!(reason, "critic hit its step cap after ignoring the required final verdict twice - fail-closed");
}
