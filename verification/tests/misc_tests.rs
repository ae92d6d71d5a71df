use hs_loop::evolve::{evaluation_runs, Template};
use hs_loop::cli::{arg, artifact_on_disk, extract_answer_path, has_flag, operator_channels, parse_opts, resume_arg};
use hs_loop::evolve::{fitness, promotion_decision, BenchOutcome, Decision};
use hs_loop::ledger::Ledger;
use hs_loop::meta_harness::{
    candidate_root, next_iteration, safe_source_path, trial_root, validate_proposal, CandidateProposal, MetaHarness,
    SearchConfig,
};
use hs_loop::{artifact_section, build_verifier_prompt, default_budget_for_model};

fn args(v: &[&str]) -> Vec<String> {
    v.iter().map(|s| s.to_string()).collect()
}

#[test]
fn arg_and_flags() {
    let a = args(&["--max-steps", "12", "--feedback", "on", "--verbose"]);
    assert_eq!(arg(&a, "--max-steps"), Some("12".to_string()));
    assert_eq!(arg(&a, "--verbose"), None);
    assert_eq!(arg(&a, "--missing"), None);
    assert!(has_flag(&a, "--verbose"));
    assert!(!has_flag(&a, "--quiet"));
}

#[test]
fn resume_picker_and_id() {
    assert_eq!(resume_arg(&args(&["--resume"])), Some(String::new()));
    assert_eq!(resume_arg(&args(&["--resume", "--fork", "x"])), Some(String::new()));
    assert_eq!(resume_arg(&args(&["--resume", "abc"])), Some("abc".to_string()));
    assert_eq!(resume_arg(&args(&["--fork", "abc"])), None);
}

#[test]
fn parse_opts_reads_every_flag() {
    let a = args(&[
        "--feedback", "on", "--max-steps", "7", "--budget-micros", "500", "--wall-secs", "60",
        "--project-dir", "/p", "--resume", "s1",
    ]);
    let o = parse_opts(&a, "cfg.toml".to_string(), "/d".to_string()).unwrap();
    assert_eq!(o.config, "cfg.toml");
    assert_eq!(o.dir, "/d");
    assert!(o.feedback);
    assert_eq!(o.max_steps, Some(7));
    assert_eq!(o.budget_micros, Some(500));
    assert_eq!(o.wall_secs, Some(60));
    assert_eq!(o.project_dir, Some("/p".to_string()));
    assert_eq!(o.resume, Some("s1".to_string()));
    assert_eq!(o.fork, None);
    assert_eq!(o.task_inbox, None);
}

#[test]
fn parse_opts_rejects_bad_numbers() {
    let e = parse_opts(&args(&["--max-steps", "x"]), String::new(), String::new()).err();
    assert_eq!(e, Some("--max-steps must be an integer".to_string()));
    let e = parse_opts(&args(&["--wall-secs", "-1"]), String::new(), String::new()).err();
    assert_eq!(e, Some("--wall-secs must be an integer".to_string()));
    let o = parse_opts(&args(&["--feedback", "off"]), String::new(), String::new()).unwrap();
    assert!(!o.feedback);
    assert_eq!(o.max_steps, None);
}

#[test]
fn answer_path_and_artifact_reads() {
    let p = "do it\nANSWER_PATH: /tmp/a.txt  \nARTIFACT (the graded answer file on disk - updated ONLY by answer.submit; NOT live candidate state):\n<none>\nLEDGER x";
    assert_eq!(extract_answer_path(p), Some("/tmp/a.txt".to_string()));
    assert!(!artifact_on_disk(p));
    let q = "ANSWER_PATH: /a\nARTIFACT (x):\nhello\nFEEDBACK y";
    assert!(artifact_on_disk(q));
    assert_eq!(extract_answer_path("no path here"), None);
    assert_eq!(extract_answer_path("ANSWER_PATH:    \nmore"), None);
}

#[test]
fn proposal_rules() {
    let mut p = CandidateProposal {
        name: "c1".to_string(),
        parent: "baseline".to_string(),
        hypothesis: String::new(),
        reflection: String::new(),
        files: vec![("a.rs".to_string(), "fn a() {}".to_string())],
    };
    assert!(validate_proposal(&p).is_ok());
    p.name = "../up".to_string();
    assert_eq!(validate_proposal(&p), Err("candidate name escapes its iteration".to_string()));
    p.name = "  ".to_string();
    assert_eq!(validate_proposal(&p), Err("candidate needs a name and source files".to_string()));
    p.name = "c2".to_string();
    p.files.clear();
    assert_eq!(validate_proposal(&p), Err("candidate needs a name and source files".to_string()));
}

#[test]
fn source_paths_stay_inside() {
    assert_eq!(safe_source_path("/r", "src/a.rs"), Ok("/r/src/a.rs".to_string()));
    assert_eq!(safe_source_path("/r/", "a.rs"), Ok("/r/a.rs".to_string()));
    assert_eq!(
        safe_source_path("/r", "../x"),
        Err("source path escapes candidate: ../x".to_string())
    );
    assert_eq!(
        safe_source_path("/r", "/etc/passwd"),
        Err("source path escapes candidate: /etc/passwd".to_string())
    );
    assert_eq!(safe_source_path("/r", "a..b/c"), Ok("/r/a..b/c".to_string()));
}

#[test]
fn harness_config_check() {
    let cfg = SearchConfig {
        iterations: 2,
        trials_per_task: 1,
        search_tasks: vec!["t1".to_string()],
        baseline_name: "base".to_string(),
    };
    let h = MetaHarness::new("/root", cfg.clone());
    assert!(h.check_config().is_ok());
    assert_eq!(h.config_ref().iterations, 2);
    let mut bad = cfg;
    bad.search_tasks.clear();
    let h2 = MetaHarness::new("/root", bad);
    let err = h2.check_config().unwrap_err();
    assert_eq!(err, hs_loop::meta_harness::MetaHarnessError::Invalid("search tasks and trials must be non-empty".to_string()));
    assert_eq!(err.message(), "invalid meta-harness state: search tasks and trials must be non-empty");
}

fn outcome(passed: bool, steps: u32) -> BenchOutcome {
    BenchOutcome {
        task: "t".to_string(),
        passed,
        steps,
        cost_micros: 0,
        stream_id: "s".to_string(),
    }
}

#[test]
fn fitness_counts_passes_and_steps() {
    assert_eq!(fitness(&vec![]), (0, 0));
    assert_eq!(fitness(&vec![outcome(true, 3), outcome(false, 9), outcome(true, 4)]), (2, 16));
}

#[test]
fn promotion_needs_a_held_out_win() {
    let (d, _) = promotion_decision((1, 10), (2, 50));
    assert_eq!(d, Decision::Promoted);
    let (d, _) = promotion_decision((2, 10), (2, 9));
    assert_eq!(d, Decision::Promoted);
    let (d, reason) = promotion_decision((2, 10), (2, 10));
    assert_eq!(
        reason,
        "candidate does not beat parent on held-out: passes 2 vs 2, steps 10 vs 10"
    );
    assert_eq!(d, Decision::Rejected(reason.clone()));
    let (_, reason) = promotion_decision((1, 10), (3, 4));
    assert_eq!(reason, "candidate beats parent on held-out: passes 3 vs 1, steps 4 vs 10");
}

#[test]
fn budget_for_known_and_unknown_models() {
    assert_eq!(default_budget_for_model("kimi-k3"), 983_040);
    assert_eq!(default_budget_for_model("gpt-x"), 200_000);
}

#[test]
fn artifact_section_trims_trailing_newlines_only() {
    assert_eq!(
        artifact_section("/a/ans.txt", "  x\n\n"),
        "\nANSWER_PATH: /a/ans.txt\nARTIFACT (the graded answer file on disk - updated ONLY by answer.submit; NOT live candidate state):\n  x\n"
    );
    assert_eq!(
        artifact_section("p", ""),
        "\nANSWER_PATH: p\nARTIFACT (the graded answer file on disk - updated ONLY by answer.submit; NOT live candidate state):\n<none>\n"
    );
}

#[test]
fn verifier_prompt_lists_prior_gaps() {
    let l = Ledger::new();
    let p = build_verifier_prompt("fix bug", "done", &l, &vec!["g1".to_string(), "g2".to_string()]);
    assert!(p.starts_with("ADVERSARIAL VERIFIER\n"));
    assert!(p.contains("OBJECTIVE: fix bug\nANSWER:\ndone\nLEDGER (recorded evidence):\n(no tool calls yet)\n\nPRIOR_GAPS:\n- g1\n- g2\nSubmit"));
    let p = build_verifier_prompt("m", "a", &l, &vec![]);
    assert!(p.contains("PRIOR_GAPS:\nnone\n"));
    assert!(p.ends_with("never prose, never bare JSON."));
}

#[test]
fn answer_path_tools_are_mission_terminal() {
    for t in ["answer.submit", "edit.patch", "edit.anchor", "answer.write", "edit.apply"] {
        assert!(hs_loop::is_answer_path(t));
    }
    assert!(!hs_loop::is_answer_path("repo.exec"));
    assert!(!hs_loop::is_answer_path("edit.patch2"));
}

#[test]
fn effective_model_prefers_the_override_then_the_default() {
    let names = vec![("a".to_string(), false), ("b".to_string(), true), ("c".to_string(), true)];
    assert_eq!(hs_loop::effective_model_name(&None, &names), "b");
    assert_eq!(hs_loop::effective_model_name(&Some("z".to_string()), &names), "z");
    assert_eq!(hs_loop::effective_model_name(&None, &vec![("a".to_string(), false)]), "");
}

#[test]
fn runners_refuse_to_run_blind() {
    assert_eq!(hs_loop::require_visibility(true), Ok(()));
    assert_eq!(hs_loop::require_visibility(false), Err(hs_loop::BLIND_RUN_ERROR.to_string()));
}

#[test]
fn inbox_and_task_lists_keep_trimmed_nonblank_lines() {
    assert_eq!(hs_loop::nonblank_lines("  fix a \n\n\t\nb\r\n"), vec!["fix a".to_string(), "b".to_string()]);
    assert_eq!(hs_loop::parse_task_list("t.txt", "x\n y \n"), Ok(vec!["x".to_string(), "y".to_string()]));
    assert_eq!(hs_loop::parse_task_list("t.txt", " \n\n"), Err("task list t.txt is empty".to_string()));
}

#[test]
fn next_iteration_follows_the_largest_numbered_dir() {
    assert_eq!(next_iteration(&args(&[])), 1);
    assert_eq!(next_iteration(&args(&["0003", "0010", "notes", "-1", "0002"])), 11);
    assert_eq!(next_iteration(&args(&["+7", " 8", "x9"])), 8);
}

#[test]
fn candidate_and_trial_dirs_are_zero_padded() {
    assert_eq!(candidate_root(7, "cand-a"), "iterations/0007/candidates/cand-a");
    assert_eq!(candidate_root(12345, "b"), "iterations/12345/candidates/b");
    assert_eq!(trial_root("task-1", 3), "trials/task-1/0003");
    assert_eq!(trial_root("t", 1000), "trials/t/1000");
}

#[test]
fn operator_channels_default_into_the_session_dir() {
    let o = parse_opts(&args(&[]), "cfg.toml".to_string(), "/tmp/sess".to_string()).unwrap();
    assert_eq!(
        operator_channels(&o),
        ("/tmp/sess/steering.txt".to_string(), "/tmp/sess/interrupt".to_string(), "/tmp/sess/tasks.txt".to_string())
    );
    let o = parse_opts(
        &args(&["--steering-inbox", "/x/steer", "--task-inbox", "t.txt"]),
        "cfg.toml".to_string(),
        "/tmp/sess/".to_string(),
    )
    .unwrap();
    let (s, i, t) = operator_channels(&o);
    assert_eq!((s.as_str(), i.as_str(), t.as_str()), ("/x/steer", "/tmp/sess/interrupt", "t.txt"));
}

fn bench_run(task: &str, passed: bool, steps: u32, stream: &str) -> BenchOutcome {
    BenchOutcome { task: task.to_string(), passed, steps, cost_micros: 0, stream_id: stream.to_string() }
}

#[test]
fn an_evaluation_that_wins_held_out_is_promoted_and_keeps_the_template() {
    let bench = vec![bench_run("b1", true, 3, "s1")];
    let parent = vec![bench_run("h1", true, 5, "s2"), bench_run("h2", false, 9, "s3")];
    let cand = vec![bench_run("h1", true, 4, "s4"), bench_run("h2", true, 6, "s5")];
    let p = hs_loop::evolve::evaluation_plan(&bench, &parent, &cand, "TEMPLATE", 4);
    assert_eq!(p.decision, Decision::Promoted);
    assert_eq!(p.version, 5);
    assert_eq!(p.decision_word, "promoted");
    assert_eq!(p.reason, "candidate beats parent on held-out: passes 2 vs 1, steps 10 vs 14");
    assert_eq!(p.candidate_text, Some("TEMPLATE".to_string()));
    assert_eq!(p.trace_streams, vec!["s1", "s2", "s3", "s4", "s5"]);
}

#[test]
fn an_evaluation_that_ties_in_more_steps_is_rejected_without_the_template() {
    let parent = vec![bench_run("h1", true, 5, "p1")];
    let cand = vec![bench_run("h1", true, 7, "c1")];
    let p = hs_loop::evolve::evaluation_plan(&vec![], &parent, &cand, "T", 0);
    let why = "candidate does not beat parent on held-out: passes 1 vs 1, steps 7 vs 5".to_string();
    assert_eq!(p.decision, Decision::Rejected(why.clone()));
    assert_eq!(p.version, 1);
    assert_eq!(p.decision_word, "rejected");
    assert_eq!(p.reason, why);
    assert_eq!(p.candidate_text, None);
    assert_eq!(p.trace_streams, vec!["p1", "c1"]);
}

#[test]
fn an_evaluation_runs_bench_then_held_out_parent_then_candidate() {
    let bench = vec!["b1".to_string(), "b2".to_string()];
    let held = vec!["h1".to_string()];
    let runs = evaluation_runs(&bench, &held);
    assert_eq!(
        runs,
        vec![
            (Template::Candidate, "b1".to_string()),
            (Template::Candidate, "b2".to_string()),
            (Template::Parent, "h1".to_string()),
            (Template::Candidate, "h1".to_string()),
        ]
    );
    assert!(evaluation_runs(&vec![], &vec![]).is_empty());
}
