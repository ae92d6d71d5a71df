use hs_loop::json::{Json, JsonNumber};
use hs_loop::repexec::{
    edit_gate, edit_path_violation, extract_gate_class, host_command_wrapper, shell_quote, violation_class,
    GuardrailEscalator,
};

#[test]
fn git_apply_is_refused_whatever_the_options() {
    assert_eq!(edit_path_violation("git apply fix.patch"), Some("git apply invocation".to_string()));
    assert_eq!(
        edit_path_violation("cd x && git -C repo apply --check a.diff"),
        Some("git apply invocation".to_string())
    );
}

#[test]
fn raw_diff_writes_are_refused() {
    assert_eq!(edit_path_violation("cat > fix.diff"), Some("raw diff-file write (> fix.diff)".to_string()));
    assert_eq!(
        edit_path_violation("echo hi 2>out.PATCH"),
        Some("raw diff-file write (2> out.PATCH)".to_string())
    );
    assert_eq!(edit_path_violation("echo x | tee -a a.patch"), Some("raw diff-file write (tee a.patch)".to_string()));
    assert_eq!(edit_path_violation("cp x 'y.diff'"), Some("raw diff-file write (cp 'y.diff')".to_string()));
}

#[test]
fn reads_and_builds_stay_allowed() {
    assert_eq!(edit_path_violation("cat fix.diff"), None);
    assert_eq!(edit_path_violation("git diff"), None);
    assert_eq!(edit_path_violation("cargo test 2>&1 | tail -5"), None);
}

#[test]
fn reasons_map_to_classes() {
    assert_eq!(violation_class("git apply invocation"), "git_apply");
    assert_eq!(violation_class("raw diff-file write (> a.diff)"), "diff_write");
    assert_eq!(violation_class("something else"), "other");
}

#[test]
fn gate_class_is_read_back_from_the_output() {
    let out = "{\"error\":\"forbidden edit path (class: git_apply, git apply invocation): repo.exec is build/test only\"}";
    assert_eq!(extract_gate_class(out), Some("git_apply".to_string()));
    assert_eq!(extract_gate_class("class: git_apply"), None);
    assert_eq!(extract_gate_class("forbidden edit path (class: diff_write"), Some("diff_write".to_string()));
}

#[test]
fn second_same_class_refusal_escalates() {
    let mut g = GuardrailEscalator::new();
    assert_eq!(g.record("git_apply"), None);
    assert_eq!(g.record("diff_write"), None);
    assert_eq!(
        g.record("git_apply"),
        Some("GUARDRAIL ESCALATION: 2 rejected edit-path attempts of class git_apply. Repeating a rejected bypass cannot ever succeed - the CLASS is forbidden outright, not the specific command. Make the edit with edit.apply (search/replace blocks) and use repo.exec ONLY to build and test.".to_string())
    );
    assert!(g.record("git_apply").unwrap().starts_with("GUARDRAIL ESCALATION: 3 rejected"));
}

#[test]
fn quoting_and_egress_wrapper() {
    assert_eq!(shell_quote("it's"), "'it'\\''s'");
    assert_eq!(host_command_wrapper("pytest -x", true), "unshare -n sh -c 'pytest -x'");
    assert_eq!(host_command_wrapper("pytest -x", false), "pytest -x");
}

#[test]
fn edit_gate_refuses_with_a_classed_steering_row() {
    assert!(edit_gate("pytest -q tests/", true).is_none());
    let row = edit_gate("git apply fix.patch", true).unwrap();
    let m = match row {
        Json::Object(m) => m,
        _ => panic!("not an object"),
    };
    let keys: Vec<&str> = m.iter().map(|(k, _)| k.as_str()).collect();
    assert_eq!(keys, vec!["applied", "error", "exit_code", "scratch", "stderr", "stdout", "timed_out"]);
    assert!(matches!(m[0].1, Json::Bool(false)));
    match &m[1].1 {
        Json::Str(e) => {
            assert!(e.starts_with("forbidden edit path (class: git_apply, git apply invocation): repo.exec is build/test only."));
            assert!(e.contains("edit.apply {\"edits\":[{\"path\":\"src/file.py\""));
            assert!(e.ends_with("are counted and escalate."));
        }
        _ => panic!("no error text"),
    }
    assert!(matches!(m[2].1, Json::Number(JsonNumber::NegInt(-1))));
    assert!(matches!(m[3].1, Json::Bool(false)));
    assert!(matches!(m[6].1, Json::Bool(false)));
    // scratch mode marks the row as exploration
    match edit_gate("cat > fix.diff", false).unwrap() {
        Json::Object(m) => {
            assert!(matches!(m[3].1, Json::Bool(true)));
            match &m[1].1 {
                Json::Str(e) => assert!(e.starts_with("forbidden edit path (class: diff_write, raw diff-file write (> fix.diff))")),
                _ => panic!("no error text"),
            }
        }
        _ => panic!("not an object"),
    }
}

#[test]
fn a_path_qualified_git_is_still_git() {
    assert_eq!(edit_path_violation("/usr/bin/git apply fix.patch"), Some("git apply invocation".to_string()));
    assert_eq!(edit_path_violation("./tools/git -C repo apply x.diff"), Some("git apply invocation".to_string()));
    assert_eq!(edit_path_violation("/usr/bin/legit apply x"), None);
}

#[test]
fn the_class_survives_the_gate_message() {
    for cmd in ["git apply a.patch", "cat > fix.diff", "tee out.patch", "cp a b.diff"] {
        let reason = edit_path_violation(cmd).unwrap();
        let class = violation_class(&reason);
        assert!(class == "git_apply" || class == "diff_write");
        let row = edit_gate(cmd, true).unwrap();
        let text = match row {
            Json::Object(m) => match &m[1].1 {
                Json::Str(s) => s.clone(),
                _ => panic!("no text"),
            },
            _ => panic!("not an object"),
        };
        assert_eq!(extract_gate_class(&text), Some(class));
    }
}
