use hs_loop::json::{Json, JsonNumber};
use hs_loop::ledger::Ledger;

fn s(t: &str) -> Json {
    Json::Str(t.to_string())
}

fn obj(members: Vec<(&str, Json)>) -> Json {
    Json::Object(members.into_iter().map(|(k, v)| (k.to_string(), v)).collect())
}

fn num(n: u64) -> Json {
    Json::Number(JsonNumber::PosInt(n))
}

#[test]
fn empty_ledger_summary_and_state() {
    let l = Ledger::new();
    assert_eq!(l.summary(), "(no tool calls yet)\n");
    assert_eq!(l.last_seq(), 0);
    assert!(!l.model_verified());
}

#[test]
fn read_range_lands_in_summary_with_no_test_note() {
    let mut l = Ledger::new();
    let args = obj(vec![("max_lines", num(10)), ("path", s("src/a.rs")), ("start_line", num(1))]);
    l.apply_tool_call(1, "repo.read", &args, &Json::Null);
    assert_eq!(
        l.summary(),
        "reads: src/a.rs:L1-10; \ntests: NO TEST RUN YET - you have not verified anything yourself this mission\n"
    );
    assert_eq!(l.last_seq(), 1);
}

#[test]
fn adjacent_reads_merge_into_one_range() {
    let mut l = Ledger::new();
    let a1 = obj(vec![("max_lines", num(10)), ("path", s("a")), ("start_line", num(1))]);
    let a2 = obj(vec![("max_lines", num(10)), ("path", s("a")), ("start_line", num(11))]);
    l.apply_tool_call(1, "repo.read", &a1, &Json::Null);
    l.apply_tool_call(2, "repo.read", &a2, &Json::Null);
    assert!(l.summary().starts_with("reads: a:L1-20; \n"));
}

#[test]
fn repo_exec_run_counts_as_model_verification() {
    let mut l = Ledger::new();
    let args = obj(vec![("command", s("cargo test"))]);
    let res = obj(vec![("applied", Json::Bool(true)), ("exit_code", num(0)), ("stdout", s("test result:   ok"))]);
    l.apply_tool_call(2, "repo.exec", &args, &res);
    assert!(l.model_verified());
    assert_eq!(l.summary(), "tests: \"cargo test\" PASS@seq2 [test result: ok]; \n");
}

#[test]
fn checker_run_is_not_model_verification() {
    let mut l = Ledger::new();
    let res = obj(vec![("passed", Json::Bool(true))]);
    l.apply_tool_call(3, "checker.run", &Json::Null, &res);
    assert!(!l.model_verified());
    assert_eq!(l.summary(), "tests: \"checker\" PASS@seq3; \n");
}

#[test]
fn restore_marks_earlier_runs() {
    let mut l = Ledger::new();
    let res = obj(vec![("passed", Json::Bool(false))]);
    l.apply_tool_call(3, "checker.run", &Json::Null, &res);
    l.note_restore(3);
    assert_eq!(l.summary(), "tests: \"checker\" FAIL@seq3(pre-restore); \n");
}

#[test]
fn exact_duplicate_call_is_found_with_its_seq() {
    let mut l = Ledger::new();
    let args = obj(vec![("path", s("x.rs"))]);
    l.apply_tool_call(7, "repo.read", &args, &Json::Null);
    assert_eq!(l.find_duplicate("repo.read", &args), Some(7));
    let other = obj(vec![("path", s("y.rs"))]);
    assert_eq!(l.find_duplicate("repo.read", &other), None);
    assert_eq!(l.find_duplicate("repo.exec", &args), None);
}

#[test]
fn whitespace_variants_count_as_one_stuck_call() {
    let mut l = Ledger::new();
    l.apply_tool_call(1, "repo.exec", &obj(vec![("command", s("sh run.sh"))]), &Json::Null);
    l.apply_tool_call(2, "repo.exec", &obj(vec![("command", s("sh  run.sh"))]), &Json::Null);
    l.apply_tool_call(3, "repo.exec", &obj(vec![("command", s(" sh run.sh "))]), &Json::Null);
    assert_eq!(l.doom_loop_repeat(10, 3), Some(("repo.exec".to_string(), 3)));
    assert_eq!(l.doom_loop_repeat(2, 3), None);
}

#[test]
fn edits_and_notes_render() {
    let mut l = Ledger::new();
    let res = obj(vec![("applied", Json::Bool(true)), ("files_changed", Json::Array(vec![s("src/lib.rs")]))]);
    l.apply_tool_call(4, "edit.apply", &Json::Null, &res);
    l.apply_tool_call(5, "notes.scratch", &obj(vec![("content", s("\n  \nfirst idea\nsecond")), ("op", s("write"))]), &Json::Null);
    assert_eq!(
        l.summary(),
        "edits: src/lib.rs@seq4; \ntests: NO TEST RUN YET - you have not verified anything yourself this mission\nnotes: - first idea \n"
    );
}

#[test]
fn a_model_command_named_checker_still_counts() {
    let mut l = Ledger::new();
    let args = obj(vec![("command", s("checker"))]);
    let res = obj(vec![("applied", Json::Bool(true)), ("exit_code", num(0))]);
    l.apply_tool_call(1, "repo.exec", &args, &res);
    assert!(l.model_verified());
}

#[test]
fn an_oversized_summary_is_capped_on_a_character_boundary() {
    for pad in 0..4usize {
        let mut l = Ledger::new();
        for i in 0..10u64 {
            let path = format!("{}{}", "x".repeat(pad), "é".repeat(600));
            let args = obj(vec![("path", s(&path))]);
            l.apply_tool_call(i + 1, "answer.write", &args, &Json::Null);
        }
        let out = l.summary();
        assert!(out.len() <= 8000);
        assert!(out.ends_with("...[ledger capped]"));
    }
}

#[test]
fn restore_changes_no_read_but_the_marker() {
    let mut l = Ledger::new();
    let args = obj(vec![("command", s("pytest"))]);
    let res = obj(vec![("applied", Json::Bool(true)), ("exit_code", num(1)), ("stdout", s(""))]);
    l.apply_tool_call(3, "repo.exec", &args, &res);
    let before = (l.last_seq(), l.model_verified(), l.doom_loop_repeat(8, 1));
    l.note_restore(3);
    assert_eq!((l.last_seq(), l.model_verified(), l.doom_loop_repeat(8, 1)), before);
    assert!(l.summary().contains("\"pytest\" FAIL@seq3(pre-restore)"));
    l.apply_tool_call(4, "repo.exec", &args, &res);
    assert!(l.summary().contains("\"pytest\" FAIL@seq4;"));
}

#[test]
fn doom_read_takes_the_largest_group_earliest_on_ties() {
    let mut l = Ledger::new();
    let a = obj(vec![("command", s("ls"))]);
    let b = obj(vec![("command", s("pwd"))]);
    let r = obj(vec![("applied", Json::Bool(true)), ("exit_code", num(0))]);
    l.apply_tool_call(1, "repo.exec", &a, &r);
    l.apply_tool_call(2, "repo.read", &b, &r);
    l.apply_tool_call(3, "repo.exec", &a, &r);
    l.apply_tool_call(4, "repo.read", &b, &r);
    assert_eq!(l.doom_loop_repeat(8, 2), Some(("repo.exec".to_string(), 2)));
    l.apply_tool_call(5, "repo.read", &b, &r);
    assert_eq!(l.doom_loop_repeat(8, 2), Some(("repo.read".to_string(), 3)));
    assert_eq!(l.doom_loop_repeat(8, 4), None);
}
