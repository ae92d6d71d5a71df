use hs_loop::editapply::{read_plan, read_window, splice_one, stage_blocks, BlockStaging, EditBlock, NO_BLOCKS_ERROR};

#[test]
fn exact_unique_match_is_replaced() {
    assert_eq!(splice_one("a\nb\nc\n", "b", "B"), Ok(("a\nB\nc\n".to_string(), "exact")));
    assert_eq!(splice_one("", "", "new"), Ok(("new".to_string(), "exact")));
}

#[test]
fn ambiguous_exact_match_is_refused() {
    assert_eq!(
        splice_one("x x", "x", "y"),
        Err("old matches 2 times - add more surrounding context so it matches exactly once".to_string())
    );
    assert_eq!(
        splice_one("ab", "", "y"),
        Err("old matches 3 times - add more surrounding context so it matches exactly once".to_string())
    );
}

#[test]
fn trailing_whitespace_is_tolerated_once_unique() {
    assert_eq!(
        splice_one("fn a() {   \n  body\n}\n", "fn a() {\n  body", "fn b() {\n  x\n"),
        Ok(("fn b() {\n  x\n}\n".to_string(), "fuzzy"))
    );
    assert_eq!(
        splice_one("x \ny\nx\t\ny\n", "x\ny", "z\n"),
        Err("old matches 2 times under whitespace-tolerant matching - add more surrounding context".to_string())
    );
    assert_eq!(
        splice_one("abc\n", "zzz", "y"),
        Err("old not found in file (tried exact and whitespace-tolerant match)".to_string())
    );
}

#[test]
fn edit_block_holds_its_fields() {
    let b = EditBlock { path: "src/a.rs".to_string(), old: "x".to_string(), new: "y".to_string() };
    let c = b.clone();
    assert_eq!(splice_one("x", &c.old, &c.new), Ok(("y".to_string(), "exact")));
    assert_eq!(c.path, "src/a.rs");
}

fn block(path: &str, old: &str, new: &str) -> hs_loop::editapply::EditBlock {
    hs_loop::editapply::EditBlock { path: path.to_string(), old: old.to_string(), new: new.to_string() }
}

fn disk() -> Vec<(String, String)> {
    vec![("a.txt".to_string(), "x\n".to_string()), ("b.txt".to_string(), "q q".to_string())]
}

#[test]
fn read_plan_stops_at_the_first_refused_block() {
    assert_eq!(read_plan(&vec![]), Err(NO_BLOCKS_ERROR.to_string()));
    let bs = vec![block("a.txt", "x", "y"), block("a.txt", "y", "z"), block("../x", "p", "q"), block("b.txt", "q", "r")];
    assert_eq!(read_plan(&bs), Ok(vec!["a.txt".to_string()]));
    let bs = vec![block("a.txt", "x", "y"), block("b.txt", "q", "r")];
    assert_eq!(read_plan(&bs), Ok(vec!["a.txt".to_string(), "b.txt".to_string()]));
}

#[test]
fn blocks_stage_in_order_on_the_staged_content() {
    let bs = vec![block("a.txt", "x", "y"), block("a.txt", "y\n", "z\n")];
    match stage_blocks(&bs, &disk()) {
        BlockStaging::Staged { files, results } => {
            assert_eq!(files, vec![("a.txt".to_string(), "z\n".to_string())]);
            assert_eq!(results.len(), 2);
            assert!(results.iter().all(|r| r.ok && r.detail == "exact" && r.path == "a.txt"));
        }
        BlockStaging::Refused { error, .. } => panic!("refused: {error}"),
    }
}

#[test]
fn a_failing_block_refuses_the_whole_list() {
    let bs = vec![block("a.txt", "x", "y"), block("a.txt", "y\n", "z\n"), block("b.txt", "q", "r")];
    match stage_blocks(&bs, &disk()) {
        BlockStaging::Refused { error, results } => {
            assert_eq!(
                error,
                "block 2 (b.txt): old matches 2 times - add more surrounding context so it matches exactly once"
            );
            assert_eq!(results.len(), 3);
            assert!(!results[2].ok);
            assert_eq!(results[2].detail, "old matches 2 times - add more surrounding context so it matches exactly once");
        }
        BlockStaging::Staged { .. } => panic!("staged"),
    }
}

#[test]
fn prechecks_and_missing_files_are_refused() {
    let cases = vec![
        (block("c.txt", "x", "y"), "block 0 (c.txt): file not found in candidate"),
        (block("a.txt", "", "y"), "block 0 (a.txt): old must be non-empty"),
        (block("/etc/passwd", "x", "y"), "block 0 (/etc/passwd): path must be repo-relative, no absolute paths or .."),
    ];
    for (b, want) in cases {
        match stage_blocks(&vec![b], &disk()) {
            BlockStaging::Refused { error, results } => {
                assert_eq!(error, want);
                assert!(results.is_empty());
            }
            BlockStaging::Staged { .. } => panic!("staged"),
        }
    }
}

#[test]
fn changed_files_come_from_diff_headers() {
    let cd = "diff --git a/x.rs b/x.rs\nindex 1..2\n--- a/x.rs\n+++ b/x.rs\ndiff --git a/d b/e b/f\n";
    assert_eq!(hs_loop::editapply::files_changed(cd), vec!["x.rs".to_string(), "f".to_string()]);
    assert!(hs_loop::editapply::files_changed("").is_empty());
}

#[test]
fn staging_over_the_planned_files_alone_is_the_same() {
    let bs = vec![block("a.txt", "x", "y"), block("b.txt", "q q", "r")];
    let full = vec![
        ("z.txt".to_string(), "unrelated".to_string()),
        ("a.txt".to_string(), "x\n".to_string()),
        ("b.txt".to_string(), "q q".to_string()),
    ];
    let plan = read_plan(&bs).unwrap();
    let only: Vec<(String, String)> = full.iter().filter(|f| plan.contains(&f.0)).cloned().collect();
    let render = |st: BlockStaging| match st {
        BlockStaging::Staged { files, results } => format!("{files:?} {}", results.len()),
        BlockStaging::Refused { error, results } => format!("{error} {}", results.len()),
    };
    assert_eq!(render(stage_blocks(&bs, &full)), render(stage_blocks(&bs, &only)));
    assert_eq!(
        render(stage_blocks(&bs, &only)),
        "[(\"a.txt\", \"y\\n\"), (\"b.txt\", \"r\")] 2"
    );
}

#[test]
fn read_window_defaults_caps_and_truncation() {
    let text = "a\nb\nc\nd\ne\n";
    let w = read_window(text, None, None);
    assert_eq!((w.start_line, w.want, w.end_line, w.total_lines, w.truncated), (1, 400, 5, 5, false));
    let w = read_window(text, Some(2), Some(2));
    assert_eq!((w.start_line, w.want, w.end_line, w.total_lines, w.truncated), (2, 2, 3, 5, true));
    let w = read_window(text, Some(0), Some(1000));
    assert_eq!((w.start_line, w.want, w.end_line), (1, 400, 5));
    let w = read_window(text, Some(9), Some(3));
    assert_eq!((w.start_line, w.end_line, w.truncated), (9, 5, false));
    assert_eq!(read_window("", None, None).total_lines, 0);
}
