use hs_loop::evolve::{rewind_plan, JournalEntry};
use hs_loop::json::{Json, JsonNumber};
use hs_loop::{book_wall_kill, culture_path};

fn member<'a>(j: &'a Json, key: &str) -> &'a Json {
    match j {
        Json::Object(m) => &m.iter().find(|(k, _)| k == key).unwrap().1,
        _ => panic!("not an object"),
    }
}

fn as_u64(j: &Json) -> u64 {
    match j {
        Json::Number(JsonNumber::PosInt(n)) => *n,
        _ => panic!("not a count"),
    }
}

fn as_str(j: &Json) -> &str {
    match j {
        Json::Str(s) => s.as_str(),
        _ => panic!("not a string"),
    }
}

#[test]
fn wall_kill_row_keeps_checkpointed_work() {
    let progress = r#"{"steps": 7, "model_calls": 4, "cost_micros": 1500, "answer": null}"#;
    let row = book_wall_kill(Some(progress), "django__django-1", "kimi-k3", true);
    let keys: Vec<&str> = match &row {
        Json::Object(m) => m.iter().map(|(k, _)| k.as_str()).collect(),
        _ => panic!("not an object"),
    };
    assert_eq!(
        keys,
        vec!["budget_killed", "cost_micros", "feedback", "instance_id", "model", "model_calls", "outcome", "passed", "steps"]
    );
    assert_eq!(as_u64(member(&row, "steps")), 7);
    assert_eq!(as_u64(member(&row, "model_calls")), 4);
    assert_eq!(as_u64(member(&row, "cost_micros")), 1500);
    assert_eq!(as_str(member(&row, "outcome")), "wall_killed");
    assert_eq!(as_str(member(&row, "instance_id")), "django__django-1");
    assert_eq!(as_str(member(&row, "model")), "kimi-k3");
    assert!(matches!(member(&row, "passed"), Json::Bool(false)));
    assert!(matches!(member(&row, "budget_killed"), Json::Bool(false)));
    assert!(matches!(member(&row, "feedback"), Json::Bool(true)));
}

#[test]
fn wall_kill_row_without_a_checkpoint_books_zeroes() {
    let row = book_wall_kill(None, "t1", "m", false);
    assert_eq!(as_u64(member(&row, "steps")), 0);
    assert_eq!(as_u64(member(&row, "model_calls")), 0);
    assert_eq!(as_u64(member(&row, "cost_micros")), 0);
    // a checkpoint whose fields are not counts reads as zeroes too
    let row = book_wall_kill(Some(r#"{"steps": -2, "model_calls": "3", "cost_micros": 2.5}"#), "t1", "m", false);
    assert_eq!(as_u64(member(&row, "steps")), 0);
    assert_eq!(as_u64(member(&row, "model_calls")), 0);
    assert_eq!(as_u64(member(&row, "cost_micros")), 0);
    // and so does one that is not JSON, or not an object
    let row = book_wall_kill(Some("{\"steps\": 3"), "t1", "m", false);
    assert_eq!(as_u64(member(&row, "steps")), 0);
    let row = book_wall_kill(Some("[3, 4]"), "t1", "m", false);
    assert_eq!(as_u64(member(&row, "steps")), 0);
}

#[test]
fn culture_paths_split_skills_from_notes() {
    assert_eq!(culture_path("procedural", "fix the bug!"), (true, "/skills/fix-the-bug-".to_string()));
    assert_eq!(culture_path("episodic", "a/b c-d"), (false, "/knowledge/a-b-c-d".to_string()));
    assert_eq!(culture_path("semantic", "résumé"), (false, "/knowledge/r-sum-".to_string()));
}

fn entry(decision: &str, parent: &str, cand: &str, text: Option<&str>) -> JournalEntry {
    JournalEntry {
        decision: decision.to_string(),
        parent_hash: parent.to_string(),
        candidate_hash: cand.to_string(),
        parent_text: text.map(str::to_string),
    }
}

#[test]
fn rewind_rolls_back_the_latest_promotion() {
    let journal = vec![
        entry("promoted", "builtin", "aaa", None),
        entry("rejected", "aaa", "bbb", Some("A")),
        entry("promoted", "aaa", "ccc", Some("A")),
        entry("rejected", "ccc", "ddd", Some("C")),
    ];
    let p = rewind_plan(&journal).unwrap();
    assert_eq!(p.version, 5);
    assert_eq!(p.restore.as_deref(), Some("A"));
    assert_eq!(p.reason, "rewind promotion of candidate ccc");
    assert_eq!(p.parent_hash, "aaa");
}

#[test]
fn rewinding_to_the_builtin_removes_the_overlay() {
    let journal = vec![entry("promoted", "builtin", "aaa", None), entry("rewound", "builtin", "", None)];
    let p = rewind_plan(&journal).unwrap();
    assert_eq!(p.restore, None);
    assert_eq!(p.version, 3);
}

#[test]
fn rewind_without_a_promotion_is_refused() {
    assert_eq!(rewind_plan(&vec![]).unwrap_err(), "no promotion to rewind");
    let journal = vec![entry("rejected", "builtin", "aaa", None)];
    assert_eq!(rewind_plan(&journal).unwrap_err(), "no promotion to rewind");
}
