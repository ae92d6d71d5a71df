use hs_loop::json::Json;
use hs_loop::repl::{model_call_books_no_step, resume_counters, ResumeEvent};

fn meta(pairs: Vec<(&str, &str)>) -> Option<Json> {
    Some(Json::Object(pairs.into_iter().map(|(k, v)| (k.to_string(), Json::Str(v.to_string()))).collect()))
}

#[test]
fn an_empty_stream_folds_to_zeros() {
    assert_eq!(resume_counters(&vec![]), (0, 0, 0));
}

#[test]
fn goal_updates_count_missions_and_model_calls_count_steps() {
    let events = vec![
        ResumeEvent::ModelCall(meta(vec![("why", "step")])),
        ResumeEvent::Other,
        ResumeEvent::ModelCall(None),
        ResumeEvent::GoalUpdate,
        ResumeEvent::ModelCall(meta(vec![])),
        ResumeEvent::GoalUpdate,
    ];
    assert_eq!(resume_counters(&events), (2, 3, 3));
}

#[test]
fn distill_and_verifier_calls_book_a_call_but_no_step() {
    let events = vec![
        ResumeEvent::ModelCall(meta(vec![("why", "distill")])),
        ResumeEvent::ModelCall(meta(vec![("role", "verifier")])),
        ResumeEvent::ModelCall(meta(vec![("role", "mission")])),
        ResumeEvent::GoalUpdate,
    ];
    assert_eq!(resume_counters(&events), (1, 1, 3));
}

#[test]
fn only_string_marks_exempt_a_call() {
    assert!(model_call_books_no_step(&meta(vec![("why", "distill")])));
    assert!(model_call_books_no_step(&meta(vec![("why", "x"), ("role", "verifier")])));
    assert!(!model_call_books_no_step(&meta(vec![("why", "Distill")])));
    assert!(!model_call_books_no_step(&Some(Json::Object(vec![("role".to_string(), Json::Bool(true))]))));
    assert!(!model_call_books_no_step(&Some(Json::Str("distill".to_string()))));
    assert!(!model_call_books_no_step(&None));
}
