use hs_loop::scripted::{is_distill_call, scripted_reply, ANSWER_WRITTEN, clean_audit, NOTHING_FURTHER, NO_ANSWER_TOOL};

fn v(xs: &[&str]) -> Vec<String> {
    xs.iter().map(|s| s.to_string()).collect()
}

const PROMPT: &str = "mission\nANSWER_PATH: /w/answer.txt\nARTIFACT (the graded answer file on disk - updated ONLY by answer.submit; NOT live candidate state):\n<none>\n";

#[test]
fn plain_replay_cycles_on_the_last_line() {
    let s = v(&["one", "two"]);
    assert_eq!(scripted_reply(&s, 0, "p", &vec![], false), ("one".to_string(), String::new(), 1));
    assert_eq!(scripted_reply(&s, 1, "p", &vec![], false), ("two".to_string(), String::new(), 2));
    assert_eq!(scripted_reply(&s, 7, "p", &v(&["verdict__submit"]), false), ("two".to_string(), String::new(), 8));
}

#[test]
fn script_lines_may_carry_reasoning() {
    let s = v(&["{\"completion\":\"hi\",\"reasoning\":\"because\"}", "{\"completion\":\"x\"}", "{\"tool\":\"a\"}"]);
    assert_eq!(scripted_reply(&s, 0, "p", &vec![], false), ("hi".to_string(), "because".to_string(), 1));
    assert_eq!(scripted_reply(&s, 1, "p", &vec![], false), ("x".to_string(), String::new(), 2));
    assert_eq!(scripted_reply(&s, 2, "p", &vec![], false), ("{\"tool\":\"a\"}".to_string(), String::new(), 3));
}

#[test]
fn prompt_aware_answers_what_is_asked() {
    let s = v(&["one"]);
    // an audit gets a clean verdict and does not consume the script
    assert_eq!(scripted_reply(&s, 0, PROMPT, &v(&["verdict__submit"]), true), (clean_audit(), String::new(), 0));
    assert_eq!(scripted_reply(&s, 0, PROMPT, &v(&["answer__submit"]), true), ("one".to_string(), String::new(), 1));
    // script spent: submit the answer the prompt names
    assert_eq!(
        scripted_reply(&s, 1, PROMPT, &v(&["repo__exec", "answer__submit"]), true).0,
        "{\"tool\":\"answer.submit\",\"args\":{\"path\":\"/w/answer.txt\",\"summary\":\"scripted answer: mission complete\"}}"
    );
    assert_eq!(
        scripted_reply(&s, 1, PROMPT, &v(&["answer__write"]), true).0,
        "{\"tool\":\"answer.write\",\"args\":{\"path\":\"/w/answer.txt\",\"content\":\"scripted answer: mission complete\"}}"
    );
    assert_eq!(scripted_reply(&s, 1, PROMPT, &v(&["repo__exec"]), true).0, NO_ANSWER_TOOL);
    let written = PROMPT.replace("<none>", "42");
    assert_eq!(scripted_reply(&s, 1, &written, &v(&["answer__submit"]), true).0, ANSWER_WRITTEN);
    assert_eq!(scripted_reply(&s, 1, "no path here", &vec![], true), (NOTHING_FURTHER.to_string(), String::new(), 1));
}

#[test]
fn distill_calls_are_recognised() {
    assert!(is_distill_call("DISTILL: summarize"));
    assert!(!is_distill_call("mission DISTILL:"));
    assert!(clean_audit().starts_with("{\"tool\":\"verdict.submit\""));
}
