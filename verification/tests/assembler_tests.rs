use hs_loop::assembler::{assemble, tool_call_line, transcript_cuttable, StreamEvent};

fn payload(plugin: &str) -> Vec<u8> {
    format!("{{\"plugin\": \"{plugin}\"}}").into_bytes()
}

fn ev(seq: u64, tool_call: bool, p: Option<Vec<u8>>) -> StreamEvent {
    StreamEvent { seq, id: format!("id{seq}"), tool_call, payload: p }
}

fn value(text: &str) -> serde_json::Value {
    serde_json::from_str(text).unwrap()
}

#[test]
fn line_renders_plugin_args_and_result() {
    let p = value(r#"{"args": {"path": "a"}, "plugin": "repo.read", "result": "ok"}"#);
    assert_eq!(tool_call_line(&p), Some("repo.read({\"path\":\"a\"}) => \"ok\"".to_string()));
    assert_eq!(tool_call_line(&serde_json::Value::Null), Some("?(null) => null".to_string()));
    let p = value(r#"{"plugin": 7, "args": [1, 2.5, true], "result": {"b": null, "a": "x\ny"}}"#);
    assert_eq!(tool_call_line(&p), Some("?([1,2.5,true]) => {\"a\":\"x\\ny\",\"b\":null}".to_string()));
}

#[test]
fn long_line_is_cut_at_the_cap() {
    let p = value(&format!("{{\"plugin\": \"p\", \"result\": \"{}\"}}", "x".repeat(30_000)));
    let l = tool_call_line(&p).unwrap();
    assert_eq!(l.len(), 20_000 + "...[truncated]".len());
    assert!(l.starts_with("p(null) => \"xxx"));
    assert!(l.ends_with("xxx...[truncated]"));
}

#[test]
fn cut_inside_a_character_is_refused() {
    let mut s = "x".repeat(19_987);
    s.push_str(&"\u{e9}".repeat(10));
    let p = value(&format!("{{\"plugin\": \"p\", \"result\": \"{s}\"}}"));
    assert_eq!(tool_call_line(&p), None);
    let events = vec![ev(1, true, Some(serde_json::to_vec(&p).unwrap()))];
    assert!(!transcript_cuttable(&events));
    assert!(transcript_cuttable(&vec![ev(1, true, Some(payload("a")))]));
}

#[test]
fn within_budget_everything_stays_verbatim() {
    let events = vec![
        ev(1, true, Some(payload("a"))),
        ev(2, false, Some(payload("skip"))),
        ev(3, true, None),
        ev(4, true, Some(payload("b"))),
        ev(5, true, Some(b"{not json".to_vec())),
    ];
    let a = assemble(&events, 1_000);
    assert_eq!(a.entries, vec!["a(null) => null".to_string(), "b(null) => null".to_string()]);
    assert!(a.compressed.is_none());
    // exactly at the budget: two lines of 15 bytes cost 46
    let a = assemble(&events, 46);
    assert_eq!(a.entries.len(), 2);
    assert!(a.compressed.is_none());
}

#[test]
fn over_budget_compacts_the_oldest_lines() {
    let events = vec![
        ev(1, true, Some(payload("a"))),
        ev(2, true, Some(payload("b"))),
        ev(3, true, Some(payload("c"))),
    ];
    // three lines cost 69; 60% of 60 is 36: only the newest stays verbatim
    let a = assemble(&events, 60);
    assert_eq!(
        a.entries,
        vec![
            "COMPACTED 2 earlier tool calls (events seq 1..2, refs id1..id2): distilled into the LEDGER block above - reads, edits, and test verdicts from that range are recorded there".to_string(),
            "c(null) => null".to_string(),
        ]
    );
    let c = a.compressed.unwrap();
    assert_eq!(c.count, 2);
    assert_eq!((c.lo_seq, c.hi_seq), (1, 2));
    assert_eq!((c.lo_id.as_str(), c.hi_id.as_str()), ("id1", "id2"));
    assert_eq!(c.lines, vec!["b(null) => null".to_string(), "a(null) => null".to_string()]);
}

#[test]
fn tiny_budget_compacts_everything() {
    let events = vec![ev(7, true, Some(payload("a"))), ev(9, true, Some(payload("b")))];
    let a = assemble(&events, 10);
    assert_eq!(a.entries.len(), 1);
    assert!(a.entries[0].starts_with("COMPACTED 2 earlier tool calls (events seq 7..9, refs id7..id9)"));
    assert_eq!(a.compressed.unwrap().count, 2);
}

#[test]
fn empty_stream_assembles_to_nothing() {
    let a = assemble(&vec![], 0);
    assert!(a.entries.is_empty());
    assert!(a.compressed.is_none());
}

#[test]
fn a_huge_budget_is_no_overflow() {
    let events = vec![ev(1, true, Some(payload("a")))];
    let a = assemble(&events, usize::MAX);
    assert_eq!(a.entries, vec!["a(null) => null".to_string()]);
}
