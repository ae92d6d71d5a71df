use hs_loop::sessions::{
    list_sessions, mission_preview, pick_session, resume_choice, session_line, sessions_excluding, sort_sessions,
    SessionInfo, StreamListing,
};

fn info(id: &str, modified: u128) -> SessionInfo {
    SessionInfo { id: id.to_string(), events: 3, preview: "p".to_string(), modified_nanos: modified }
}

fn ids(v: &[SessionInfo]) -> Vec<&str> {
    v.iter().map(|s| s.id.as_str()).collect()
}

#[test]
fn preview_takes_the_first_named_mission_and_flattens_escapes() {
    let ps = vec![
        Some("{\"kind\":\"x\"}".to_string()),
        None,
        Some("{\"prompt\":\"MISSION: fix the\\nbug\\tnow\",\"x\":1}".to_string()),
        Some("MISSION: later".to_string()),
    ];
    assert_eq!(mission_preview(&ps), "fix the bug now");
}

#[test]
fn preview_defaults_and_caps() {
    let ps = vec![None, Some("a".to_string()), Some("b".to_string()), Some("c".to_string()), Some("MISSION: late".to_string())];
    assert_eq!(mission_preview(&ps), "(no mission)");
    assert_eq!(mission_preview(&vec![]), "(no mission)");
    let long = format!("MISSION: {}\nrest", "x".repeat(70));
    let p = mission_preview(&vec![Some(long)]);
    assert_eq!(p.chars().count(), 60);
    assert!(p.ends_with('\u{2026}'));
}

#[test]
fn listing_is_newest_first_then_by_id() {
    let v = vec![info("b", 5), info("d", 9), info("c", 9), info("a", 1)];
    let sorted = sort_sessions(v);
    assert_eq!(ids(&sorted), vec!["c", "d", "b", "a"]);
    assert!(sort_sessions(vec![]).is_empty());
}

#[test]
fn the_open_session_is_not_offered() {
    let v = vec![info("c", 9), info("d", 9), info("b", 5)];
    assert_eq!(ids(&sessions_excluding(&v, "d")), vec!["c", "b"]);
    assert_eq!(ids(&sessions_excluding(&v, "zz")), vec!["c", "d", "b"]);
}

#[test]
fn numeric_picks_select_one_based() {
    let v = vec![info("c", 9), info("d", 9)];
    assert_eq!(pick_session(&v, "2"), Some("d".to_string()));
    assert_eq!(pick_session(&v, " 1 \n"), Some("c".to_string()));
    assert_eq!(pick_session(&v, "0"), None);
    assert_eq!(pick_session(&v, "3"), None);
    assert_eq!(pick_session(&v, "x"), None);
}

#[test]
fn picker_line_shows_short_id_events_and_preview() {
    let s = SessionInfo { id: "0123456789ab".to_string(), events: 12, preview: "fix".to_string(), modified_nanos: 0 };
    assert_eq!(session_line(3, &s), "3) 01234567  12 events  fix");
    let s = SessionInfo { id: "abc".to_string(), events: 0, preview: String::new(), modified_nanos: 0 };
    assert_eq!(session_line(1, &s), "1) abc  0 events  ");
}

#[test]
fn resume_choice_maps_entry_to_stream() {
    // No sessions recorded: any choice resolves to nothing.
    let infos = list_sessions(&vec![]);
    assert!(infos.is_empty());
    assert_eq!(pick_session(&infos, "1"), None, "empty session list never resolves");
}

fn stream(id: Option<&str>, readable: bool, operator: bool, modified: u128, first: &str) -> StreamListing {
    StreamListing {
        id: id.map(str::to_string),
        readable,
        operator,
        events: 6,
        first_payloads: vec![None, Some(first.to_string())],
        modified_nanos: modified,
    }
}

#[test]
fn only_readable_operator_streams_are_listed_newest_first() {
    let streams = vec![
        stream(Some("aaa"), true, true, 10, "{\"text\":\"MISSION: fix the parser\"}"),
        stream(Some("bbb"), true, false, 50, "MISSION: aux journal"),
        stream(None, true, true, 60, "MISSION: not a stream id"),
        stream(Some("ccc"), false, true, 70, "MISSION: unreadable"),
        stream(Some("ddd"), true, true, 30, "no mission here"),
    ];
    let infos = list_sessions(&streams);
    assert_eq!(ids(&infos), vec!["ddd", "aaa"]);
    assert_eq!(infos[0].preview, "(no mission)");
    assert_eq!(infos[1].preview, "fix the parser");
    assert_eq!(infos[1].events, 6);
    assert_eq!(pick_session(&infos, "2"), Some("aaa".to_string()));
}

#[test]
fn resume_choice_reads_the_number_before_the_paren() {
    let v = vec![info("a", 3), info("b", 2)];
    assert_eq!(resume_choice(&v, "2) fix the parser"), Some("b".to_string()));
    assert_eq!(resume_choice(&v, "1"), Some("a".to_string()));
    assert_eq!(resume_choice(&v, "3) gone"), None);
    assert_eq!(resume_choice(&v, ") none"), None);
    assert_eq!(resume_choice(&vec![], "1) x"), None);
}
