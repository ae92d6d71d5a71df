use hs_loop::json::{Json, JsonNumber};
use hs_loop::mission_time::{parse_ms, tool_signature, Decomposition, MissionEvent, MissionEventKind, MissionTime};

fn zero() -> Decomposition {
    Decomposition::default()
}

#[test]
fn first_ms_figure_is_read() {
    assert_eq!(parse_ms("resume tier B took 1200ms"), 1200);
    assert_eq!(parse_ms("12ms then 30ms"), 12);
    assert_eq!(parse_ms("5msx 7ms."), 7);
    assert_eq!(parse_ms("no figure"), 0);
    assert_eq!(parse_ms("99999999999999999999999ms"), u64::MAX);
    assert_eq!(parse_ms("ms 4 ms"), 0);
}

#[test]
fn hot_path_and_terms() {
    let mut d = zero();
    d.t_model_ms = 1000;
    d.t_overhead_ms = 200;
    d.t_recover_ms = 30;
    d.c_coord_ms = 5;
    d.s_stuck_ms = 100;
    assert_eq!(d.hot_path_ms(), 1200);
    assert_eq!(d.terms_ms(), 1335);
}

#[test]
fn report_lines_are_exact() {
    let mut d = zero();
    d.n_steps = 4;
    d.t_model_ms = 1;
    d.t_overhead_ms = 10;
    d.wall_ms = -3;
    d.unattributed_ms = -14;
    let lines = d.report_lines("m1", "0.2", "2.5");
    assert_eq!(lines.len(), 11);
    assert_eq!(lines[1], "mission=m1");
    assert_eq!(lines[2], "N_steps=4");
    assert_eq!(lines[3], "t_model_total_ms=1 avg_ms_per_step=0.2");
    assert_eq!(lines[4], "t_overhead_total_ms=10 avg_ms_per_step=2.5");
    assert_eq!(lines[5], "hot_path_ms=11 (= N_steps * (t_model + t_overhead))");
    assert_eq!(lines[9], "terms_total_ms=11");
    assert_eq!(lines[10], "wall_ms=-3 unattributed_ms=-14");
    let mut e = zero();
    e.t_model_ms = 1000;
    e.n_steps = 3;
    assert_eq!(e.report_lines("x", "333.3", "0.0")[3], "t_model_total_ms=1000 avg_ms_per_step=333.3");
    assert_eq!(zero().report_lines("x", "0.0", "0.0")[4], "t_overhead_total_ms=0 avg_ms_per_step=0.0");
}

#[test]
fn the_report_file_name_is_path_safe() {
    assert_eq!(hs_loop::mission_time::report_file_name("task-1"), "t-mission-task-1.txt");
    assert_eq!(hs_loop::mission_time::report_file_name("a/b c.d"), "t-mission-a_b_c_d.txt");
    assert_eq!(hs_loop::mission_time::report_file_name("résumé_2"), "t-mission-résumé_2.txt");
}

fn doc(members: Vec<(&str, Json)>) -> Option<Json> {
    Some(Json::Object(members.into_iter().map(|(k, v)| (k.to_string(), v)).collect()))
}

fn ev(kind: MissionEventKind, latency_ms: u32, ts: i64, text: &str, d: Option<Json>) -> MissionEvent {
    MissionEvent { kind, latency_ms, ts_wall_ms: ts, text: text.to_string(), doc: d }
}

#[test]
fn decomposition_of_a_log() {
    let read = || doc(vec![("args", Json::Object(vec![("path".to_string(), Json::Str("a  b".to_string()))])), ("plugin", Json::Str("repo.read".to_string()))]);
    let read2 = || doc(vec![("args", Json::Object(vec![("path".to_string(), Json::Str("a b".to_string()))])), ("plugin", Json::Str("repo.read".to_string()))]);
    let events = vec![
        ev(MissionEventKind::ModelCall, 100, 1000, "", doc(vec![("assembly_ms", Json::Number(JsonNumber::PosInt(20)))])),
        ev(MissionEventKind::ToolCall, 3, 1100, "", read()),
        ev(MissionEventKind::ModelCall, 200, 1300, "not json", None),
        ev(MissionEventKind::ToolCall, 3, 1500, "", read2()),
        ev(MissionEventKind::Message, 5, 1600, "", None),
        ev(MissionEventKind::Feedback, 0, 1700, "recovery took 30ms", None),
        ev(MissionEventKind::Observation, 0, 1800, "plain", None),
    ];
    let d = MissionTime::decompose(&events);
    assert_eq!(d.n_steps, 2);
    assert_eq!(d.t_model_ms, 300);
    assert_eq!(d.t_overhead_ms, 20);
    assert_eq!(d.s_stuck_repeats, 1);
    assert_eq!(d.s_stuck_ms, 200);
    assert_eq!(d.c_coord_events, 1);
    assert_eq!(d.c_coord_ms, 5);
    assert_eq!(d.r_failures, 1);
    assert_eq!(d.t_recover_ms, 30);
    assert_eq!(d.wall_ms, 800);
    assert_eq!(d.unattributed_ms, 800 - 555);
    let empty = MissionTime::decompose(&vec![]);
    assert_eq!(empty.n_steps, 0);
    assert_eq!(empty.wall_ms, 0);
}

#[test]
fn signatures_need_plugin_and_args() {
    let sig = tool_signature(&doc(vec![("args", Json::Null), ("plugin", Json::Str("p".to_string()))]));
    assert_eq!(sig.map(|v| v.into_iter().collect::<String>()), Some("p|null".to_string()));
    assert_eq!(tool_signature(&doc(vec![("plugin", Json::Str("p".to_string()))])), None);
    assert_eq!(tool_signature(&None), None);
}
