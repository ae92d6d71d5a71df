use hs_loop::goal::{classify_env_failure, f2p_command, verify, verify_verdict, GoalSpec, GoalVerdict};
use hs_loop::json::{Json, JsonNumber};
use hs_loop::mcpbridge::{check_path_allowed, check_path_args, echo, namespaced_tool, normalize_path_exec, EchoRequest, McpServerConfig};

fn result(exit: i64, stderr: &str, applied: bool) -> Json {
    let code = if exit < 0 { JsonNumber::NegInt(exit) } else { JsonNumber::PosInt(exit as u64) };
    Json::Object(vec![
        ("applied".to_string(), Json::Bool(applied)),
        ("exit_code".to_string(), Json::Number(code)),
        ("stderr".to_string(), Json::Str(stderr.to_string())),
    ])
}

#[test]
fn missing_tool_is_env_limited() {
    let r = result(127, "sh: 1: pytest: command not found\n", true);
    assert_eq!(classify_env_failure(&r), Some("sandbox lacks pytest (exit 127)".to_string()));
    assert!(matches!(verify_verdict(&r), GoalVerdict::EnvLimited(t) if t == "sandbox lacks pytest (exit 127)"));
    let f = result(127, "warn\nbash: /x/run: No such file or directory  \n", true);
    assert_eq!(classify_env_failure(&f), Some("sandbox missing file: bash: /x/run: No such file or directory".to_string()));
    assert_eq!(classify_env_failure(&result(127, "", true)), Some("exit 127 (command not found)".to_string()));
    assert_eq!(classify_env_failure(&result(127, ": command not found", true)), Some("sandbox lacks <unknown> (exit 127)".to_string()));
}

#[test]
fn real_red_is_fail_and_green_is_pass() {
    let red = result(1, "sh: 1: x: command not found", true);
    assert_eq!(classify_env_failure(&red), None);
    assert!(matches!(verify_verdict(&red), GoalVerdict::Fail));
    assert!(!verify(&red));
    let green = result(0, "", true);
    assert!(matches!(verify_verdict(&green), GoalVerdict::Pass));
    assert!(verify(&green));
    assert!(!verify(&result(0, "", false)));
}

#[test]
fn f2p_commands_are_chained() {
    let g = GoalSpec { ws: "/ws".to_string(), f2p: vec!["pytest a".to_string(), "pytest b".to_string()], timeout_secs: 60 };
    assert_eq!(f2p_command(&g), "pytest a && pytest b");
}

#[test]
fn tools_are_namespaced() {
    assert_eq!(namespaced_tool("fs", "read"), "mcp.fs.read");
    assert_eq!(echo(EchoRequest { text: "hi".to_string() }), "hi");
}

#[test]
fn paths_normalize_lexically() {
    assert_eq!(normalize_path_exec("/work/a/../b/./c//").into_iter().collect::<String>(), "/work/b/c");
    assert_eq!(normalize_path_exec("../../etc").into_iter().collect::<String>(), "/etc");
    assert_eq!(normalize_path_exec("").into_iter().collect::<String>(), "/");
}

#[test]
fn allowed_roots_are_enforced_deny_by_default() {
    let cfg = McpServerConfig { name: "fs".to_string(), command: vec!["srv".to_string()], allowed_roots: vec!["/work/".to_string()] };
    assert_eq!(check_path_allowed(&cfg, "/work/a/../b"), Ok(()));
    assert_eq!(check_path_allowed(&cfg, "/work"), Ok(()));
    assert_eq!(
        check_path_allowed(&cfg, "/work/../etc/passwd"),
        Err("mcp.fs: path /work/../etc/passwd outside allowed_roots [\"/work/\"] (deny by default)".to_string())
    );
    assert_eq!(check_path_allowed(&cfg, "/workshop"), Err("mcp.fs: path /workshop outside allowed_roots [\"/work/\"] (deny by default)".to_string()));
    let none = McpServerConfig { name: "x".to_string(), command: vec![], allowed_roots: vec![] };
    assert_eq!(check_path_allowed(&none, "/"), Err("mcp.x: path / outside allowed_roots [] (deny by default)".to_string()));
}

#[test]
fn path_args_are_checked_before_the_server_spawns() {
    let cfg = McpServerConfig { name: "fs".to_string(), command: vec!["srv".to_string()], allowed_roots: vec!["/work/".to_string()] };
    let args = Json::Object(vec![
        ("count".to_string(), Json::Number(JsonNumber::PosInt(3))),
        ("dest".to_string(), Json::Str("/etc/passwd".to_string())),
        ("src".to_string(), Json::Str("/work/a.txt".to_string())),
    ]);
    assert_eq!(check_path_args(&cfg, &args, "src"), Ok(()));
    assert_eq!(check_path_args(&cfg, &args, " src , ,count,missing"), Ok(()));
    assert_eq!(
        check_path_args(&cfg, &args, "src,dest"),
        Err("mcp.fs: path /etc/passwd outside allowed_roots [\"/work/\"] (deny by default)".to_string())
    );
    assert_eq!(check_path_args(&cfg, &args, ""), Ok(()));
}
