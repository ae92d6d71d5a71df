use hs_loop::json::Json;
use hs_loop::repl::{
    add_provider_plan, capped_resume_notice, default_session_dir, native_tool_names, offer_unique, command_completions, goal_slug, parse_command,
    rig_model_names, rig_plugin_dir, set_default_model_text, toml_upsert, truncate60, usd_literal,
    valid_base_url, valid_model_id, valid_provider_name, AddProviderWizard, ReplCommand, WizardFeed,
};

#[test]
fn commands_parse_with_either_sigil() {
    assert_eq!(parse_command("/quit"), ReplCommand::Quit);
    assert_eq!(parse_command("  :q  "), ReplCommand::Quit);
    assert_eq!(parse_command("/h"), ReplCommand::Help);
    assert_eq!(parse_command(":status"), ReplCommand::Status);
    assert_eq!(parse_command("/snapshot"), ReplCommand::Snapshot);
    assert_eq!(parse_command(":restore  abc "), ReplCommand::Restore("abc".to_string()));
    assert_eq!(parse_command("/restore"), ReplCommand::Restore(String::new()));
    assert_eq!(parse_command("/history"), ReplCommand::History);
    assert_eq!(parse_command(":last"), ReplCommand::LastAnswer);
    assert_eq!(parse_command("/bogus"), ReplCommand::Unknown(":bogus".to_string()));
    assert_eq!(parse_command("  fix the bug "), ReplCommand::Goal("fix the bug".to_string()));
}

#[test]
fn goal_slugs_are_path_safe() {
    assert_eq!(goal_slug("Fix the Bug!! in parser.rs"), "fix-the-bug-in-parser-rs");
    assert_eq!(goal_slug("!!!"), "goal");
    assert_eq!(goal_slug("--a/b--"), "a-b");
    let long = "word ".repeat(20);
    let s = goal_slug(&long);
    assert!(s.len() <= 40);
    assert_eq!(s, "word-word-word-word-word-word-word-word");
    assert_eq!(goal_slug("ÀB"), "àb".chars().filter(|c| c.is_ascii_alphanumeric()).collect::<String>());
}

#[test]
fn dollar_literals_are_floats() {
    assert_eq!(usd_literal(100_000_000), "100.0");
    assert_eq!(usd_literal(1_500_000), "1.5");
    assert_eq!(usd_literal(1), "0.000001");
    assert_eq!(usd_literal(0), "0.0");
    assert_eq!(usd_literal(12_340_000), "12.34");
}

#[test]
fn previews_and_notices() {
    assert_eq!(truncate60(&"a".repeat(60)), "a".repeat(60));
    assert_eq!(truncate60(&"a".repeat(61)), format!("{}\u{2026}", "a".repeat(59)));
    assert_eq!(
        capped_resume_notice(Some("steps_exhausted")),
        Some("\u{26a0} last mission ended at the cap (steps_exhausted) - raise it with /caps (e.g. /caps steps 100) before re-running the goal".to_string())
    );
    assert_eq!(capped_resume_notice(Some("wall_killed")).is_some(), true);
    assert_eq!(capped_resume_notice(Some("passed")), None);
    assert_eq!(capped_resume_notice(None), None);
}

#[test]
fn completions() {
    assert_eq!(command_completions("/s"), vec!["/snapshot".to_string(), "/status".to_string()]);
    assert_eq!(command_completions(":h"), vec![":help".to_string(), ":history".to_string()]);
    assert_eq!(command_completions("/"), vec!["/help", "/history", "/last", "/quit", "/restore", "/snapshot", "/status"]);
    assert!(command_completions("hello").is_empty());
    assert!(command_completions("").is_empty());
}

#[test]
fn provider_field_validation() {
    assert!(valid_provider_name("open-router2"));
    assert!(!valid_provider_name("-x"));
    assert!(!valid_provider_name("Open"));
    assert!(!valid_provider_name(""));
    assert!(valid_base_url("https://api.x/v1"));
    assert!(valid_base_url("http://h"));
    assert!(!valid_base_url("https://"));
    assert!(!valid_base_url("ftp://h"));
    assert!(!valid_base_url("https://a b"));
    assert!(valid_model_id("openai/gpt-5.2"));
    assert!(!valid_model_id("a\"b"));
    assert!(!valid_model_id(""));
}

#[test]
fn wizard_walks_its_steps() {
    let mut w = AddProviderWizard::new();
    assert_eq!(w.prompt(), "provider name (lowercase, e.g. openrouter):");
    assert!(!w.is_secret());
    assert_eq!(w.feed("Bad").unwrap_err(), "bad name \"Bad\" - lowercase letters, digits, dashes");
    assert_eq!(w.feed("   ").unwrap_err(), "empty - type a value, or /cancel to stop");
    assert!(matches!(w.feed("openrouter"), Ok(WizardFeed::Next(p)) if p.starts_with("base URL")));
    assert_eq!(w.feed("ftp://x").unwrap_err(), "bad base URL \"ftp://x\" - starts http:// or https://");
    assert!(matches!(w.feed(" https://openrouter.ai/api/v1/chat/completions "), Ok(WizardFeed::Next(p)) if p == "model id (e.g. openai/gpt-5.2):"));
    assert!(matches!(w.feed("openai/gpt-5.2"), Ok(WizardFeed::Next(p)) if p.starts_with("API key")));
    assert!(w.is_secret());
    assert_eq!(w.feed("k e y").unwrap_err(), "the key contains whitespace - paste it exactly as issued");
    match w.feed("sk-123") {
        Ok(WizardFeed::Ready { name, base_url, model, key }) => {
            assert_eq!(name, "openrouter");
            assert_eq!(base_url, "https://openrouter.ai/api/v1/chat/completions");
            assert_eq!(model, "openai/gpt-5.2");
            assert_eq!(key, "sk-123");
        }
        other => panic!("unexpected {other:?}"),
    }
    assert!(matches!(w.feed("/cancel"), Ok(WizardFeed::Cancelled)));
}

const RIG: &str = "[run]\nmax_steps = 5\n\n[[models]]\nname = \"alpha\"\ncommand = [\"/opt/hs/bin/hs-plugin-model\"]\ndefault = true\n\n[[models]]\nname = \"beta\"\ncommand = [\"/opt/hs/bin/hs-plugin-model\", \"beta\"]\n# default = true\n";

#[test]
fn default_model_flips() {
    let out = set_default_model_text(RIG, "beta").unwrap();
    assert_eq!(
        out,
        "[run]\nmax_steps = 5\n\n[[models]]\nname = \"alpha\"\ncommand = [\"/opt/hs/bin/hs-plugin-model\"]\n\n[[models]]\nname = \"beta\"\ndefault = true\ncommand = [\"/opt/hs/bin/hs-plugin-model\", \"beta\"]\n# default = true\n"
    );
    assert_eq!(
        set_default_model_text(RIG, "gamma"),
        Err("unknown model \"gamma\" (known: alpha, beta)".to_string())
    );
}

#[test]
fn toml_keys_upsert() {
    let t = "[caps]\nmax_steps = 5\n# keep\n[other]\nx = 1\n";
    assert_eq!(toml_upsert(t, "caps", "max_steps", Some("9")).unwrap(), "[caps]\nmax_steps = 9\n# keep\n[other]\nx = 1\n");
    assert_eq!(toml_upsert(t, "caps", "wall_secs", Some("60")).unwrap(), "[caps]\nwall_secs = 60\nmax_steps = 5\n# keep\n[other]\nx = 1\n");
    assert_eq!(toml_upsert(t, "caps", "max_steps", None).unwrap(), "[caps]\n# keep\n[other]\nx = 1\n");
    assert_eq!(toml_upsert(t, "new", "k", Some("1")).unwrap(), "[caps]\nmax_steps = 5\n# keep\n[other]\nx = 1\n\n[new]\nk = 1\n");
    assert_eq!(toml_upsert("", "s", "k", Some("v")).unwrap(), "[s]\nk = v");
    assert_eq!(toml_upsert(t, "new", "k", None).unwrap(), t);
    assert_eq!(toml_upsert(t, "a]b", "k", Some("1")), Err("bad section/key for toml_upsert: [a]b] k".to_string()));
    assert_eq!(toml_upsert(t, "s", "k=v", Some("1")), Err("bad section/key for toml_upsert: [s] k=v".to_string()));
}

#[test]
fn rig_reads() {
    assert_eq!(rig_model_names(RIG), vec!["alpha".to_string(), "beta".to_string()]);
    assert_eq!(rig_plugin_dir(RIG), Ok("/opt/hs/bin".to_string()));
    assert_eq!(rig_plugin_dir("[run]\ncommand = \"x\"\n"), Err("no [[models]] command found in the rig".to_string()));
    assert_eq!(rig_plugin_dir("[[models]]\ncommand = [x]\n"), Err("[[models]] command has no quoted path".to_string()));
    assert_eq!(rig_plugin_dir("[[models]]\ncommand = [\"x\n"), Err("[[models]] command path unterminated".to_string()));
    assert_eq!(rig_plugin_dir("[[models]]\ncommand = [\"\"]\n"), Err("[[models]] command path has no parent dir".to_string()));
}

#[test]
fn provider_addition_plans_both_files() {
    let (prov, rig) = add_provider_plan(RIG, &None, " openrouter ", "https://openrouter.ai/api/v1/chat/completions", "m/1").unwrap();
    assert_eq!(
        prov,
        "# Declared from the TUI (/models add); the generic provmodel plugin serves them.\n[[providers]]\nname = \"openrouter\"\nbase_url = \"https://openrouter.ai/api/v1/chat/completions\"\nmodel = \"m/1\"\n"
    );
    assert!(rig.ends_with("\n[[models]]\nname = \"openrouter\"\ncommand = [\"/opt/hs/bin/hs-plugin-provmodel\", \"openrouter\"]\nsubjects = [\"*\"]\n"));
    assert_eq!(add_provider_plan(RIG, &None, "glm", "https://x", "m"), Err("glm is built in already".to_string()));
    assert_eq!(add_provider_plan(RIG, &None, "alpha", "https://x", "m"), Err("model \"alpha\" already exists in the rig".to_string()));
    let existing = Some(Ok(("[[providers]]\nname = \"zed\"\nbase_url = \"https://z\"\nmodel = \"m\"".to_string(), vec!["zed".to_string()])));
    assert_eq!(add_provider_plan(RIG, &existing, "zed", "https://x", "m"), Err("provider \"zed\" already declared".to_string()));
    let (prov2, _) = add_provider_plan(RIG, &existing, "next", "https://x", "m").unwrap();
    assert!(prov2.starts_with("[[providers]]\nname = \"zed\"\nbase_url = \"https://z\"\nmodel = \"m\"\n\n[[providers]]\nname = \"next\""));
    let broken = Some(Ok(("[[providers\n".to_string(), vec![])));
    assert!(add_provider_plan(RIG, &broken, "next", "https://x", "m").unwrap_err().starts_with("providers TOML would not parse: "));
    assert_eq!(add_provider_plan(RIG, &Some(Err("load failed".to_string())), "next", "https://x", "m"), Err("load failed".to_string()));
    assert_eq!(add_provider_plan(RIG, &None, "x", "nope", "m"), Err("bad base URL \"nope\" - the http(s) chat completions endpoint".to_string()));
}

#[test]
fn mission_ids_take_the_first_free_suffix() {
    let used = vec!["fix-bug".to_string(), "fix-bug-2".to_string(), "other".to_string()];
    assert_eq!(hs_loop::repl::mission_id_for(&used, "Fix bug"), "fix-bug-3");
    assert_eq!(hs_loop::repl::mission_id_for(&used, "new goal"), "new-goal");
    assert_eq!(hs_loop::repl::mission_id_for(&vec![], "Fix bug"), "fix-bug");
    let used = vec!["a".to_string(), "a-3".to_string()];
    assert_eq!(hs_loop::repl::mission_id_for(&used, "a"), "a-2");
}

fn schema(name: &str) -> Json {
    Json::Object(vec![
        (
            "function".to_string(),
            Json::Object(vec![("name".to_string(), Json::Str(name.to_string()))]),
        ),
        ("type".to_string(), Json::Str("function".to_string())),
    ])
}

fn names(tools: &[Json]) -> Vec<String> {
    tools
        .iter()
        .map(|t| match t {
            Json::Object(m) => match &m[0].1 {
                Json::Object(f) => match &f[0].1 {
                    Json::Str(s) => s.clone(),
                    _ => String::new(),
                },
                _ => String::new(),
            },
            _ => String::new(),
        })
        .collect()
}

#[test]
fn offered_tools_stay_unique() {
    let mut tools = vec![schema("agent_spawn"), schema("term_exec")];
    offer_unique(&mut tools, schema("agent_spawn"));
    assert_eq!(names(&tools), vec!["agent_spawn", "term_exec"]);
    offer_unique(&mut tools, schema("agent_spawn_poll"));
    assert_eq!(names(&tools), vec!["agent_spawn", "term_exec", "agent_spawn_poll"]);
    // a schema without a name is offered unless an empty name is taken
    let mut tools = vec![schema("x")];
    offer_unique(&mut tools, Json::Null);
    assert_eq!(tools.len(), 2);
}

#[test]
fn native_tool_names_skip_unnamed_schemas() {
    let tools = Json::Array(vec![schema("term_exec"), Json::Null, schema("answer_submit")]);
    assert_eq!(native_tool_names(Some(&tools)), vec!["term_exec".to_string(), "answer_submit".to_string()]);
    assert!(native_tool_names(None).is_empty());
    assert!(native_tool_names(Some(&Json::Null)).is_empty());
}

#[test]
fn session_dir_prefers_xdg_data_home() {
    assert_eq!(default_session_dir(Some("/x/data"), Some("/home/u")), "/x/data/hairspring/run");
    assert_eq!(default_session_dir(Some(""), Some("/home/u")), "/home/u/.local/share/hairspring/run");
    assert_eq!(default_session_dir(None, Some("/home/u/")), "/home/u/.local/share/hairspring/run");
    assert_eq!(default_session_dir(None, None), "./.local/share/hairspring/run");
}

#[test]
fn every_other_active_default_goes_whatever_its_spacing() {
    let text = "[[models]]\nname = \"a\"\ndefault=true\n\n[[models]]\nname = \"b\"\n";
    assert_eq!(
        set_default_model_text(text, "b").unwrap(),
        "[[models]]\nname = \"a\"\n\n[[models]]\nname = \"b\"\ndefault = true\n"
    );
    let commented = "[[models]]\nname = \"a\"\n# default = true\n[[models]]\nname = \"b\"\n";
    assert_eq!(
        set_default_model_text(commented, "b").unwrap(),
        "[[models]]\nname = \"a\"\n# default = true\n[[models]]\nname = \"b\"\ndefault = true\n"
    );
}

#[test]
fn upsert_keeps_trailing_blank_lines_and_crlf() {
    assert_eq!(toml_upsert("[run]\nmax_steps = 5\n\n", "run", "max_steps", Some("9")).unwrap(), "[run]\nmax_steps = 9\n\n");
    assert_eq!(
        toml_upsert("[run]\r\nmax_steps = 5\r\nx = 1\r\n", "run", "max_steps", Some("9")).unwrap(),
        "[run]\r\nmax_steps = 9\r\nx = 1\r\n"
    );
    assert_eq!(
        toml_upsert("[run]\r\nx = 1\r\n", "run", "wall_secs", Some("60")).unwrap(),
        "[run]\r\nwall_secs = 60\r\nx = 1\r\n"
    );
    let t = "a = 1\r\n\r\n# tail\n\n\n";
    assert_eq!(toml_upsert(t, "run", "k", None).unwrap(), t);
    assert_eq!(toml_upsert("[run]\nk = 1\n\n", "run", "k", None).unwrap(), "[run]\n\n");
}

#[test]
fn slugs_are_fixed_points_without_double_dashes() {
    for g in ["Fix the Bug!! in parser.rs", "!!!", "--a/b--", "A  B", "x".repeat(60).as_str()] {
        let s = goal_slug(g);
        assert!(!s.contains("--"));
        assert_eq!(goal_slug(&s), s);
    }
}
