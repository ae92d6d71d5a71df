use hs_loop::config::{cap_edit, configured_context_tokens, configured_critic_caps, configured_max_steps, configured_model_label, configured_wall_secs};

#[test]
fn run_caps_are_read_and_clamped() {
    let text = "[run]\nmax_steps = 0\nwall_secs = -5\n";
    assert_eq!(configured_max_steps(text), Some(1));
    assert_eq!(configured_wall_secs(text), Some(0));
    let text = "[run]\nmax_steps = 40\nwall_secs = 900\n";
    assert_eq!(configured_max_steps(text), Some(40));
    assert_eq!(configured_wall_secs(text), Some(900));
    assert_eq!(configured_max_steps("[run]\nmax_steps = 5000000000\n"), None);
    assert_eq!(configured_max_steps(""), None);
    assert_eq!(configured_max_steps("run = 3\n"), None);
    assert_eq!(configured_max_steps("[run]\nmax_steps = \"9\"\n"), None);
    assert_eq!(configured_max_steps("[run]\nmax_steps = 9.0\n"), None);
}

#[test]
fn text_that_is_not_toml_reads_as_unset() {
    assert_eq!(configured_max_steps("[run\nmax_steps = 4\n"), None);
    assert_eq!(configured_wall_secs("[run]\nwall_secs = = 4\n"), None);
    assert_eq!(configured_critic_caps("[critic]\nmax_steps = 3\nmax_steps = 4\n"), (None, None, None));
    assert_eq!(configured_model_label("[[models]\nname = \"a\"\n"), None);
    assert_eq!(configured_context_tokens("not toml at all"), None);
}

#[test]
fn critic_caps_come_from_their_table() {
    let text = "[run]\nmax_steps = 2\n\n[critic]\nbudget_micros = 250000\nmax_steps = 12\n";
    assert_eq!(configured_critic_caps(text), (Some(12), None, Some(250_000)));
    assert_eq!(configured_critic_caps(""), (None, None, None));
    assert_eq!(configured_critic_caps("[critic]\nwall_secs = -1\n"), (None, Some(0), None));
}

#[test]
fn the_default_model_labels_the_session() {
    let text = "[[models]]\nname = \"a\"\n\n[[models]]\nname = \"b\"\ndefault = true\n\n[[models]]\nname = \"c\"\ndefault = true\n";
    assert_eq!(configured_model_label(text), Some("b".to_string()));
    let text = "[[models]]\nname = \"a\"\ndefault = false\n\n[[models]]\nname = \"b\"\n";
    assert_eq!(configured_model_label(text), Some("a".to_string()));
    assert_eq!(configured_model_label("models = []\n"), None);
    assert_eq!(configured_model_label(""), None);
    assert_eq!(configured_model_label("[[models]]\ndefault = true\n"), None);
}

#[test]
fn cap_changes_edit_the_config_text() {
    let text = "[run]\nmax_steps = 10\nbudget_micros = 5\n";
    assert_eq!(cap_edit(text, "steps", "40", None), Ok("[run]\nmax_steps = 40\nbudget_micros = 5\n".to_string()));
    assert_eq!(cap_edit(text, "steps", "off", None), Ok("[run]\nbudget_micros = 5\n".to_string()));
    assert_eq!(cap_edit(text, "steps", "x", None), Err("steps needs a number (or off), got 'x'".to_string()));
    assert_eq!(cap_edit(text, "wall", "600", None), Ok("[run]\nwall_secs = 600\nmax_steps = 10\nbudget_micros = 5\n".to_string()));
    assert_eq!(
        cap_edit(text, "budget", "$2", Some(2_000_000)),
        Ok("[run]\nbudget_usd = 2.0\nmax_steps = 10\n".to_string())
    );
    assert_eq!(cap_edit(text, "budget", "lots", None), Err("budget needs dollars (or off), got 'lots'".to_string()));
    assert_eq!(
        cap_edit(text, "critic-budget", "0.25", Some(250_000)),
        Ok("[run]\nmax_steps = 10\nbudget_micros = 5\n\n[critic]\nbudget_micros = 250000\n".to_string())
    );
    assert_eq!(cap_edit(text, "critic-steps", "off", None), Err("critic-steps needs a number, got 'off'".to_string()));
    assert_eq!(cap_edit(text, "speed", "1", None), Err("unknown cap 'speed'".to_string()));
}

#[test]
fn context_tokens_come_from_the_default_model() {
    let text = "[[models]]\nname = \"a\"\ncontext_tokens = 100000\n\n[[models]]\nname = \"b\"\ndefault = true\ncontext_tokens = 1048576\n";
    assert_eq!(configured_context_tokens(text), Some(1_048_576));
    assert_eq!(configured_context_tokens("[[models]]\nname = \"x\"\n"), None);
    assert_eq!(configured_context_tokens(""), None);
}
