//! The agent loop's verified core: the loop's evidence ledger, the
//! guardrails around repo.exec, the independent critic's decisions, the
//! model client's retry policy, the goal evaluator, the MCP bridge's path
//! rules, search/replace edits, the mission-time decomposition, the
//! benchmark publication's arithmetic, the meta-harness proposal checks,
//! the recall predictor, the mission-close rows, and the REPL's text
//! rules. Everything that touches processes, files,
//! terminals or the network lives outside this crate and hands plain
//! values in.
use vstd::prelude::*;

pub mod text;
pub mod assembler;
pub mod json;
pub mod ledger;
pub mod repexec;
pub mod config;
pub mod critic;
pub mod realmodel;
pub mod goal;
pub mod mcpbridge;
pub mod editapply;
pub mod mission;
pub mod mission_time;
pub mod publication;
pub mod repl;
pub mod sessions;
pub mod meta_harness;
pub mod evolve;
pub mod cli;
pub mod recall;
pub mod stream;
pub mod scripted;

use crate::json::{as_str, as_u64, get, get_u64, Json, JsonNumber};
use crate::text::{chars_of, extend_chars, extend_str, string_of, trim_end_char, trim_end_char_chars};

verus! {

broadcast use vstd::string::group_string_axioms;

/// The input budget when the model's context is not known.
pub const DEFAULT_CONTEXT_BUDGET_TOKENS: usize = 983_040;

/// Default per-mission step cap for the live REPL loop.
pub const DEFAULT_MISSION_MAX_STEPS: u32 = 50;

/// The input budget for a model: its verified context minus an output
/// and reasoning reserve (kimi-k3: a 1M-token context, 64k reserved);
/// unknown models fall back conservatively.
pub open spec fn budget_for_model_spec(model: Seq<char>) -> usize {
    if model == "kimi-k3"@ {
        983_040
    } else {
        200_000
    }
}

pub fn default_budget_for_model(model: &str) -> (r: usize)
    ensures
        r == budget_for_model_spec(model@),
{
    let v = chars_of(model);
    if crate::text::eq_str(&v, "kimi-k3") {
        1_048_576 - 65_536
    } else {
        200_000
    }
}

/// The volatile ARTIFACT block: the answer file as it stands on disk (the
/// exact text the checker grades), its trailing newlines dropped, or
/// `<none>` when empty.
pub open spec fn artifact_section_spec(answer_path: Seq<char>, artifact: Seq<char>) -> Seq<char> {
    let shown = if artifact.len() == 0 {
        "<none>"@
    } else {
        trim_end_char(artifact, '\n')
    };
    "\nANSWER_PATH: "@ + answer_path
        + "\nARTIFACT (the graded answer file on disk - updated ONLY by answer.submit; NOT live candidate state):\n"@
        + shown + "\n"@
}

/// Render the ARTIFACT block. It is labelled as the graded file, updated
/// only by answer.submit - not live candidate state. Content is shown
/// untrimmed but for the trailing newline run: structural whitespace is
/// load-bearing in diffs. `answer_path` is the path as displayed.
pub fn artifact_section(answer_path: &str, artifact: &str) -> (r: String)
    ensures
        r@ == artifact_section_spec(answer_path@, artifact@),
{
    let av = chars_of(artifact);
    let shown = if av.len() == 0 {
        proof {
            reveal_strlit("<none>");
        }
        chars_of("<none>")
    } else {
        trim_end_char_chars(&av, '\n')
    };
    let mut t = chars_of("\nANSWER_PATH: ");
    extend_str(&mut t, answer_path);
    extend_str(
        &mut t,
        "\nARTIFACT (the graded answer file on disk - updated ONLY by answer.submit; NOT live candidate state):\n",
    );
    extend_chars(&mut t, &shown);
    extend_str(&mut t, "\n");
    string_of(&t)
}

/// The gaps of earlier verification rounds as a list (`none` when there
/// were none).
pub open spec fn gaps_text(gaps: Seq<Seq<char>>) -> Seq<char> {
    if gaps.len() == 0 {
        "none"@
    } else {
        crate::text::join(gaps.map_values(|g: Seq<char>| "- "@ + g), "\n"@)
    }
}

/// The verifier's prompt: audit recorded evidence only, refuted by default
/// when uncertain, and no ratcheting on re-rounds.
pub open spec fn verifier_prompt_spec(
    mission: Seq<char>,
    answer: Seq<char>,
    ledger_summary: Seq<char>,
    gaps: Seq<Seq<char>>,
) -> Seq<char> {
    "ADVERSARIAL VERIFIER\n"@
        + "You are not the agent that did this work. Default to refuted when uncertain a required criterion holds; never invent requirements. Audit the RECORDED evidence only - a prose claim of test output with no recorded run is fabricated: refute. On a re-verification round (PRIOR_GAPS non-empty), check that each prior gap is genuinely fixed plus demonstrable defects; a fresh stylistic objection a prior round implicitly accepted is out of scope - when every prior gap is fixed and the objective holds, return refuted false.\n"@
        + "OBJECTIVE: "@ + mission + "\n"@ + "ANSWER:\n"@ + answer + "\n"@
        + "LEDGER (recorded evidence):\n"@ + ledger_summary + "\n"@ + "PRIOR_GAPS:\n"@ + gaps_text(
        gaps,
    ) + "\n"@
        + "Submit the verdict by calling the verdict.submit tool exactly once - never prose, never bare JSON."@
}

/// The verifier's prompt for a mission's answer, from the ledger's
/// recorded evidence and the previous rounds' gaps.
pub fn build_verifier_prompt(
    mission: &str,
    answer: &str,
    ledger: &crate::ledger::Ledger,
    prior_gaps: &Vec<String>,
) -> (r: String)
    ensures
        r@ == verifier_prompt_spec(
            mission@,
            answer@,
            crate::ledger::summary_spec(ledger@),
            prior_gaps@.map_values(|g: String| g@),
        ),
{
    let ghost gv = prior_gaps@.map_values(|g: String| g@);
    let gaps: Vec<char> = if prior_gaps.len() == 0 {
        proof {
            reveal_strlit("none");
        }
        chars_of("none")
    } else {
        let mut parts: Vec<Vec<char>> = Vec::new();
        let mut i: usize = 0;
        while i < prior_gaps.len()
            invariant
                i <= prior_gaps.len(),
                gv == prior_gaps@.map_values(|g: String| g@),
                parts@.map_values(|p: Vec<char>| p@) == gv.map_values(|g: Seq<char>| "- "@ + g).take(
                    i as int,
                ),
            decreases prior_gaps.len() - i,
        {
            let mut p = chars_of("- ");
            extend_str(&mut p, prior_gaps[i].as_str());
            proof {
                assert(p@ == "- "@ + gv[i as int]);
                assert(parts@.push(p).map_values(|p: Vec<char>| p@) =~= parts@.map_values(
                    |p: Vec<char>| p@,
                ).push(p@));
                assert(gv.map_values(|g: Seq<char>| "- "@ + g).take(i + 1) =~= gv.map_values(
                    |g: Seq<char>| "- "@ + g,
                ).take(i as int).push("- "@ + gv[i as int]));
            }
            parts.push(p);
            i += 1;
        }
        proof {
            assert(gv.map_values(|g: Seq<char>| "- "@ + g).take(prior_gaps.len() as int) =~= gv.map_values(
                |g: Seq<char>| "- "@ + g,
            ));
        }
        let sep = chars_of("\n");
        crate::text::join_exec(&parts, &sep)
    };
    let mut p = chars_of("ADVERSARIAL VERIFIER\n");
    extend_str(
        &mut p,
        "You are not the agent that did this work. Default to refuted when uncertain a required criterion holds; never invent requirements. Audit the RECORDED evidence only - a prose claim of test output with no recorded run is fabricated: refute. On a re-verification round (PRIOR_GAPS non-empty), check that each prior gap is genuinely fixed plus demonstrable defects; a fresh stylistic objection a prior round implicitly accepted is out of scope - when every prior gap is fixed and the objective holds, return refuted false.\n",
    );
    extend_str(&mut p, "OBJECTIVE: ");
    extend_str(&mut p, mission);
    extend_str(&mut p, "\n");
    extend_str(&mut p, "ANSWER:\n");
    extend_str(&mut p, answer);
    extend_str(&mut p, "\n");
    extend_str(&mut p, "LEDGER (recorded evidence):\n");
    let summary = ledger.summary();
    extend_str(&mut p, summary.as_str());
    extend_str(&mut p, "\n");
    extend_str(&mut p, "PRIOR_GAPS:\n");
    extend_chars(&mut p, &gaps);
    extend_str(&mut p, "\n");
    extend_str(
        &mut p,
        "Submit the verdict by calling the verdict.submit tool exactly once - never prose, never bare JSON.",
    );
    string_of(&p)
}

// ------------------------------------------------------- loop helpers ---

/// Answer-path tools: without them no mission can land, so their death
/// ends the mission; the death of any other tool degrades to feedback.
pub open spec fn answer_path_tool(tool: Seq<char>) -> bool {
    tool == "answer.submit"@ || tool == "edit.patch"@ || tool == "edit.anchor"@ || tool == "answer.write"@
        || tool == "edit.apply"@
}

pub fn is_answer_path(tool: &str) -> (r: bool)
    ensures
        r == answer_path_tool(tool@),
{
    let t = chars_of(tool);
    crate::text::eq_str(&t, "answer.submit") || crate::text::eq_str(&t, "edit.patch")
        || crate::text::eq_str(&t, "edit.anchor") || crate::text::eq_str(&t, "answer.write")
        || crate::text::eq_str(&t, "edit.apply")
}

/// The first configured model marked default, from `i` (empty when none is).
pub open spec fn default_model_from(names: Seq<(Seq<char>, bool)>, i: int) -> Seq<char>
    decreases names.len() - i,
{
    if i < 0 || i >= names.len() {
        Seq::empty()
    } else if names[i].1 {
        names[i].0
    } else {
        default_model_from(names, i + 1)
    }
}

pub open spec fn model_names_view(names: Seq<(String, bool)>) -> Seq<(Seq<char>, bool)> {
    names.map_values(|n: (String, bool)| (n.0@, n.1))
}

/// The model the next call would use: the override when set, otherwise
/// the configured default (the first model marked default).
pub fn effective_model_name(model_override: &Option<String>, names: &Vec<(String, bool)>) -> (r: String)
    ensures
        r@ == match model_override {
            Some(m) => m@,
            None => default_model_from(model_names_view(names@), 0),
        },
{
    match model_override {
        Some(m) => string_of(&chars_of(m.as_str())),
        None => {
            let ghost nv = model_names_view(names@);
            let mut i: usize = 0;
            while i < names.len()
                invariant
                    i <= names.len(),
                    model_override is None,
                    nv == model_names_view(names@),
                    default_model_from(nv, 0) == default_model_from(nv, i as int),
                decreases names.len() - i,
            {
                assert(nv[i as int] == (names@[i as int].0@, names@[i as int].1));
                if names[i].1 {
                    return string_of(&chars_of(names[i].0.as_str()));
                }
                i += 1;
            }
            String::new()
        },
    }
}

/// The refusal of a runner whose kernel has no log root.
pub const BLIND_RUN_ERROR: &'static str = "kernel has no log root: visibility wiring inactive (dispatch records, stderr capture dead) - refusing to run blind";

/// Every production runner refuses to run without a log root: dispatch
/// records and stderr capture would be dead.
pub fn require_visibility(has_log_root: bool) -> (r: Result<(), String>)
    ensures
        has_log_root ==> r is Ok,
        !has_log_root ==> (r matches Err(e) && e@ == BLIND_RUN_ERROR@),
{
    if has_log_root {
        Ok(())
    } else {
        Err(string_of(&chars_of(BLIND_RUN_ERROR)))
    }
}

/// The trimmed non-blank lines (an inbox's entries, a task list's ids).
pub open spec fn nonblank_lines_spec(ls: Seq<Seq<char>>) -> Seq<Seq<char>>
    decreases ls.len(),
{
    if ls.len() == 0 {
        Seq::empty()
    } else {
        let rest = nonblank_lines_spec(ls.drop_last());
        let t = crate::text::trim(ls.last());
        if t.len() == 0 {
            rest
        } else {
            rest.push(t)
        }
    }
}

/// The entries of a steering or task inbox: its lines, trimmed, blank
/// ones dropped.
pub fn nonblank_lines(text: &str) -> (r: Vec<String>)
    ensures
        crate::text::strings_view(r@) == nonblank_lines_spec(crate::text::lines(text@)),
{
    let v = chars_of(text);
    let ls = crate::text::lines_exec(&v);
    let ghost lv = crate::text::lines(text@);
    let mut out: Vec<String> = Vec::new();
    let mut i: usize = 0;
    assert(lv.take(0) =~= Seq::<Seq<char>>::empty());
    assert(crate::text::strings_view(out@) =~= Seq::<Seq<char>>::empty());
    while i < ls.len()
        invariant
            i <= ls.len() == lv.len(),
            lv == crate::text::lines(text@),
            forall|j: int| 0 <= j < ls@.len() ==> #[trigger] ls@[j]@ == lv[j],
            crate::text::strings_view(out@) == nonblank_lines_spec(lv.take(i as int)),
        decreases ls.len() - i,
    {
        assert(lv.take(i + 1).drop_last() =~= lv.take(i as int));
        assert(ls@[i as int]@ == lv[i as int]);
        let t = crate::text::trim_chars(&ls[i]);
        let ghost before = crate::text::strings_view(out@);
        if t.len() > 0 {
            out.push(string_of(&t));
            assert(crate::text::strings_view(out@) =~= before.push(t@));
        }
        i += 1;
    }
    assert(lv.take(ls.len() as int) =~= lv);
    out
}

/// A task list: one task id per line (blank lines ignored); an empty list
/// is refused, naming the file (`path` as displayed).
pub fn parse_task_list(path: &str, text: &str) -> (r: Result<Vec<String>, String>)
    ensures
        nonblank_lines_spec(crate::text::lines(text@)).len() > 0 ==> (r matches Ok(ts)
            && crate::text::strings_view(ts@) == nonblank_lines_spec(crate::text::lines(text@))),
        nonblank_lines_spec(crate::text::lines(text@)).len() == 0 ==> (r matches Err(e) && e@ == "task list "@
            + path@ + " is empty"@),
{
    let tasks = nonblank_lines(text);
    if tasks.len() == 0 {
        let mut e = chars_of("task list ");
        extend_str(&mut e, path);
        extend_str(&mut e, " is empty");
        return Err(string_of(&e));
    }
    Ok(tasks)
}

// ------------------------------------------------------ mission close ---

/// A count from a loop checkpoint's text: the field when the text is one
/// JSON document whose field holds a non-negative integer, else 0 (also
/// when no checkpoint could be read).
pub open spec fn checkpoint_count(progress: Option<Seq<char>>, key: Seq<char>) -> u64 {
    match progress {
        Some(t) => match crate::critic::json_document(t) {
            Ok(v) => match crate::critic::json_member(v, key) {
                Some(m) => match crate::critic::json_u64(m) {
                    Some(n) => n,
                    None => 0,
                },
                None => 0,
            },
            Err(_) => 0,
        },
        None => 0,
    }
}

fn member_count(doc: &Option<serde_json::Value>, key: &str) -> (r: u64)
    ensures
        match doc {
            Some(v) => r == (match crate::critic::json_member(*v, key@) {
                Some(m) => match crate::critic::json_u64(m) {
                    Some(n) => n,
                    None => 0,
                },
                None => 0,
            }),
            None => r == 0,
        },
{
    match doc {
        Some(v) => match crate::critic::json_get(v, key) {
            Some(m) => match crate::critic::json_as_u64(m) {
                Some(n) => n,
                None => 0,
            },
            None => 0,
        },
        None => 0,
    }
}

/// The result row of a wall-clock kill booked from the loop's
/// checkpoint (`progress`, `None` when it could not be read): a failed,
/// not budget-killed run with outcome `wall_killed` that keeps the steps,
/// model calls and cost the checkpoint recorded. Members in key order.
pub open spec fn wall_kill_row_spec(r: Json, progress: Option<Seq<char>>, instance_id: Seq<char>, model: Seq<char>, feedback: bool) -> bool {
    &&& r is Object
    &&& r->Object_0@.len() == 9
    &&& r->Object_0@.map_values(|m: (String, Json)| m.0@) == seq![
        "budget_killed"@,
        "cost_micros"@,
        "feedback"@,
        "instance_id"@,
        "model"@,
        "model_calls"@,
        "outcome"@,
        "passed"@,
        "steps"@,
    ]
    &&& r->Object_0@[0].1 == Json::Bool(false)
    &&& r->Object_0@[1].1 == Json::Number(JsonNumber::PosInt(checkpoint_count(progress, "cost_micros"@)))
    &&& r->Object_0@[2].1 == Json::Bool(feedback)
    &&& as_str(r->Object_0@[3].1) == Some(instance_id)
    &&& as_str(r->Object_0@[4].1) == Some(model)
    &&& r->Object_0@[5].1 == Json::Number(JsonNumber::PosInt(checkpoint_count(progress, "model_calls"@)))
    &&& as_str(r->Object_0@[6].1) == Some("wall_killed"@)
    &&& r->Object_0@[7].1 == Json::Bool(false)
    &&& r->Object_0@[8].1 == Json::Number(JsonNumber::PosInt(checkpoint_count(progress, "steps"@)))
}

/// Book a wall-clock kill from the text of the loop's checkpoint (`None`
/// when it could not be read): the run did real work up to the
/// checkpointed step, so the row carries it.
pub fn book_wall_kill(progress: Option<&str>, instance_id: &str, model: &str, feedback: bool) -> (r: Json)
    ensures
        wall_kill_row_spec(
            r,
            match progress {
                Some(p) => Some(p@),
                None => None,
            },
            instance_id@,
            model@,
            feedback,
        ),
{
    let doc: Option<serde_json::Value> = match progress {
        Some(t) => match crate::critic::parse_json_document(t) {
            Ok(v) => Some(v),
            Err(_) => None,
        },
        None => None,
    };
    let cost = member_count(&doc, "cost_micros");
    let calls = member_count(&doc, "model_calls");
    let steps = member_count(&doc, "steps");
    let mut m: Vec<(String, Json)> = Vec::new();
    m.push((String::from_str("budget_killed"), Json::Bool(false)));
    m.push(
        (String::from_str("cost_micros"), Json::Number(JsonNumber::PosInt(cost))),
    );
    m.push((String::from_str("feedback"), Json::Bool(feedback)));
    m.push((String::from_str("instance_id"), Json::Str(String::from_str(instance_id))));
    m.push((String::from_str("model"), Json::Str(String::from_str(model))));
    m.push(
        (String::from_str("model_calls"), Json::Number(JsonNumber::PosInt(calls))),
    );
    m.push((String::from_str("outcome"), Json::Str(String::from_str("wall_killed"))));
    m.push((String::from_str("passed"), Json::Bool(false)));
    m.push((String::from_str("steps"), Json::Number(JsonNumber::PosInt(steps))));
    let ghost keys = m@.map_values(|e: (String, Json)| e.0@);
    assert(keys =~= seq![
        "budget_killed"@,
        "cost_micros"@,
        "feedback"@,
        "instance_id"@,
        "model"@,
        "model_calls"@,
        "outcome"@,
        "passed"@,
        "steps"@,
    ]);
    Json::Object(m)
}

/// A mission-close character of a world path: ASCII alphanumerics and
/// dashes stay, anything else becomes a dash.
pub open spec fn culture_char(c: char) -> char {
    if crate::text::is_ascii_alnum(c) || c == '-' {
        c
    } else {
        '-'
    }
}

/// Where a distilled memory record is proposed to the world at mission
/// close: procedural records as skills under `/skills`, all others as
/// notes under `/knowledge`, at the mission's path-safe name.
pub open spec fn culture_path_spec(kind: Seq<char>, mission: Seq<char>) -> Seq<char> {
    (if kind == "procedural"@ {
        "/skills/"@
    } else {
        "/knowledge/"@
    }) + mission.map_values(|c: char| culture_char(c))
}

/// Whether the record is a skill (else a note), and its world path.
pub fn culture_path(kind: &str, mission: &str) -> (r: (bool, String))
    ensures
        r.0 == (kind@ == "procedural"@),
        r.1@ == culture_path_spec(kind@, mission@),
{
    let skill = crate::text::eq_str(&chars_of(kind), "procedural");
    let mut out = if skill {
        chars_of("/skills/")
    } else {
        chars_of("/knowledge/")
    };
    let ghost prefix = out@;
    let mv = chars_of(mission);
    let mut i: usize = 0;
    while i < mv.len()
        invariant
            i <= mv.len(),
            mv@ == mission@,
            out@ == prefix + mv@.take(i as int).map_values(|c: char| culture_char(c)),
        decreases mv.len() - i,
    {
        let c = mv[i];
        let d = if crate::text::char_is_ascii_alnum(c) || c == '-' {
            c
        } else {
            '-'
        };
        out.push(d);
        assert(mv@.take(i + 1).map_values(|c: char| culture_char(c)) =~= mv@.take(i as int).map_values(
            |c: char| culture_char(c),
        ).push(d));
        i += 1;
    }
    assert(mv@.take(mv.len() as int) =~= mv@);
    (skill, string_of(&out))
}

} // verus!
