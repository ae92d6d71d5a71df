//! The scripted model: completions replayed from a script, one line per
//! model call. Plain replay cycles on the last line; the prompt-aware
//! mode answers what a request asks - a clean verdict to an audit that
//! offers `verdict.submit`, the script while it lasts, then the answer
//! submission the prompt calls for (or a stand-down once the answer is
//! on disk). A script line may be `{"completion": ..., "reasoning": ...}`
//! to supply reasoning. Reading the script file and serving the plugin
//! protocol happen outside.
use vstd::prelude::*;
use crate::cli::{answer_path_spec, artifact_on_disk, artifact_on_disk_spec, extract_answer_path};
use crate::critic::{json_as_str, json_document, json_get, member_str, parse_json_document};
use crate::sessions::{replace_exec, replace_str};
use crate::text::{chars_of, eq_str, extend_str, starts_with, starts_with_str, string_of, strings_view};

verus! {

broadcast use vstd::string::group_string_axioms;

/// The clean answer the prompt-aware mode gives an audit: a
/// `verdict.submit` call that refutes nothing.
pub open spec fn clean_audit_text() -> Seq<char> {
    "{\"tool\":\"verdict.submit\",\"args\":{"@
        + "\"refuted\":false,"@
        + "\"findings\":[],"@
        + "\"blocking\":\"none\"}}"@
}

pub fn clean_audit() -> (r: String)
    ensures
        r@ == clean_audit_text(),
{
    let mut s = chars_of("{\"tool\":\"verdict.submit\",\"args\":{");
    extend_str(&mut s, "\"refuted\":false,");
    extend_str(&mut s, "\"findings\":[],");
    extend_str(&mut s, "\"blocking\":\"none\"}}");
    string_of(&s)
}

/// The stand-down once the answer is on disk.
pub const ANSWER_WRITTEN: &'static str = "The answer is written and ready for grading. ## Done";

/// The reply when no answer tool is offered.
pub const NO_ANSWER_TOOL: &'static str = "I have no answer tool to submit with. ## Done";

/// The reply once the script is spent and no answer is asked for.
pub const NOTHING_FURTHER: &'static str = "I have nothing further to add. ## Done";

/// The fixed reply to a distillation request.
pub const DISTILL_REPLY: &'static str = "PROGRESS AND DECISIONS: read pages 1-3, chose the parser fix\nCONSTRAINTS AND PREFERENCES: no host fs access\nNEXT STEPS: patch parser.rs\nCRITICAL DATA: the F2P command is the acceptance test";

/// A distillation request, which does not consume the script.
pub fn is_distill_call(prompt: &str) -> (r: bool)
    ensures
        r == starts_with(prompt@, "DISTILL:"@),
{
    starts_with_str(&chars_of(prompt), "DISTILL:")
}

/// The offered tools' internal names (the wire's `__` read as `.`).
pub open spec fn offered_names(wire: Seq<Seq<char>>) -> Seq<Seq<char>> {
    wire.map_values(|n: Seq<char>| replace_str(n, "__"@, "."@))
}

/// The first offered `answer.*` tool, from `i` on.
pub open spec fn first_answer_tool(ns: Seq<Seq<char>>, i: int) -> Option<Seq<char>>
    decreases ns.len() - i,
{
    if i < 0 || i >= ns.len() {
        None
    } else if starts_with(ns[i], "answer."@) {
        Some(ns[i])
    } else {
        first_answer_tool(ns, i + 1)
    }
}

pub open spec fn submit_text(path: Seq<char>) -> Seq<char> {
    "{\"tool\":\"answer.submit\",\"args\":{\"path\":\""@ + path
        + "\",\"summary\":\"scripted answer: mission complete\"}}"@
}

pub open spec fn write_text(tool: Seq<char>, path: Seq<char>) -> Seq<char> {
    "{\"tool\":\""@ + tool + "\",\"args\":{\"path\":\""@ + path
        + "\",\"content\":\"scripted answer: mission complete\"}}"@
}

/// The turn after `turn`: the counter is a `usize` and wraps past its
/// largest value.
pub open spec fn next_turn(turn: nat) -> nat {
    if turn >= usize::MAX {
        0
    } else {
        turn + 1
    }
}

/// The completion for turn `turn` of a script, and the next turn.
pub open spec fn scripted_completion(
    script: Seq<Seq<char>>,
    turn: nat,
    prompt: Seq<char>,
    offered: Seq<Seq<char>>,
    prompt_aware: bool,
) -> (Seq<char>, nat) {
    if !prompt_aware {
        (script[if turn < script.len() { turn as int } else { script.len() - 1 }], next_turn(turn))
    } else if offered.contains("verdict.submit"@) {
        (clean_audit_text(), turn)
    } else if turn < script.len() {
        (script[turn as int], turn + 1)
    } else {
        match answer_path_spec(prompt) {
            Some(path) => if artifact_on_disk_spec(prompt) {
                (ANSWER_WRITTEN@, turn)
            } else {
                match first_answer_tool(offered, 0) {
                    Some(t) => if t == "answer.submit"@ {
                        (submit_text(path), turn)
                    } else {
                        (write_text(t, path), turn)
                    },
                    None => (NO_ANSWER_TOOL@, turn),
                }
            },
            None => (NOTHING_FURTHER@, turn),
        }
    }
}

/// A line that is a JSON object with a string `completion` splits into
/// that completion and its `reasoning` (empty when absent); any other
/// line is the completion itself, with no reasoning.
pub open spec fn split_reasoning(line: Seq<char>) -> (Seq<char>, Seq<char>) {
    match json_document(line) {
        Ok(v) => match member_str(v, "completion"@) {
            Some(c) => (
                c,
                match member_str(v, "reasoning"@) {
                    Some(r) => r,
                    None => Seq::empty(),
                },
            ),
            None => (line, Seq::empty()),
        },
        Err(_) => (line, Seq::empty()),
    }
}

fn split_reasoning_exec(line: String) -> (r: (String, String))
    ensures
        (r.0@, r.1@) == split_reasoning(line@),
{
    let doc = match parse_json_document(line.as_str()) {
        Ok(d) => d,
        Err(_) => return (line, String::new()),
    };
    let c = match json_get(&doc, "completion") {
        Some(m) => json_as_str(m),
        None => None,
    };
    match c {
        Some(c) => {
            let r = match json_get(&doc, "reasoning") {
                Some(m) => json_as_str(m),
                None => None,
            };
            (
                c,
                match r {
                    Some(r) => r,
                    None => String::new(),
                },
            )
        },
        None => (line, String::new()),
    }
}

fn offered_exec(wire: &Vec<String>) -> (r: Vec<String>)
    ensures
        strings_view(r@) == offered_names(strings_view(wire@)),
{
    proof {
        reveal_strlit("__");
    }
    let mut out: Vec<String> = Vec::new();
    let mut i: usize = 0;
    while i < wire.len()
        invariant
            i <= wire.len(),
            "__"@.len() == 2,
            strings_view(out@) == offered_names(strings_view(wire@)).take(i as int),
        decreases wire.len() - i,
    {
        let n = replace_exec(&chars_of(wire[i].as_str()), "__", ".");
        let ghost before = strings_view(out@);
        out.push(string_of(&n));
        assert(strings_view(out@) =~= before.push(n@));
        assert(offered_names(strings_view(wire@)).take(i + 1) =~= offered_names(strings_view(wire@)).take(
            i as int,
        ).push(replace_str(wire@[i as int]@, "__"@, "."@)));
        i += 1;
    }
    assert(offered_names(strings_view(wire@)).take(wire.len() as int) =~= offered_names(strings_view(wire@)));
    out
}

fn copy(s: &String) -> (r: String)
    ensures
        r@ == s@,
{
    string_of(&chars_of(s.as_str()))
}

/// The scripted reply to one model call: its completion, its reasoning,
/// and the script turn that follows. `offered_wire` are the wire names
/// of the tools the request offers.
pub fn scripted_reply(script: &Vec<String>, turn: usize, prompt: &str, offered_wire: &Vec<String>, prompt_aware: bool) -> (r: (
    String,
    String,
    usize,
))
    requires
        script.len() > 0,
    ensures
        ({
            let (c, t) = scripted_completion(
                strings_view(script@),
                turn as nat,
                prompt@,
                offered_names(strings_view(offered_wire@)),
                prompt_aware,
            );
            (r.0@, r.1@) == split_reasoning(c) && r.2 == t
        }),
{
    let offered = offered_exec(offered_wire);
    let ghost ov = offered_names(strings_view(offered_wire@));
    let ghost sv = strings_view(script@);
    let (line, next): (String, usize) = if !prompt_aware {
        let k = if turn < script.len() {
            turn
        } else {
            script.len() - 1
        };
        assert(sv[k as int] == script@[k as int]@);
        (copy(&script[k]), turn.wrapping_add(1))
    } else {
        let mut verdict = false;
        let mut i: usize = 0;
        while i < offered.len()
            invariant
                i <= offered.len(),
                strings_view(offered@) == ov,
                verdict <==> exists|k: int| 0 <= k < i && ov[k] == "verdict.submit"@,
            decreases offered.len() - i,
        {
            assert(ov[i as int] == offered@[i as int]@);
            if eq_str(&chars_of(offered[i].as_str()), "verdict.submit") {
                verdict = true;
            }
            i += 1;
        }
        assert(verdict == ov.contains("verdict.submit"@));
        if verdict {
            (clean_audit(), turn)
        } else if turn < script.len() {
            assert(sv[turn as int] == script@[turn as int]@);
            (copy(&script[turn]), turn + 1)
        } else {
            match extract_answer_path(prompt) {
                Some(path) => {
                    if artifact_on_disk(prompt) {
                        (String::from_str(ANSWER_WRITTEN), turn)
                    } else {
                        let mut j: usize = 0;
                        let mut found: Option<usize> = None;
                        while j < offered.len() && found.is_none()
                            invariant
                                j <= offered.len(),
                                strings_view(offered@) == ov,
                                match found {
                                    Some(k) => k < offered.len() && first_answer_tool(ov, 0) == Some(ov[k as int]),
                                    None => first_answer_tool(ov, 0) == first_answer_tool(ov, j as int),
                                },
                            decreases offered.len() - j, (if found is Some { 0int } else { 1int }),
                        {
                            assert(ov[j as int] == offered@[j as int]@);
                            if starts_with_str(&chars_of(offered[j].as_str()), "answer.") {
                                found = Some(j);
                            } else {
                                j += 1;
                            }
                        }
                        match found {
                            Some(k) => {
                                assert(ov[k as int] == offered@[k as int]@);
                                let t = &offered[k];
                                if eq_str(&chars_of(t.as_str()), "answer.submit") {
                                    let mut s = chars_of("{\"tool\":\"answer.submit\",\"args\":{\"path\":\"");
                                    extend_str(&mut s, path.as_str());
                                    extend_str(&mut s, "\",\"summary\":\"scripted answer: mission complete\"}}");
                                    (string_of(&s), turn)
                                } else {
                                    let mut s = chars_of("{\"tool\":\"");
                                    extend_str(&mut s, t.as_str());
                                    extend_str(&mut s, "\",\"args\":{\"path\":\"");
                                    extend_str(&mut s, path.as_str());
                                    extend_str(&mut s, "\",\"content\":\"scripted answer: mission complete\"}}");
                                    (string_of(&s), turn)
                                }
                            },
                            None => (String::from_str(NO_ANSWER_TOOL), turn),
                        }
                    }
                },
                None => (String::from_str(NOTHING_FURTHER), turn),
            }
        }
    };
    let (c, reasoning) = split_reasoning_exec(line);
    (c, reasoning, next)
}

} // verus!
