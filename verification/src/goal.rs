//! The goal evaluator: acceptance-constrained stopping. The stop decision
//! is owned by a verifiable predicate - the submitted patch applies and
//! the FAIL_TO_PASS command exits 0 inside the exec sandbox - never by a
//! checker plugin's say-so. The sandbox run happens outside; its result
//! (the repo.exec result object) is judged here.
use vstd::prelude::*;
use crate::json::{Json, as_bool, as_i64, as_str, get, get_bool, get_i64, get_str};
use crate::text::{
    chars_of, contains, contains_str, extend_chars, extend_str, find, find_exec, join, join_exec,
    lines, lines_exec, slice_chars, string_of, trim, trim_chars, trim_end_char,
    trim_end_char_chars, trim_start_char, trim_start_char_chars, words, words_exec,
};

verus! {

broadcast use vstd::string::group_string_axioms;

/// What the goal evaluator checks: the FAIL_TO_PASS commands, run in the
/// workspace `ws` under a timeout.
#[derive(Clone)]
pub struct GoalSpec {
    pub ws: String,
    pub f2p: Vec<String>,
    pub timeout_secs: u64,
}

/// The stop signal. `EnvLimited` is an f2p run that failed because the
/// exec sandbox lacks the tool (exit 127): the evaluator cannot judge, and
/// says so instead of reporting a plain red.
#[derive(Debug, Clone)]
pub enum GoalVerdict {
    Pass,
    Fail,
    EnvLimited(String),
}

/// The f2p commands as one shell command, joined by ` && `.
pub fn f2p_command(goal: &GoalSpec) -> (r: String)
    ensures
        r@ == join(goal.f2p@.map_values(|c: String| c@), " && "@),
{
    let mut parts: Vec<Vec<char>> = Vec::new();
    let mut i: usize = 0;
    while i < goal.f2p.len()
        invariant
            i <= goal.f2p.len(),
            parts@.map_values(|x: Vec<char>| x@) == goal.f2p@.map_values(|c: String| c@).take(
                i as int,
            ),
        decreases goal.f2p.len() - i,
    {
        let p = chars_of(goal.f2p[i].as_str());
        proof {
            assert(p@ == goal.f2p@[i as int]@);
            assert(parts@.push(p).map_values(|x: Vec<char>| x@) =~= parts@.map_values(
                |x: Vec<char>| x@,
            ).push(p@));
            assert(goal.f2p@.map_values(|c: String| c@).take(i + 1) =~= goal.f2p@.map_values(
                |c: String| c@,
            ).take(i as int).push(goal.f2p@[i as int]@));
        }
        parts.push(p);
        i += 1;
    }
    proof {
        assert(goal.f2p@.map_values(|c: String| c@).take(goal.f2p.len() as int) =~= goal.f2p@.map_values(
            |c: String| c@,
        ));
    }
    let sep = chars_of(" && ");
    let r = join_exec(&parts, &sep);
    string_of(&r)
}

/// The tool a "command not found" line names: the last word before the
/// marker, colons trimmed from both ends.
pub open spec fn missing_tool(before: Seq<char>) -> Seq<char> {
    let ws = words(before);
    let w = if ws.len() > 0 {
        ws.last()
    } else {
        "<unknown>"@
    };
    trim_end_char(trim_start_char(w, ':'), ':')
}

/// The first stderr line, from `i` on, that explains an exit 127.
pub open spec fn env_reason_from(ls: Seq<Seq<char>>, i: int) -> Option<Seq<char>>
    decreases ls.len() - i,
{
    if i < 0 || i >= ls.len() {
        None
    } else {
        match find(ls[i], ": command not found"@) {
            Some(pos) => Some("sandbox lacks "@ + missing_tool(ls[i].take(pos)) + " (exit 127)"@),
            None => if contains(ls[i], "No such file or directory"@) {
                Some("sandbox missing file: "@ + trim(ls[i]))
            } else {
                env_reason_from(ls, i + 1)
            },
        }
    }
}

/// An exec result is an environmental failure when it exited 127: the
/// reason names the missing tool or file when stderr says which.
pub open spec fn env_failure_spec(r: Json) -> Option<Seq<char>> {
    if as_i64(get(r, "exit_code"@)) != Some(127i64) {
        None
    } else {
        let err = match as_str(get(r, "stderr"@)) {
            Some(e) => e,
            None => Seq::empty(),
        };
        match env_reason_from(lines(err), 0) {
            Some(why) => Some(why),
            None => Some("exit 127 (command not found)"@),
        }
    }
}

/// Classify an exec-sandbox result as an environmental failure: the f2p
/// command never really ran because the tool itself is missing. A nonzero
/// exit from a real test run is a genuine red, never env-limited.
pub fn classify_env_failure(r: &Json) -> (out: Option<String>)
    ensures
        match out {
            Some(t) => env_failure_spec(*r) == Some(t@),
            None => env_failure_spec(*r) is None,
        },
{
    if get_i64(r, "exit_code") != Some(127i64) {
        return None;
    }
    let err: Vec<char> = match get_str(r, "stderr") {
        Some(e) => chars_of(e.as_str()),
        None => Vec::new(),
    };
    let ls = lines_exec(&err);
    let ghost lv = lines(err@);
    let marker = chars_of(": command not found");
    let mut i: usize = 0;
    while i < ls.len()
        invariant
            i <= ls.len(),
            lv == lines(err@),
            ls@.len() == lv.len(),
            forall|k: int| 0 <= k < ls@.len() ==> #[trigger] ls@[k]@ == lv[k],
            marker@ == ": command not found"@,
            as_i64(get(*r, "exit_code"@)) == Some(127i64),
            err@ == (match as_str(get(*r, "stderr"@)) {
                Some(e) => e,
                None => Seq::empty(),
            }),
            env_reason_from(lv, 0) == env_reason_from(lv, i as int),
        decreases ls.len() - i,
    {
        let line = &ls[i];
        assert(line@ == lv[i as int]);
        match find_exec(line, &marker) {
            Some(pos) => {
                proof {
                    crate::text::lemma_find_from_some(line@, marker@, 0);
                }
                let before = slice_chars(line, 0, pos);
                let ws = words_exec(&before);
                let w: Vec<char> = if ws.len() > 0 {
                    let last = &ws[ws.len() - 1];
                    slice_chars(last, 0, last.len())
                } else {
                    chars_of("<unknown>")
                };
                proof {
                    assert(before@ =~= line@.take(pos as int));
                    let wv = words(line@.take(pos as int));
                    assert(ws@.map_values(|x: Vec<char>| x@) == wv);
                    assert(ws@.len() == wv.len());
                    if ws.len() > 0 {
                        assert(ws@.map_values(|x: Vec<char>| x@).last() == ws@[ws.len() - 1]@);
                        assert(w@ =~= wv.last());
                    }
                    assert(w@ == (if wv.len() > 0 {
                        wv.last()
                    } else {
                        "<unknown>"@
                    }));
                    assert(find(lv[i as int], ": command not found"@) == Some(pos as int));
                }
                let t1 = trim_start_char_chars(&w, ':');
                let tool = trim_end_char_chars(&t1, ':');
                let mut out = chars_of("sandbox lacks ");
                extend_chars(&mut out, &tool);
                extend_str(&mut out, " (exit 127)");
                return Some(string_of(&out));
            },
            None => {
                if contains_str(line, "No such file or directory") {
                    let t = trim_chars(line);
                    assert(env_reason_from(lv, i as int) == Some(
                        "sandbox missing file: "@ + trim(lv[i as int]),
                    ));
                    let mut out = chars_of("sandbox missing file: ");
                    extend_chars(&mut out, &t);
                    return Some(string_of(&out));
                }
            },
        }
        i += 1;
    }
    Some(string_of(&chars_of("exit 127 (command not found)")))
}

/// The patch applied and the f2p command exited 0.
pub open spec fn goal_passed(r: Json) -> bool {
    as_bool(get(r, "applied"@)) == Some(true) && as_i64(get(r, "exit_code"@)) == Some(0i64)
}

/// The richer verdict on a sandbox result: `EnvLimited` when the sandbox
/// cannot run the f2p command at all, so the caller records the
/// limitation instead of a bare red.
pub fn verify_verdict(r: &Json) -> (v: GoalVerdict)
    ensures
        goal_passed(*r) ==> v is Pass,
        !goal_passed(*r) ==> match env_failure_spec(*r) {
            Some(why) => v matches GoalVerdict::EnvLimited(t) && t@ == why,
            None => v is Fail,
        },
{
    if get_bool(r, "applied") == Some(true) && get_i64(r, "exit_code") == Some(0i64) {
        return GoalVerdict::Pass;
    }
    match classify_env_failure(r) {
        Some(reason) => GoalVerdict::EnvLimited(reason),
        None => GoalVerdict::Fail,
    }
}

/// The acceptance predicate on the sandbox result of the current answer.
pub fn verify(r: &Json) -> (b: bool)
    ensures
        b == goal_passed(*r),
{
    match verify_verdict(r) {
        GoalVerdict::Pass => true,
        _ => false,
    }
}

/// A nonzero exit from a real test run is a genuine red, never
/// env-limited: only exit 127 can be an environment failure.
pub proof fn law_real_red_is_never_env_limited(r: Json)
    ensures
        as_i64(get(r, "exit_code"@)) != Some(127i64) ==> env_failure_spec(r) is None,
        as_i64(get(r, "exit_code"@)) == Some(127i64) ==> env_failure_spec(r) is Some,
{
}

} // verus!
