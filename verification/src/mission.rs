//! The operator loop's decisions within one mission: which mission ids are
//! safe, the volatile tail each step shows the model (budget, feedback,
//! delegation, steering, artifact, convergence pressure, ledger), which
//! proposed tool calls are dispatched, when the doom-loop nudge fires, how
//! a checker verdict and the goal evaluator decide the stop, how the
//! adversarial verifier's reply is read, what a delegated child's poll
//! reports, and the cost books a resumed stream starts from. The model calls, the tools and
//! the event log are driven outside; every branch taken here is decided
//! from plain values.
use vstd::prelude::*;
use crate::json::{as_array, as_bool, as_str, get, get_exec, item, Json};
use crate::text::{
    chars_of, contains, dec, eq_str, extend_chars, extend_str, join, join_exec, push_dec, slice_chars, starts_with,
    starts_with_str, string_of, strings_view,
};

verus! {

broadcast use vstd::string::group_string_axioms;

/// How many adversarial verifier rounds a mission may spend.
pub const VERIFIER_MAX_ROUNDS: u32 = 3;

/// The doom-loop window and the repeat count that trips it.
pub const DOOM_WINDOW: usize = 8;

pub const DOOM_THRESHOLD: usize = 3;

// ----------------------------------------------------------- mission id ---

/// A mission id names the mission's work directory: it must be a single
/// safe path component.
pub open spec fn mission_id_ok(m: Seq<char>) -> bool {
    m.len() > 0 && m != "."@ && m != ".."@ && !m.contains('/') && !m.contains('\\')
}

/// Refuse a mission id that is not a single safe path component.
pub fn check_mission_id(mission: &str) -> (r: Result<(), String>)
    ensures
        mission_id_ok(mission@) ==> r is Ok,
        !mission_id_ok(mission@) ==> (r matches Err(e) && e@
            == "mission id must be a single safe path component, got "@ + crate::repl::debug_text(mission@)),
{
    let v = chars_of(mission);
    let mut bad = v.len() == 0 || crate::text::eq_str(&v, ".") || crate::text::eq_str(&v, "..");
    let mut i: usize = 0;
    while i < v.len()
        invariant
            i <= v.len(),
            v@ == mission@,
            bad == (mission@.len() == 0 || mission@ == "."@ || mission@ == ".."@ || exists|k: int|
                0 <= k < i && (v@[k] == '/' || v@[k] == '\\')),
        decreases v.len() - i,
    {
        if v[i] == '/' || v[i] == '\\' {
            bad = true;
        }
        i += 1;
    }
    proof {
        if mission@.contains('/') {
            let k = choose|k: int| 0 <= k < mission@.len() && mission@[k] == '/';
            assert(v@[k] == '/');
        }
        if mission@.contains('\\') {
            let k = choose|k: int| 0 <= k < mission@.len() && mission@[k] == '\\';
            assert(v@[k] == '\\');
        }
        if bad && mission@.len() > 0 && mission@ != "."@ && mission@ != ".."@ {
            let k = choose|k: int| 0 <= k < v@.len() && (v@[k] == '/' || v@[k] == '\\');
            assert(mission@.contains(v@[k]));
        }
    }
    if bad {
        let mut e = chars_of("mission id must be a single safe path component, got ");
        let d = crate::repl::debug_str(mission);
        extend_str(&mut e, d.as_str());
        return Err(string_of(&e));
    }
    Ok(())
}

// ------------------------------------------------------ volatile tail ---

/// `ceil(a / b)` for `b > 0`.
pub open spec fn ceil_div(a: int, b: int) -> int {
    (a + b - 1) / b
}

/// The steps at which convergence pressure applies: half and three
/// quarters of the step budget (rounded up).
pub open spec fn convergence_step(step: u32, max_steps: u32) -> bool {
    step == ceil_div(max_steps as int, 2) || step == ceil_div(3 * max_steps, 4)
}

pub open spec fn convergence_text(step: u32, max_steps: u32) -> Seq<char> {
    "CONVERGENCE: step "@ + dec(step as nat) + " of "@ + dec(max_steps as nat)
        + " and you have not run a test or check yourself. Verify your current hypothesis NOW: run a test, a build, or the checker before your next edit."@
}

/// Convergence pressure: at half and three quarters of the step budget,
/// with feedback on, when the model has never run a check itself.
pub open spec fn convergence_spec(step: u32, max_steps: u32, feedback: bool, model_verified: bool) -> Option<
    Seq<char>,
> {
    if feedback && convergence_step(step, max_steps) && !model_verified {
        Some(convergence_text(step, max_steps))
    } else {
        None
    }
}

pub fn convergence_note(step: u32, max_steps: u32, feedback: bool, model_verified: bool) -> (r: Option<String>)
    requires
        max_steps <= u32::MAX / 3,
    ensures
        match r {
            Some(t) => convergence_spec(step, max_steps, feedback, model_verified) == Some(t@),
            None => convergence_spec(step, max_steps, feedback, model_verified) is None,
        },
{
    let half = max_steps / 2 + max_steps % 2;
    let tq = (max_steps * 3) / 4 + if (max_steps * 3) % 4 == 0 {
        0
    } else {
        1
    };
    assert(half == ceil_div(max_steps as int, 2));
    assert(tq == ceil_div(3 * max_steps, 4));
    if feedback && (step == half || step == tq) && !model_verified {
        let mut t = chars_of("CONVERGENCE: step ");
        push_dec(&mut t, step as u64);
        extend_str(&mut t, " of ");
        push_dec(&mut t, max_steps as u64);
        extend_str(
            &mut t,
            " and you have not run a test or check yourself. Verify your current hypothesis NOW: run a test, a build, or the checker before your next edit.",
        );
        Some(string_of(&t))
    } else {
        None
    }
}

/// `- item\n` for each item.
pub open spec fn bullets(items: Seq<Seq<char>>) -> Seq<char>
    decreases items.len(),
{
    if items.len() == 0 {
        Seq::empty()
    } else {
        bullets(items.drop_last()) + "- "@ + items.last() + "\n"@
    }
}

/// A headed bullet list, or nothing when there are no items.
pub open spec fn section(head: Seq<char>, items: Seq<Seq<char>>) -> Seq<char> {
    if items.len() == 0 {
        Seq::empty()
    } else {
        head + bullets(items)
    }
}

/// What one step shows the model after the transcript.
pub struct StepTail {
    pub step: u32,
    pub max_steps: u32,
    /// The wall cap and the mission's elapsed seconds.
    pub wall: Option<(u64, u64)>,
    /// Dollars spent and the dollar cap, each with two decimals.
    pub spend: Option<(String, String)>,
    /// Whether checker feedback is injected.
    pub feedback_injection: bool,
    /// Checker feedback since the last step.
    pub feedback: Vec<String>,
    /// Outcomes of children this mission delegated to.
    pub delegation: Vec<String>,
    /// Operator steering received mid-mission.
    pub steering: Vec<String>,
    /// The answer file's path as displayed, and its content on disk.
    pub answer_path: String,
    pub artifact: String,
    /// The convergence note of this step, if any.
    pub convergence: Option<String>,
    /// The ledger's summary, when the ledger block is shown.
    pub ledger_summary: Option<String>,
}

pub open spec fn wall_part(wall: Option<(u64, u64)>) -> Seq<char> {
    match wall {
        Some((w, el)) => ", T-minus "@ + dec((if w >= el { w - el } else { 0 }) as nat) + "s"@,
        None => Seq::empty(),
    }
}

pub open spec fn spend_part(spend: Option<(String, String)>) -> Seq<char> {
    match spend {
        Some((s, c)) => ", $"@ + s@ + " of $"@ + c@ + " spent"@,
        None => Seq::empty(),
    }
}

pub open spec fn header_spec(t: StepTail) -> Seq<char> {
    "ATTEMPT: step "@ + dec(t.step as nat) + " of "@ + dec(t.max_steps as nat) + wall_part(t.wall) + spend_part(
        t.spend,
    )
}

/// Whether the step injects checker feedback.
pub open spec fn injects(t: StepTail) -> bool {
    t.feedback_injection && t.feedback@.len() > 0
}

/// The volatile tail of a step, in the order the model reads it.
pub open spec fn tail_spec(t: StepTail) -> Seq<char> {
    header_spec(t) + (if injects(t) {
        "FEEDBACK:\n"@ + bullets(strings_view(t.feedback@))
    } else {
        Seq::empty()
    }) + section("DELEGATION UPDATES (children you spawned):\n"@, strings_view(t.delegation@)) + section(
        "STEERING (operator, mid-mission; overrides earlier plans where they conflict):\n"@,
        strings_view(t.steering@),
    ) + crate::artifact_section_spec(t.answer_path@, t.artifact@) + convergence_part(t) + ledger_part(t)
}

pub open spec fn convergence_part(t: StepTail) -> Seq<char> {
    match t.convergence {
        Some(n) => n@ + "\n"@,
        None => Seq::empty(),
    }
}

pub open spec fn ledger_part(t: StepTail) -> Seq<char> {
    match t.ledger_summary {
        Some(l) => "LEDGER (your work so far, always current):\n"@ + l@,
        None => Seq::empty(),
    }
}

fn push_bullets(acc: &mut Vec<char>, items: &Vec<String>)
    ensures
        final(acc)@ == old(acc)@ + bullets(strings_view(items@)),
{
    let ghost a0 = acc@;
    let ghost iv = strings_view(items@);
    let mut i: usize = 0;
    assert(iv.take(0) =~= Seq::<Seq<char>>::empty());
    while i < items.len()
        invariant
            i <= items.len(),
            iv == strings_view(items@),
            acc@ == a0 + bullets(iv.take(i as int)),
        decreases items.len() - i,
    {
        assert(iv.take(i + 1).drop_last() =~= iv.take(i as int));
        assert(iv[i as int] == items@[i as int]@);
        extend_str(acc, "- ");
        extend_str(acc, items[i].as_str());
        extend_str(acc, "\n");
        assert(acc@ =~= a0 + bullets(iv.take(i + 1)));
        i += 1;
    }
    assert(iv.take(items.len() as int) =~= iv);
}

fn push_wall(v: &mut Vec<char>, wall: Option<(u64, u64)>)
    ensures
        final(v)@ == old(v)@ + wall_part(wall),
{
    let ghost v0 = v@;
    match wall {
        Some((w, el)) => {
            let rem = if w >= el {
                w - el
            } else {
                0
            };
            extend_str(v, ", T-minus ");
            push_dec(v, rem);
            extend_str(v, "s");
        },
        None => {},
    }
    assert(v@ =~= v0 + wall_part(wall));
}

fn push_spend(v: &mut Vec<char>, spend: &Option<(String, String)>)
    ensures
        final(v)@ == old(v)@ + spend_part(*spend),
{
    let ghost v0 = v@;
    match spend {
        Some((s, c)) => {
            extend_str(v, ", $");
            extend_str(v, s.as_str());
            extend_str(v, " of $");
            extend_str(v, c.as_str());
            extend_str(v, " spent");
        },
        None => {},
    }
    assert(v@ =~= v0 + spend_part(*spend));
}

fn push_header(v: &mut Vec<char>, t: &StepTail)
    ensures
        final(v)@ == old(v)@ + header_spec(*t),
{
    let ghost v0 = v@;
    extend_str(v, "ATTEMPT: step ");
    push_dec(v, t.step as u64);
    extend_str(v, " of ");
    push_dec(v, t.max_steps as u64);
    push_wall(v, t.wall);
    push_spend(v, &t.spend);
    assert(v@ =~= v0 + header_spec(*t));
}

fn push_section(v: &mut Vec<char>, head: &str, items: &Vec<String>)
    ensures
        final(v)@ == old(v)@ + section(head@, strings_view(items@)),
{
    let ghost v0 = v@;
    assert(strings_view(items@).len() == items@.len());
    if items.len() > 0 {
        extend_str(v, head);
        push_bullets(v, items);
    }
    assert(v@ =~= v0 + section(head@, strings_view(items@)));
}

/// The volatile tail of a step: the budget header, then (each only when
/// there is one) checker feedback, delegation updates, steering, the
/// artifact block, the convergence note and the ledger. The second result
/// is whether checker feedback was injected.
pub fn step_tail(t: &StepTail) -> (r: (String, bool))
    ensures
        r.0@ == tail_spec(*t),
        r.1 == injects(*t),
{
    let mut v: Vec<char> = Vec::new();
    push_header(&mut v, t);
    let ghost h = v@;
    let injected = t.feedback_injection && t.feedback.len() > 0;
    if injected {
        extend_str(&mut v, "FEEDBACK:\n");
        push_bullets(&mut v, &t.feedback);
    }
    let ghost f = v@;
    assert(strings_view(t.feedback@).len() == t.feedback@.len());
    assert(f =~= h + (if injects(*t) {
        "FEEDBACK:\n"@ + bullets(strings_view(t.feedback@))
    } else {
        Seq::empty()
    }));
    push_section(&mut v, "DELEGATION UPDATES (children you spawned):\n", &t.delegation);
    push_section(
        &mut v,
        "STEERING (operator, mid-mission; overrides earlier plans where they conflict):\n",
        &t.steering,
    );
    let ghost s = v@;
    let a = crate::artifact_section(t.answer_path.as_str(), t.artifact.as_str());
    extend_str(&mut v, a.as_str());
    let ghost ar = v@;
    match &t.convergence {
        Some(n) => {
            extend_str(&mut v, n.as_str());
            extend_str(&mut v, "\n");
        },
        None => {},
    }
    let ghost cv = v@;
    match &t.ledger_summary {
        Some(l) => {
            extend_str(&mut v, "LEDGER (your work so far, always current):\n");
            extend_str(&mut v, l.as_str());
        },
        None => {},
    }
    assert(cv =~= ar + convergence_part(*t));
    assert(v@ =~= cv + ledger_part(*t));
    assert(v@ =~= tail_spec(*t));
    (string_of(&v), injected)
}

// ------------------------------------------------------- tool dispatch ---

/// The tool a completion proposes: the `tool` string of the parsed
/// completion, when it is one.
pub open spec fn proposed_tool(plan: Option<Json>) -> Option<Seq<char>> {
    match plan {
        Some(p) => as_str(get(p, "tool"@)),
        None => None,
    }
}

/// Where a proposed call goes: refused with feedback to the model, or
/// dispatched.
pub enum ToolGate {
    Refuse(String),
    Dispatch,
}

pub open spec fn no_tool_text() -> Seq<char> {
    "your reply carried no tool call; call exactly one of the provided tools (the answer path is answer.submit with the ANSWER_PATH) - no prose"@
}

pub open spec fn dead_tool_text(tool: Seq<char>) -> Seq<char> {
    "tool "@ + tool
        + " is dead for the rest of this mission - pick another tool (the answer path, edit.patch/answer.submit, is intact)"@
}

pub open spec fn untested_submit_text(remaining: nat) -> Seq<char> {
    "answer.submit REJECTED: no verification run yet. Run the mission's own checks first (repo.exec against your candidate diff, or the mission's stated test command) - a submission with zero test evidence is not a submission. Steps remaining: "@
        + dec(remaining)
}

/// Whether a submission is untested and there is still time to test it:
/// answer.submit or answer.write with no model-run check in the ledger,
/// before the last step, in a mission that offers repo.exec.
pub open spec fn untested_submit(tool: Seq<char>, model_verified: bool, step: u32, max_steps: u32, has_repo_exec: bool) -> bool {
    (tool == "answer.submit"@ || tool == "answer.write"@) && !model_verified && step < max_steps && has_repo_exec
}

/// The dispatch decision for a step's completion.
pub open spec fn gate_spec(
    tool: Option<Seq<char>>,
    dead: Seq<Seq<char>>,
    model_verified: bool,
    step: u32,
    max_steps: u32,
    has_repo_exec: bool,
) -> Option<Seq<char>> {
    match tool {
        None => Some(no_tool_text()),
        Some(t) => if dead.contains(t) {
            Some(dead_tool_text(t))
        } else if untested_submit(t, model_verified, step, max_steps, has_repo_exec) {
            Some(untested_submit_text((max_steps - step) as nat))
        } else {
            None
        },
    }
}

pub open spec fn gate_matches(g: ToolGate, s: Option<Seq<char>>) -> bool {
    match g {
        ToolGate::Refuse(m) => s == Some(m@),
        ToolGate::Dispatch => s is None,
    }
}

/// The tool proposed by a parsed completion (`None` when the completion
/// was not JSON).
pub fn plan_tool(plan: &Option<Json>) -> (r: Option<String>)
    ensures
        match r {
            Some(t) => proposed_tool(*plan) == Some(t@),
            None => proposed_tool(*plan) is None,
        },
{
    match plan {
        Some(p) => match get_exec(p, "tool") {
            Some(Json::Str(s)) => Some(string_of(&chars_of(s.as_str()))),
            _ => None,
        },
        None => None,
    }
}

/// Decide a proposed call: no tool is feedback; a dead tool is feedback;
/// an untested submission while steps remain (and repo.exec is offered)
/// is rejected with feedback; anything else is dispatched.
pub fn gate_tool(
    tool: &Option<String>,
    dead_tools: &Vec<String>,
    model_verified: bool,
    step: u32,
    max_steps: u32,
    has_repo_exec: bool,
) -> (r: ToolGate)
    ensures
        gate_matches(
            r,
            gate_spec(opt_view(*tool), strings_view(dead_tools@), model_verified, step, max_steps, has_repo_exec),
        ),
{
    match tool {
        None => ToolGate::Refuse(string_of(&chars_of(
            "your reply carried no tool call; call exactly one of the provided tools (the answer path is answer.submit with the ANSWER_PATH) - no prose",
        ))),
        Some(t) => gate_named(t, dead_tools, model_verified, step, max_steps, has_repo_exec),
    }
}

fn gate_named(
    t: &String,
    dead_tools: &Vec<String>,
    model_verified: bool,
    step: u32,
    max_steps: u32,
    has_repo_exec: bool,
) -> (r: ToolGate)
    ensures
        gate_matches(r, gate_spec(Some(t@), strings_view(dead_tools@), model_verified, step, max_steps, has_repo_exec)),
{
    let ghost dv = strings_view(dead_tools@);
    let mut i: usize = 0;
    while i < dead_tools.len()
        invariant
            i <= dead_tools.len(),
            dv == strings_view(dead_tools@),
            forall|k: int| 0 <= k < i ==> dv[k] != t@,
        decreases dead_tools.len() - i,
    {
        assert(dv[i as int] == dead_tools@[i as int]@);
        if crate::text::str_eq(dead_tools[i].as_str(), t.as_str()) {
            assert(dv[i as int] == t@);
            assert(dv.contains(t@));
            let mut m = chars_of("tool ");
            extend_str(&mut m, t.as_str());
            extend_str(
                &mut m,
                " is dead for the rest of this mission - pick another tool (the answer path, edit.patch/answer.submit, is intact)",
            );
            return ToolGate::Refuse(string_of(&m));
        }
        i += 1;
    }
    assert(!dv.contains(t@)) by {
        if dv.contains(t@) {
            let k = choose|k: int| 0 <= k < dv.len() && dv[k] == t@;
            assert(dv[k] != t@);
        }
    }
    let submit = crate::text::str_eq(t.as_str(), "answer.submit") || crate::text::str_eq(t.as_str(), "answer.write");
    if submit && !model_verified && step < max_steps && has_repo_exec {
        let mut m = chars_of(
            "answer.submit REJECTED: no verification run yet. Run the mission's own checks first (repo.exec against your candidate diff, or the mission's stated test command) - a submission with zero test evidence is not a submission. Steps remaining: ",
        );
        push_dec(&mut m, (max_steps - step) as u64);
        return ToolGate::Refuse(string_of(&m));
    }
    ToolGate::Dispatch
}

pub open spec fn opt_view(o: Option<String>) -> Option<Seq<char>> {
    match o {
        Some(s) => Some(s@),
        None => None,
    }
}

/// Why agent.spawn cannot run: its outcome poll is not offered to the
/// operator (registered but gated away, or not registered at all).
pub open spec fn spawn_block_spec(tool: Seq<char>, poll_offered: bool, poll_registered: bool) -> Option<Seq<char>> {
    if poll_offered {
        None
    } else if poll_registered {
        Some(
            "tool "@ + tool
                + " failed: agent.spawn_poll is registered but its subjects exclude the operator subject - outcome polls are issued as the operator, so delegation outcomes could never arrive. Fix the config subjects (e.g. subjects = [\"*\"])"@,
        )
    } else {
        Some(
            "tool "@ + tool
                + " failed: agent.spawn requires agent.spawn_poll registered (same hs-plugin-swarm binary) - async delegation polls outcomes through it"@,
        )
    }
}

/// The pre-flight of agent.spawn: delegation needs its outcome poll.
pub fn spawn_preflight(tool: &str, poll_offered: bool, poll_registered: bool) -> (r: Option<String>)
    ensures
        match r {
            Some(m) => spawn_block_spec(tool@, poll_offered, poll_registered) == Some(m@),
            None => spawn_block_spec(tool@, poll_offered, poll_registered) is None,
        },
{
    if poll_offered {
        return None;
    }
    let mut m = chars_of("tool ");
    extend_str(&mut m, tool);
    if poll_registered {
        extend_str(
            &mut m,
            " failed: agent.spawn_poll is registered but its subjects exclude the operator subject - outcome polls are issued as the operator, so delegation outcomes could never arrive. Fix the config subjects (e.g. subjects = [\"*\"])",
        );
    } else {
        extend_str(
            &mut m,
            " failed: agent.spawn requires agent.spawn_poll registered (same hs-plugin-swarm binary) - async delegation polls outcomes through it",
        );
    }
    Some(string_of(&m))
}

/// The note on an exact repeat of an earlier call.
pub fn duplicate_note(tool: &str, prior_seq: u64) -> (r: String)
    ensures
        r@ == "duplicate call: identical "@ + tool@ + " args already served at seq "@ + dec(prior_seq as nat)
            + " - that result is in your transcript/ledger; do not re-run it"@,
{
    let mut m = chars_of("duplicate call: identical ");
    extend_str(&mut m, tool);
    extend_str(&mut m, " args already served at seq ");
    push_dec(&mut m, prior_seq);
    extend_str(&mut m, " - that result is in your transcript/ledger; do not re-run it");
    string_of(&m)
}

// ---------------------------------------------------------- doom loop ---

/// The streak length at which each plugin was last nudged.
pub struct DoomNudges {
    last: Vec<(String, usize)>,
}

pub open spec fn nudged_at(l: Seq<(Seq<char>, usize)>, p: Seq<char>, i: int) -> usize
    decreases l.len() - i,
{
    if i < 0 || i >= l.len() {
        0
    } else if l[i].0 == p {
        l[i].1
    } else {
        nudged_at(l, p, i + 1)
    }
}

/// A nudge fires on a plugin's first streak, and again only when its
/// streak has grown by two since the last nudge.
pub open spec fn nudge_fires(last: usize, count: usize) -> bool {
    last == 0 || count >= last + 2
}

pub open spec fn doom_text(plugin: Seq<char>, count: usize, refuted: bool) -> Seq<char> {
    if !refuted {
        "DOOM LOOP: "@ + plugin + " with effectively the same args "@ + dec(count as nat)
            + " times in the last 8 calls - repeating it is not working. STOP re-issuing it: change one thing materially (a different command, a different file, a different hypothesis), or verify and submit."@
    } else {
        "DOOM LOOP: "@ + plugin + " with effectively the same args "@ + dec(count as nat)
            + " times in the last 8 calls - repeating it is not working. The verifier REFUTED your last submission: re-issuing this call repairs nothing. Change one thing materially (a different command, a different file, a different hypothesis) to address the findings in FEEDBACK."@
    }
}

impl DoomNudges {
    pub closed spec fn view(&self) -> Seq<(Seq<char>, usize)> {
        self.last@.map_values(|e: (String, usize)| (e.0@, e.1))
    }

    /// The streak at which `plugin` was last nudged (0: never).
    pub open spec fn last_nudge(&self, plugin: Seq<char>) -> usize {
        nudged_at(self.view(), plugin, 0)
    }

    pub fn new() -> (r: Self)
        ensures
            r.view() == Seq::<(Seq<char>, usize)>::empty(),
            forall|p: Seq<char>| r.last_nudge(p) == 0,
    {
        let r = DoomNudges { last: Vec::new() };
        assert(r.view() =~= Seq::<(Seq<char>, usize)>::empty());
        r
    }

    fn find(&self, plugin: &str) -> (r: Option<usize>)
        ensures
            match r {
                Some(k) => k < self.last.len() && self.view()[k as int].0 == plugin@ && self.last_nudge(plugin@)
                    == self.last@[k as int].1 && forall|j: int| 0 <= j < k ==> self.view()[j].0 != plugin@,
                None => self.last_nudge(plugin@) == 0 && forall|k: int| 0 <= k < self.view().len() ==> self.view()[k].0 != plugin@,
            },
    {
        let ghost lv = self.view();
        let mut i: usize = 0;
        while i < self.last.len()
            invariant
                i <= self.last.len(),
                lv == self.view(),
                nudged_at(lv, plugin@, 0) == nudged_at(lv, plugin@, i as int),
                forall|k: int| 0 <= k < i ==> lv[k].0 != plugin@,
            decreases self.last.len() - i,
        {
            assert(lv[i as int] == (self.last@[i as int].0@, self.last@[i as int].1));
            if crate::text::str_eq(self.last[i].0.as_str(), plugin) {
                return Some(i);
            }
            i += 1;
        }
        None
    }

    /// A doom-loop streak of `count` effectively identical calls of
    /// `plugin` (in the last `DOOM_WINDOW`): the nudge to inject, when it
    /// fires; `refuted` is whether the verifier refuted the last
    /// submission.
    pub fn nudge(&mut self, plugin: &str, count: usize, refuted: bool) -> (r: Option<String>)
        ensures
            nudge_fires(old(self).last_nudge(plugin@), count) ==> (r matches Some(t) && t@ == doom_text(
                plugin@,
                count,
                refuted,
            ) && final(self).last_nudge(plugin@) == count),
            !nudge_fires(old(self).last_nudge(plugin@), count) ==> (r is None && final(self).view() == old(
                self,
            ).view()),
            forall|p: Seq<char>| p != plugin@ ==> final(self).last_nudge(p) == old(self).last_nudge(p),
    {
        let found = self.find(plugin);
        let last = match found {
            Some(k) => self.last[k].1,
            None => 0,
        };
        if !(last == 0 || (last <= usize::MAX - 2 && count >= last + 2)) {
            proof {
                if last != 0 && last > usize::MAX - 2 {
                    assert(count < last + 2);
                }
            }
            return None;
        }
        let mut t = chars_of("DOOM LOOP: ");
        extend_str(&mut t, plugin);
        extend_str(&mut t, " with effectively the same args ");
        push_dec(&mut t, count as u64);
        if !refuted {
            extend_str(
                &mut t,
                " times in the last 8 calls - repeating it is not working. STOP re-issuing it: change one thing materially (a different command, a different file, a different hypothesis), or verify and submit.",
            );
        } else {
            extend_str(
                &mut t,
                " times in the last 8 calls - repeating it is not working. The verifier REFUTED your last submission: re-issuing this call repairs nothing. Change one thing materially (a different command, a different file, a different hypothesis) to address the findings in FEEDBACK.",
            );
        }
        let ghost old_view = self.view();
        match found {
            Some(k) => {
                let p = string_of(&chars_of(plugin));
                self.last.set(k, (p, count));
                proof {
                    assert(self.view() =~= old_view.update(k as int, (plugin@, count)));
                    lemma_nudged_update(old_view, plugin@, count, k as int);
                }
            },
            None => {
                let p = string_of(&chars_of(plugin));
                self.last.push((p, count));
                proof {
                    assert(self.view() =~= old_view.push((plugin@, count)));
                    lemma_nudged_push(old_view, plugin@, count);
                }
            },
        }
        Some(string_of(&t))
    }
}

proof fn lemma_nudged_update_from(l: Seq<(Seq<char>, usize)>, p: Seq<char>, c: usize, k: int, i: int)
    requires
        0 <= k < l.len(),
        l[k].0 == p,
        forall|j: int| 0 <= j < k ==> l[j].0 != p,
        0 <= i <= l.len(),
    ensures
        forall|q: Seq<char>| q != p ==> #[trigger] nudged_at(l.update(k, (p, c)), q, i) == nudged_at(l, q, i),
        i <= k ==> nudged_at(l.update(k, (p, c)), p, i) == c,
    decreases l.len() - i,
{
    let u = l.update(k, (p, c));
    if i < l.len() {
        lemma_nudged_update_from(l, p, c, k, i + 1);
        assert forall|q: Seq<char>| q != p implies nudged_at(u, q, i) == nudged_at(l, q, i) by {
            assert(nudged_at(u, q, i + 1) == nudged_at(l, q, i + 1));
            if i == k {
                assert(u[i].0 == p);
            } else {
                assert(u[i] == l[i]);
            }
        }
        if i < k {
            assert(u[i] == l[i]);
        }
    } else {
        assert forall|q: Seq<char>| q != p implies nudged_at(u, q, i) == nudged_at(l, q, i) by {}
    }
}

proof fn lemma_nudged_update(l: Seq<(Seq<char>, usize)>, p: Seq<char>, c: usize, k: int)
    requires
        0 <= k < l.len(),
        l[k].0 == p,
        nudged_at(l, p, 0) == l[k].1,
        forall|j: int| 0 <= j < k ==> l[j].0 != p,
    ensures
        nudged_at(l.update(k, (p, c)), p, 0) == c,
        forall|q: Seq<char>| q != p ==> nudged_at(l.update(k, (p, c)), q, 0) == nudged_at(l, q, 0),
{
    lemma_nudged_update_from(l, p, c, k, 0);
}

proof fn lemma_nudged_push_from(l: Seq<(Seq<char>, usize)>, p: Seq<char>, c: usize, i: int)
    requires
        forall|j: int| 0 <= j < l.len() ==> l[j].0 != p,
        0 <= i <= l.len(),
    ensures
        nudged_at(l.push((p, c)), p, i) == c,
        forall|q: Seq<char>| q != p ==> #[trigger] nudged_at(l.push((p, c)), q, i) == nudged_at(l, q, i),
    decreases l.len() - i,
{
    let u = l.push((p, c));
    if i < l.len() {
        lemma_nudged_push_from(l, p, c, i + 1);
        assert(u[i] == l[i]);
        assert forall|q: Seq<char>| q != p implies nudged_at(u, q, i) == nudged_at(l, q, i) by {
            assert(u[i] == l[i]);
            assert(nudged_at(u, q, i + 1) == nudged_at(l, q, i + 1));
        }
    } else {
        assert(u[i] == (p, c));
        assert forall|q: Seq<char>| q != p implies nudged_at(u, q, i) == nudged_at(l, q, i) by {
            assert(u[i] == (p, c));
            assert(nudged_at(u, q, i + 1) == 0);
        }
    }
}

proof fn lemma_nudged_push(l: Seq<(Seq<char>, usize)>, p: Seq<char>, c: usize)
    requires
        forall|j: int| 0 <= j < l.len() ==> l[j].0 != p,
    ensures
        nudged_at(l.push((p, c)), p, 0) == c,
        forall|q: Seq<char>| q != p ==> nudged_at(l.push((p, c)), q, 0) == nudged_at(l, q, 0),
{
    lemma_nudged_push_from(l, p, c, 0);
}

// ------------------------------------------------------- verdict & stop ---

/// The intervention books of a mission: every red gate verdict is an
/// intervention; a red carrying reproduced evidence (a failed declared
/// check, a critic refutation, a verifier refutation) is also a detection;
/// a passing close after any intervention is a repair.
pub struct Interventions {
    pub interventions: u32,
    pub detections: u32,
    pub repairs: u32,
}

/// A red verdict's error carries reproduced evidence.
pub open spec fn is_detection(error: Seq<char>) -> bool {
    contains(error, "declared checks failed"@) || starts_with(error, "critic refuted the submission"@)
}

impl Interventions {
    pub fn new() -> (r: Self)
        ensures
            r.interventions == 0 && r.detections == 0 && r.repairs == 0,
    {
        Interventions { interventions: 0, detections: 0, repairs: 0 }
    }

    /// Book a checker verdict.
    pub fn on_checker(&mut self, passed: bool, error: &str)
        requires
            old(self).interventions < u32::MAX,
            old(self).detections < u32::MAX,
        ensures
            final(self).interventions == old(self).interventions + if passed { 0int } else { 1int },
            final(self).detections == old(self).detections + if !passed && is_detection(error@) {
                1int
            } else {
                0int
            },
            final(self).repairs == old(self).repairs,
    {
        if !passed {
            self.interventions = self.interventions + 1;
            let ev = chars_of(error);
            if crate::text::contains_str(&ev, "declared checks failed") || starts_with_str(
                &ev,
                "critic refuted the submission",
            ) {
                self.detections = self.detections + 1;
            }
        }
    }

    /// Book a verifier refutation: an intervention with findings.
    pub fn on_refutation(&mut self)
        requires
            old(self).interventions < u32::MAX,
            old(self).detections < u32::MAX,
        ensures
            final(self).interventions == old(self).interventions + 1,
            final(self).detections == old(self).detections + 1,
            final(self).repairs == old(self).repairs,
    {
        self.interventions = self.interventions + 1;
        self.detections = self.detections + 1;
    }

    /// Book a passing close.
    pub fn on_pass(&mut self)
        requires
            old(self).repairs < u32::MAX,
        ensures
            final(self).interventions == old(self).interventions,
            final(self).detections == old(self).detections,
            final(self).repairs == old(self).repairs + if old(self).interventions > 0 { 1int } else { 0int },
    {
        if self.interventions > 0 {
            self.repairs = self.repairs + 1;
        }
    }
}

/// Whether the mission stops after a judged answer. It ends passed when
/// the checker passed it or, when there is a goal evaluator, when that
/// evaluator passes it; the second component says whether a passing verdict was
/// contradicted by the goal evaluator (a conflict to record).
pub open spec fn stop_spec(passed: bool, goal_green: Option<bool>) -> (bool, bool) {
    match goal_green {
        Some(g) => (g || passed, passed && !g),
        None => (passed, false),
    }
}

pub fn stop_decision(passed: bool, goal_green: Option<bool>) -> (r: (bool, bool))
    ensures
        r == stop_spec(passed, goal_green),
{
    match goal_green {
        Some(g) => (g || passed, passed && !g),
        None => (passed, false),
    }
}

/// The feedback of a verdict that does not stop the mission.
pub open spec fn red_feedback_spec(passed: bool, error: Seq<char>) -> Seq<char> {
    if passed {
        "checker reported pass but the GOAL EVALUATOR is red: F2P still failing in the sandbox - keep working"@
    } else {
        error
    }
}

pub fn red_feedback(passed: bool, error: &str) -> (r: String)
    ensures
        r@ == red_feedback_spec(passed, error@),
{
    if passed {
        string_of(&chars_of(
            "checker reported pass but the GOAL EVALUATOR is red: F2P still failing in the sandbox - keep working",
        ))
    } else {
        string_of(&chars_of(error))
    }
}

// ------------------------------------------------------------ verifier ---

/// How the adversarial verifier answered one round.
pub enum VerifierVerdict {
    /// Not refuted: the green stands (and the prior gaps are cleared).
    Cleared,
    /// Refuted: its findings, the blocking level, and the feedback for the
    /// model.
    Refuted { findings: Vec<String>, blocking: String, feedback: String },
    /// The reply is no verdict at all; the pass stands, recorded as a
    /// verifier malfunction.
    Malfunction(String),
}

/// The `detail` strings of the findings, in order.
pub open spec fn finding_details(fs: Seq<Json>) -> Seq<Seq<char>>
    decreases fs.len(),
{
    if fs.len() == 0 {
        Seq::empty()
    } else {
        let rest = finding_details(fs.drop_last());
        match as_str(get(fs.last(), "detail"@)) {
            Some(d) => rest.push(d),
            None => rest,
        }
    }
}

pub open spec fn findings_spec(args: Json) -> Seq<Seq<char>> {
    match as_array(get(args, "findings"@)) {
        Some(a) => finding_details(a),
        None => Seq::empty(),
    }
}

pub open spec fn blocking_spec(args: Json) -> Seq<char> {
    match as_str(get(args, "blocking"@)) {
        Some(b) => b,
        None => "none"@,
    }
}

/// The verdict arguments of a reply: the parsed completion must be a
/// verdict.submit call.
pub open spec fn verdict_args(reply: Option<Json>) -> Option<Json> {
    match reply {
        Some(env) => if as_str(get(env, "tool"@)) == Some("verdict.submit"@) {
            Some(get(env, "args"@))
        } else {
            None
        },
        None => None,
    }
}

pub open spec fn verifier_spec_matches(v: VerifierVerdict, reply: Option<Json>) -> bool {
    match verdict_args(reply) {
        None => v matches VerifierVerdict::Malfunction(d) && d@
            == "verdict was not a verdict.submit tool call (prose/wrong-tool reply)"@,
        Some(args) => match as_bool(get(args, "refuted"@)) {
            Some(false) => v is Cleared,
            Some(true) => v matches VerifierVerdict::Refuted { findings, blocking, feedback } && strings_view(
                findings@,
            ) == findings_spec(args) && blocking@ == blocking_spec(args) && feedback@ == "VERIFIER REFUTED (blocking="@
                + blocking_spec(args) + "): "@ + join(findings_spec(args), "; "@),
            None => v matches VerifierVerdict::Malfunction(d) && d@ == "verdict JSON missing the refuted field"@,
        },
    }
}

/// The refuting answer, with the details of its findings, its blocking level
/// (`none` when absent) and the feedback naming both.
fn refuted_verdict(args: &Json) -> (r: VerifierVerdict)
    ensures
        r matches VerifierVerdict::Refuted { findings, blocking, feedback } && strings_view(findings@)
            == findings_spec(*args) && blocking@ == blocking_spec(*args) && feedback@ == "VERIFIER REFUTED (blocking="@
            + blocking_spec(*args) + "): "@ + join(findings_spec(*args), "; "@),
{
    let mut findings: Vec<String> = Vec::new();
    match get_exec(args, "findings") {
        Some(Json::Array(a)) => {
            let ghost av = a@;
            let mut i: usize = 0;
            assert(av.take(0) =~= Seq::<Json>::empty());
            assert(strings_view(findings@) =~= Seq::<Seq<char>>::empty());
            while i < a.len()
                invariant
                    i <= a.len(),
                    av == a@,
                    strings_view(findings@) == finding_details(av.take(i as int)),
                decreases a.len() - i,
            {
                assert(av.take(i + 1).drop_last() =~= av.take(i as int));
                let ghost before = strings_view(findings@);
                match get_exec(&a[i], "detail") {
                    Some(Json::Str(d)) => {
                        findings.push(string_of(&chars_of(d.as_str())));
                        assert(strings_view(findings@) =~= before.push(d@));
                    },
                    _ => {},
                }
                i += 1;
            }
            assert(av.take(a.len() as int) =~= av);
        },
        _ => {},
    }
    let blocking = match get_exec(args, "blocking") {
        Some(Json::Str(b)) => string_of(&chars_of(b.as_str())),
        _ => string_of(&chars_of("none")),
    };
    let mut fb = chars_of("VERIFIER REFUTED (blocking=");
    extend_str(&mut fb, blocking.as_str());
    extend_str(&mut fb, "): ");
    let mut parts: Vec<Vec<char>> = Vec::new();
    let mut k: usize = 0;
    while k < findings.len()
        invariant
            k <= findings.len(),
            parts@.map_values(|p: Vec<char>| p@) == strings_view(findings@).take(k as int),
        decreases findings.len() - k,
    {
        let ghost before = parts@.map_values(|p: Vec<char>| p@);
        parts.push(chars_of(findings[k].as_str()));
        assert(parts@.map_values(|p: Vec<char>| p@) =~= before.push(findings@[k as int]@));
        assert(strings_view(findings@).take(k + 1) =~= strings_view(findings@).take(k as int).push(
            findings@[k as int]@,
        ));
        k += 1;
    }
    assert(strings_view(findings@).take(findings.len() as int) =~= strings_view(findings@));
    let sep = chars_of("; ");
    let joined = join_exec(&parts, &sep);
    extend_chars(&mut fb, &joined);
    VerifierVerdict::Refuted { findings, blocking, feedback: string_of(&fb) }
}

/// Read the verifier's reply (its completion parsed as JSON, `None` when
/// it was not JSON).
pub fn read_verdict(reply: &Option<Json>) -> (r: VerifierVerdict)
    ensures
        verifier_spec_matches(r, *reply),
{
    let env = match reply {
        Some(e) => e,
        None => return VerifierVerdict::Malfunction(string_of(&chars_of(
            "verdict was not a verdict.submit tool call (prose/wrong-tool reply)",
        ))),
    };
    let is_verdict = match get_exec(env, "tool") {
        Some(Json::Str(t)) => crate::text::str_eq(t.as_str(), "verdict.submit"),
        _ => false,
    };
    if !is_verdict {
        return VerifierVerdict::Malfunction(string_of(&chars_of(
            "verdict was not a verdict.submit tool call (prose/wrong-tool reply)",
        )));
    }
    let null = Json::Null;
    let args: &Json = match get_exec(env, "args") {
        Some(a) => a,
        None => &null,
    };
    match get_exec(args, "refuted") {
        Some(Json::Bool(false)) => VerifierVerdict::Cleared,
        Some(Json::Bool(true)) => refuted_verdict(args),
        _ => VerifierVerdict::Malfunction(string_of(&chars_of("verdict JSON missing the refuted field"))),
    }
}

/// The next adversarial verifier round, when one may still run: rounds
/// are capped at `VERIFIER_MAX_ROUNDS`, after which the checker's green
/// stands unaudited.
pub fn next_verifier_round(rounds: u32) -> (r: Option<u32>)
    ensures
        rounds < VERIFIER_MAX_ROUNDS ==> r == Some((rounds + 1) as u32),
        rounds >= VERIFIER_MAX_ROUNDS ==> r is None,
{
    if rounds < VERIFIER_MAX_ROUNDS {
        Some(rounds + 1)
    } else {
        None
    }
}

// ------------------------------------------------------ judged close ---

/// How a passing mission's green was resolved.
#[derive(Clone, Copy, Debug, PartialEq, Eq)]
pub enum PassOutcome {
    /// The verifier audited the work and did not refute it.
    Verified,
    /// The verifier refuted every round and the cap freed the submit.
    RatchetCapped,
    /// The verifier gave no verdict; a malfunction never blocks.
    VerifierMalfunction,
}

impl PassOutcome {
    pub open spec fn outcome_spec(self) -> Seq<char> {
        match self {
            PassOutcome::Verified => "verified"@,
            PassOutcome::RatchetCapped => "ratchet_capped"@,
            PassOutcome::VerifierMalfunction => "verifier_malfunction"@,
        }
    }

    /// The outcome word the result and the goal update carry.
    pub fn outcome(&self) -> (r: &'static str)
        ensures
            r@ == self.outcome_spec(),
    {
        match self {
            PassOutcome::Verified => "verified",
            PassOutcome::RatchetCapped => "ratchet_capped",
            PassOutcome::VerifierMalfunction => "verifier_malfunction",
        }
    }
}

/// What the loop does after the checker judged an answer.
#[derive(Clone, Copy, Debug, PartialEq, Eq)]
pub enum JudgedStep {
    /// Not green: keep working (with the red feedback).
    KeepWorking,
    /// Green: run adversarial verifier round `round` before passing.
    AskVerifier { round: u32 },
    /// Green and the verifier rounds are spent: pass.
    Pass(PassOutcome),
}

/// After a judged answer: a green (checker, or goal evaluator when there
/// is one) asks the verifier while rounds remain, and passes capped once
/// they are spent; anything else keeps working. `rounds` are the verifier
/// rounds already run in this mission.
pub open spec fn judged_spec(passed: bool, goal_green: Option<bool>, rounds: u32) -> JudgedStep {
    if !stop_spec(passed, goal_green).0 {
        JudgedStep::KeepWorking
    } else if rounds < VERIFIER_MAX_ROUNDS {
        JudgedStep::AskVerifier { round: (rounds + 1) as u32 }
    } else {
        JudgedStep::Pass(PassOutcome::RatchetCapped)
    }
}

pub fn judged_step(passed: bool, goal_green: Option<bool>, rounds: u32) -> (r: JudgedStep)
    ensures
        r == judged_spec(passed, goal_green, rounds),
{
    let (green, _) = stop_decision(passed, goal_green);
    if !green {
        JudgedStep::KeepWorking
    } else {
        match next_verifier_round(rounds) {
            Some(round) => JudgedStep::AskVerifier { round },
            None => JudgedStep::Pass(PassOutcome::RatchetCapped),
        }
    }
}

/// What a verifier round's verdict does to a green: a refutation sends the
/// work back; otherwise the mission passes (audited, or with the
/// malfunction recorded). The verifier can only send work back, never
/// pass on its own authority.
#[derive(Clone, Copy, Debug, PartialEq, Eq)]
pub enum VerifierStep {
    Pass(PassOutcome),
    SendBack,
}

pub open spec fn verifier_step_spec(v: VerifierVerdict) -> VerifierStep {
    match v {
        VerifierVerdict::Cleared => VerifierStep::Pass(PassOutcome::Verified),
        VerifierVerdict::Refuted { .. } => VerifierStep::SendBack,
        VerifierVerdict::Malfunction(_) => VerifierStep::Pass(PassOutcome::VerifierMalfunction),
    }
}

pub fn verifier_step(v: &VerifierVerdict) -> (r: VerifierStep)
    ensures
        r == verifier_step_spec(*v),
{
    match v {
        VerifierVerdict::Cleared => VerifierStep::Pass(PassOutcome::Verified),
        VerifierVerdict::Refuted { .. } => VerifierStep::SendBack,
        VerifierVerdict::Malfunction(_) => VerifierStep::Pass(PassOutcome::VerifierMalfunction),
    }
}

/// How a judged answer closes the mission, given what the verifier would
/// answer if asked: the pass outcome, or `None` when the mission goes on.
pub open spec fn judged_close(passed: bool, goal_green: Option<bool>, rounds: u32, verdict: VerifierVerdict) -> Option<
    PassOutcome,
> {
    match judged_spec(passed, goal_green, rounds) {
        JudgedStep::KeepWorking => None,
        JudgedStep::Pass(o) => Some(o),
        JudgedStep::AskVerifier { .. } => match verifier_step_spec(verdict) {
            VerifierStep::Pass(o) => Some(o),
            VerifierStep::SendBack => None,
        },
    }
}

// --------------------------------------------------------------- laws ---

/// An untested submission is never dispatched while steps remain in a
/// mission that offers repo.exec: it is refused with the steps left.
pub proof fn law_untested_submit_is_refused(
    tool: Seq<char>,
    dead: Seq<Seq<char>>,
    step: u32,
    max_steps: u32,
)
    requires
        tool == "answer.submit"@ || tool == "answer.write"@,
        !dead.contains(tool),
        step < max_steps,
    ensures
        gate_spec(Some(tool), dead, false, step, max_steps, true) == Some(
            untested_submit_text((max_steps - step) as nat),
        ),
{
}

/// At the last step an unverified answer goes through: an unverified
/// answer beats no answer.
pub proof fn law_last_step_submit_is_dispatched(tool: Seq<char>, dead: Seq<Seq<char>>, max_steps: u32, has_repo_exec: bool)
    requires
        tool == "answer.submit"@,
        !dead.contains(tool),
    ensures
        gate_spec(Some(tool), dead, false, max_steps, max_steps, has_repo_exec) is None,
{
}

/// A mission passes only on a green (the checker's, or the goal
/// evaluator's when there is one) that a verifier round did not refute:
/// while verifier rounds remain, a refutation always sends the work back,
/// an audited pass needs a cleared verdict, and a checker green is held
/// back by nothing but a refutation. Once the rounds are spent a green
/// passes capped.
pub proof fn law_pass_needs_green_and_no_refutation(
    passed: bool,
    goal_green: Option<bool>,
    rounds: u32,
    verdict: VerifierVerdict,
)
    ensures
        judged_close(passed, goal_green, rounds, verdict) is Some ==> stop_spec(passed, goal_green).0,
        rounds < VERIFIER_MAX_ROUNDS ==> (verdict is Refuted ==> judged_close(passed, goal_green, rounds, verdict)
            is None),
        judged_close(passed, goal_green, rounds, verdict) == Some(PassOutcome::Verified) ==> verdict is Cleared,
        judged_close(passed, goal_green, rounds, verdict) == Some(PassOutcome::RatchetCapped) ==> rounds
            >= VERIFIER_MAX_ROUNDS,
        passed ==> (judged_close(passed, goal_green, rounds, verdict) is None <==> (rounds < VERIFIER_MAX_ROUNDS
            && verdict is Refuted)),
{
}

/// A checker-passed mission always stops green, whatever the goal
/// evaluator says; a red goal evaluator against it is recorded as a
/// conflict.
pub proof fn law_checker_green_stops(goal_green: Option<bool>)
    ensures
        stop_spec(true, goal_green).0,
        stop_spec(true, goal_green).1 == (goal_green == Some(false)),
{
}

// ---------------------------------------------------- child missions ---

/// What one poll of a delegated child mission reports.
#[derive(Clone, Debug, PartialEq, Eq)]
pub enum ChildStatus {
    /// Still running, or the poll itself failed (polled again next step).
    Running,
    /// Finished: whether it passed, the cost to fold into this mission's
    /// books (a positive reported cost, else nothing), and the steps and
    /// cost it reported (0 when absent).
    Done { passed: bool, cost_add: u64, steps: i64, reported_cost: i64 },
    /// Its plugin process died with it; the reason the plugin gave.
    Lost { reason: String },
}

pub open spec fn i64_or_zero(j: Json, key: Seq<char>) -> i64 {
    match crate::json::as_i64(get(j, key)) {
        Some(n) => n,
        None => 0,
    }
}

/// The status a poll reply (`None` when the poll failed) reports.
pub open spec fn child_status_spec(reply: Option<Json>) -> ChildStatusView {
    match reply {
        None => ChildStatusView::Running,
        Some(v) => if as_str(get(v, "status"@)) == Some("done"@) {
            ChildStatusView::Done {
                passed: as_bool(get(v, "passed"@)) == Some(true),
                cost_add: if i64_or_zero(v, "cost_usd_micros"@) > 0 {
                    i64_or_zero(v, "cost_usd_micros"@) as u64
                } else {
                    0
                },
                steps: i64_or_zero(v, "steps"@),
                reported_cost: i64_or_zero(v, "cost_usd_micros"@),
            }
        } else if as_str(get(v, "status"@)) == Some("lost"@) {
            ChildStatusView::Lost {
                reason: match as_str(get(v, "reason"@)) {
                    Some(r) => r,
                    None => "stale registry marker"@,
                },
            }
        } else {
            ChildStatusView::Running
        },
    }
}

/// A child status seen with plain text.
pub enum ChildStatusView {
    Running,
    Done { passed: bool, cost_add: u64, steps: i64, reported_cost: i64 },
    Lost { reason: Seq<char> },
}

pub open spec fn child_status_view(c: ChildStatus) -> ChildStatusView {
    match c {
        ChildStatus::Running => ChildStatusView::Running,
        ChildStatus::Done { passed, cost_add, steps, reported_cost } => ChildStatusView::Done {
            passed,
            cost_add,
            steps,
            reported_cost,
        },
        ChildStatus::Lost { reason } => ChildStatusView::Lost { reason: reason@ },
    }
}

fn i64_or_zero_exec(j: &Json, key: &str) -> (r: i64)
    ensures
        r == i64_or_zero(*j, key@),
{
    match crate::json::get_i64(j, key) {
        Some(n) => n,
        None => 0,
    }
}

/// Read one `agent.spawn_poll` reply.
pub fn child_status(reply: Option<&Json>) -> (r: ChildStatus)
    ensures
        child_status_view(r) == child_status_spec(
            match reply {
                Some(v) => Some(*v),
                None => None,
            },
        ),
{
    let v = match reply {
        None => return ChildStatus::Running,
        Some(v) => v,
    };
    let status: Vec<char> = match crate::json::get_str(v, "status") {
        Some(t) => chars_of(t.as_str()),
        None => Vec::new(),
    };
    let has_status = crate::json::get_str(v, "status").is_some();
    if has_status && eq_str(&status, "done") {
        let c = i64_or_zero_exec(v, "cost_usd_micros");
        ChildStatus::Done {
            passed: match crate::json::get_bool(v, "passed") {
                Some(b) => b,
                None => false,
            },
            cost_add: if c > 0 {
                c as u64
            } else {
                0
            },
            steps: i64_or_zero_exec(v, "steps"),
            reported_cost: c,
        }
    } else if has_status && eq_str(&status, "lost") {
        ChildStatus::Lost {
            reason: match crate::json::get_str(v, "reason") {
                Some(r) => string_of(&chars_of(r.as_str())),
                None => String::from_str("stale registry marker"),
            },
        }
    } else {
        ChildStatus::Running
    }
}

/// The first eight characters of a child's stream id.
pub open spec fn short_id(id: Seq<char>) -> Seq<char> {
    if id.len() <= 8 {
        id
    } else {
        id.take(8)
    }
}

/// The delegation update for a lost child, shown to the operator.
pub open spec fn lost_update_spec(child_id: Seq<char>, mission: Seq<char>, reason: Seq<char>) -> Seq<char> {
    "child "@ + short_id(child_id) + " (\""@ + mission + "\") LOST - its plugin process died mid-run ("@ + reason
        + "); re-delegate if the work still matters"@
}

pub fn lost_update(child_id: &str, mission: &str, reason: &str) -> (r: String)
    ensures
        r@ == lost_update_spec(child_id@, mission@, reason@),
{
    let idv = chars_of(child_id);
    let n: usize = if idv.len() <= 8 {
        idv.len()
    } else {
        8
    };
    let mut t = chars_of("child ");
    let short = slice_chars(&idv, 0, n);
    assert(short@ =~= short_id(child_id@));
    extend_chars(&mut t, &short);
    extend_str(&mut t, " (\"");
    extend_str(&mut t, mission);
    extend_str(&mut t, "\") LOST - its plugin process died mid-run (");
    extend_str(&mut t, reason);
    extend_str(&mut t, "); re-delegate if the work still matters");
    string_of(&t)
}

// ---------------------------------------------------- resumed books ---

/// A cost field of one priced model-call payload (`None`: a payload that
/// could not be read): its integer value, negatives and absence as 0.
pub open spec fn payload_micros(p: Option<Json>, key: Seq<char>) -> u64 {
    match p {
        Some(v) => {
            let n = i64_or_zero(v, key);
            if n < 0 {
                0
            } else {
                n as u64
            }
        },
        None => 0,
    }
}

/// A cost field summed over a stream's model-call payloads, saturating
/// at `u64::MAX`.
pub open spec fn restored_total(ps: Seq<Option<Json>>, key: Seq<char>) -> u64
    decreases ps.len(),
{
    if ps.len() == 0 {
        0
    } else {
        let a = restored_total(ps.drop_last(), key);
        let b = payload_micros(ps.last(), key);
        if a + b > u64::MAX {
            u64::MAX
        } else {
            (a + b) as u64
        }
    }
}

/// A resumed stream's books: the cost and the conservative (list-rate)
/// cost its model calls already spent, so the resumed session reports
/// and budgets against them.
pub fn restored_costs(payloads: &Vec<Option<Json>>) -> (r: (u64, u64))
    ensures
        r.0 == restored_total(payloads@, "cost_usd_micros"@),
        r.1 == restored_total(payloads@, "conservative_cost_usd_micros"@),
{
    let mut cost: u64 = 0;
    let mut cons: u64 = 0;
    let mut i: usize = 0;
    assert(payloads@.take(0) =~= Seq::<Option<Json>>::empty());
    while i < payloads.len()
        invariant
            i <= payloads.len(),
            cost == restored_total(payloads@.take(i as int), "cost_usd_micros"@),
            cons == restored_total(payloads@.take(i as int), "conservative_cost_usd_micros"@),
        decreases payloads.len() - i,
    {
        assert(payloads@.take(i + 1).drop_last() =~= payloads@.take(i as int));
        assert(payloads@.take(i + 1).last() == payloads@[i as int]);
        let (a, b): (u64, u64) = match &payloads[i] {
            Some(v) => {
                let x = i64_or_zero_exec(v, "cost_usd_micros");
                let y = i64_or_zero_exec(v, "conservative_cost_usd_micros");
                (
                    if x < 0 {
                        0
                    } else {
                        x as u64
                    },
                    if y < 0 {
                        0
                    } else {
                        y as u64
                    },
                )
            },
            None => (0, 0),
        };
        cost = if cost > u64::MAX - a {
            u64::MAX
        } else {
            cost + a
        };
        cons = if cons > u64::MAX - b {
            u64::MAX
        } else {
            cons + b
        };
        i += 1;
    }
    assert(payloads@.take(payloads.len() as int) =~= payloads@);
    (cost, cons)
}

// ------------------------------------------------------ step guards ---

/// Why a mission stopped at a step boundary without a checker verdict.
#[derive(Clone, Copy, Debug, PartialEq, Eq)]
pub enum MissionStop {
    /// The operator's interrupt, seen at the start of a step: the steps
    /// before it are booked.
    Interrupted { after_steps: u32 },
    /// The list-rate spend passed the budget cap after a model call.
    BudgetKilled,
    /// The wall-clock cap was reached after a model call.
    WallKilled,
    /// Every step ran without a passing verdict.
    StepsExhausted,
}

impl MissionStop {
    /// The outcome word the mission's result and goal update carry.
    pub open spec fn outcome_spec(self) -> Seq<char> {
        match self {
            MissionStop::Interrupted { .. } => "interrupted"@,
            MissionStop::BudgetKilled => "budget_killed"@,
            MissionStop::WallKilled => "wall_killed"@,
            MissionStop::StepsExhausted => "steps_exhausted"@,
        }
    }

    pub fn outcome(&self) -> (r: &'static str)
        ensures
            r@ == self.outcome_spec(),
    {
        match self {
            MissionStop::Interrupted { .. } => "interrupted",
            MissionStop::BudgetKilled => "budget_killed",
            MissionStop::WallKilled => "wall_killed",
            MissionStop::StepsExhausted => "steps_exhausted",
        }
    }
}

/// At the start of step `step` (1-based): an operator interrupt stops the
/// mission with the steps before this one booked.
pub fn step_start_guard(step: u32, interrupted: bool) -> (r: Option<MissionStop>)
    requires
        step >= 1,
    ensures
        r == (if interrupted {
            Some(MissionStop::Interrupted { after_steps: (step - 1) as u32 })
        } else {
            None
        }),
{
    if interrupted {
        Some(MissionStop::Interrupted { after_steps: step - 1 })
    } else {
        None
    }
}

/// Before step `step` (1-based) of a mission capped at `max_steps`: with
/// every step spent and no verdict, the mission stops as exhausted.
pub fn steps_left_guard(step: u32, max_steps: u32) -> (r: Option<MissionStop>)
    ensures
        r == (if step > max_steps {
            Some(MissionStop::StepsExhausted)
        } else {
            None
        }),
{
    if step > max_steps {
        Some(MissionStop::StepsExhausted)
    } else {
        None
    }
}

/// After a step's model call is booked: the budget guard (the list-rate
/// spend above the cap) comes before the wall guard (elapsed seconds at
/// or past the cap; `elapsed_secs` is `None` before the mission started).
pub fn after_call_guard(
    budget_cap: Option<u64>,
    conservative_cost: u64,
    wall_secs: Option<u64>,
    elapsed_secs: Option<u64>,
) -> (r: Option<MissionStop>)
    ensures
        r == (if budget_cap matches Some(cap) && conservative_cost > cap {
            Some(MissionStop::BudgetKilled)
        } else if wall_secs matches Some(w) && elapsed_secs matches Some(e) && e >= w {
            Some(MissionStop::WallKilled)
        } else {
            None
        }),
{
    match budget_cap {
        Some(cap) => {
            if conservative_cost > cap {
                return Some(MissionStop::BudgetKilled);
            }
        },
        None => {},
    }
    match (wall_secs, elapsed_secs) {
        (Some(w), Some(e)) => if e >= w {
            Some(MissionStop::WallKilled)
        } else {
            None
        },
        _ => None,
    }
}

/// A mission's own spend: the cumulative counter minus where it stood at
/// the mission's start (0 if it stood higher).
pub fn mission_spend(total: u64, at_start: u64) -> (r: u64)
    ensures
        r == (if total >= at_start { (total - at_start) as u64 } else { 0 }),
{
    if total >= at_start {
        total - at_start
    } else {
        0
    }
}

} // verus!
