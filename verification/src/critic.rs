//! The independent critic. After the author's own checks are green, a
//! fresh model context that never saw the authoring session tries to
//! REFUTE the submission; it passes only when the critic cannot. The
//! refutation loop is fail-closed everywhere: step cap, wall cap, budget
//! cap, transport error, malformed verdict - each means not passed.
//!
//! The loop itself calls the model and the read-only shell; what it
//! decides between those calls is `RefuteState::gate` and
//! `RefuteState::on_reply`. Here too: the verdict parse, the prompts, the
//! checker rows the critic's outcome becomes, and the scripted critic
//! used as a test seam.
use vstd::prelude::*;
use std::collections::VecDeque;
use crate::text::{
    chars_of, dec, extend_chars, extend_str, find_char_from, find_char_from_exec, push_dec,
    rfind_char, rfind_char_exec, slice_chars, string_of, starts_with, starts_with_str, eq_str,
    tail_bytes, tail_bytes_safe,
};
use crate::json::{as_array, as_bool, as_str, escape, get, push_escaped, Json, JsonNumber};
use crate::repexec::{char_pred, split_char, split_where};

verus! {

broadcast use vstd::string::group_string_axioms;

/// The one tool the critic may call: a shell command on the live machine.
pub const TERM_EXEC_TOOL: &'static str = "term_exec";

/// The critic's system prompt.
pub const CRITIC_SYSTEM: &'static str = "You are an independent verifier reviewing a finished submission on a live Linux machine. You did NOT do the work under review and you have no memory of how it was produced. Your only job is to try to REFUTE the claim that the submission satisfies the task. You have one tool, term_exec: it runs a shell command on the live machine as an UNPRIVILEGED user (cwd is the task workdir; scratch in /tmp persists between calls).\n\
METHOD, in order:\n\
1. Extract every hard requirement from the task instruction: required files, paths, formats, labels, units, counts, and numeric ranges. Test EACH ONE against the live machine state. Do not trust the declared checks' coverage - test the instruction, not the checks.\n\
2. For every computed value in the submission, re-derive it by a DIFFERENT method than the declared checks use: a different formula, an independent code path, or a back-calculation from the outputs. Both methods must agree.\n\
3. Probe the edges the declared checks ignore: missing files, units, rounding, ordering, extra or missing lines.\n\
RULES:\n\
- The task's files are read-only to you BY MECHANISM: you run unprivileged (not root), so any modify, move, or delete of them fails with permission denied. Scratch work goes in /tmp.\n\
- A refutation must be concrete and reproduced: name the command you ran and the output that proves the failure.\n\
- When you are done, reply with exactly one JSON object and nothing else: {\"refuted\": true, \"reason\": \"<reproduced failure, quoting command and output>\"} or {\"refuted\": false, \"reason\": \"<what you tested and re-derived>\"}. Reply refuted:false only after genuinely running steps 1-3.";

/// The demand appended before the last model calls.
pub const FINAL_STEP_PROMPT: &'static str = "FINAL STEP. Do not call tools. Reply with EXACTLY one JSON object and nothing else: {\"refuted\": true, \"reason\": \"<reproduced failure>\"} or {\"refuted\": false, \"reason\": \"<what you tested and re-derived>\"}.";

/// The schema-tightening retry after one unparseable verdict.
pub const VERDICT_RETRY_PROMPT: &'static str = "Your verdict was not parseable. Reply with EXACTLY one JSON object and nothing else: {\"refuted\": true, \"reason\": \"<reproduced failure, quoting command and output>\"} or {\"refuted\": false, \"reason\": \"<what you tested and re-derived>\"}. No prose, no markdown fences.";

/// The tool result given to a probe that was not run.
pub const NOT_EXECUTED_RESULT: &'static str = "NOT EXECUTED: investigation is closed; return the required final verdict JSON.";

/// The demand that follows rejected tool calls.
pub const VERDICT_NOW_PROMPT: &'static str = "Your tool calls were not executed because investigation is closed. FINAL VERDICT NOW. Reply with EXACTLY one JSON object and nothing else: {\"refuted\": true, \"reason\": \"<reproduced failure>\"} or {\"refuted\": false, \"reason\": \"<what you tested and re-derived>\"}.";

/// One model reply: tool calls to run, or the final verdict text.
#[derive(Debug)]
pub enum CriticReply {
    /// (call id, shell command) pairs.
    ToolCalls(Vec<(String, String)>),
    Final(String),
}

/// A reply as plain sequences.
pub enum CriticReplyView {
    ToolCalls(Seq<(Seq<char>, Seq<char>)>),
    Final(Seq<char>),
}

pub open spec fn reply_view(r: CriticReply) -> CriticReplyView {
    match r {
        CriticReply::ToolCalls(cs) => CriticReplyView::ToolCalls(
            cs@.map_values(|c: (String, String)| (c.0@, c.1@)),
        ),
        CriticReply::Final(t) => CriticReplyView::Final(t@),
    }
}

/// The critic's caps.
#[derive(Clone, Copy, Debug)]
pub struct RefuteConfig {
    pub max_steps: u32,
    pub wall_secs: u64,
    pub budget_micros: u64,
    pub cmd_timeout_secs: u64,
}

impl Default for RefuteConfig {
    fn default() -> (r: Self)
        ensures
            r.max_steps == 48,
            r.wall_secs == 1800,
            r.budget_micros == 1_000_000,
            r.cmd_timeout_secs == 120,
    {
        RefuteConfig { max_steps: 48, wall_secs: 1800, budget_micros: 1_000_000, cmd_timeout_secs: 120 }
    }
}

// ------------------------------------------------------- verdict parse ---

#[verifier::external_type_specification]
#[verifier::external_body]
pub struct ExJsonValue(serde_json::Value);

/// What `serde_json::from_str::<Value>` makes of a text: the document, or
/// the parse error's message (its `Display` form) when the text is not
/// one JSON document.
pub uninterp spec fn json_document(text: Seq<char>) -> Result<serde_json::Value, Seq<char>>;

/// What `Value::get` gives for a key (an object's member).
pub uninterp spec fn json_member(v: serde_json::Value, key: Seq<char>) -> Option<serde_json::Value>;

/// What `Value::as_bool` gives.
pub uninterp spec fn json_bool(v: serde_json::Value) -> Option<bool>;

/// What `Value::as_str` gives.
pub uninterp spec fn json_str(v: serde_json::Value) -> Option<Seq<char>>;

/// What `Value::as_u64` gives.
pub uninterp spec fn json_u64(v: serde_json::Value) -> Option<u64>;

/// What `Value::as_array` gives: the array's items.
pub uninterp spec fn json_array(v: serde_json::Value) -> Option<Seq<serde_json::Value>>;

/// What `Value::is_object` gives.
pub uninterp spec fn json_is_object(v: serde_json::Value) -> bool;

/// What `serde_json::from_slice::<Value>` makes of bytes: the document,
/// or `None` when they are not one JSON document.
pub uninterp spec fn json_bytes_document(bytes: Seq<u8>) -> Option<serde_json::Value>;

/// A value's `Display` text: its compact JSON.
pub uninterp spec fn json_text(v: serde_json::Value) -> Seq<char>;

/// `serde_json::from_slice::<serde_json::Value>`, an error as `None`.
#[verifier::external_body]
pub(crate) fn parse_json_bytes(bytes: &[u8]) -> (r: Option<serde_json::Value>)
    ensures
        r == json_bytes_document(bytes@),
{
    serde_json::from_slice::<serde_json::Value>(bytes).ok()
}

/// `serde_json::Value`'s `Display` (`to_string`): its compact JSON.
#[verifier::external_body]
pub(crate) fn json_to_text(v: &serde_json::Value) -> (r: String)
    ensures
        r@ == json_text(*v),
{
    v.to_string()
}

/// `serde_json::from_str::<serde_json::Value>`, the error as its message.
#[verifier::external_body]
pub(crate) fn parse_json_document(text: &str) -> (r: Result<serde_json::Value, String>)
    ensures
        match r {
            Ok(v) => json_document(text@) == Ok::<serde_json::Value, Seq<char>>(v),
            Err(e) => json_document(text@) == Err::<serde_json::Value, Seq<char>>(e@),
        },
{
    serde_json::from_str::<serde_json::Value>(text).map_err(|e| e.to_string())
}

/// `serde_json::Value::get` with a string key.
#[verifier::external_body]
pub(crate) fn json_get<'a>(v: &'a serde_json::Value, key: &str) -> (r: Option<&'a serde_json::Value>)
    ensures
        match r {
            Some(m) => json_member(*v, key@) == Some(*m),
            None => json_member(*v, key@) is None,
        },
{
    v.get(key)
}

/// `serde_json::Value::as_bool`.
#[verifier::external_body]
pub(crate) fn json_as_bool(v: &serde_json::Value) -> (r: Option<bool>)
    ensures
        r == json_bool(*v),
{
    v.as_bool()
}

/// `serde_json::Value::as_u64`.
#[verifier::external_body]
pub(crate) fn json_as_u64(v: &serde_json::Value) -> (r: Option<u64>)
    ensures
        r == json_u64(*v),
{
    v.as_u64()
}

/// `serde_json::Value::as_array`.
#[verifier::external_body]
pub(crate) fn json_as_array<'a>(v: &'a serde_json::Value) -> (r: Option<&'a Vec<serde_json::Value>>)
    ensures
        match r {
            Some(a) => json_array(*v) == Some(a@),
            None => json_array(*v) is None,
        },
{
    v.as_array()
}

/// `serde_json::Value::is_object`.
#[verifier::external_body]
pub(crate) fn json_object_check(v: &serde_json::Value) -> (r: bool)
    ensures
        r == json_is_object(*v),
{
    v.is_object()
}

/// `serde_json::Value::clone`: an equal value.
#[verifier::external_body]
pub(crate) fn json_clone(v: &serde_json::Value) -> (r: serde_json::Value)
    ensures
        r == *v,
{
    v.clone()
}

/// `serde_json::Value::as_str`, the text copied out.
#[verifier::external_body]
pub(crate) fn json_as_str(v: &serde_json::Value) -> (r: Option<String>)
    ensures
        match r {
            Some(s) => json_str(*v) == Some(s@),
            None => json_str(*v) is None,
        },
{
    v.as_str().map(|s| s.to_string())
}

/// The span from the first `{` to the last `}` of a verdict text.
pub open spec fn verdict_span(text: Seq<char>) -> Option<(int, int)> {
    match (find_char_from(text, '{', 0), rfind_char(text, '}')) {
        (Some(s), Some(e)) => if e <= s {
            None
        } else {
            Some((s, e))
        },
        _ => None,
    }
}

/// A verdict from its two fields: it needs a boolean `refuted`; a missing
/// `reason` reads as empty.
pub open spec fn verdict_of(refuted: Option<bool>, reason: Option<Seq<char>>) -> Option<(bool, Seq<char>)> {
    match refuted {
        Some(b) => Some((
            b,
            match reason {
                Some(r) => r,
                None => Seq::empty(),
            },
        )),
        None => None,
    }
}

pub open spec fn member_bool(v: serde_json::Value, key: Seq<char>) -> Option<bool> {
    match json_member(v, key) {
        Some(m) => json_bool(m),
        None => None,
    }
}

pub open spec fn member_str(v: serde_json::Value, key: Seq<char>) -> Option<Seq<char>> {
    match json_member(v, key) {
        Some(m) => json_str(m),
        None => None,
    }
}

/// The lenient verdict parse: the JSON object from the first `{` to the
/// last `}` must carry a boolean "refuted"; prose around it is tolerated.
pub open spec fn parse_verdict_spec(text: Seq<char>) -> Option<(bool, Seq<char>)> {
    match verdict_span(text) {
        None => None,
        Some((s, e)) => match json_document(text.subrange(s, e + 1)) {
            Err(_) => None,
            Ok(v) => verdict_of(member_bool(v, "refuted"@), member_str(v, "reason"@)),
        },
    }
}

/// An optional string as an optional sequence.
pub open spec fn opt_text(o: Option<String>) -> Option<Seq<char>> {
    match o {
        Some(s) => Some(s@),
        None => None,
    }
}

/// A verdict from the two fields read out of the verdict object.
pub fn verdict_from_fields(refuted: Option<bool>, reason: Option<String>) -> (r: Option<(bool, String)>)
    ensures
        match r {
            Some((b, t)) => verdict_of(refuted, opt_text(reason)) == Some((b, t@)),
            None => verdict_of(refuted, opt_text(reason)) is None,
        },
{
    match refuted {
        Some(b) => match reason {
            Some(t) => Some((b, t)),
            None => Some((b, String::new())),
        },
        None => None,
    }
}

/// Lenient verdict parse: the first JSON object in the text carrying a
/// boolean "refuted". A missing or malformed object is `None`.
pub fn parse_verdict(text: &str) -> (r: Option<(bool, String)>)
    ensures
        match r {
            Some((b, t)) => parse_verdict_spec(text@) == Some((b, t@)),
            None => parse_verdict_spec(text@) is None,
        },
{
    let v = chars_of(text);
    let start = match find_char_from_exec(&v, '{', 0) {
        Some(s) => s,
        None => return None,
    };
    let end = match rfind_char_exec(&v, '}') {
        Some(e) => e,
        None => return None,
    };
    if end <= start {
        return None;
    }
    proof {
        crate::text::lemma_rfind_char_some(v@, '}');
    }
    let span = string_of(&slice_chars(&v, start, end + 1));
    let doc = match parse_json_document(span.as_str()) {
        Ok(d) => d,
        Err(_) => return None,
    };
    let refuted = match json_get(&doc, "refuted") {
        Some(m) => json_as_bool(m),
        None => None,
    };
    let reason = match json_get(&doc, "reason") {
        Some(m) => json_as_str(m),
        None => None,
    };
    verdict_from_fields(refuted, reason)
}

// ------------------------------------------------------ the refute loop ---

/// The loop's bookkeeping between model calls: model calls made, probes
/// run, and whether the one verdict retry was spent.
#[derive(Clone, Copy, Debug, PartialEq, Eq, Structural)]
pub struct RefuteState {
    pub steps: u32,
    pub probes: u32,
    pub verdict_retried: bool,
}

/// What the loop does at the head of an iteration.
pub enum RefuteGate {
    /// Stop, not passed, with this reason.
    Stop(String),
    /// Make one model call; when `final_only`, first append
    /// `FINAL_STEP_PROMPT` (the last calls are reserved for a verdict).
    Call { final_only: bool },
}

/// What the loop does with a model reply.
pub enum RefuteStep {
    /// The outcome.
    Finish { passed: bool, reason: String },
    /// Echo the text as the assistant's and send `VERDICT_RETRY_PROMPT`.
    RetryVerdict,
    /// Answer each tool call with `NOT_EXECUTED_RESULT`, then send
    /// `VERDICT_NOW_PROMPT`.
    RejectTools,
    /// Run each probe read-only and feed back its result.
    RunProbes,
}

pub enum GateView {
    Stop(Seq<char>),
    Call(bool),
}

pub enum StepView {
    Finish(bool, Seq<char>),
    RetryVerdict,
    RejectTools,
    RunProbes,
}

/// A model reply, or the model's error, as plain values.
pub enum ReplyView {
    ModelError(Seq<char>),
    Verdict(Seq<char>),
    Probes(nat),
}

pub open spec fn gate_view(g: RefuteGate) -> GateView {
    match g {
        RefuteGate::Stop(t) => GateView::Stop(t@),
        RefuteGate::Call { final_only } => GateView::Call(final_only),
    }
}

pub open spec fn step_view(s: RefuteStep) -> StepView {
    match s {
        RefuteStep::Finish { passed, reason } => StepView::Finish(passed, reason@),
        RefuteStep::RetryVerdict => StepView::RetryVerdict,
        RefuteStep::RejectTools => StepView::RejectTools,
        RefuteStep::RunProbes => StepView::RunProbes,
    }
}

pub open spec fn reply_event(r: Result<CriticReply, String>) -> ReplyView {
    match r {
        Err(e) => ReplyView::ModelError(e@),
        Ok(CriticReply::Final(t)) => ReplyView::Verdict(t@),
        Ok(CriticReply::ToolCalls(cs)) => ReplyView::Probes(cs.len() as nat),
    }
}

pub open spec fn step_cap_reason(max_steps: u32) -> Seq<char> {
    "critic hit its step cap ("@ + dec(max_steps as nat) + ") without a verdict - fail-closed"@
}

pub open spec fn wall_cap_reason(wall_secs: u64) -> Seq<char> {
    "critic hit its wall cap ("@ + dec(wall_secs as nat) + "s) without a verdict - fail-closed"@
}

pub open spec fn budget_cap_reason(dollars: Seq<char>) -> Seq<char> {
    "critic hit its budget cap ($"@ + dollars + ") without a verdict - fail-closed"@
}

pub open spec fn model_error_reason(e: Seq<char>) -> Seq<char> {
    "critic model error: "@ + e + " - fail-closed"@
}

pub open spec fn refuted_reason(why: Seq<char>) -> Seq<char> {
    "critic refuted the submission: "@ + why
}

pub open spec fn no_probe_reason() -> Seq<char> {
    "critic returned a clean verdict without a single machine probe - fail-closed"@
}

pub open spec fn unparseable_reason() -> Seq<char> {
    "critic verdict unparseable after retry - fail-closed"@
}

pub open spec fn ignored_final_reason() -> Seq<char> {
    "critic hit its step cap after ignoring the required final verdict twice - fail-closed"@
}

/// The head of an iteration: the step cap, the wall cap and the budget
/// cap stop the loop (in that order); otherwise one model call, counted.
/// `dollars` is the budget cap in dollars as the stop reason writes it.
pub open spec fn gate_spec(
    st: RefuteState,
    cfg: RefuteConfig,
    elapsed_secs: u64,
    cost_micros: u64,
    dollars: Seq<char>,
) -> (GateView, RefuteState) {
    if st.steps >= cfg.max_steps {
        (GateView::Stop(step_cap_reason(cfg.max_steps)), st)
    } else if elapsed_secs >= cfg.wall_secs {
        (GateView::Stop(wall_cap_reason(cfg.wall_secs)), st)
    } else if cost_micros >= cfg.budget_micros {
        (GateView::Stop(budget_cap_reason(dollars)), st)
    } else {
        (
            GateView::Call(st.steps + 2 >= cfg.max_steps),
            RefuteState { steps: (st.steps + 1) as u32, ..st },
        )
    }
}

/// A model reply's consequence. A verdict passes only when it parses as
/// not refuted and at least one probe ran; one unparseable verdict earns
/// one retry; tool calls after the final demand are rejected unrun.
pub open spec fn reply_spec(st: RefuteState, max_steps: u32, final_only: bool, ev: ReplyView) -> (
    StepView,
    RefuteState,
) {
    match ev {
        ReplyView::ModelError(e) => (StepView::Finish(false, model_error_reason(e)), st),
        ReplyView::Verdict(t) => match parse_verdict_spec(t) {
            Some((true, why)) => (StepView::Finish(false, refuted_reason(why)), st),
            Some((false, why)) => if st.probes == 0 {
                (StepView::Finish(false, no_probe_reason()), st)
            } else {
                (StepView::Finish(true, why), st)
            },
            None => if st.verdict_retried {
                (StepView::Finish(false, unparseable_reason()), st)
            } else {
                (StepView::RetryVerdict, RefuteState { verdict_retried: true, ..st })
            },
        },
        ReplyView::Probes(n) => if final_only {
            if st.steps >= max_steps {
                (StepView::Finish(false, ignored_final_reason()), st)
            } else {
                (StepView::RejectTools, st)
            }
        } else {
            (StepView::RunProbes, RefuteState { probes: (st.probes + n) as u32, ..st })
        },
    }
}

impl RefuteState {
    /// Nothing done yet.
    pub fn new() -> (r: Self)
        ensures
            r == (RefuteState { steps: 0, probes: 0, verdict_retried: false }),
    {
        RefuteState { steps: 0, probes: 0, verdict_retried: false }
    }

    /// The head of one iteration: the caps, then one model call.
    /// `elapsed_secs` is the wall time so far, `cost_micros` the model's
    /// cost so far, `budget_dollars` the budget cap in dollars with two
    /// decimals.
    pub fn gate(
        &mut self,
        cfg: &RefuteConfig,
        elapsed_secs: u64,
        cost_micros: u64,
        budget_dollars: &str,
    ) -> (r: RefuteGate)
        ensures
            (gate_view(r), *final(self)) == gate_spec(
                *old(self),
                *cfg,
                elapsed_secs,
                cost_micros,
                budget_dollars@,
            ),
    {
        if self.steps >= cfg.max_steps {
            let mut t = chars_of("critic hit its step cap (");
            push_dec(&mut t, cfg.max_steps as u64);
            extend_str(&mut t, ") without a verdict - fail-closed");
            return RefuteGate::Stop(string_of(&t));
        }
        if elapsed_secs >= cfg.wall_secs {
            let mut t = chars_of("critic hit its wall cap (");
            push_dec(&mut t, cfg.wall_secs);
            extend_str(&mut t, "s) without a verdict - fail-closed");
            return RefuteGate::Stop(string_of(&t));
        }
        if cost_micros >= cfg.budget_micros {
            let mut t = chars_of("critic hit its budget cap ($");
            extend_str(&mut t, budget_dollars);
            extend_str(&mut t, ") without a verdict - fail-closed");
            return RefuteGate::Stop(string_of(&t));
        }
        let final_only = self.steps.saturating_add(2) >= cfg.max_steps;
        self.steps = self.steps + 1;
        RefuteGate::Call { final_only }
    }

    /// What to do with the model's reply (or its error) to the call that
    /// `gate` allowed.
    pub fn on_reply(
        &mut self,
        cfg: &RefuteConfig,
        final_only: bool,
        reply: &Result<CriticReply, String>,
    ) -> (r: RefuteStep)
        ensures
            (step_view(r), *final(self)) == reply_spec(
                *old(self),
                cfg.max_steps,
                final_only,
                reply_event(*reply),
            ),
    {
        match reply {
            Err(e) => {
                let mut t = chars_of("critic model error: ");
                extend_str(&mut t, e.as_str());
                extend_str(&mut t, " - fail-closed");
                RefuteStep::Finish { passed: false, reason: string_of(&t) }
            },
            Ok(CriticReply::Final(text)) => match parse_verdict(text.as_str()) {
                Some((true, why)) => {
                    let mut t = chars_of("critic refuted the submission: ");
                    extend_str(&mut t, why.as_str());
                    RefuteStep::Finish { passed: false, reason: string_of(&t) }
                },
                Some((false, why)) => {
                    if self.probes == 0 {
                        RefuteStep::Finish {
                            passed: false,
                            reason: string_of(
                                &chars_of(
                                    "critic returned a clean verdict without a single machine probe - fail-closed",
                                ),
                            ),
                        }
                    } else {
                        RefuteStep::Finish { passed: true, reason: why }
                    }
                },
                None => {
                    if self.verdict_retried {
                        RefuteStep::Finish {
                            passed: false,
                            reason: string_of(&chars_of("critic verdict unparseable after retry - fail-closed")),
                        }
                    } else {
                        self.verdict_retried = true;
                        RefuteStep::RetryVerdict
                    }
                },
            },
            Ok(CriticReply::ToolCalls(calls)) => {
                if final_only {
                    if self.steps >= cfg.max_steps {
                        RefuteStep::Finish {
                            passed: false,
                            reason: string_of(
                                &chars_of(
                                    "critic hit its step cap after ignoring the required final verdict twice - fail-closed",
                                ),
                            ),
                        }
                    } else {
                        RefuteStep::RejectTools
                    }
                } else {
                    let len: usize = calls.len();
                    let n: u32 = len as u32;
                    let p: u32 = self.probes;
                    assert(p.wrapping_add(n) == (p + len) as u32) by (bit_vector)
                        requires
                            n == len as u32,
                    ;
                    self.probes = p.wrapping_add(n);
                    RefuteStep::RunProbes
                }
            },
        }
    }
}

/// The opening user message of the refutation.
pub open spec fn opening_prompt_spec(instruction: Seq<char>, checks: Seq<char>, workdir: Seq<char>) -> Seq<char> {
    "TASK INSTRUCTION (verbatim):\n"@ + instruction
        + "\n\nTHE SUBMISSION UNDER REVIEW declares these checks (already green):\n"@ + checks
        + "\n\nWorkdir: "@ + workdir + ". Refute the submission or clear it."@
}

/// The opening user message: the instruction, the declared checks, the
/// workdir.
pub fn opening_prompt(instruction: &str, checks_text: &str, workdir: &str) -> (r: String)
    ensures
        r@ == opening_prompt_spec(instruction@, checks_text@, workdir@),
{
    let mut t = chars_of("TASK INSTRUCTION (verbatim):\n");
    extend_str(&mut t, instruction);
    extend_str(&mut t, "\n\nTHE SUBMISSION UNDER REVIEW declares these checks (already green):\n");
    extend_str(&mut t, checks_text);
    extend_str(&mut t, "\n\nWorkdir: ");
    extend_str(&mut t, workdir);
    extend_str(&mut t, ". Refute the submission or clear it.");
    string_of(&t)
}

/// How many bytes of a probe's result the critic sees.
pub const PROBE_RESULT_BYTES: usize = 6000;

/// A probe's result as the critic sees it, before the byte cap.
pub open spec fn probe_text_spec(exit_code: Option<i64>, stdout: Seq<char>, stderr: Seq<char>) -> Seq<char> {
    "exit "@ + (match exit_code {
        Some(c) => crate::text::dec_int(c as int),
        None => "?"@,
    }) + "\nstdout:\n"@ + stdout + "\nstderr:\n"@ + stderr
}

/// A probe's result as the critic sees it: exit code (`?` when none),
/// stdout and stderr, cut to its last 6000 bytes.
pub fn probe_result_text(exit_code: Option<i64>, stdout: &str, stderr: &str) -> (r: String)
    ensures
        r@ == tail_bytes(probe_text_spec(exit_code, stdout@, stderr@), 6000),
{
    let mut t = chars_of("exit ");
    match exit_code {
        Some(c) => {
            let d = crate::text::dec_i64(c);
            extend_chars(&mut t, &d);
        },
        None => {
            t.push('?');
        },
    }
    extend_str(&mut t, "\nstdout:\n");
    extend_str(&mut t, stdout);
    extend_str(&mut t, "\nstderr:\n");
    extend_str(&mut t, stderr);
    proof {
        reveal_strlit("?");
    }
    assert(t@ =~= probe_text_spec(exit_code, stdout@, stderr@));
    let full = string_of(&t);
    tail_bytes_safe(full.as_str(), PROBE_RESULT_BYTES)
}

/// A submission passes only on a verdict that parses as not refuted,
/// after at least one machine probe: every other reply - a model error, a
/// refutation, a clean verdict without probes, an unparseable verdict,
/// tool calls - is not a pass.
pub proof fn law_pass_needs_clean_verdict_and_probe(
    st: RefuteState,
    max_steps: u32,
    final_only: bool,
    ev: ReplyView,
)
    ensures
        reply_spec(st, max_steps, final_only, ev).0 matches StepView::Finish(true, why) ==> {
            &&& st.probes > 0
            &&& ev matches ReplyView::Verdict(t)
            &&& parse_verdict_spec(t) == Some((false, why))
        },
        ev is ModelError ==> reply_spec(st, max_steps, final_only, ev).0 matches StepView::Finish(
            false,
            _,
        ),
{
}

/// An unparseable verdict earns exactly one retry: the retry is granted
/// only while unspent, and spends it.
pub proof fn law_single_verdict_retry(st: RefuteState, max_steps: u32, final_only: bool, ev: ReplyView)
    ensures
        reply_spec(st, max_steps, final_only, ev).0 is RetryVerdict ==> !st.verdict_retried
            && reply_spec(st, max_steps, final_only, ev).1.verdict_retried,
        st.verdict_retried ==> reply_spec(st, max_steps, final_only, ev).1.verdict_retried,
{
}

/// The caps bound the loop: a model call is allowed only below the step
/// cap and counts one step, replies never change the count, so no run
/// makes more than `max_steps` model calls; and a stop is never a pass.
pub proof fn law_model_calls_bounded(
    st: RefuteState,
    cfg: RefuteConfig,
    elapsed_secs: u64,
    cost_micros: u64,
    dollars: Seq<char>,
    final_only: bool,
    ev: ReplyView,
)
    requires
        st.steps <= cfg.max_steps,
    ensures
        gate_spec(st, cfg, elapsed_secs, cost_micros, dollars).1.steps <= cfg.max_steps,
        gate_spec(st, cfg, elapsed_secs, cost_micros, dollars).0 is Call ==> st.steps < cfg.max_steps
            && gate_spec(st, cfg, elapsed_secs, cost_micros, dollars).1.steps == st.steps + 1,
        gate_spec(st, cfg, elapsed_secs, cost_micros, dollars).0 is Stop ==> gate_spec(
            st,
            cfg,
            elapsed_secs,
            cost_micros,
            dollars,
        ).1 == st,
        reply_spec(st, cfg.max_steps, final_only, ev).1.steps == st.steps,
{
}

/// Only a verdict is accepted at the end: once fewer than two steps are
/// left, calls are final-only, and tool calls in a final-only reply are
/// never run.
pub proof fn law_final_calls_run_no_probes(
    st: RefuteState,
    cfg: RefuteConfig,
    elapsed_secs: u64,
    cost_micros: u64,
    dollars: Seq<char>,
    ev: ReplyView,
)
    ensures
        gate_spec(st, cfg, elapsed_secs, cost_micros, dollars).0 matches GateView::Call(f) ==> (f
            <==> st.steps + 2 >= cfg.max_steps),
        !(reply_spec(st, cfg.max_steps, true, ev).0 is RunProbes),
        reply_spec(st, cfg.max_steps, true, ev).1.probes == st.probes,
{
}

/// A whole refutation as the loop runs it, from state `st`: each input is
/// one iteration's elapsed seconds and model cost at its head, the budget
/// in dollars as the stop reason writes it, and the model's reply (or
/// error) to the call the head allows. The end is the verdict (passed,
/// reason), the final bookkeeping, the reply that ended it (`None` for a
/// cap) and whether any probe ran; `None` while the inputs run out first.
/// `ran` says whether a probe ran before `st`.
pub open spec fn refute_run(
    st: RefuteState,
    cfg: RefuteConfig,
    ins: Seq<(u64, u64, Seq<char>, ReplyView)>,
    ran: bool,
) -> Option<(bool, Seq<char>, RefuteState, Option<ReplyView>, bool)>
    decreases ins.len(),
{
    if ins.len() == 0 {
        None
    } else {
        let (elapsed, cost, dollars, ev) = ins[0];
        let (g, st1) = gate_spec(st, cfg, elapsed, cost, dollars);
        match g {
            GateView::Stop(reason) => Some((false, reason, st1, None, ran)),
            GateView::Call(final_only) => {
                let (sv, st2) = reply_spec(st1, cfg.max_steps, final_only, ev);
                match sv {
                    StepView::Finish(passed, reason) => Some((passed, reason, st2, Some(ev), ran)),
                    StepView::RunProbes => refute_run(
                        st2,
                        cfg,
                        ins.drop_first(),
                        ran || (ev matches ReplyView::Probes(n) && n > 0),
                    ),
                    _ => refute_run(st2, cfg, ins.drop_first(), ran),
                }
            },
        }
    }
}

proof fn lemma_refute_run(
    st: RefuteState,
    cfg: RefuteConfig,
    ins: Seq<(u64, u64, Seq<char>, ReplyView)>,
    ran: bool,
)
    requires
        st.steps <= cfg.max_steps,
        st.probes > 0 ==> ran,
    ensures
        refute_run(st, cfg, ins, ran) matches Some((passed, reason, fin, last, r)) ==> {
            &&& fin.steps <= cfg.max_steps
            &&& passed ==> (r && (last matches Some(ReplyView::Verdict(t)) && parse_verdict_spec(t) == Some(
                (false, reason),
            )))
        },
    decreases ins.len(),
{
    if ins.len() > 0 {
        let (elapsed, cost, dollars, ev) = ins[0];
        let (g, st1) = gate_spec(st, cfg, elapsed, cost, dollars);
        if let GateView::Call(final_only) = g {
            let (sv, st2) = reply_spec(st1, cfg.max_steps, final_only, ev);
            match sv {
                StepView::RunProbes => {
                    lemma_refute_run(
                        st2,
                        cfg,
                        ins.drop_first(),
                        ran || (ev matches ReplyView::Probes(n) && n > 0),
                    );
                },
                StepView::Finish(_, _) => {},
                _ => {
                    lemma_refute_run(st2, cfg, ins.drop_first(), ran);
                },
            }
        }
    }
}

/// Over a whole refutation from a fresh start: the model is called at
/// most `max_steps` times, and the submission passes only on a final
/// reply that parses as a clean (not refuted) verdict whose reason is the
/// pass reason, after at least one probe ran. So every cap hit, model
/// error, refutation, unparseable verdict or probe-less verdict fails.
pub proof fn law_refutation_passes_only_on_a_probed_clean_verdict(
    cfg: RefuteConfig,
    ins: Seq<(u64, u64, Seq<char>, ReplyView)>,
)
    ensures
        refute_run(RefuteState { steps: 0, probes: 0, verdict_retried: false }, cfg, ins, false) matches Some(
            (passed, reason, fin, last, ran),
        ) ==> {
            &&& fin.steps <= cfg.max_steps
            &&& passed ==> (ran && (last matches Some(ReplyView::Verdict(t)) && parse_verdict_spec(t) == Some(
                (false, reason),
            )))
        },
{
    lemma_refute_run(RefuteState { steps: 0, probes: 0, verdict_retried: false }, cfg, ins, false);
}

// ---------------------------------------------------- scripted critic ---

/// The compact JSON text of a verdict object (`{"reason":..,"refuted":..}`,
/// members in key order).
pub open spec fn verdict_json(refuted: bool, reason: Seq<char>) -> Seq<char> {
    "{\"reason\":\""@ + escape(reason) + (if refuted {
        "\",\"refuted\":true}"@
    } else {
        "\",\"refuted\":false}"@
    })
}

/// The replies a script describes: "tool:<cmd>" is one probe (call ids
/// `c1`, `c2`, .. by position), "refute:<reason>" a refuting verdict,
/// "clean" a clean one; other segments are ignored.
pub open spec fn script_replies(segs: Seq<Seq<char>>) -> Seq<CriticReplyView>
    decreases segs.len(),
{
    if segs.len() == 0 {
        Seq::empty()
    } else {
        let acc = script_replies(segs.drop_last());
        let seg = segs.last();
        if starts_with(seg, "tool:"@) {
            acc.push(
                CriticReplyView::ToolCalls(seq![(seq!['c'] + dec((acc.len() + 1) as nat), seg.skip(5))]),
            )
        } else if starts_with(seg, "refute:"@) {
            acc.push(CriticReplyView::Final(verdict_json(true, seg.skip(7))))
        } else if seg == "clean"@ {
            acc.push(CriticReplyView::Final(verdict_json(false, "scripted clean"@)))
        } else {
            acc
        }
    }
}

/// `seen` extended by each of `cs` not yet in it, in order.
pub open spec fn seen_extend(seen: Seq<Seq<char>>, cs: Seq<Seq<char>>) -> Seq<Seq<char>>
    decreases cs.len(),
{
    if cs.len() == 0 {
        seen
    } else {
        let s = seen_extend(seen, cs.drop_last());
        if s.contains(cs.last()) {
            s
        } else {
            s.push(cs.last())
        }
    }
}

/// The text a scripted critic answers with once its script is used up.
pub open spec fn exhausted_text() -> Seq<char> {
    "script exhausted without a verdict"@
}

/// A critic that replays a fixed script of replies (or always fails), and
/// records the distinct tool results it was shown.
pub struct ScriptedCritic {
    replies: VecDeque<CriticReply>,
    err: Option<String>,
    seen: Vec<String>,
    seen_count: usize,
}

/// A count held in a `usize`: it stops at the largest value.
pub open spec fn capped_count(n: int) -> int {
    if n > usize::MAX {
        usize::MAX as int
    } else {
        n
    }
}

impl ScriptedCritic {
    /// The replies still to come.
    pub closed spec fn replies(&self) -> Seq<CriticReplyView> {
        self.replies@.map_values(|r: CriticReply| reply_view(r))
    }

    /// The error every step fails with, if any.
    pub closed spec fn error(&self) -> Option<Seq<char>> {
        opt_text(self.err)
    }

    /// The distinct tool results shown so far, first sighting first.
    pub closed spec fn seen(&self) -> Seq<Seq<char>> {
        self.seen@.map_values(|s: String| s@)
    }

    /// How many tool results were shown, repeats counted.
    pub closed spec fn seen_count(&self) -> nat {
        self.seen_count as nat
    }

    /// A critic that replies with `replies`, in order.
    pub fn new(replies: Vec<CriticReply>) -> (r: Self)
        ensures
            r.replies() == replies@.map_values(|x: CriticReply| reply_view(x)),
            r.error() is None,
            r.seen() == Seq::<Seq<char>>::empty(),
            r.seen_count() == 0,
    {
        let ghost all = replies@;
        let mut v = replies;
        let mut q: VecDeque<CriticReply> = VecDeque::new();
        while v.len() > 0
            invariant
                v@ == all.take(v.len() as int),
                q@ == all.skip(v.len() as int),
                v.len() <= all.len(),
            decreases v.len(),
        {
            let ghost n = v.len();
            let x = v.pop().unwrap();
            q.push_front(x);
            assert(q@ =~= all.skip(n - 1));
            assert(v@ =~= all.take(n - 1));
        }
        assert(q@ =~= all);
        let r = ScriptedCritic { replies: q, err: None, seen: Vec::new(), seen_count: 0 };
        assert(r.seen() =~= Seq::<Seq<char>>::empty());
        r
    }

    /// A critic whose every step fails with `err`.
    pub fn failing(err: &str) -> (r: Self)
        ensures
            r.replies() == Seq::<CriticReplyView>::empty(),
            r.error() == Some(err@),
            r.seen() == Seq::<Seq<char>>::empty(),
            r.seen_count() == 0,
    {
        let r = ScriptedCritic {
            replies: VecDeque::new(),
            err: Some(string_of(&chars_of(err))),
            seen: Vec::new(),
            seen_count: 0,
        };
        assert(r.replies() =~= Seq::<CriticReplyView>::empty());
        assert(r.seen() =~= Seq::<Seq<char>>::empty());
        r
    }

    /// How many tool results were shown so far, repeats counted.
    pub fn shown_count(&self) -> (r: usize)
        ensures
            r == self.seen_count(),
    {
        self.seen_count
    }

    /// The distinct tool results shown so far.
    pub fn seen_tool_results(&self) -> (r: &Vec<String>)
        ensures
            r@.map_values(|s: String| s@) == self.seen(),
    {
        &self.seen
    }

    /// A critic from a script: "|"-separated segments, each "tool:<cmd>",
    /// "refute:<reason>" or "clean".
    pub fn from_script(script: &str) -> (r: Self)
        ensures
            r.replies() == script_replies(split_where(script@, char_pred('|'))),
            r.error() is None,
            r.seen() == Seq::<Seq<char>>::empty(),
            r.seen_count() == 0,
    {
        let sv = chars_of(script);
        let segs = split_char(&sv, '|');
        let ghost sg = segs@.map_values(|x: Vec<char>| x@);
        let mut out: Vec<CriticReply> = Vec::new();
        let mut i: usize = 0;
        proof {
            reveal_strlit("tool:");
            reveal_strlit("refute:");
            reveal_strlit("clean");
            assert(sg.take(0) =~= Seq::<Seq<char>>::empty());
        }
        while i < segs.len()
            invariant
                i <= segs.len(),
                sg == segs@.map_values(|x: Vec<char>| x@),
                out.len() <= i,
                out@.map_values(|x: CriticReply| reply_view(x)) == script_replies(sg.take(i as int)),
            decreases segs.len() - i,
        {
            let seg = &segs[i];
            let ghost acc = script_replies(sg.take(i as int));
            proof {
                reveal_strlit("tool:");
                reveal_strlit("refute:");
                reveal_strlit("clean");
                assert(sg.take(i + 1).drop_last() =~= sg.take(i as int));
                assert(sg.take(i + 1).last() == seg@);
            }
            if starts_with_str(seg, "tool:") {
                let cmd = slice_chars(seg, 5, seg.len());
                let mut id: Vec<char> = Vec::new();
                id.push('c');
                push_dec(&mut id, (out.len() + 1) as u64);
                let call = (string_of(&id), string_of(&cmd));
                let ghost cv = (call.0@, call.1@);
                let mut calls: Vec<(String, String)> = Vec::new();
                calls.push(call);
                let rep = CriticReply::ToolCalls(calls);
                proof {
                    assert(cmd@ =~= seg@.skip(5));
                    assert(calls@.map_values(|c: (String, String)| (c.0@, c.1@)) =~= seq![cv]);
                    assert(out@.push(rep).map_values(|x: CriticReply| reply_view(x)) =~= out@.map_values(
                        |x: CriticReply| reply_view(x),
                    ).push(reply_view(rep)));
                }
                out.push(rep);
            } else if starts_with_str(seg, "refute:") {
                let why = string_of(&slice_chars(seg, 7, seg.len()));
                let mut t = chars_of("{\"reason\":\"");
                push_escaped(&mut t, why.as_str());
                extend_str(&mut t, "\",\"refuted\":true}");
                let rep = CriticReply::Final(string_of(&t));
                proof {
                    reveal_strlit("true");
                    assert(why@ =~= seg@.skip(7));
                    assert(t@ =~= verdict_json(true, seg@.skip(7)));
                    assert(out@.push(rep).map_values(|x: CriticReply| reply_view(x)) =~= out@.map_values(
                        |x: CriticReply| reply_view(x),
                    ).push(reply_view(rep)));
                }
                out.push(rep);
            } else if eq_str(seg, "clean") {
                let mut t = chars_of("{\"reason\":\"");
                push_escaped(&mut t, "scripted clean");
                extend_str(&mut t, "\",\"refuted\":false}");
                let rep = CriticReply::Final(string_of(&t));
                proof {
                    reveal_strlit("false");
                    assert(t@ =~= verdict_json(false, "scripted clean"@));
                    assert(out@.push(rep).map_values(|x: CriticReply| reply_view(x)) =~= out@.map_values(
                        |x: CriticReply| reply_view(x),
                    ).push(reply_view(rep)));
                }
                out.push(rep);
            }
            i += 1;
        }
        proof {
            assert(sg.take(segs.len() as int) =~= sg);
        }
        Self::new(out)
    }

    /// One model step. `tool_results` are the contents of the tool
    /// messages in the conversation so far; each is recorded (once) and
    /// counted. Then the scripted error, or the next scripted reply, or -
    /// the script used up - a non-verdict final text.
    pub fn step(&mut self, tool_results: &Vec<String>) -> (r: Result<CriticReply, String>)
        ensures
            final(self).seen() == seen_extend(
                old(self).seen(),
                tool_results@.map_values(|s: String| s@),
            ),
            final(self).seen_count() == capped_count(old(self).seen_count() + tool_results.len()),
            final(self).error() == old(self).error(),
            match old(self).error() {
                Some(e) => r matches Err(x) && x@ == e && final(self).replies() == old(self).replies(),
                None => if old(self).replies().len() > 0 {
                    r matches Ok(x) && reply_view(x) == old(self).replies()[0] && final(self).replies() == old(self).replies().drop_first()
                } else {
                    r matches Ok(x) && reply_view(x) == CriticReplyView::Final(exhausted_text())
                        && final(self).replies() == old(self).replies()
                },
            },
    {
        let ghost cs = tool_results@.map_values(|s: String| s@);
        let mut i: usize = 0;
        proof {
            assert(cs.take(0) =~= Seq::<Seq<char>>::empty());
        }
        while i < tool_results.len()
            invariant
                i <= tool_results.len(),
                cs == tool_results@.map_values(|s: String| s@),
                self.seen() == seen_extend(old(self).seen(), cs.take(i as int)),
                self.seen_count == capped_count(old(self).seen_count + i),
                self.replies == old(self).replies,
                self.err == old(self).err,
            decreases tool_results.len() - i,
        {
            let c = &tool_results[i];
            let mut present = false;
            let mut j: usize = 0;
            while j < self.seen.len() && !present
                invariant
                    j <= self.seen.len(),
                    present ==> j < self.seen.len() && self.seen@[j as int]@ == c@,
                    !present ==> forall|k: int| 0 <= k < j ==> self.seen@[k]@ != c@,
                decreases self.seen.len() - j, (if present { 0int } else { 1int }),
            {
                if self.seen[j] == *c {
                    present = true;
                } else {
                    j += 1;
                }
            }
            proof {
                assert(cs.take(i + 1).drop_last() =~= cs.take(i as int));
                assert(cs.take(i + 1).last() == c@);
                if present {
                    assert(self.seen()[j as int] == c@);
                } else {
                    assert forall|k: int| 0 <= k < self.seen().len() implies self.seen()[k] != c@ by {
                        assert(self.seen()[k] == self.seen@[k]@);
                    }
                }
            }
            if !present {
                self.seen.push(c.clone());
                proof {
                    assert(self.seen() =~= seen_extend(old(self).seen(), cs.take(i as int)).push(c@));
                }
            }
            self.seen_count = if self.seen_count < usize::MAX {
                self.seen_count + 1
            } else {
                self.seen_count
            };
            i += 1;
        }
        proof {
            assert(cs.take(tool_results.len() as int) =~= cs);
        }
        match &self.err {
            Some(e) => {
                return Err(e.clone());
            },
            None => {},
        }
        match self.replies.pop_front() {
            Some(x) => {
                proof {
                    assert(self.replies() =~= old(self).replies().drop_first());
                }
                Ok(x)
            },
            None => Ok(CriticReply::Final(string_of(&chars_of("script exhausted without a verdict")))),
        }
    }
}

// ------------------------------------------------------- checker gate ---

/// The instruction the critic is anchored to: the rig's instruction file
/// when it holds more than whitespace, else the workspace's own
/// `.hs/instruction.txt` (empty when neither could be read).
pub open spec fn gate_instruction(rig: Option<Seq<char>>, local: Option<Seq<char>>) -> Seq<char> {
    match rig {
        Some(t) if crate::text::trim(t).len() > 0 => t,
        _ => match local {
            Some(l) => l,
            None => Seq::empty(),
        },
    }
}

/// What the critic reviews: the instruction, followed by the author's own
/// submission summary when there is one (its claims are refutation
/// targets); `None` when there is no instruction anchor.
pub open spec fn gate_brief_spec(rig: Option<Seq<char>>, local: Option<Seq<char>>, answer: Option<Seq<char>>) -> Option<Seq<char>> {
    let ins = gate_instruction(rig, local);
    if crate::text::trim(ins).len() == 0 {
        None
    } else {
        Some(
            ins + match answer {
                Some(a) if crate::text::trim(a).len() > 0 => "\n\nAUTHOR'S SUBMISSION SUMMARY:\n"@ + a,
                _ => Seq::empty(),
            },
        )
    }
}

pub open spec fn opt_str_view(o: Option<&str>) -> Option<Seq<char>> {
    match o {
        Some(s) => Some(s@),
        None => None,
    }
}

/// The critic's brief from the instruction sources and the author's
/// answer summary (each `None` when unreadable).
pub fn gate_brief(rig: Option<&str>, local: Option<&str>, answer: Option<&str>) -> (r: Option<String>)
    ensures
        match gate_brief_spec(opt_str_view(rig), opt_str_view(local), opt_str_view(answer)) {
            Some(b) => r matches Some(s) && s@ == b,
            None => r is None,
        },
{
    let ins: Vec<char> = match rig {
        Some(t) if crate::text::trim_chars(&chars_of(t)).len() > 0 => chars_of(t),
        _ => match local {
            Some(l) => chars_of(l),
            None => Vec::new(),
        },
    };
    if crate::text::trim_chars(&ins).len() == 0 {
        return None;
    }
    let mut brief = ins;
    match answer {
        Some(a) => {
            if crate::text::trim_chars(&chars_of(a)).len() > 0 {
                extend_str(&mut brief, "\n\nAUTHOR'S SUBMISSION SUMMARY:\n");
                extend_str(&mut brief, a);
            }
        },
        None => {},
    }
    Some(string_of(&brief))
}

/// The refusal when no instruction anchors the critic.
pub open spec fn no_anchor_error() -> Seq<char> {
    "critic gate: no instruction anchor (HS_TB_INSTRUCTION_FILE unreadable and <ws>/.hs/instruction.txt missing) - fail-closed"@
}

/// A failed gate row: `{"error": <error>, "passed": false}`.
pub open spec fn gate_failure_row(r: Json, error: Seq<char>) -> bool {
    &&& r is Object
    &&& r->Object_0@.map_values(|m: (String, Json)| m.0@) == seq!["error"@, "passed"@]
    &&& as_str(r->Object_0@[0].1) == Some(error)
    &&& r->Object_0@[1].1 == Json::Bool(false)
}

fn failure_row(error: Vec<char>) -> (r: Json)
    ensures
        gate_failure_row(r, error@),
{
    let mut m: Vec<(String, Json)> = Vec::new();
    m.push((String::from_str("error"), Json::Str(string_of(&error))));
    m.push((String::from_str("passed"), Json::Bool(false)));
    assert(m@.map_values(|x: (String, Json)| x.0@) =~= seq!["error"@, "passed"@]);
    Json::Object(m)
}

/// The row of a gate with no instruction anchor.
pub fn no_anchor_row() -> (r: Json)
    ensures
        gate_failure_row(r, no_anchor_error()),
{
    failure_row(chars_of(
        "critic gate: no instruction anchor (HS_TB_INSTRUCTION_FILE unreadable and <ws>/.hs/instruction.txt missing) - fail-closed",
    ))
}

/// The row of a gate with no critic model available.
pub fn no_model_row(e: &str) -> (r: Json)
    ensures
        gate_failure_row(r, "critic gate: no critic model available: "@ + e@ + " - fail-closed"@),
{
    let mut t = chars_of("critic gate: no critic model available: ");
    extend_str(&mut t, e);
    extend_str(&mut t, " - fail-closed");
    failure_row(t)
}

/// The checker row from the critic's outcome. A pass carries the
/// critic's steps, cost and reason:
/// `{"critic": {"cost_micros", "reason", "steps"}, "error": "", "passed": true}`;
/// a refusal is a failed row naming the independent critic's reason.
pub open spec fn gate_verdict_row(r: Json, passed: bool, steps: u32, cost_micros: u64, reason: Seq<char>) -> bool {
    if passed {
        &&& r is Object
        &&& r->Object_0@.map_values(|m: (String, Json)| m.0@) == seq!["critic"@, "error"@, "passed"@]
        &&& as_str(r->Object_0@[1].1) == Some(Seq::<char>::empty())
        &&& r->Object_0@[2].1 == Json::Bool(true)
        &&& ({
            let c = r->Object_0@[0].1;
            &&& c is Object
            &&& c->Object_0@.map_values(|m: (String, Json)| m.0@) == seq!["cost_micros"@, "reason"@, "steps"@]
            &&& c->Object_0@[0].1 == Json::Number(JsonNumber::PosInt(cost_micros))
            &&& as_str(c->Object_0@[1].1) == Some(reason)
            &&& c->Object_0@[2].1 == Json::Number(JsonNumber::PosInt(steps as u64))
        })
    } else {
        gate_failure_row(r, "independent critic: "@ + reason)
    }
}

pub fn gate_verdict(passed: bool, steps: u32, cost_micros: u64, reason: &str) -> (r: Json)
    ensures
        gate_verdict_row(r, passed, steps, cost_micros, reason@),
{
    if !passed {
        let mut t = chars_of("independent critic: ");
        extend_str(&mut t, reason);
        return failure_row(t);
    }
    let mut c: Vec<(String, Json)> = Vec::new();
    c.push((String::from_str("cost_micros"), Json::Number(JsonNumber::PosInt(cost_micros))));
    c.push((String::from_str("reason"), Json::Str(String::from_str(reason))));
    c.push((String::from_str("steps"), Json::Number(JsonNumber::PosInt(steps as u64))));
    assert(c@.map_values(|x: (String, Json)| x.0@) =~= seq!["cost_micros"@, "reason"@, "steps"@]);
    let mut m: Vec<(String, Json)> = Vec::new();
    m.push((String::from_str("critic"), Json::Object(c)));
    m.push((String::from_str("error"), Json::Str(String::new())));
    m.push((String::from_str("passed"), Json::Bool(true)));
    assert(m@.map_values(|x: (String, Json)| x.0@) =~= seq!["critic"@, "error"@, "passed"@]);
    Json::Object(m)
}

/// The critic runs only after the author's declared checks passed: their
/// row holds `passed: true`. Any other row of theirs is the answer as
/// it stands.
pub fn phase_one_green(phase1: &Json) -> (r: bool)
    ensures
        r == (as_bool(get(*phase1, "passed"@)) == Some(true)),
{
    match crate::json::get_bool(phase1, "passed") {
        Some(b) => b,
        None => false,
    }
}

// ------------------------------------------------- provider replies ---

/// The (id, command) of one tool call of a provider reply, or why the
/// reply is refused: a tool other than the shell, arguments that are no
/// JSON document, or arguments without a `command` string. A missing id
/// reads `c0`, missing arguments `{}`.
pub open spec fn critic_call_spec(provider: Seq<char>, tc: Json) -> Result<(Seq<char>, Seq<char>), Seq<char>> {
    let id = match as_str(get(tc, "id"@)) {
        Some(i) => i,
        None => "c0"@,
    };
    let name = match as_str(get(get(tc, "function"@), "name"@)) {
        Some(n) => n,
        None => Seq::empty(),
    };
    let raw = match as_str(get(get(tc, "function"@), "arguments"@)) {
        Some(a) => a,
        None => "{}"@,
    };
    if name != TERM_EXEC_TOOL@ {
        Err(provider + " critic: unknown tool "@ + crate::repl::debug_text(name))
    } else {
        match json_document(raw) {
            Err(e) => Err(provider + " critic: bad tool arguments: "@ + e),
            Ok(v) => match member_str(v, "command"@) {
                Some(c) => Ok((id, c)),
                None => Err(provider + " critic: tool call missing command"@),
            },
        }
    }
}

/// The tool calls `tcs[i..]` in order, or the first refusal among them.
pub open spec fn critic_calls_spec(provider: Seq<char>, tcs: Seq<Json>, i: int) -> Result<Seq<(Seq<char>, Seq<char>)>, Seq<char>>
    decreases tcs.len() - i,
{
    if i < 0 || i >= tcs.len() {
        Ok(Seq::empty())
    } else {
        match critic_call_spec(provider, tcs[i]) {
            Err(e) => Err(e),
            Ok(c) => match critic_calls_spec(provider, tcs, i + 1) {
                Err(e) => Err(e),
                Ok(rest) => Ok(seq![c] + rest),
            },
        }
    }
}

/// A critic reply seen as plain sequences.
pub open spec fn reply_texts(r: CriticReply) -> Result<Seq<(Seq<char>, Seq<char>)>, Seq<char>> {
    match r {
        CriticReply::ToolCalls(cs) => Ok(cs@.map_values(|c: (String, String)| (c.0@, c.1@))),
        CriticReply::Final(t) => Err(t@),
    }
}

/// What a provider's reply message is to the critic loop: its tool calls
/// when it carries any (`Ok` of the calls), else its text content as the
/// final verdict (`Err` of the text) - or the refusal.
pub open spec fn critic_reply_spec(provider: Seq<char>, message: Json) -> Result<Result<Seq<(Seq<char>, Seq<char>)>, Seq<char>>, Seq<char>> {
    match as_array(get(message, "tool_calls"@)) {
        Some(tcs) if tcs.len() > 0 => match critic_calls_spec(provider, tcs, 0) {
            Ok(cs) => Ok(Ok(cs)),
            Err(e) => Err(e),
        },
        _ => match as_str(get(message, "content"@)) {
            Some(t) => Ok(Err(t)),
            None => Err(provider + " critic: completion carried neither tool calls nor content"@),
        },
    }
}

fn critic_call(provider: &str, tc: &Json) -> (r: Result<(String, String), String>)
    ensures
        match r {
            Ok((i, c)) => critic_call_spec(provider@, *tc) == Ok::<(Seq<char>, Seq<char>), Seq<char>>((i@, c@)),
            Err(e) => critic_call_spec(provider@, *tc) == Err::<(Seq<char>, Seq<char>), Seq<char>>(e@),
        },
{
    let id = match crate::json::get_str(tc, "id") {
        Some(i) => string_of(&chars_of(i.as_str())),
        None => String::from_str("c0"),
    };
    let f = crate::json::get_exec(tc, "function");
    let name: Vec<char> = match crate::json::member(f, "name") {
        Some(Json::Str(n)) => chars_of(n.as_str()),
        _ => Vec::new(),
    };
    let raw: String = match crate::json::member(f, "arguments") {
        Some(Json::Str(a)) => string_of(&chars_of(a.as_str())),
        _ => String::from_str("{}"),
    };
    if !eq_str(&name, TERM_EXEC_TOOL) {
        let mut e = chars_of(provider);
        extend_str(&mut e, " critic: unknown tool ");
        let d = crate::repl::debug_str(string_of(&name).as_str());
        extend_str(&mut e, d.as_str());
        return Err(string_of(&e));
    }
    let doc = match parse_json_document(raw.as_str()) {
        Ok(d) => d,
        Err(m) => {
            let mut e = chars_of(provider);
            extend_str(&mut e, " critic: bad tool arguments: ");
            extend_str(&mut e, m.as_str());
            return Err(string_of(&e));
        },
    };
    let cmd = match json_get(&doc, "command") {
        Some(m) => json_as_str(m),
        None => None,
    };
    match cmd {
        Some(c) => Ok((id, c)),
        None => {
            let mut e = chars_of(provider);
            extend_str(&mut e, " critic: tool call missing command");
            Err(string_of(&e))
        },
    }
}

/// Read a provider's reply message (`choices[0].message`) as a critic
/// reply: its tool calls (each must be the shell tool with a `command`),
/// else its text content as the final verdict.
pub fn critic_reply_from(provider: &str, message: &Json) -> (r: Result<CriticReply, String>)
    ensures
        match r {
            Ok(reply) => critic_reply_spec(provider@, *message) == Ok::<
                Result<Seq<(Seq<char>, Seq<char>)>, Seq<char>>,
                Seq<char>,
            >(reply_texts(reply)),
            Err(e) => critic_reply_spec(provider@, *message) == Err::<
                Result<Seq<(Seq<char>, Seq<char>)>, Seq<char>>,
                Seq<char>,
            >(e@),
        },
{
    match crate::json::get_array(message, "tool_calls") {
        Some(tcs) => {
            if tcs.len() > 0 {
                let mut calls: Vec<(String, String)> = Vec::new();
                // front to back: the first refusal wins
                let mut k: usize = 0;
                while k < tcs.len()
                    invariant
                        k <= tcs.len(),
                        tcs.len() > 0,
                        as_array(get(*message, "tool_calls"@)) == Some(tcs@),
                        critic_calls_spec(provider@, tcs@, 0) == match critic_calls_spec(provider@, tcs@, k as int) {
                            Ok(rest) => Ok(calls@.map_values(|c: (String, String)| (c.0@, c.1@)) + rest),
                            Err(e) => Err::<Seq<(Seq<char>, Seq<char>)>, Seq<char>>(e),
                        },
                    decreases tcs.len() - k,
                {
                    match critic_call(provider, &tcs[k]) {
                        Ok(c) => {
                            let ghost before = calls@.map_values(|c: (String, String)| (c.0@, c.1@));
                            let ghost cv = (c.0@, c.1@);
                            calls.push(c);
                            proof {
                                assert(calls@.map_values(|c: (String, String)| (c.0@, c.1@)) =~= before.push(cv));
                                match critic_calls_spec(provider@, tcs@, k + 1) {
                                    Ok(rest) => {
                                        assert(before + (seq![cv] + rest) =~= before.push(cv) + rest);
                                    },
                                    Err(_) => {},
                                }
                            }
                        },
                        Err(e) => {
                            assert(critic_calls_spec(provider@, tcs@, k as int) == Err::<
                                Seq<(Seq<char>, Seq<char>)>,
                                Seq<char>,
                            >(e@));
                            assert(critic_calls_spec(provider@, tcs@, 0) == Err::<
                                Seq<(Seq<char>, Seq<char>)>,
                                Seq<char>,
                            >(e@));
                            assert(as_array(get(*message, "tool_calls"@)) == Some(tcs@));
                            assert(critic_reply_spec(provider@, *message) == Err::<
                                Result<Seq<(Seq<char>, Seq<char>)>, Seq<char>>,
                                Seq<char>,
                            >(e@));
                            return Err(e);
                        },
                    }
                    k += 1;
                }
                proof {
                    assert(calls@.map_values(|c: (String, String)| (c.0@, c.1@)) + Seq::<(Seq<char>, Seq<char>)>::empty()
                        =~= calls@.map_values(|c: (String, String)| (c.0@, c.1@)));
                }
                return Ok(CriticReply::ToolCalls(calls));
            }
        },
        None => {},
    }
    match crate::json::get_str(message, "content") {
        Some(t) => Ok(CriticReply::Final(string_of(&chars_of(t.as_str())))),
        None => {
            let mut e = chars_of(provider);
            extend_str(&mut e, " critic: completion carried neither tool calls nor content");
            Err(string_of(&e))
        },
    }
}

} // verus!
