//! The mission-time decomposition. Mission time decomposes into terms the
//! system measures from its own event log:
//!
//! ```text
//! T_mission = N_steps * (t_model + t_overhead)   // the hot path
//!           + R_failures * t_recover             // what resume/snapshots attack
//!           + C_coord                            // coordination instances
//!           + S_stuck                            // unproductive loops
//! ```
//!
//! Every term is measured, never estimated. The log is read outside; the
//! events arrive here as plain values.
use vstd::prelude::*;
use crate::json::{Json, as_str, as_u64, get, get_exec, get_u64, lookup, norm, normalized};
use crate::text::{
    chars_of, contains, contains_str, dec, dec_int, digit, extend_chars, extend_str,
    is_ascii_alnum, is_ascii_digit, match_at, match_at_exec, push_dec, string_of,
};

verus! {

broadcast use vstd::string::group_string_axioms;

/// One mission's measured time decomposition. All times in milliseconds.
#[derive(Clone, Debug)]
pub struct Decomposition {
    pub n_steps: u64,
    pub t_model_ms: u64,
    pub t_overhead_ms: u64,
    pub r_failures: u64,
    pub t_recover_ms: u64,
    pub c_coord_events: u64,
    pub c_coord_ms: u64,
    pub s_stuck_repeats: u64,
    pub s_stuck_ms: u64,
    pub wall_ms: i64,
    /// Wall time not attributed to any term (feedback execution, plugin
    /// latency outside model calls, harness bookkeeping outside assembly).
    pub unattributed_ms: i64,
}

impl Default for Decomposition {
    fn default() -> (r: Self)
        ensures
            r == Decomposition::zero(),
    {
        Decomposition {
            n_steps: 0,
            t_model_ms: 0,
            t_overhead_ms: 0,
            r_failures: 0,
            t_recover_ms: 0,
            c_coord_events: 0,
            c_coord_ms: 0,
            s_stuck_repeats: 0,
            s_stuck_ms: 0,
            wall_ms: 0,
            unattributed_ms: 0,
        }
    }
}

impl Decomposition {
    /// All terms zero.
    pub open spec fn zero() -> Decomposition {
        Decomposition {
            n_steps: 0,
            t_model_ms: 0,
            t_overhead_ms: 0,
            r_failures: 0,
            t_recover_ms: 0,
            c_coord_events: 0,
            c_coord_ms: 0,
            s_stuck_repeats: 0,
            s_stuck_ms: 0,
            wall_ms: 0,
            unattributed_ms: 0,
        }
    }

    pub open spec fn hot_path_spec(&self) -> int {
        self.t_model_ms + self.t_overhead_ms
    }

    pub open spec fn terms_spec(&self) -> int {
        self.hot_path_spec() + self.t_recover_ms + self.c_coord_ms + self.s_stuck_ms
    }

    /// Hot path: `N_steps * (t_model + t_overhead)` in its summed form.
    pub fn hot_path_ms(&self) -> (r: u64)
        requires
            self.hot_path_spec() <= u64::MAX,
        ensures
            r == self.hot_path_spec(),
    {
        self.t_model_ms + self.t_overhead_ms
    }

    /// All measured terms summed.
    pub fn terms_ms(&self) -> (r: u64)
        requires
            self.terms_spec() <= u64::MAX,
        ensures
            r == self.terms_spec(),
    {
        self.hot_path_ms() + self.t_recover_ms + self.c_coord_ms + self.s_stuck_ms
    }

    /// The published report body, one line each.
    pub open spec fn report_spec(&self, mission: Seq<char>, avg_model: Seq<char>, avg_overhead: Seq<char>) -> Seq<Seq<char>> {
        seq![
            "T_mission decomposition (measured from the mission's own event log, published per run, win or lose)"@,
            "mission="@ + mission,
            "N_steps="@ + dec(self.n_steps as nat),
            "t_model_total_ms="@ + dec(self.t_model_ms as nat) + " avg_ms_per_step="@ + avg_model,
            "t_overhead_total_ms="@ + dec(self.t_overhead_ms as nat) + " avg_ms_per_step="@
                + avg_overhead,
            "hot_path_ms="@ + dec(self.hot_path_spec() as nat) + " (= N_steps * (t_model + t_overhead))"@,
            "R_failures="@ + dec(self.r_failures as nat) + " t_recover_total_ms="@ + dec(
                self.t_recover_ms as nat,
            ),
            "C_coord events="@ + dec(self.c_coord_events as nat) + " ms="@ + dec(
                self.c_coord_ms as nat,
            ),
            "S_stuck repeats="@ + dec(self.s_stuck_repeats as nat) + " ms="@ + dec(
                self.s_stuck_ms as nat,
            )
                + " (normalized-signature duplicate tool calls beyond the first, each priced at the model step that produced it)"@,
            "terms_total_ms="@ + dec(self.terms_spec() as nat),
            "wall_ms="@ + dec_int(self.wall_ms as int) + " unattributed_ms="@ + dec_int(
                self.unattributed_ms as int,
            ),
        ]
    }

    /// The published report body (the full decomposition per run, win or
    /// lose). `avg_model` and `avg_overhead` are the per-step averages of
    /// the model and overhead time as the report prints them (a float
    /// quotient with one decimal, formatted by the caller).
    pub fn report_lines(&self, mission: &str, avg_model: &str, avg_overhead: &str) -> (r: Vec<String>)
        requires
            self.terms_spec() <= u64::MAX,
        ensures
            r@.map_values(|l: String| l@) == self.report_spec(mission@, avg_model@, avg_overhead@),
    {
        let mut out: Vec<String> = Vec::new();
        out.push(
            string_of(
                &chars_of(
                    "T_mission decomposition (measured from the mission's own event log, published per run, win or lose)",
                ),
            ),
        );
        let mut l = chars_of("mission=");
        extend_str(&mut l, mission);
        out.push(string_of(&l));
        let mut l = chars_of("N_steps=");
        push_dec(&mut l, self.n_steps);
        out.push(string_of(&l));
        let mut l = chars_of("t_model_total_ms=");
        push_dec(&mut l, self.t_model_ms);
        extend_str(&mut l, " avg_ms_per_step=");
        extend_str(&mut l, avg_model);
        out.push(string_of(&l));
        let mut l = chars_of("t_overhead_total_ms=");
        push_dec(&mut l, self.t_overhead_ms);
        extend_str(&mut l, " avg_ms_per_step=");
        extend_str(&mut l, avg_overhead);
        out.push(string_of(&l));
        let mut l = chars_of("hot_path_ms=");
        push_dec(&mut l, self.hot_path_ms());
        extend_str(&mut l, " (= N_steps * (t_model + t_overhead))");
        out.push(string_of(&l));
        let mut l = chars_of("R_failures=");
        push_dec(&mut l, self.r_failures);
        extend_str(&mut l, " t_recover_total_ms=");
        push_dec(&mut l, self.t_recover_ms);
        out.push(string_of(&l));
        let mut l = chars_of("C_coord events=");
        push_dec(&mut l, self.c_coord_events);
        extend_str(&mut l, " ms=");
        push_dec(&mut l, self.c_coord_ms);
        out.push(string_of(&l));
        let mut l = chars_of("S_stuck repeats=");
        push_dec(&mut l, self.s_stuck_repeats);
        extend_str(&mut l, " ms=");
        push_dec(&mut l, self.s_stuck_ms);
        extend_str(
            &mut l,
            " (normalized-signature duplicate tool calls beyond the first, each priced at the model step that produced it)",
        );
        out.push(string_of(&l));
        let mut l = chars_of("terms_total_ms=");
        push_dec(&mut l, self.terms_ms());
        out.push(string_of(&l));
        let mut l = chars_of("wall_ms=");
        let w = crate::text::dec_i64(self.wall_ms);
        extend_chars(&mut l, &w);
        extend_str(&mut l, " unattributed_ms=");
        let u = crate::text::dec_i64(self.unattributed_ms);
        extend_chars(&mut l, &u);
        out.push(string_of(&l));
        assert(out@.map_values(|l: String| l@) =~= self.report_spec(mission@, avg_model@, avg_overhead@));
        out
    }
}

// ------------------------------------------------------- report file ---

/// What `char::is_alphanumeric` says of a character (Unicode alphabetic or
/// numeric).
pub uninterp spec fn unicode_alnum(c: char) -> bool;

/// `char::is_alphanumeric`.
#[verifier::external_body]
fn char_is_alphanumeric(c: char) -> (r: bool)
    ensures
        r == unicode_alnum(c),
{
    c.is_alphanumeric()
}

/// A mission name made file-safe: alphanumerics and `-` kept, anything
/// else `_`.
pub open spec fn safe_mission_name(m: Seq<char>) -> Seq<char> {
    m.map_values(|c: char| if unicode_alnum(c) || c == '-' { c } else { '_' })
}

/// The decomposition artifact's file name for a mission.
pub open spec fn report_file_name_spec(m: Seq<char>) -> Seq<char> {
    "t-mission-"@ + safe_mission_name(m) + ".txt"@
}

/// The file name the decomposition report of `mission` is written under.
pub fn report_file_name(mission: &str) -> (r: String)
    ensures
        r@ == report_file_name_spec(mission@),
{
    let m = chars_of(mission);
    let mut out = chars_of("t-mission-");
    let ghost head = out@;
    let mut i: usize = 0;
    while i < m.len()
        invariant
            i <= m.len(),
            head == "t-mission-"@,
            out@ == head + safe_mission_name(m@).take(i as int),
        decreases m.len() - i,
    {
        let c = m[i];
        let k = if char_is_alphanumeric(c) || c == '-' {
            c
        } else {
            '_'
        };
        out.push(k);
        assert(safe_mission_name(m@).take(i + 1) =~= safe_mission_name(m@).take(i as int).push(k));
        i += 1;
    }
    assert(safe_mission_name(m@).take(m.len() as int) =~= safe_mission_name(m@));
    extend_str(&mut out, ".txt");
    string_of(&out)
}

// ---------------------------------------------------------- parse_ms ---

/// Saturating `acc * 10 + d`.
pub open spec fn sat_push_digit(acc: u64, d: nat) -> u64 {
    if acc * 10 + d > u64::MAX {
        u64::MAX
    } else {
        (acc * 10 + d) as u64
    }
}

/// The value of the first digit run at or after `i` that is immediately
/// followed by `ms` and then by the end or a non-alphanumeric character
/// (`acc`/`any`: the digit run being read).
pub open spec fn ms_from(s: Seq<char>, i: int, acc: u64, any: bool) -> Option<u64>
    decreases s.len() - i,
{
    if i < 0 || i >= s.len() {
        None
    } else if is_ascii_digit(s[i]) {
        ms_from(s, i + 1, sat_push_digit(acc, (s[i] as u32 - '0' as u32) as nat), true)
    } else if any && match_at(s, "ms"@, i) && (i + 2 == s.len() || !is_ascii_alnum(s[i + 2])) {
        Some(acc)
    } else {
        ms_from(s, i + 1, 0, false)
    }
}

/// The first bare integer immediately followed by "ms" (0 when none).
pub open spec fn parse_ms_spec(s: Seq<char>) -> u64 {
    match ms_from(s, 0, 0, false) {
        Some(v) => v,
        None => 0,
    }
}

/// First bare integer immediately followed by "ms" (recovery bookings);
/// 0 when there is none. Values past `u64::MAX` saturate.
pub fn parse_ms(text: &str) -> (r: u64)
    ensures
        r == parse_ms_spec(text@),
{
    let v = chars_of(text);
    let ms = chars_of("ms");
    proof {
        reveal_strlit("ms");
    }
    let mut acc: u64 = 0;
    let mut any = false;
    let mut i: usize = 0;
    while i < v.len()
        invariant
            i <= v.len(),
            v@ == text@,
            ms@ == "ms"@,
            ms.len() == 2,
            ms_from(v@, 0, 0, false) == ms_from(v@, i as int, acc, any),
        decreases v.len() - i,
    {
        let c = v[i];
        if '0' <= c && c <= '9' {
            let d: u64 = (c as u32 - '0' as u32) as u64;
            let next: u64 = if acc > (u64::MAX - d) / 10 {
                u64::MAX
            } else {
                acc * 10 + d
            };
            proof {
                if acc > (u64::MAX - d) / 10 {
                    assert(acc * 10 + d > u64::MAX) by (nonlinear_arith)
                        requires
                            acc > (u64::MAX - d) / 10,
                            d <= 9,
                    ;
                } else {
                    assert(acc * 10 + d <= u64::MAX) by (nonlinear_arith)
                        requires
                            acc <= (u64::MAX - d) / 10,
                            d <= 9,
                    ;
                }
            }
            acc = next;
            any = true;
        } else {
            if any && match_at_exec(&v, &ms, i) && (i + 2 == v.len()
                || !crate::text::char_is_ascii_alnum(v[i + 2])) {
                return acc;
            }
            acc = 0;
            any = false;
        }
        i += 1;
    }
    0
}

// --------------------------------------------------------- decompose ---

/// The kind of a logged event, as the decomposition reads it.
#[derive(Clone, Copy, Debug, PartialEq, Eq, Structural)]
pub enum MissionEventKind {
    ModelCall,
    Message,
    Proposal,
    Consequence,
    Observation,
    Feedback,
    ToolCall,
    Other,
}

/// One logged event: its kind, latency, wall-clock stamp, payload text,
/// and the payload parsed as JSON (`None` when it is not JSON).
#[derive(Debug)]
pub struct MissionEvent {
    pub kind: MissionEventKind,
    pub latency_ms: u32,
    pub ts_wall_ms: i64,
    pub text: String,
    pub doc: Option<Json>,
}

/// The measured sums after a prefix of the log, with the price of the most
/// recent model step and the tool-call signatures seen so far.
pub struct DecompAcc {
    pub n_steps: int,
    pub t_model: int,
    pub t_overhead: int,
    pub r_failures: int,
    pub t_recover: int,
    pub c_events: int,
    pub c_ms: int,
    pub s_repeats: int,
    pub s_ms: int,
    pub last_step: int,
    pub seen: Seq<Seq<char>>,
}

/// The assembly time a model call booked (0 when it booked none).
pub open spec fn assembly_of(ev: MissionEvent) -> int {
    match ev.doc {
        Some(v) => match as_u64(get(v, "assembly_ms"@)) {
            Some(x) => x as int,
            None => 0,
        },
        None => 0,
    }
}

/// A tool call's normalized signature: `plugin|normalized args` - the
/// ledger's whitespace-insensitive rule, so telemetry and decomposition
/// agree on what "the same call twice" means.
pub open spec fn tool_signature_spec(doc: Option<Json>) -> Option<Seq<char>> {
    match doc {
        None => None,
        Some(v) => match (lookup(v, "plugin"@), lookup(v, "args"@)) {
            (Some(p), Some(a)) => match as_str(p) {
                Some(ps) => Some(ps + "|"@ + norm(a)),
                None => None,
            },
            _ => None,
        },
    }
}

/// Whether a feedback or observation text books a recovery.
pub open spec fn books_recovery(text: Seq<char>) -> bool {
    contains(text, "recovery"@) || contains(text, "resume tier"@)
}

/// One event's contribution.
pub open spec fn step_event(a: DecompAcc, ev: MissionEvent) -> DecompAcc {
    match ev.kind {
        MissionEventKind::ModelCall => DecompAcc {
            n_steps: a.n_steps + 1,
            t_model: a.t_model + ev.latency_ms,
            t_overhead: a.t_overhead + assembly_of(ev),
            last_step: ev.latency_ms + assembly_of(ev),
            ..a
        },
        MissionEventKind::Message | MissionEventKind::Proposal | MissionEventKind::Consequence => DecompAcc {
            c_events: a.c_events + 1,
            c_ms: a.c_ms + ev.latency_ms,
            ..a
        },
        MissionEventKind::Observation | MissionEventKind::Feedback => if books_recovery(ev.text@) {
            DecompAcc {
                r_failures: a.r_failures + 1,
                t_recover: a.t_recover + parse_ms_spec(ev.text@),
                ..a
            }
        } else {
            a
        },
        MissionEventKind::ToolCall => match tool_signature_spec(ev.doc) {
            Some(sig) => if a.seen.contains(sig) {
                DecompAcc { s_repeats: a.s_repeats + 1, s_ms: a.s_ms + a.last_step, ..a }
            } else {
                DecompAcc { seen: a.seen.push(sig), ..a }
            },
            None => a,
        },
        MissionEventKind::Other => a,
    }
}

pub open spec fn empty_acc() -> DecompAcc {
    DecompAcc {
        n_steps: 0,
        t_model: 0,
        t_overhead: 0,
        r_failures: 0,
        t_recover: 0,
        c_events: 0,
        c_ms: 0,
        s_repeats: 0,
        s_ms: 0,
        last_step: 0,
        seen: Seq::empty(),
    }
}

/// The sums over a whole log, event by event.
pub open spec fn fold_events(evs: Seq<MissionEvent>) -> DecompAcc
    decreases evs.len(),
{
    if evs.len() == 0 {
        empty_acc()
    } else {
        step_event(fold_events(evs.drop_last()), evs.last())
    }
}

pub open spec fn acc_terms(a: DecompAcc) -> int {
    a.t_model + a.t_overhead + a.t_recover + a.c_ms + a.s_ms
}

/// The measured sums fit the report's integers (the decomposition's
/// arithmetic is unchecked, so an overflow would abort it): every total, every model step's price, the wall
/// span, and the unattributed remainder.
pub open spec fn decompose_fits(evs: Seq<MissionEvent>) -> bool {
    let a = fold_events(evs);
    &&& acc_terms(a) <= u64::MAX
    &&& a.n_steps <= u64::MAX
    &&& a.r_failures <= u64::MAX
    &&& a.c_events <= u64::MAX
    &&& a.s_repeats <= u64::MAX
    &&& forall|i: int| 0 <= i < evs.len() && evs[i].kind == MissionEventKind::ModelCall ==> evs[i].latency_ms
        + assembly_of(#[trigger] evs[i]) <= u64::MAX
    &&& evs.len() > 0 ==> i64::MIN <= wall_span(evs) <= i64::MAX
    &&& evs.len() > 0 ==> i64::MIN <= wall_span(evs) - capped_terms(a) <= i64::MAX
}

pub open spec fn wall_span(evs: Seq<MissionEvent>) -> int {
    evs.last().ts_wall_ms - evs[0].ts_wall_ms
}

/// The summed terms as an `i64` (saturated).
pub open spec fn capped_terms(a: DecompAcc) -> int {
    if acc_terms(a) > i64::MAX {
        i64::MAX as int
    } else {
        acc_terms(a)
    }
}

/// The decomposition a log yields.
pub open spec fn decompose_spec(evs: Seq<MissionEvent>, d: Decomposition) -> bool {
    if evs.len() == 0 {
        d == Decomposition::zero()
    } else {
        let a = fold_events(evs);
        &&& d.n_steps == a.n_steps
        &&& d.t_model_ms == a.t_model
        &&& d.t_overhead_ms == a.t_overhead
        &&& d.r_failures == a.r_failures
        &&& d.t_recover_ms == a.t_recover
        &&& d.c_coord_events == a.c_events
        &&& d.c_coord_ms == a.c_ms
        &&& d.s_stuck_repeats == a.s_repeats
        &&& d.s_stuck_ms == a.s_ms
        &&& d.wall_ms == wall_span(evs)
        &&& d.unattributed_ms == wall_span(evs) - capped_terms(a)
    }
}

/// Every sum of a prefix is at most the sum of the whole log.
proof fn lemma_fold_monotone(evs: Seq<MissionEvent>, k: int)
    requires
        0 <= k <= evs.len(),
    ensures
        ({
            let p = fold_events(evs.take(k));
            let a = fold_events(evs);
            &&& p.n_steps <= a.n_steps
            &&& p.t_model <= a.t_model
            &&& p.t_overhead <= a.t_overhead
            &&& p.r_failures <= a.r_failures
            &&& p.t_recover <= a.t_recover
            &&& p.c_events <= a.c_events
            &&& p.c_ms <= a.c_ms
            &&& p.s_repeats <= a.s_repeats
            &&& p.s_ms <= a.s_ms
        }),
        fold_events(evs).last_step >= 0,
        fold_events(evs).t_model >= 0 && fold_events(evs).t_overhead >= 0 && fold_events(evs).t_recover
            >= 0 && fold_events(evs).c_ms >= 0 && fold_events(evs).s_ms >= 0,
    decreases evs.len(),
{
    if evs.len() == 0 {
        assert(evs.take(k) =~= evs);
    } else {
        let d = evs.drop_last();
        if k == evs.len() {
            assert(evs.take(k) =~= evs);
            lemma_fold_monotone(d, d.len() as int);
        } else {
            assert(evs.take(k) =~= d.take(k));
            lemma_fold_monotone(d, k);
        }
    }
}

/// A feedback or observation that reports a recovery or a resume tier
/// books one recovery and the milliseconds its text names: appended to
/// any log, it adds exactly that to the recovery term and nothing else;
/// a feedback or observation that names neither books nothing.
pub proof fn law_recovery_bookings(evs: Seq<MissionEvent>, ev: MissionEvent)
    requires
        ev.kind == MissionEventKind::Observation || ev.kind == MissionEventKind::Feedback,
    ensures
        ({
            let a = fold_events(evs);
            let b = fold_events(evs.push(ev));
            &&& (contains(ev.text@, "resume tier"@) || contains(ev.text@, "recovery"@)) ==> {
                &&& b.r_failures == a.r_failures + 1
                &&& b.t_recover == a.t_recover + parse_ms_spec(ev.text@)
            }
            &&& (!contains(ev.text@, "resume tier"@) && !contains(ev.text@, "recovery"@)) ==> b == a
            &&& b.n_steps == a.n_steps && b.t_model == a.t_model && b.c_events == a.c_events
            &&& b.s_repeats == a.s_repeats
        }),
{
    assert(evs.push(ev).drop_last() =~= evs);
}

/// The same, read off two decompositions: the log with the booking holds
/// one more recovery and that many more recovery milliseconds.
pub proof fn law_recovery_booking_decomposes(evs: Seq<MissionEvent>, ev: MissionEvent, d1: Decomposition, d2: Decomposition)
    requires
        ev.kind == MissionEventKind::Observation || ev.kind == MissionEventKind::Feedback,
        contains(ev.text@, "resume tier"@) || contains(ev.text@, "recovery"@),
        decompose_spec(evs, d1),
        decompose_spec(evs.push(ev), d2),
    ensures
        d2.r_failures == d1.r_failures + 1,
        d2.t_recover_ms == d1.t_recover_ms + parse_ms_spec(ev.text@),
{
    law_recovery_bookings(evs, ev);
}

/// A model call adds one step, its latency to the model time and the
/// assembly time it booked to the overhead, and becomes the price of the
/// step that follows; it touches no other term.
pub proof fn law_model_call_is_one_step(evs: Seq<MissionEvent>, ev: MissionEvent)
    requires
        ev.kind == MissionEventKind::ModelCall,
    ensures
        ({
            let a = fold_events(evs);
            let b = fold_events(evs.push(ev));
            &&& b.n_steps == a.n_steps + 1
            &&& b.t_model == a.t_model + ev.latency_ms
            &&& b.t_overhead == a.t_overhead + assembly_of(ev)
            &&& b.last_step == ev.latency_ms + assembly_of(ev)
            &&& b.r_failures == a.r_failures && b.t_recover == a.t_recover && b.c_events == a.c_events
            &&& b.c_ms == a.c_ms && b.s_repeats == a.s_repeats && b.s_ms == a.s_ms && b.seen == a.seen
        }),
{
    assert(evs.push(ev).drop_last() =~= evs);
}

/// A message, proposal or consequence is one coordination instance, its
/// latency coordination time; it touches no other term.
pub proof fn law_coordination_events(evs: Seq<MissionEvent>, ev: MissionEvent)
    requires
        ev.kind == MissionEventKind::Message || ev.kind == MissionEventKind::Proposal || ev.kind
            == MissionEventKind::Consequence,
    ensures
        ({
            let a = fold_events(evs);
            let b = fold_events(evs.push(ev));
            &&& b.c_events == a.c_events + 1
            &&& b.c_ms == a.c_ms + ev.latency_ms
            &&& b.n_steps == a.n_steps && b.t_model == a.t_model && b.t_overhead == a.t_overhead
            &&& b.r_failures == a.r_failures && b.t_recover == a.t_recover && b.s_repeats == a.s_repeats
            &&& b.s_ms == a.s_ms
        }),
{
    assert(evs.push(ev).drop_last() =~= evs);
}

/// A tool call whose signature was seen before is one stuck repeat,
/// priced at the latest model step; a first sighting only remembers the
/// signature. Neither touches another term.
pub proof fn law_repeated_tool_call_is_stuck(evs: Seq<MissionEvent>, ev: MissionEvent, sig: Seq<char>)
    requires
        ev.kind == MissionEventKind::ToolCall,
        tool_signature_spec(ev.doc) == Some(sig),
    ensures
        ({
            let a = fold_events(evs);
            let b = fold_events(evs.push(ev));
            &&& a.seen.contains(sig) ==> b.s_repeats == a.s_repeats + 1 && b.s_ms == a.s_ms + a.last_step
                && b.seen == a.seen
            &&& !a.seen.contains(sig) ==> b.s_repeats == a.s_repeats && b.s_ms == a.s_ms && b.seen == a.seen.push(
                sig,
            )
            &&& b.n_steps == a.n_steps && b.t_model == a.t_model && b.c_events == a.c_events
            &&& b.r_failures == a.r_failures && b.t_recover == a.t_recover
        }),
{
    assert(evs.push(ev).drop_last() =~= evs);
}

pub struct MissionTime;

impl MissionTime {
    /// Decompose one mission's log: model calls make the hot path, message,
    /// proposal and consequence events the coordination term, recovery
    /// bookings the recovery term, and every tool call whose normalized
    /// signature was seen before a stuck repeat, priced at the model step
    /// that produced it.
    pub fn decompose(events: &Vec<MissionEvent>) -> (d: Decomposition)
        requires
            decompose_fits(events@),
        ensures
            decompose_spec(events@, d),
    {
        let mut d = Decomposition {
            n_steps: 0,
            t_model_ms: 0,
            t_overhead_ms: 0,
            r_failures: 0,
            t_recover_ms: 0,
            c_coord_events: 0,
            c_coord_ms: 0,
            s_stuck_repeats: 0,
            s_stuck_ms: 0,
            wall_ms: 0,
            unattributed_ms: 0,
        };
        if events.len() == 0 {
            return d;
        }
        let mut last_step_ms: u64 = 0;
        let mut seen: Vec<Vec<char>> = Vec::new();
        let mut i: usize = 0;
        proof {
            assert(events@.take(0) =~= Seq::<MissionEvent>::empty());
            assert(seen@.map_values(|x: Vec<char>| x@) =~= Seq::<Seq<char>>::empty());
        }
        while i < events.len()
            invariant
                i <= events.len(),
                decompose_fits(events@),
                ({
                    let a = fold_events(events@.take(i as int));
                    &&& d.n_steps == a.n_steps
                    &&& d.t_model_ms == a.t_model
                    &&& d.t_overhead_ms == a.t_overhead
                    &&& d.r_failures == a.r_failures
                    &&& d.t_recover_ms == a.t_recover
                    &&& d.c_coord_events == a.c_events
                    &&& d.c_coord_ms == a.c_ms
                    &&& d.s_stuck_repeats == a.s_repeats
                    &&& d.s_stuck_ms == a.s_ms
                    &&& last_step_ms == a.last_step
                    &&& seen@.map_values(|x: Vec<char>| x@) == a.seen
                }),
                d.wall_ms == 0,
                d.unattributed_ms == 0,
            decreases events.len() - i,
        {
            let ev = &events[i];
            let ghost a = fold_events(events@.take(i as int));
            proof {
                assert(events@.take(i + 1).drop_last() =~= events@.take(i as int));
                assert(events@.take(i + 1).last() == *ev);
                lemma_fold_monotone(events@, i + 1);
            }
            match ev.kind {
                MissionEventKind::ModelCall => {
                    let assembly_ms: u64 = match &ev.doc {
                        Some(v) => match get_u64(v, "assembly_ms") {
                            Some(x) => x,
                            None => 0,
                        },
                        None => 0,
                    };
                    proof {
                        assert(events@[i as int] == *ev);
                        assert(events@[i as int].latency_ms + assembly_of(events@[i as int]) <= u64::MAX);
                    }
                    d.n_steps = d.n_steps + 1;
                    d.t_model_ms = d.t_model_ms + ev.latency_ms as u64;
                    d.t_overhead_ms = d.t_overhead_ms + assembly_ms;
                    last_step_ms = ev.latency_ms as u64 + assembly_ms;
                },
                MissionEventKind::Message | MissionEventKind::Proposal | MissionEventKind::Consequence => {
                    d.c_coord_events = d.c_coord_events + 1;
                    d.c_coord_ms = d.c_coord_ms + ev.latency_ms as u64;
                },
                MissionEventKind::Observation | MissionEventKind::Feedback => {
                    let tv = chars_of(ev.text.as_str());
                    if contains_str(&tv, "recovery") || contains_str(&tv, "resume tier") {
                        let ms = parse_ms(ev.text.as_str());
                        d.r_failures = d.r_failures + 1;
                        d.t_recover_ms = d.t_recover_ms + ms;
                    }
                },
                MissionEventKind::ToolCall => {
                    match tool_signature(&ev.doc) {
                        Some(sig) => {
                            let mut found = false;
                            let mut j: usize = 0;
                            while j < seen.len() && !found
                                invariant
                                    j <= seen.len(),
                                    found ==> j < seen.len() && seen@[j as int]@ == sig@,
                                    !found ==> forall|q: int| 0 <= q < j ==> seen@[q]@ != sig@,
                                decreases seen.len() - j, (if found { 0int } else { 1int }),
                            {
                                if crate::text::chars_eq(&seen[j], &sig) {
                                    found = true;
                                } else {
                                    j += 1;
                                }
                            }
                            proof {
                                let sv = seen@.map_values(|x: Vec<char>| x@);
                                if found {
                                    assert(sv[j as int] == sig@);
                                    assert(sv.contains(sig@));
                                } else {
                                    assert forall|q: int| 0 <= q < sv.len() implies sv[q] != sig@ by {
                                        assert(sv[q] == seen@[q]@);
                                    }
                                    assert(!sv.contains(sig@));
                                }
                            }
                            if found {
                                d.s_stuck_repeats = d.s_stuck_repeats + 1;
                                d.s_stuck_ms = d.s_stuck_ms + last_step_ms;
                            } else {
                                proof {
                                    assert(seen@.push(sig).map_values(|x: Vec<char>| x@) =~= seen@.map_values(
                                        |x: Vec<char>| x@,
                                    ).push(sig@));
                                }
                                seen.push(sig);
                            }
                        },
                        None => {},
                    }
                },
                MissionEventKind::Other => {},
            }
            i += 1;
        }
        proof {
            assert(events@.take(events.len() as int) =~= events@);
        }
        let first = events[0].ts_wall_ms;
        let last = events[events.len() - 1].ts_wall_ms;
        d.wall_ms = last - first;
        let terms = d.terms_ms();
        let capped: i64 = if terms > 9_223_372_036_854_775_807u64 {
            9_223_372_036_854_775_807i64
        } else {
            terms as i64
        };
        d.unattributed_ms = d.wall_ms - capped;
        d
    }
}

/// A tool call's normalized signature, when its payload names a plugin
/// (a string) and carries args.
pub fn tool_signature(doc: &Option<Json>) -> (r: Option<Vec<char>>)
    ensures
        match r {
            Some(s) => tool_signature_spec(*doc) == Some(s@),
            None => tool_signature_spec(*doc) is None,
        },
{
    let v = match doc {
        Some(v) => v,
        None => return None,
    };
    let p = match get_exec(v, "plugin") {
        Some(p) => p,
        None => return None,
    };
    let a = match get_exec(v, "args") {
        Some(a) => a,
        None => return None,
    };
    let ps = match p {
        Json::Str(s) => s,
        _ => return None,
    };
    let mut out = chars_of(ps.as_str());
    out.push('|');
    let n = normalized(a);
    extend_chars(&mut out, &n);
    proof {
        reveal_strlit("|");
    }
    Some(out)
}

} // verus!
