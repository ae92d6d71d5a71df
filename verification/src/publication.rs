//! The benchmark publication's arithmetic: what each arm pays (the
//! incumbent pays a failed attempt twice - once lost, once as the restart
//! redo), how an arm's totals accumulate, how the matched isolates of the
//! best-of-N baseline are drawn, the endpoint-wise envelope over them, and
//! the win/lose verdicts against the 2x gate, and the published report.
//! The missions themselves run outside.
use vstd::prelude::*;
use crate::mission_time::Decomposition;
use crate::text::{chars_of, dec, extend_chars, extend_str, push_dec, string_of};

verus! {

broadcast use vstd::string::group_string_axioms;

/// The published verdict. The artifact prints it win or lose.
#[derive(Clone, Copy, Debug, PartialEq, Eq, Structural)]
pub enum Verdict {
    /// Incumbent priced steps >= 2x hairspring priced steps.
    Win,
    /// The 2x bar was not met.
    Lose,
}

/// The verdict as the report writes it.
pub fn verdict_str(v: Verdict) -> (r: &'static str)
    ensures
        r@ == (match v {
            Verdict::Win => "WIN"@,
            Verdict::Lose => "LOSE"@,
        }),
{
    match v {
        Verdict::Win => "WIN",
        Verdict::Lose => "LOSE",
    }
}

/// One task's run inside one arm: every attempt's measured decomposition.
#[derive(Clone, Debug)]
pub struct TaskRun {
    /// The mission goal string (`task-N`).
    pub mission: String,
    /// One entry per attempt, in order; more than one means restarts.
    pub attempts: Vec<Decomposition>,
    /// Whether the final attempt passed the checker and verifier.
    pub passed: bool,
    /// Failed attempts that were restarted from scratch.
    pub restarts: u64,
}

/// The steps of the attempts, summed.
pub open spec fn steps_sum(a: Seq<Decomposition>) -> int
    decreases a.len(),
{
    if a.len() == 0 {
        0
    } else {
        steps_sum(a.drop_last()) + a.last().n_steps
    }
}

/// Steps a task pays: every attempt, plus the redo of every attempt but
/// the last.
pub open spec fn steps_paid(a: Seq<Decomposition>) -> int {
    steps_sum(a) + if a.len() == 0 {
        0
    } else {
        steps_sum(a.drop_last())
    }
}

proof fn lemma_steps_sum_prefix(a: Seq<Decomposition>, k: int)
    requires
        0 <= k <= a.len(),
    ensures
        0 <= steps_sum(a.take(k)) <= steps_sum(a),
    decreases a.len(),
{
    if a.len() == 0 {
        assert(a.take(k) =~= a);
    } else if k == a.len() {
        assert(a.take(k) =~= a);
        lemma_steps_sum_prefix(a.drop_last(), k - 1);
    } else {
        assert(a.take(k) =~= a.drop_last().take(k));
        lemma_steps_sum_prefix(a.drop_last(), k);
    }
}

impl TaskRun {
    /// Steps the arm pays for the run: every attempt plus the restart redo
    /// of each failed attempt (the incumbent pays lost work twice; a
    /// single-attempt task pays its steps once).
    pub fn raw_steps_paid(&self) -> (r: u64)
        requires
            steps_paid(self.attempts@) <= u64::MAX,
        ensures
            r == steps_paid(self.attempts@),
    {
        let a = &self.attempts;
        let n = a.len();
        if n == 0 {
            return 0;
        }
        let mut raw: u64 = 0;
        let mut i: usize = 0;
        proof {
            lemma_steps_sum_nonneg(a@.drop_last());
            assert(a@.take(0) =~= Seq::<Decomposition>::empty());
        }
        while i < n
            invariant
                n == a.len(),
                i <= n,
                raw == steps_sum(a@.take(i as int)),
                steps_sum(a@) <= u64::MAX,
            decreases n - i,
        {
            proof {
                assert(a@.take(i + 1).drop_last() =~= a@.take(i as int));
                lemma_steps_sum_prefix(a@, i + 1);
            }
            raw = raw + a[i].n_steps;
            i += 1;
        }
        proof {
            assert(a@.take(n as int) =~= a@);
        }
        let failed = raw - a[n - 1].n_steps;
        raw + failed
    }
}

/// Adds each term of `d` into `acc`.
pub open spec fn sum_fits(acc: Decomposition, d: Decomposition) -> bool {
    &&& acc.n_steps + d.n_steps <= u64::MAX
    &&& acc.t_model_ms + d.t_model_ms <= u64::MAX
    &&& acc.t_overhead_ms + d.t_overhead_ms <= u64::MAX
    &&& acc.r_failures + d.r_failures <= u64::MAX
    &&& acc.t_recover_ms + d.t_recover_ms <= u64::MAX
    &&& acc.c_coord_events + d.c_coord_events <= u64::MAX
    &&& acc.c_coord_ms + d.c_coord_ms <= u64::MAX
    &&& acc.s_stuck_repeats + d.s_stuck_repeats <= u64::MAX
    &&& acc.s_stuck_ms + d.s_stuck_ms <= u64::MAX
    &&& i64::MIN <= acc.wall_ms + d.wall_ms <= i64::MAX
    &&& i64::MIN <= acc.unattributed_ms + d.unattributed_ms <= i64::MAX
}

/// The termwise sum of two decompositions.
pub open spec fn sum_spec(acc: Decomposition, d: Decomposition) -> Decomposition {
    Decomposition {
        n_steps: (acc.n_steps + d.n_steps) as u64,
        t_model_ms: (acc.t_model_ms + d.t_model_ms) as u64,
        t_overhead_ms: (acc.t_overhead_ms + d.t_overhead_ms) as u64,
        r_failures: (acc.r_failures + d.r_failures) as u64,
        t_recover_ms: (acc.t_recover_ms + d.t_recover_ms) as u64,
        c_coord_events: (acc.c_coord_events + d.c_coord_events) as u64,
        c_coord_ms: (acc.c_coord_ms + d.c_coord_ms) as u64,
        s_stuck_repeats: (acc.s_stuck_repeats + d.s_stuck_repeats) as u64,
        s_stuck_ms: (acc.s_stuck_ms + d.s_stuck_ms) as u64,
        wall_ms: (acc.wall_ms + d.wall_ms) as i64,
        unattributed_ms: (acc.unattributed_ms + d.unattributed_ms) as i64,
    }
}

/// Adds every term of `d` into `acc`.
pub fn sum_into(acc: &mut Decomposition, d: &Decomposition)
    requires
        sum_fits(*old(acc), *d),
    ensures
        *final(acc) == sum_spec(*old(acc), *d),
{
    acc.n_steps = acc.n_steps + d.n_steps;
    acc.t_model_ms = acc.t_model_ms + d.t_model_ms;
    acc.t_overhead_ms = acc.t_overhead_ms + d.t_overhead_ms;
    acc.r_failures = acc.r_failures + d.r_failures;
    acc.t_recover_ms = acc.t_recover_ms + d.t_recover_ms;
    acc.c_coord_events = acc.c_coord_events + d.c_coord_events;
    acc.c_coord_ms = acc.c_coord_ms + d.c_coord_ms;
    acc.s_stuck_repeats = acc.s_stuck_repeats + d.s_stuck_repeats;
    acc.s_stuck_ms = acc.s_stuck_ms + d.s_stuck_ms;
    acc.wall_ms = acc.wall_ms + d.wall_ms;
    acc.unattributed_ms = acc.unattributed_ms + d.unattributed_ms;
}

/// One arm's full suite result.
#[derive(Clone, Debug)]
pub struct ArmReport {
    /// Arm name (`incumbent`, `hairspring`, `isolate-K`).
    pub name: String,
    /// Per-task runs, in suite order.
    pub tasks: Vec<TaskRun>,
    /// All attempts' decompositions summed.
    pub total: Decomposition,
    /// Total restarts across the suite.
    pub restarts: u64,
    /// Tasks that passed.
    pub passed: u32,
    /// Raw summed steps across all attempts.
    pub raw_steps: u64,
    /// Steps priced with the restart redo (failed attempts counted twice
    /// for the incumbent; equal to `raw_steps` for a single-attempt arm).
    pub priced_steps: u64,
}

/// The termwise sum of a run of decompositions onto `acc`.
pub open spec fn sum_all(acc: Decomposition, ds: Seq<Decomposition>) -> Decomposition
    decreases ds.len(),
{
    if ds.len() == 0 {
        acc
    } else {
        sum_spec(sum_all(acc, ds.drop_last()), ds.last())
    }
}

/// Every partial sum of `ds` onto `acc` fits.
pub open spec fn sums_fit(acc: Decomposition, ds: Seq<Decomposition>) -> bool {
    forall|k: int| 0 <= k < ds.len() ==> #[trigger] sum_fits(sum_all(acc, ds.take(k)), ds[k])
}

impl ArmReport {
    /// An empty arm named `name`.
    pub fn named(name: String) -> (r: Self)
        ensures
            r.name == name,
            r.tasks@.len() == 0,
            r.total == Decomposition::zero(),
            r.restarts == 0,
            r.passed == 0,
            r.raw_steps == 0,
            r.priced_steps == 0,
    {
        ArmReport {
            name,
            tasks: Vec::new(),
            total: Decomposition::default(),
            restarts: 0,
            passed: 0,
            raw_steps: 0,
            priced_steps: 0,
        }
    }

    /// Books one finished task: its attempts into the totals, its raw and
    /// priced steps, its restarts, its pass.
    pub fn record_task(&mut self, task: TaskRun)
        requires
            sums_fit(old(self).total, task.attempts@),
            old(self).raw_steps + steps_sum(task.attempts@) <= u64::MAX,
            old(self).priced_steps + steps_paid(task.attempts@) <= u64::MAX,
            old(self).restarts + task.restarts <= u64::MAX,
            old(self).passed + (if task.passed { 1int } else { 0 }) <= u32::MAX,
        ensures
            final(self).name == old(self).name,
            final(self).tasks@ == old(self).tasks@.push(task),
            final(self).total == sum_all(old(self).total, task.attempts@),
            final(self).raw_steps == old(self).raw_steps + steps_sum(task.attempts@),
            final(self).priced_steps == old(self).priced_steps + steps_paid(task.attempts@),
            final(self).restarts == old(self).restarts + task.restarts,
            final(self).passed == old(self).passed + (if task.passed { 1int } else { 0 }),
    {
        let ghost t0 = self.total;
        let ghost r0 = self.raw_steps;
        let n = task.attempts.len();
        let mut i: usize = 0;
        proof {
            assert(task.attempts@.take(0) =~= Seq::<Decomposition>::empty());
            lemma_steps_sum_prefix(task.attempts@, 0);
        }
        while i < n
            invariant
                n == task.attempts.len(),
                i <= n,
                self.name == old(self).name,
                self.tasks == old(self).tasks,
                self.priced_steps == old(self).priced_steps,
                self.restarts == old(self).restarts,
                self.passed == old(self).passed,
                sums_fit(t0, task.attempts@),
                self.total == sum_all(t0, task.attempts@.take(i as int)),
                self.raw_steps == r0 + steps_sum(task.attempts@.take(i as int)),
                r0 + steps_sum(task.attempts@) <= u64::MAX,
            decreases n - i,
        {
            proof {
                assert(task.attempts@.take(i + 1).drop_last() =~= task.attempts@.take(i as int));
                assert(sum_fits(sum_all(t0, task.attempts@.take(i as int)), task.attempts@[i as int]));
                lemma_steps_sum_prefix(task.attempts@, i + 1);
            }
            sum_into(&mut self.total, &task.attempts[i]);
            self.raw_steps = self.raw_steps + task.attempts[i].n_steps;
            i += 1;
        }
        proof {
            assert(task.attempts@.take(n as int) =~= task.attempts@);
        }
        let paid = task.raw_steps_paid();
        self.priced_steps = self.priced_steps + paid;
        self.restarts = self.restarts + task.restarts;
        if task.passed {
            self.passed = self.passed + 1;
        }
        self.tasks.push(task);
    }
}

// -------------------------------------------------------------- report ---

/// The agreed operationalization, printed verbatim into every publication.
pub const OPERATIONALIZATION: &'static str = "Gate 8 operationalization (agreed default 2026-09-09):
- suite: the defined token-family suite (task-1..task-N), each mission
  graded by the ground-truth checker against its own TOKEN-N-SECRET;
- incumbent arm: the published single-session baseline - one session per
  attempt, NO cross-session memory (fresh session dir, fresh model
  script, fresh process per attempt) and NO feedback channel; a red
  check is never shown to the model, so the deterministic baseline
  replays the identical wrong call until its step budget burns out
  (steps_exhausted); on failure it restarts from scratch, and the failed
  attempt's full measured cost is paid twice (once lost, once as the
  restart redo), matching v5 p.36 \"the incumbent resets every session
  and restarts when it breaks\";
- hairspring arm: the real pipeline end to end - one continuous session
  per task with verifier feedback enabled, so a red check repairs
  in-step;
- the verifier is the mechanical judge (ledger test-run evidence plus
  objective token), never a canned verdict;
- comparison is published in T_mission decomposition TERMS (steps,
  restarts, stuck repeats, priced model cost), never wall microseconds;
- the full decomposition is published per run, win or lose.";

pub open spec fn bool_text(b: bool) -> Seq<char> {
    if b {
        "true"@
    } else {
        "false"@
    }
}

/// The attempts' step counts, comma separated.
pub open spec fn steps_list(a: Seq<Decomposition>) -> Seq<char>
    decreases a.len(),
{
    if a.len() == 0 {
        Seq::empty()
    } else if a.len() == 1 {
        dec(a[0].n_steps as nat)
    } else {
        steps_list(a.drop_last()) + ", "@ + dec(a.last().n_steps as nat)
    }
}

/// One task's report line.
pub open spec fn task_line(t: TaskRun) -> Seq<char> {
    "  "@ + t.mission@ + ": attempts="@ + dec(t.attempts@.len()) + " restarts="@ + dec(t.restarts as nat)
        + " passed="@ + bool_text(t.passed) + " steps_per_attempt=["@ + steps_list(t.attempts@) + "]"@
}

/// One arm's report block: its tasks, its totals and its summed
/// decomposition indented, then a blank line. `avg_model` and
/// `avg_overhead` are the decomposition's per-step averages as printed.
pub open spec fn arm_lines(a: ArmReport, avg_model: Seq<char>, avg_overhead: Seq<char>) -> Seq<Seq<char>> {
    seq!["ARM "@ + a.name@ + ":"@] + a.tasks@.map_values(|t: TaskRun| task_line(t)) + seq![
        "  totals: raw_steps="@ + dec(a.raw_steps as nat) + " priced_steps="@ + dec(a.priced_steps as nat)
            + " restarts="@ + dec(a.restarts as nat) + " passed="@ + dec(a.passed as nat),
        "  full T_mission decomposition (summed over all attempts):"@,
    ] + a.total.report_spec(a.name@, avg_model, avg_overhead).map_values(|l: Seq<char>| "    "@ + l) + seq![
        Seq::empty(),
    ]
}

fn steps_list_exec(a: &Vec<Decomposition>) -> (r: Vec<char>)
    ensures
        r@ == steps_list(a@),
{
    let mut out: Vec<char> = Vec::new();
    let mut i: usize = 0;
    while i < a.len()
        invariant
            i <= a.len(),
            out@ == steps_list(a@.take(i as int)),
        decreases a.len() - i,
    {
        assert(a@.take(i + 1).drop_last() =~= a@.take(i as int));
        if i > 0 {
            extend_str(&mut out, ", ");
        }
        push_dec(&mut out, a[i].n_steps);
        i += 1;
    }
    assert(a@.take(a.len() as int) =~= a@);
    out
}

fn task_line_exec(t: &TaskRun) -> (r: String)
    ensures
        r@ == task_line(*t),
{
    let mut l = chars_of("  ");
    extend_str(&mut l, t.mission.as_str());
    extend_str(&mut l, ": attempts=");
    push_dec(&mut l, t.attempts.len() as u64);
    extend_str(&mut l, " restarts=");
    push_dec(&mut l, t.restarts);
    extend_str(&mut l, " passed=");
    if t.passed {
        extend_str(&mut l, "true");
    } else {
        extend_str(&mut l, "false");
    }
    extend_str(&mut l, " steps_per_attempt=[");
    let st = steps_list_exec(&t.attempts);
    extend_chars(&mut l, &st);
    extend_str(&mut l, "]");
    string_of(&l)
}

impl ArmReport {
    /// The arm's block of the published report.
    pub fn report_lines(&self, avg_model: &str, avg_overhead: &str) -> (r: Vec<String>)
        requires
            self.total.terms_spec() <= u64::MAX,
        ensures
            r@.map_values(|l: String| l@) == arm_lines(*self, avg_model@, avg_overhead@),
    {
        let ghost tl = self.tasks@.map_values(|t: TaskRun| task_line(t));
        let mut out: Vec<String> = Vec::new();
        let mut h = chars_of("ARM ");
        extend_str(&mut h, self.name.as_str());
        extend_str(&mut h, ":");
        out.push(string_of(&h));
        let ghost head = out@.map_values(|l: String| l@);
        let mut i: usize = 0;
        while i < self.tasks.len()
            invariant
                i <= self.tasks.len(),
                tl == self.tasks@.map_values(|t: TaskRun| task_line(t)),
                out@.map_values(|l: String| l@) == head + tl.take(i as int),
            decreases self.tasks.len() - i,
        {
            let ghost before = out@;
            let line = task_line_exec(&self.tasks[i]);
            out.push(line);
            proof {
                assert(out@.map_values(|l: String| l@) =~= before.map_values(|l: String| l@).push(line@));
                assert(tl.take(i + 1) =~= tl.take(i as int).push(tl[i as int]));
            }
            i += 1;
        }
        assert(tl.take(self.tasks.len() as int) =~= tl);
        let mut t = chars_of("  totals: raw_steps=");
        push_dec(&mut t, self.raw_steps);
        extend_str(&mut t, " priced_steps=");
        push_dec(&mut t, self.priced_steps);
        extend_str(&mut t, " restarts=");
        push_dec(&mut t, self.restarts);
        extend_str(&mut t, " passed=");
        push_dec(&mut t, self.passed as u64);
        out.push(string_of(&t));
        out.push(string_of(&chars_of("  full T_mission decomposition (summed over all attempts):")));
        let ghost mid = out@.map_values(|l: String| l@);
        let body = self.total.report_lines(self.name.as_str(), avg_model, avg_overhead);
        let ghost bv = body@.map_values(|l: String| l@).map_values(|l: Seq<char>| "    "@ + l);
        let mut k: usize = 0;
        while k < body.len()
            invariant
                k <= body.len(),
                bv == body@.map_values(|l: String| l@).map_values(|l: Seq<char>| "    "@ + l),
                out@.map_values(|l: String| l@) == mid + bv.take(k as int),
            decreases body.len() - k,
        {
            let ghost before = out@;
            let mut l = chars_of("    ");
            extend_str(&mut l, body[k].as_str());
            let line = string_of(&l);
            out.push(line);
            proof {
                assert(out@.map_values(|l: String| l@) =~= before.map_values(|l: String| l@).push(line@));
                assert(bv.take(k + 1) =~= bv.take(k as int).push(bv[k as int]));
            }
            k += 1;
        }
        assert(bv.take(body.len() as int) =~= bv);
        let ghost rs = self.total.report_spec(self.name@, avg_model@, avg_overhead@);
        assert(bv =~= rs.map_values(|l: Seq<char>| "    "@ + l));
        let ghost before_blank = out@;
        let blank = String::new();
        out.push(blank);
        assert(out@.map_values(|l: String| l@) =~= before_blank.map_values(|l: String| l@).push(blank@));
        assert(blank@ =~= Seq::<char>::empty());
        assert(head =~= seq!["ARM "@ + self.name@ + ":"@]);
        assert(out@.map_values(|l: String| l@) =~= arm_lines(*self, avg_model@, avg_overhead@));
        out
    }
}

/// The published figures that are float quotients, as printed (each
/// formatted by the caller): the speedup with two decimals, and each arm's
/// per-step model and overhead averages with one.
pub struct ReportFigures {
    pub speedup: String,
    pub incumbent_avg_model: String,
    pub incumbent_avg_overhead: String,
    pub hairspring_avg_model: String,
    pub hairspring_avg_overhead: String,
}

/// The full two-arm publication.
pub struct Publication {
    pub suite: String,
    pub task_count: u32,
    /// Failed attempts per incumbent task.
    pub failed_attempts: u32,
    pub incumbent: ArmReport,
    pub hairspring: ArmReport,
    /// Win or lose against the 2x gate.
    pub verdict: Verdict,
}

pub open spec fn verdict_text(v: Verdict) -> Seq<char> {
    match v {
        Verdict::Win => "WIN"@,
        Verdict::Lose => "LOSE"@,
    }
}

impl Publication {
    /// The published report body.
    pub open spec fn report_spec(&self, f: ReportFigures) -> Seq<Seq<char>> {
        seq![
            "HAIRSPRING gate 8 publication (benchmark half)"@,
            "suite="@ + self.suite@ + " tasks="@ + dec(self.task_count as nat) + " incumbent_failed_attempts_per_task="@
                + dec(self.failed_attempts as nat),
            "published win or lose"@,
            Seq::empty(),
            "OPERATIONALIZATION (verbatim):"@,
            OPERATIONALIZATION@,
            Seq::empty(),
        ] + arm_lines(self.incumbent, f.incumbent_avg_model@, f.incumbent_avg_overhead@) + arm_lines(
            self.hairspring,
            f.hairspring_avg_model@,
            f.hairspring_avg_overhead@,
        ) + seq![
            "COMPARISON (decomposition terms, not wall microseconds):"@,
            "  incumbent priced_steps="@ + dec(self.incumbent.priced_steps as nat) + " hairspring priced_steps="@
                + dec(self.hairspring.priced_steps as nat) + " speedup="@ + f.speedup@ + "x target=2x"@,
            "  verdict="@ + verdict_text(self.verdict),
        ]
    }

    /// The published report body, win or lose.
    pub fn report_lines(&self, figures: &ReportFigures) -> (r: Vec<String>)
        requires
            self.incumbent.total.terms_spec() <= u64::MAX,
            self.hairspring.total.terms_spec() <= u64::MAX,
        ensures
            r@.map_values(|l: String| l@) == self.report_spec(*figures),
    {
        let mut out: Vec<String> = Vec::new();
        out.push(string_of(&chars_of("HAIRSPRING gate 8 publication (benchmark half)")));
        let mut l = chars_of("suite=");
        extend_str(&mut l, self.suite.as_str());
        extend_str(&mut l, " tasks=");
        push_dec(&mut l, self.task_count as u64);
        extend_str(&mut l, " incumbent_failed_attempts_per_task=");
        push_dec(&mut l, self.failed_attempts as u64);
        out.push(string_of(&l));
        out.push(string_of(&chars_of("published win or lose")));
        let blank = String::new();
        assert(blank@ =~= Seq::<char>::empty());
        out.push(blank);
        out.push(string_of(&chars_of("OPERATIONALIZATION (verbatim):")));
        out.push(string_of(&chars_of(OPERATIONALIZATION)));
        let blank = String::new();
        assert(blank@ =~= Seq::<char>::empty());
        out.push(blank);
        let ghost head = out@.map_values(|l: String| l@);
        let inc = self.incumbent.report_lines(figures.incumbent_avg_model.as_str(), figures.incumbent_avg_overhead.as_str());
        let hs = self.hairspring.report_lines(figures.hairspring_avg_model.as_str(), figures.hairspring_avg_overhead.as_str());
        let ghost iv = inc@.map_values(|l: String| l@);
        let ghost hv = hs@.map_values(|l: String| l@);
        let mut i: usize = 0;
        while i < inc.len()
            invariant
                i <= inc.len(),
                iv == inc@.map_values(|l: String| l@),
                out@.map_values(|l: String| l@) == head + iv.take(i as int),
            decreases inc.len() - i,
        {
            let ghost before = out@;
            let line = string_of(&chars_of(inc[i].as_str()));
            out.push(line);
            proof {
                assert(out@.map_values(|l: String| l@) =~= before.map_values(|l: String| l@).push(line@));
                assert(iv.take(i + 1) =~= iv.take(i as int).push(iv[i as int]));
            }
            i += 1;
        }
        assert(iv.take(inc.len() as int) =~= iv);
        let ghost mid = out@.map_values(|l: String| l@);
        let mut k: usize = 0;
        while k < hs.len()
            invariant
                k <= hs.len(),
                hv == hs@.map_values(|l: String| l@),
                out@.map_values(|l: String| l@) == mid + hv.take(k as int),
            decreases hs.len() - k,
        {
            let ghost before = out@;
            let line = string_of(&chars_of(hs[k].as_str()));
            out.push(line);
            proof {
                assert(out@.map_values(|l: String| l@) =~= before.map_values(|l: String| l@).push(line@));
                assert(hv.take(k + 1) =~= hv.take(k as int).push(hv[k as int]));
            }
            k += 1;
        }
        assert(hv.take(hs.len() as int) =~= hv);
        let ghost tail_start = out@.map_values(|l: String| l@);
        let c1 = string_of(&chars_of("COMPARISON (decomposition terms, not wall microseconds):"));
        let mut c = chars_of("  incumbent priced_steps=");
        push_dec(&mut c, self.incumbent.priced_steps);
        extend_str(&mut c, " hairspring priced_steps=");
        push_dec(&mut c, self.hairspring.priced_steps);
        extend_str(&mut c, " speedup=");
        extend_str(&mut c, figures.speedup.as_str());
        extend_str(&mut c, "x target=2x");
        let c2 = string_of(&c);
        let mut v = chars_of("  verdict=");
        extend_str(&mut v, verdict_str(self.verdict));
        let c3 = string_of(&v);
        out.push(c1);
        out.push(c2);
        out.push(c3);
        proof {
            assert(out@.map_values(|l: String| l@) =~= tail_start.push(c1@).push(c2@).push(c3@));
        }
        assert(out@.map_values(|l: String| l@) =~= self.report_spec(*figures));
        out
    }
}

// ------------------------------------------------------------ verdicts ---

/// The 2x bar: the incumbent pays at least twice the hairspring steps (a
/// hairspring arm that paid nothing has no speedup and loses).
pub open spec fn gate_verdict_spec(incumbent_priced: u64, hairspring_priced: u64) -> Verdict {
    if hairspring_priced > 0 && incumbent_priced >= 2 * hairspring_priced {
        Verdict::Win
    } else {
        Verdict::Lose
    }
}

/// Win when the incumbent's priced steps are at least twice hairspring's.
pub fn gate_verdict(incumbent_priced: u64, hairspring_priced: u64) -> (v: Verdict)
    ensures
        v == gate_verdict_spec(incumbent_priced, hairspring_priced),
{
    if hairspring_priced > 0 && incumbent_priced / 2 >= hairspring_priced {
        Verdict::Win
    } else {
        Verdict::Lose
    }
}

/// Against the envelope: pass endpoints first (a task the envelope cannot
/// pass is an endpoint matched search lost), then the 2x gate on priced
/// steps.
pub open spec fn envelope_verdict_spec(
    hairspring_passed: u32,
    envelope_passed: u32,
    envelope_priced: u64,
    hairspring_priced: u64,
) -> Verdict {
    if hairspring_passed > envelope_passed || (hairspring_passed == envelope_passed
        && gate_verdict_spec(envelope_priced, hairspring_priced) == Verdict::Win) {
        Verdict::Win
    } else {
        Verdict::Lose
    }
}

/// The verdict against the best-of-N envelope.
pub fn envelope_verdict(
    hairspring_passed: u32,
    envelope_passed: u32,
    envelope_priced: u64,
    hairspring_priced: u64,
) -> (v: Verdict)
    ensures
        v == envelope_verdict_spec(hairspring_passed, envelope_passed, envelope_priced, hairspring_priced),
{
    if hairspring_passed > envelope_passed {
        return Verdict::Win;
    }
    if hairspring_passed == envelope_passed {
        return gate_verdict(envelope_priced, hairspring_priced);
    }
    Verdict::Lose
}

// ----------------------------------------------------------- isolates ---

/// How the isolates' outcomes are drawn. Both draws keep matched seeds
/// (identical task secrets) and identical decision opportunities (same
/// attempt budgets); only the outcome spread differs.
#[derive(Clone, Copy, Debug, PartialEq, Eq, Structural)]
pub enum IsolateDraw {
    /// Every isolate can pass every task; failures per (task, isolate)
    /// spread deterministically in `0..=failed_attempts`.
    Uniform,
    /// Specialist isolates: isolate `k` covers task `i` iff `7*i + k` is
    /// a multiple of `n_isolates + 1`; a covered task passes on the first
    /// attempt, an uncovered one burns every attempt and never passes.
    Specialist,
}

/// `(31*i + 17*k) mod 2^32 mod (failed_attempts + 1)`, 0 without failures.
pub open spec fn isolate_failures_spec(task_i: u32, isolate_k: u32, failed_attempts: u32) -> u32 {
    if failed_attempts == 0 {
        0
    } else {
        ((((task_i as int * 31) % 0x1_0000_0000 + (isolate_k as int * 17) % 0x1_0000_0000)
            % 0x1_0000_0000) % (failed_attempts + 1)) as u32
    }
}

/// How many times isolate `k` fails task `i` before its passing attempt:
/// a deterministic spread in `0..=failed_attempts`, so outcomes vary per
/// (task, isolate) while budgets and secrets stay matched.
pub fn isolate_failures(task_i: u32, isolate_k: u32, failed_attempts: u32) -> (r: u32)
    requires
        failed_attempts < u32::MAX,
    ensures
        r == isolate_failures_spec(task_i, isolate_k, failed_attempts),
        r <= failed_attempts,
{
    if failed_attempts == 0 {
        return 0;
    }
    let a: u64 = (task_i as u64 * 31) % 0x1_0000_0000;
    let b: u64 = (isolate_k as u64 * 17) % 0x1_0000_0000;
    let s: u64 = (a + b) % 0x1_0000_0000;
    let r: u64 = s % (failed_attempts as u64 + 1);
    r as u32
}

/// Whether isolate `k` covers task `i` under the draw.
pub open spec fn covers_spec(draw: IsolateDraw, task_i: u32, isolate_k: u32, n_isolates: u32) -> bool {
    match draw {
        IsolateDraw::Uniform => true,
        IsolateDraw::Specialist => (7 * task_i + isolate_k) % (n_isolates + 1) == 0,
    }
}

/// The failed attempts isolate `k` makes on task `i` before its last one,
/// and whether that last one burns too (an uncovered specialist task).
pub open spec fn isolate_plan_spec(
    draw: IsolateDraw,
    task_i: u32,
    isolate_k: u32,
    failed_attempts: u32,
    n_isolates: u32,
) -> (u32, bool) {
    let covered = covers_spec(draw, task_i, isolate_k, n_isolates);
    match draw {
        IsolateDraw::Uniform => (isolate_failures_spec(task_i, isolate_k, failed_attempts), false),
        IsolateDraw::Specialist => if covered {
            (0, false)
        } else {
            ((failed_attempts + 1) as u32, true)
        },
    }
}

/// How isolate `k` runs task `i`: the number of failed attempts, then
/// whether the final attempt burns as well (never passing).
pub fn isolate_plan(
    draw: IsolateDraw,
    task_i: u32,
    isolate_k: u32,
    failed_attempts: u32,
    n_isolates: u32,
) -> (r: (u32, bool))
    requires
        failed_attempts < u32::MAX,
        n_isolates < u32::MAX,
        7 * task_i + isolate_k <= u32::MAX,
    ensures
        r == isolate_plan_spec(draw, task_i, isolate_k, failed_attempts, n_isolates),
{
    match draw {
        IsolateDraw::Uniform => (isolate_failures(task_i, isolate_k, failed_attempts), false),
        IsolateDraw::Specialist => {
            if (7 * task_i + isolate_k) % (n_isolates + 1) == 0 {
                (0, false)
            } else {
                (failed_attempts + 1, true)
            }
        },
    }
}

// ----------------------------------------------------------- envelope ---

/// One task's endpoint inside the endpoint-wise envelope: the best
/// isolate's measured result for that mission.
#[derive(Clone, Debug)]
pub struct TaskEnvelope {
    /// The mission goal string (`task-N`).
    pub mission: String,
    /// Whether any isolate passed it.
    pub passed: bool,
    /// The best (lowest) priced steps among the best-passing isolates.
    pub priced_steps: u64,
    /// Which isolate supplied the endpoint (0-based).
    pub best_isolate: u32,
}

/// The endpoint-wise best-of-N envelope over all isolates.
#[derive(Clone, Debug)]
pub struct EnvelopeReport {
    /// Per-task endpoints in suite order.
    pub tasks: Vec<TaskEnvelope>,
    /// Sum of the per-task best endpoints.
    pub priced_steps: u64,
    /// Tasks any isolate passed.
    pub passed: u32,
}

/// An endpoint (steps, passed) beats the best so far when it passes and
/// the best does not, or passes alike with fewer steps; ties keep the
/// earlier isolate.
pub open spec fn beats(steps: int, passed: bool, best: Option<(int, nat, bool)>) -> bool {
    match best {
        None => true,
        Some((bs, _, bp)) => (passed && !bp) || (passed == bp && steps < bs),
    }
}

/// The best endpoint for task `ti` among the first `k` isolates.
pub open spec fn best_upto(isos: Seq<ArmReport>, ti: int, k: int) -> Option<(int, nat, bool)>
    decreases k,
{
    if k <= 0 {
        None
    } else {
        let b = best_upto(isos, ti, k - 1);
        let t = isos[k - 1].tasks@[ti];
        let steps = steps_paid(t.attempts@);
        if beats(steps, t.passed, b) {
            Some((steps, (k - 1) as nat, t.passed))
        } else {
            b
        }
    }
}

/// The envelope's endpoint for task `ti`.
pub open spec fn endpoint(isos: Seq<ArmReport>, ti: int) -> (int, nat, bool) {
    best_upto(isos, ti, isos.len() as int)->0
}

/// Every isolate ran at least `tasks` tasks, each task's priced steps fit,
/// and the envelope's sums fit.
pub open spec fn envelope_fits(isos: Seq<ArmReport>, tasks: nat) -> bool {
    &&& isos.len() >= 1
    &&& isos.len() <= u32::MAX + 1
    &&& tasks < usize::MAX
    &&& forall|k: int| 0 <= k < isos.len() ==> #[trigger] isos[k].tasks@.len() >= tasks
    &&& forall|k: int, ti: int| 0 <= k < isos.len() && 0 <= ti < tasks ==> steps_paid(
        #[trigger] isos[k].tasks@[ti].attempts@,
    ) <= u64::MAX
    &&& envelope_steps(isos, tasks as int) <= u64::MAX
}

/// The endpoints' steps summed over the first `n` tasks.
pub open spec fn envelope_steps(isos: Seq<ArmReport>, n: int) -> int
    decreases n,
{
    if n <= 0 {
        0
    } else {
        envelope_steps(isos, n - 1) + endpoint(isos, n - 1).0
    }
}

/// The endpoints that pass among the first `n` tasks.
pub open spec fn envelope_passes(isos: Seq<ArmReport>, n: int) -> int
    decreases n,
{
    if n <= 0 {
        0
    } else {
        envelope_passes(isos, n - 1) + if endpoint(isos, n - 1).2 {
            1int
        } else {
            0
        }
    }
}

proof fn lemma_best_upto_some(isos: Seq<ArmReport>, ti: int, k: int)
    requires
        k >= 1,
        forall|j: int| 0 <= j < k ==> steps_paid(#[trigger] isos[j].tasks@[ti].attempts@) >= 0,
    ensures
        best_upto(isos, ti, k) is Some,
        (best_upto(isos, ti, k)->0).1 < k,
        (best_upto(isos, ti, k)->0).0 >= 0,
    decreases k,
{
    assert(steps_paid(isos[k - 1].tasks@[ti].attempts@) >= 0);
    if k > 1 {
        lemma_best_upto_some(isos, ti, k - 1);
    }
}

proof fn lemma_steps_sum_nonneg(a: Seq<Decomposition>)
    ensures
        steps_sum(a) >= 0,
        steps_paid(a) >= 0,
    decreases a.len(),
{
    if a.len() > 0 {
        lemma_steps_sum_nonneg(a.drop_last());
    }
}

proof fn lemma_envelope_steps_mono(isos: Seq<ArmReport>, n: int, m: int)
    requires
        0 <= n <= m,
        forall|ti: int| 0 <= ti < m ==> endpoint(isos, ti).0 >= 0,
    ensures
        envelope_steps(isos, n) <= envelope_steps(isos, m),
        envelope_passes(isos, n) <= envelope_passes(isos, m),
        envelope_passes(isos, m) <= m,
        envelope_passes(isos, n) >= 0,
    decreases m,
{
    if n < m {
        lemma_envelope_steps_mono(isos, n, m - 1);
    } else if m > 0 {
        lemma_envelope_steps_mono(isos, m - 1, m - 1);
    }
}

/// The endpoint-wise envelope over the isolates' first `tasks` tasks:
/// per task the best isolate - a passing isolate beats a failing one,
/// among equals the fewest priced steps wins, ties keep the lower id.
pub fn build_envelope(isos: &Vec<ArmReport>, tasks: u32) -> (r: EnvelopeReport)
    requires
        envelope_fits(isos@, tasks as nat),
        tasks <= u32::MAX,
    ensures
        r.tasks@.len() == tasks,
        forall|ti: int| 0 <= ti < tasks ==> {
            let e = endpoint(isos@, ti);
            &&& (#[trigger] r.tasks@[ti]).priced_steps == e.0
            &&& r.tasks@[ti].best_isolate == e.1
            &&& r.tasks@[ti].passed == e.2
        },
        r.priced_steps == envelope_steps(isos@, tasks as int),
        r.passed == envelope_passes(isos@, tasks as int),
{
    let mut out: Vec<TaskEnvelope> = Vec::new();
    let mut total: u64 = 0;
    let mut passed: u32 = 0;
    let mut ti: usize = 0;
    let nt = tasks as usize;
    proof {
        assert forall|t: int| 0 <= t < tasks implies endpoint(isos@, t).0 >= 0 by {
            assert forall|j: int| 0 <= j < isos@.len() implies steps_paid(
                #[trigger] isos@[j].tasks@[t].attempts@,
            ) >= 0 by {
                lemma_steps_sum_nonneg(isos@[j].tasks@[t].attempts@);
            }
            lemma_best_upto_some(isos@, t, isos@.len() as int);
        }
    }
    while ti < nt
        invariant
            nt == tasks,
            ti <= nt,
            envelope_fits(isos@, tasks as nat),
            forall|t: int| 0 <= t < tasks ==> endpoint(isos@, t).0 >= 0,
            out@.len() == ti,
            forall|t: int| 0 <= t < ti ==> {
                let e = endpoint(isos@, t);
                &&& (#[trigger] out@[t]).priced_steps == e.0
                &&& out@[t].best_isolate == e.1
                &&& out@[t].passed == e.2
            },
            total == envelope_steps(isos@, ti as int),
            passed == envelope_passes(isos@, ti as int),
        decreases nt - ti,
    {
        let mut best_steps: u64 = 0;
        let mut best_k: u32 = 0;
        let mut best_passed = false;
        let mut have = false;
        let mut k: usize = 0;
        while k < isos.len()
            invariant
                ti < nt,
                nt == tasks,
                k <= isos.len(),
                envelope_fits(isos@, tasks as nat),
                have <==> k > 0,
                have ==> best_upto(isos@, ti as int, k as int) == Some(
                    (best_steps as int, best_k as nat, best_passed),
                ),
                !have ==> best_upto(isos@, ti as int, k as int) is None,
            decreases isos.len() - k,
        {
            assert(isos@[k as int].tasks@.len() >= tasks);
            let t = &isos[k].tasks[ti];
            proof {
                assert(steps_paid(isos@[k as int].tasks@[ti as int].attempts@) <= u64::MAX);
            }
            let steps = t.raw_steps_paid();
            let better = if !have {
                true
            } else {
                (t.passed && !best_passed) || (t.passed == best_passed && steps < best_steps)
            };
            if better {
                best_steps = steps;
                best_k = k as u32;
                best_passed = t.passed;
            }
            have = true;
            k += 1;
        }
        proof {
            lemma_envelope_steps_mono(isos@, ti + 1, tasks as int);
        }
        let mut mission: Vec<char> = crate::text::chars_of("task-");
        crate::text::push_dec(&mut mission, (ti + 1) as u64);
        out.push(
            TaskEnvelope {
                mission: crate::text::string_of(&mission),
                passed: best_passed,
                priced_steps: best_steps,
                best_isolate: best_k,
            },
        );
        total = total + best_steps;
        if best_passed {
            passed = passed + 1;
        }
        ti += 1;
    }
    EnvelopeReport { tasks: out, priced_steps: total, passed }
}

// --------------------------------------------------------------- laws ---

/// A restarted task pays every failed attempt twice (once lost, once as
/// the redo) and its final attempt once; a single attempt is paid once.
pub proof fn law_failed_attempts_paid_twice(a: Seq<Decomposition>)
    requires
        a.len() > 0,
    ensures
        steps_paid(a) == 2 * steps_sum(a.drop_last()) + a.last().n_steps,
        a.len() == 1 ==> steps_paid(a) == a[0].n_steps,
{
    if a.len() == 1 {
        assert(a.drop_last() =~= Seq::<Decomposition>::empty());
    }
}

/// The best endpoint among the first `m` isolates is at least as good as
/// each of them: it passes whenever one of them passes, and among equal
/// pass states it pays no more steps.
proof fn lemma_best_dominates(isos: Seq<ArmReport>, ti: int, m: int, j: int)
    requires
        0 <= j < m,
    ensures
        best_upto(isos, ti, m) is Some,
        ({
            let b = best_upto(isos, ti, m)->0;
            let t = isos[j].tasks@[ti];
            &&& t.passed ==> b.2
            &&& t.passed == b.2 ==> b.0 <= steps_paid(t.attempts@)
        }),
    decreases m,
{
    if m - 1 > j {
        lemma_best_dominates(isos, ti, m - 1, j);
    } else if m > 1 {
        lemma_best_dominates(isos, ti, m - 1, 0);
    }
}

/// The envelope is endpoint-wise best: for every task and every isolate,
/// the envelope passes whenever that isolate passed, and with equal pass
/// state it pays no more priced steps - beating the envelope beats
/// matched independent search, not just one sample of it.
pub proof fn law_envelope_dominates_each_isolate(isos: Seq<ArmReport>, ti: int, k: int)
    requires
        0 <= k < isos.len(),
    ensures
        ({
            let e = endpoint(isos, ti);
            let t = isos[k].tasks@[ti];
            &&& t.passed ==> e.2
            &&& t.passed == e.2 ==> e.0 <= steps_paid(t.attempts@)
        }),
{
    lemma_best_dominates(isos, ti, isos.len() as int, k);
}

/// The bar is 2x: a win means the incumbent paid at least twice
/// the steps, and a hairspring arm that paid nothing never wins.
pub proof fn law_gate_is_two_x(incumbent_priced: u64, hairspring_priced: u64)
    ensures
        gate_verdict_spec(incumbent_priced, hairspring_priced) == Verdict::Win <==> (hairspring_priced
            > 0 && incumbent_priced >= 2 * hairspring_priced),
{
}

} // verus!
