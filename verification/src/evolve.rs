//! The evolution loop's decision: a candidate prompt is promoted only when
//! it beats its parent on held-out tasks - more passes, or as many passes
//! in fewer total steps - with the journal record that follows, and a
//! rewind rolls back the journal's latest promotion. The missions, the overlay and the journal are handled
//! outside.
use vstd::prelude::*;
use crate::text::{chars_of, dec, eq_str, extend_chars, extend_str, push_dec, string_of};

verus! {

broadcast use vstd::string::group_string_axioms;

/// One benched mission: the task, whether it passed, its steps and cost,
/// and the id of its event stream.
#[derive(Clone, Debug)]
pub struct BenchOutcome {
    pub task: String,
    pub passed: bool,
    pub steps: u32,
    pub cost_micros: u64,
    pub stream_id: String,
}

/// The promotion verdict.
#[derive(Debug, PartialEq)]
pub enum Decision {
    Promoted,
    Rejected(String),
}

/// Passing outcomes among `os`.
pub open spec fn passes(os: Seq<BenchOutcome>) -> int
    decreases os.len(),
{
    if os.len() == 0 {
        0
    } else {
        passes(os.drop_last()) + if os.last().passed {
            1int
        } else {
            0
        }
    }
}

/// Steps of all outcomes, summed.
pub open spec fn total_steps(os: Seq<BenchOutcome>) -> int
    decreases os.len(),
{
    if os.len() == 0 {
        0
    } else {
        total_steps(os.drop_last()) + os.last().steps
    }
}

proof fn lemma_fitness_bounds(os: Seq<BenchOutcome>)
    ensures
        0 <= passes(os) <= os.len(),
        0 <= total_steps(os) <= os.len() * 0xffff_ffff,
    decreases os.len(),
{
    if os.len() > 0 {
        lemma_fitness_bounds(os.drop_last());
    }
}

/// (passes, total steps): passes dominate, fewer steps break ties.
pub fn fitness(outcomes: &Vec<BenchOutcome>) -> (r: (u32, u64))
    requires
        outcomes.len() <= u32::MAX,
    ensures
        r.0 == passes(outcomes@),
        r.1 == total_steps(outcomes@),
{
    let mut p: u32 = 0;
    let mut s: u64 = 0;
    let mut i: usize = 0;
    assert(outcomes@.take(0) =~= Seq::<BenchOutcome>::empty());
    while i < outcomes.len()
        invariant
            i <= outcomes.len() <= u32::MAX,
            p == passes(outcomes@.take(i as int)),
            s == total_steps(outcomes@.take(i as int)),
        decreases outcomes.len() - i,
    {
        proof {
            assert(outcomes@.take(i + 1).drop_last() =~= outcomes@.take(i as int));
            lemma_fitness_bounds(outcomes@.take(i + 1));
            assert(outcomes@.take(i + 1).len() == i + 1);
            assert((i + 1) * 0xffff_ffff <= u64::MAX) by (nonlinear_arith)
                requires
                    i + 1 <= u32::MAX,
            ;
        }
        if outcomes[i].passed {
            p = p + 1;
        }
        s = s + outcomes[i].steps as u64;
        i += 1;
    }
    assert(outcomes@.take(outcomes.len() as int) =~= outcomes@);
    (p, s)
}

/// The candidate beats the parent: more passes, or as many in fewer steps.
pub open spec fn beats_spec(parent: (u32, u64), candidate: (u32, u64)) -> bool {
    candidate.0 > parent.0 || (candidate.0 == parent.0 && candidate.1 < parent.1)
}

/// The comparison as the journal records it.
pub open spec fn comparison_text(parent: (u32, u64), candidate: (u32, u64)) -> Seq<char> {
    "passes "@ + dec(candidate.0 as nat) + " vs "@ + dec(parent.0 as nat) + ", steps "@ + dec(
        candidate.1 as nat,
    ) + " vs "@ + dec(parent.1 as nat)
}

/// The decision and the journal's reason for it.
pub open spec fn decision_reason(parent: (u32, u64), candidate: (u32, u64)) -> Seq<char> {
    if beats_spec(parent, candidate) {
        "candidate beats parent on held-out: "@ + comparison_text(parent, candidate)
    } else {
        "candidate does not beat parent on held-out: "@ + comparison_text(parent, candidate)
    }
}

/// Decide on held-out fitness: promoted only when the candidate beats the
/// parent; a rejection carries its reason. The second component is the
/// journal's reason text.
pub fn promotion_decision(parent: (u32, u64), candidate: (u32, u64)) -> (r: (Decision, String))
    ensures
        beats_spec(parent, candidate) ==> r.0 is Promoted,
        !beats_spec(parent, candidate) ==> (r.0 matches Decision::Rejected(m) && m@ == decision_reason(
            parent,
            candidate,
        )),
        r.1@ == decision_reason(parent, candidate),
{
    let mut figures = chars_of("passes ");
    push_dec(&mut figures, candidate.0 as u64);
    extend_str(&mut figures, " vs ");
    push_dec(&mut figures, parent.0 as u64);
    extend_str(&mut figures, ", steps ");
    push_dec(&mut figures, candidate.1);
    extend_str(&mut figures, " vs ");
    push_dec(&mut figures, parent.1);
    let beats = candidate.0 > parent.0 || (candidate.0 == parent.0 && candidate.1 < parent.1);
    if beats {
        let mut t = chars_of("candidate beats parent on held-out: ");
        extend_chars(&mut t, &figures);
        (Decision::Promoted, string_of(&t))
    } else {
        let mut t = chars_of("candidate does not beat parent on held-out: ");
        extend_chars(&mut t, &figures);
        (Decision::Rejected(string_of(&t)), string_of(&t))
    }
}

/// A candidate is promoted exactly when it beats its parent, and it never
/// beats a parent that does at least as well on both counts.
pub proof fn law_promotion_needs_held_out_win(parent: (u32, u64), candidate: (u32, u64))
    ensures
        beats_spec(parent, candidate) ==> !beats_spec(candidate, parent),
        candidate.0 <= parent.0 && candidate.1 >= parent.1 ==> !beats_spec(parent, candidate),
{
}

// -------------------------------------------------------- evaluation ---

/// What evaluating a candidate records once its missions have run: the
/// decision, and the journal record (its version, decision word, reason,
/// the candidate's template only when promoted, and the event streams of
/// every benched mission). A promotion also writes the candidate's
/// template as the policy overlay.
#[derive(Debug)]
pub struct EvaluationPlan {
    pub decision: Decision,
    pub version: u64,
    pub decision_word: String,
    pub reason: String,
    pub candidate_text: Option<String>,
    pub trace_streams: Vec<String>,
}

/// Which template a benched mission runs with.
#[derive(Clone, Copy, Debug, PartialEq, Eq)]
pub enum Template {
    Parent,
    Candidate,
}

/// The missions an evaluation runs, in order: every bench task with the
/// candidate, then every held-out task with the parent, then every
/// held-out task with the candidate.
pub open spec fn evaluation_schedule(bench: Seq<Seq<char>>, held_out: Seq<Seq<char>>) -> Seq<(Template, Seq<char>)> {
    bench.map_values(|t: Seq<char>| (Template::Candidate, t)) + held_out.map_values(
        |t: Seq<char>| (Template::Parent, t),
    ) + held_out.map_values(|t: Seq<char>| (Template::Candidate, t))
}

fn push_runs(acc: &mut Vec<(Template, String)>, tasks: &Vec<String>, template: Template)
    ensures
        final(acc)@.map_values(|r: (Template, String)| (r.0, r.1@)) == old(acc)@.map_values(
            |r: (Template, String)| (r.0, r.1@),
        ) + tasks@.map_values(|t: String| (template, t@)),
{
    let ghost start = acc@.map_values(|r: (Template, String)| (r.0, r.1@));
    let mut i: usize = 0;
    while i < tasks.len()
        invariant
            i <= tasks.len(),
            acc@.map_values(|r: (Template, String)| (r.0, r.1@)) == start + tasks@.map_values(
                |t: String| (template, t@),
            ).take(i as int),
        decreases tasks.len() - i,
    {
        let ghost before = acc@;
        let t = string_of(&chars_of(tasks[i].as_str()));
        acc.push((template, t));
        proof {
            assert(acc@.map_values(|r: (Template, String)| (r.0, r.1@)) =~= before.map_values(
                |r: (Template, String)| (r.0, r.1@),
            ).push((template, t@)));
            assert(tasks@.map_values(|t: String| (template, t@)).take(i + 1) =~= tasks@.map_values(
                |t: String| (template, t@),
            ).take(i as int).push((template, tasks@[i as int]@)));
        }
        i += 1;
    }
    assert(tasks@.map_values(|t: String| (template, t@)).take(tasks.len() as int) =~= tasks@.map_values(
        |t: String| (template, t@),
    ));
}

/// The schedule of an evaluation's missions (see `evaluation_schedule`).
pub fn evaluation_runs(bench: &Vec<String>, held_out: &Vec<String>) -> (r: Vec<(Template, String)>)
    ensures
        r@.map_values(|x: (Template, String)| (x.0, x.1@)) == evaluation_schedule(
            bench@.map_values(|t: String| t@),
            held_out@.map_values(|t: String| t@),
        ),
{
    let mut runs: Vec<(Template, String)> = Vec::new();
    push_runs(&mut runs, bench, Template::Candidate);
    push_runs(&mut runs, held_out, Template::Parent);
    push_runs(&mut runs, held_out, Template::Candidate);
    proof {
        let b = bench@.map_values(|t: String| t@);
        let h = held_out@.map_values(|t: String| t@);
        assert(Seq::<(Template, String)>::empty().map_values(|x: (Template, String)| (x.0, x.1@))
            =~= Seq::<(Template, Seq<char>)>::empty());
        assert(bench@.map_values(|t: String| (Template::Candidate, t@)) =~= b.map_values(
            |t: Seq<char>| (Template::Candidate, t),
        ));
        assert(held_out@.map_values(|t: String| (Template::Parent, t@)) =~= h.map_values(
            |t: Seq<char>| (Template::Parent, t),
        ));
        assert(held_out@.map_values(|t: String| (Template::Candidate, t@)) =~= h.map_values(
            |t: Seq<char>| (Template::Candidate, t),
        ));
        assert(Seq::<(Template, Seq<char>)>::empty() + bench@.map_values(|t: String| (Template::Candidate, t@))
            =~= bench@.map_values(|t: String| (Template::Candidate, t@)));
    }
    runs
}

/// The stream ids of `os`, in order.
pub open spec fn stream_ids(os: Seq<BenchOutcome>) -> Seq<Seq<char>> {
    Seq::new(os.len(), |i: int| os[i].stream_id@)
}

fn push_stream_ids(acc: &mut Vec<String>, os: &Vec<BenchOutcome>)
    ensures
        final(acc)@.map_values(|t: String| t@) == old(acc)@.map_values(|t: String| t@) + stream_ids(os@),
{
    let ghost start = acc@.map_values(|t: String| t@);
    let mut i: usize = 0;
    while i < os.len()
        invariant
            i <= os.len(),
            acc@.map_values(|t: String| t@) == start + stream_ids(os@).take(i as int),
        decreases os.len() - i,
    {
        let ghost before = acc@;
        let id = string_of(&chars_of(os[i].stream_id.as_str()));
        acc.push(id);
        proof {
            assert(acc@.map_values(|t: String| t@) =~= before.map_values(|t: String| t@).push(id@));
            assert(stream_ids(os@).take(i + 1) =~= stream_ids(os@).take(i as int).push(os@[i as int].stream_id@));
            assert(acc@.map_values(|t: String| t@) =~= start + stream_ids(os@).take(i + 1));
        }
        i += 1;
    }
    assert(stream_ids(os@).take(os.len() as int) =~= stream_ids(os@));
}

/// Decide on a candidate from its benched missions: fitness on the
/// held-out tasks for parent and candidate, the promotion decision, and
/// the journal record that follows (`journal_len` records precede it).
pub fn evaluation_plan(
    bench: &Vec<BenchOutcome>,
    held_out_parent: &Vec<BenchOutcome>,
    held_out_candidate: &Vec<BenchOutcome>,
    candidate_text: &str,
    journal_len: u64,
) -> (r: EvaluationPlan)
    requires
        held_out_parent.len() <= u32::MAX,
        held_out_candidate.len() <= u32::MAX,
        journal_len < u64::MAX,
    ensures
        ({
            let pf = (passes(held_out_parent@) as u32, total_steps(held_out_parent@) as u64);
            let cf = (passes(held_out_candidate@) as u32, total_steps(held_out_candidate@) as u64);
            &&& (beats_spec(pf, cf) ==> r.decision is Promoted)
            &&& (!beats_spec(pf, cf) ==> (r.decision matches Decision::Rejected(m) && m@ == decision_reason(
                pf,
                cf,
            )))
            &&& r.reason@ == decision_reason(pf, cf)
            &&& r.decision_word@ == (if beats_spec(pf, cf) { "promoted"@ } else { "rejected"@ })
            &&& (beats_spec(pf, cf) ==> (r.candidate_text matches Some(t) && t@ == candidate_text@))
            &&& (!beats_spec(pf, cf) ==> r.candidate_text is None)
        }),
        r.version == journal_len + 1,
        r.trace_streams@.map_values(|t: String| t@) == stream_ids(bench@) + stream_ids(held_out_parent@)
            + stream_ids(held_out_candidate@),
{
    let pf = fitness(held_out_parent);
    let cf = fitness(held_out_candidate);
    let (decision, reason) = promotion_decision(pf, cf);
    let mut traces: Vec<String> = Vec::new();
    push_stream_ids(&mut traces, bench);
    push_stream_ids(&mut traces, held_out_parent);
    push_stream_ids(&mut traces, held_out_candidate);
    proof {
        assert(Seq::<String>::empty().map_values(|t: String| t@) =~= Seq::<Seq<char>>::empty());
        assert(Seq::<Seq<char>>::empty() + stream_ids(bench@) =~= stream_ids(bench@));
    }
    let promoted = match decision {
        Decision::Promoted => true,
        Decision::Rejected(_) => false,
    };
    let decision_word = if promoted {
        string_of(&chars_of("promoted"))
    } else {
        string_of(&chars_of("rejected"))
    };
    let kept = if promoted {
        Some(string_of(&chars_of(candidate_text)))
    } else {
        None
    };
    EvaluationPlan {
        decision,
        version: journal_len + 1,
        decision_word,
        reason,
        candidate_text: kept,
        trace_streams: traces,
    }
}

// ------------------------------------------------------------ rewind ---

/// What a rewind reads of one journal record.
#[derive(Clone, Debug)]
pub struct JournalEntry {
    /// `promoted`, `rejected` or `rewound`.
    pub decision: String,
    pub parent_hash: String,
    pub candidate_hash: String,
    /// The parent's template; `None` is the builtin one.
    pub parent_text: Option<String>,
}

/// What rolling back the last promotion does: restore the parent's
/// template (`None`: remove the overlay, the parent was the builtin) and
/// journal a `rewound` record with this version, reason and parent hash.
#[derive(Clone, Debug)]
pub struct RewindPlan {
    pub version: u64,
    pub restore: Option<String>,
    pub reason: String,
    pub parent_hash: String,
}

/// The index of the last promotion among the first `n` records.
pub open spec fn last_promotion(js: Seq<JournalEntry>, n: int) -> Option<int>
    decreases n,
{
    if n <= 0 {
        None
    } else if js[n - 1].decision@ == "promoted"@ {
        Some(n - 1)
    } else {
        last_promotion(js, n - 1)
    }
}

proof fn lemma_last_promotion(js: Seq<JournalEntry>, n: int)
    requires
        0 <= n <= js.len(),
    ensures
        last_promotion(js, n) matches Some(i) ==> 0 <= i < n && js[i].decision@ == "promoted"@ && forall|j: int|
            i < j < n ==> js[j].decision@ != "promoted"@,
        last_promotion(js, n) is None ==> forall|j: int| 0 <= j < n ==> js[j].decision@ != "promoted"@,
    decreases n,
{
    if n > 0 {
        lemma_last_promotion(js, n - 1);
    }
}

fn opt_string_copy(o: &Option<String>) -> (r: Option<String>)
    ensures
        match (r, *o) {
            (Some(a), Some(b)) => a@ == b@,
            (None, None) => true,
            _ => false,
        },
{
    match o {
        Some(t) => Some(string_of(&chars_of(t.as_str()))),
        None => None,
    }
}

/// Plan the rollback of the last promotion in the journal; refused when
/// the journal holds none.
pub fn rewind_plan(journal: &Vec<JournalEntry>) -> (r: Result<RewindPlan, String>)
    requires
        journal.len() < u64::MAX,
    ensures
        match last_promotion(journal@, journal@.len() as int) {
            None => r matches Err(e) && e@ == "no promotion to rewind"@,
            Some(i) => r matches Ok(p) && {
                let rec = journal@[i];
                &&& p.version == journal.len() + 1
                &&& p.reason@ == "rewind promotion of candidate "@ + rec.candidate_hash@
                &&& p.parent_hash@ == rec.parent_hash@
                &&& match (p.restore, rec.parent_text) {
                    (Some(a), Some(b)) => a@ == b@,
                    (None, None) => true,
                    _ => false,
                }
            },
        },
{
    let mut n: usize = journal.len();
    while n > 0
        invariant
            n <= journal.len() < u64::MAX,
            last_promotion(journal@, journal@.len() as int) == last_promotion(journal@, n as int),
        decreases n,
    {
        if eq_str(&chars_of(journal[n - 1].decision.as_str()), "promoted") {
            let rec = &journal[n - 1];
            let mut reason = chars_of("rewind promotion of candidate ");
            extend_str(&mut reason, rec.candidate_hash.as_str());
            return Ok(
                RewindPlan {
                    version: journal.len() as u64 + 1,
                    restore: opt_string_copy(&rec.parent_text),
                    reason: string_of(&reason),
                    parent_hash: string_of(&chars_of(rec.parent_hash.as_str())),
                },
            );
        }
        n -= 1;
    }
    Err(string_of(&chars_of("no promotion to rewind")))
}

/// A rewind undoes the latest promotion: the record it rolls back is a
/// promotion and no later record is one.
pub proof fn law_rewind_targets_latest_promotion(journal: Seq<JournalEntry>)
    requires
        last_promotion(journal, journal.len() as int) is Some,
    ensures
        ({
            let i = last_promotion(journal, journal.len() as int)->0;
            &&& 0 <= i < journal.len()
            &&& journal[i].decision@ == "promoted"@
            &&& forall|j: int| i < j < journal.len() ==> journal[j].decision@ != "promoted"@
        }),
{
    lemma_last_promotion(journal, journal.len() as int);
}

} // verus!
