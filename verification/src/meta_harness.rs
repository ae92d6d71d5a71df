//! The meta-harness's rules: a candidate proposal must have a name that
//! stays inside its iteration and at least one source file, and every
//! source path must stay inside the candidate; the search's directory
//! layout (the next iteration, candidate and trial directories) is fixed
//! here too. The search loop itself
//! (filesystem, injected proposer and evaluator, float scores) runs
//! outside.
use vstd::prelude::*;
use crate::repexec::{char_pred, split_char, split_where};
use crate::text::{
    chars_of, contains, contains_str, dec, dec_u64, extend_chars, extend_str, join_path, parse_unsigned, string_of,
    strings_view, trim, trim_chars, unsigned_text,
};

verus! {

broadcast use vstd::string::group_string_axioms;

/// Why the meta-harness refuses its state. (Filesystem and JSON failures
/// of the search loop arise outside.)
#[derive(Clone, Debug, PartialEq, Eq)]
pub enum MetaHarnessError {
    Invalid(String),
}

impl MetaHarnessError {
    /// The error's message.
    pub fn message(&self) -> (r: String)
        ensures
            match self {
                MetaHarnessError::Invalid(e) => r@ == "invalid meta-harness state: "@ + e@,
            },
    {
        match self {
            MetaHarnessError::Invalid(e) => {
                let mut t = chars_of("invalid meta-harness state: ");
                extend_str(&mut t, e.as_str());
                string_of(&t)
            },
        }
    }
}

/// What one search runs: iterations, trials per task, the search tasks,
/// and the baseline's name.
#[derive(Clone, Debug)]
pub struct SearchConfig {
    pub iterations: u32,
    pub trials_per_task: u32,
    pub search_tasks: Vec<String>,
    pub baseline_name: String,
}

/// One proposed candidate: its name and parent, the hypothesis and
/// reflection behind it, and its source files (relative path, content)
/// in ascending path order.
#[derive(Clone, Debug)]
pub struct CandidateProposal {
    pub name: String,
    pub parent: String,
    pub hypothesis: String,
    pub reflection: String,
    pub files: Vec<(String, String)>,
}

/// The search's root directory and configuration.
pub struct MetaHarness {
    root: String,
    config: SearchConfig,
}

impl MetaHarness {
    pub closed spec fn root(&self) -> Seq<char> {
        self.root@
    }

    pub closed spec fn config(&self) -> SearchConfig {
        self.config
    }

    /// A harness over `root` (as displayed) with `config`.
    pub fn new(root: &str, config: SearchConfig) -> (r: Self)
        ensures
            r.root() == root@,
            r.config() == config,
    {
        MetaHarness { root: string_of(&chars_of(root)), config }
    }

    /// The configuration.
    pub fn config_ref(&self) -> (r: &SearchConfig)
        ensures
            *r == self.config(),
    {
        &self.config
    }

    /// A search needs search tasks and at least one trial per task.
    pub fn check_config(&self) -> (r: Result<(), MetaHarnessError>)
        ensures
            r is Ok <==> (self.config().search_tasks.len() > 0 && self.config().trials_per_task > 0),
            r matches Err(MetaHarnessError::Invalid(e)) ==> e@ == "search tasks and trials must be non-empty"@,
    {
        if self.config.search_tasks.len() == 0 || self.config.trials_per_task == 0 {
            return Err(MetaHarnessError::Invalid(string_of(&chars_of("search tasks and trials must be non-empty"))));
        }
        Ok(())
    }
}

/// Why a proposal is refused, if it is.
pub open spec fn proposal_error(name: Seq<char>, n_files: nat) -> Option<Seq<char>> {
    if trim(name).len() == 0 || n_files == 0 {
        Some("candidate needs a name and source files"@)
    } else if contains(name, "/"@) || contains(name, ".."@) {
        Some("candidate name escapes its iteration"@)
    } else {
        None
    }
}

/// A proposal needs a name and source files, and its name must not
/// escape its iteration directory.
pub fn validate_proposal(p: &CandidateProposal) -> (r: Result<(), String>)
    ensures
        match proposal_error(p.name@, p.files@.len()) {
            Some(e) => r matches Err(m) && m@ == e,
            None => r is Ok,
        },
{
    let nv = chars_of(p.name.as_str());
    let t = trim_chars(&nv);
    if t.len() == 0 || p.files.len() == 0 {
        return Err(string_of(&chars_of("candidate needs a name and source files")));
    }
    if contains_str(&nv, "/") || contains_str(&nv, "..") {
        return Err(string_of(&chars_of("candidate name escapes its iteration")));
    }
    Ok(())
}

/// A source path escapes the candidate when it is absolute or has a `..`
/// component.
pub open spec fn escapes(rel: Seq<char>) -> bool {
    (rel.len() > 0 && rel[0] == '/') || split_where(rel, char_pred('/')).contains(".."@)
}

/// Whether a relative path escapes the directory it is joined to.
pub fn escapes_exec(relative: &str) -> (r: bool)
    ensures
        r == escapes(relative@),
{
    let rv = chars_of(relative);
    let dd = chars_of("..");
    proof {
        reveal_strlit("..");
    }
    let mut bad = rv.len() > 0 && rv[0] == '/';
    if !bad {
        let segs = split_char(&rv, '/');
        let ghost sg = segs@.map_values(|x: Vec<char>| x@);
        let mut i: usize = 0;
        while i < segs.len() && !bad
            invariant
                i <= segs.len(),
                sg == segs@.map_values(|x: Vec<char>| x@),
                dd@ == ".."@,
                bad ==> sg.contains(".."@),
                !bad ==> forall|k: int| 0 <= k < i ==> sg[k] != ".."@,
            decreases segs.len() - i, (if bad { 0int } else { 1int }),
        {
            if crate::text::chars_eq(&segs[i], &dd) {
                assert(sg[i as int] == ".."@);
                bad = true;
            } else {
                assert(sg[i as int] == segs@[i as int]@);
                i += 1;
            }
        }
        proof {
            if !bad {
                assert(!sg.contains(".."@)) by {
                    if sg.contains(".."@) {
                        let k = choose|k: int| 0 <= k < sg.len() && sg[k] == ".."@;
                        assert(sg[k] != ".."@);
                    }
                }
            }
        }
    }
    bad
}

/// The candidate's file for a relative source path, refused when the path
/// would escape the candidate.
pub fn safe_source_path(root: &str, relative: &str) -> (r: Result<String, String>)
    ensures
        escapes(relative@) ==> (r matches Err(e) && e@ == "source path escapes candidate: "@ + relative@),
        !escapes(relative@) ==> (r matches Ok(p) && p@ == join_path(root@, relative@)),
{
    if escapes_exec(relative) {
        let mut t = chars_of("source path escapes candidate: ");
        extend_str(&mut t, relative);
        return Err(string_of(&t));
    }
    Ok(string_of(&crate::text::join_path_exec(root, relative)))
}

// ------------------------------------------------------------ layout ---

/// The largest iteration number among directory names (names that are no
/// `u32` are ignored), 0 when there is none.
pub open spec fn max_iteration(names: Seq<Seq<char>>) -> nat
    decreases names.len(),
{
    if names.len() == 0 {
        0
    } else {
        let rest = max_iteration(names.drop_last());
        match unsigned_text(names.last(), u32::MAX as nat) {
            Some(n) => if n > rest {
                n
            } else {
                rest
            },
            None => rest,
        }
    }
}

/// The next iteration of a search from the names under `iterations/`:
/// one past the largest numbered one.
pub fn next_iteration(names: &Vec<String>) -> (r: u32)
    requires
        max_iteration(strings_view(names@)) < u32::MAX,
    ensures
        r == max_iteration(strings_view(names@)) + 1,
{
    let ghost sv = strings_view(names@);
    let mut max: u32 = 0;
    let mut i: usize = 0;
    assert(sv.take(0) =~= Seq::<Seq<char>>::empty());
    while i < names.len()
        invariant
            i <= names.len(),
            sv == strings_view(names@),
            sv.len() == names.len(),
            max == max_iteration(sv.take(i as int)),
            max_iteration(sv) < u32::MAX,
        decreases names.len() - i,
    {
        assert(sv.take(i + 1).drop_last() =~= sv.take(i as int));
        assert(sv[i as int] == names@[i as int]@);
        match parse_unsigned(names[i].as_str(), 4_294_967_295u64) {
            Some(n) => {
                if n > max as u64 {
                    max = n as u32;
                }
            },
            None => {},
        }
        i += 1;
    }
    assert(sv.take(names.len() as int) =~= sv);
    max + 1
}

/// A number written with at least four digits, zero-padded (`{:04}`).
pub open spec fn pad4(n: nat) -> Seq<char> {
    let d = dec(n);
    if d.len() < 4 {
        Seq::new((4 - d.len()) as nat, |i: int| '0') + d
    } else {
        d
    }
}

fn push_pad4(acc: &mut Vec<char>, n: u32)
    ensures
        final(acc)@ == old(acc)@ + pad4(n as nat),
{
    let d = dec_u64(n as u64);
    let mut k: usize = d.len();
    let ghost start = acc@;
    while k < 4
        invariant
            d.len() <= k <= 4 || (d.len() >= 4 && k == d.len()),
            acc@ == start + Seq::new((k - d.len()) as nat, |i: int| '0'),
        decreases 4 - k,
    {
        acc.push('0');
        assert(Seq::new((k + 1 - d.len()) as nat, |i: int| '0') =~= Seq::new((k - d.len()) as nat, |i: int| '0').push('0'));
        k += 1;
    }
    proof {
        if d.len() >= 4 {
            assert(Seq::new(0nat, |i: int| '0') =~= Seq::<char>::empty());
            assert(acc@ =~= start);
        }
    }
    extend_chars(acc, &d);
}

/// A candidate's directory under the search root:
/// `iterations/<iteration, four digits>/candidates/<name>`.
pub open spec fn candidate_root_spec(iteration: nat, name: Seq<char>) -> Seq<char> {
    "iterations/"@ + pad4(iteration) + "/candidates/"@ + name
}

pub fn candidate_root(iteration: u32, name: &str) -> (r: String)
    ensures
        r@ == candidate_root_spec(iteration as nat, name@),
{
    let mut acc = chars_of("iterations/");
    push_pad4(&mut acc, iteration);
    extend_str(&mut acc, "/candidates/");
    extend_str(&mut acc, name);
    string_of(&acc)
}

/// One trial's directory under its candidate: `trials/<task>/<trial,
/// four digits>`.
pub open spec fn trial_root_spec(task: Seq<char>, trial: nat) -> Seq<char> {
    "trials/"@ + task + "/"@ + pad4(trial)
}

pub fn trial_root(task: &str, trial: u32) -> (r: String)
    ensures
        r@ == trial_root_spec(task@, trial as nat),
{
    let mut acc = chars_of("trials/");
    extend_str(&mut acc, task);
    extend_str(&mut acc, "/");
    push_pad4(&mut acc, trial);
    string_of(&acc)
}

} // verus!
