//! Command-line and prompt-text helpers of the loop's binaries: flag
//! lookup, the REPL's options, and what the scripted test model reads out
//! of an operator prompt (the answer path, whether an answer is already
//! on disk).
use vstd::prelude::*;
use crate::text::{
    parse_unsigned, unsigned_text, chars_of, find, find_char_from, find_char_from_exec, find_exec, find_from, slice_chars,
    starts_with, starts_with_str, string_of, trim, trim_chars,
};

verus! {

broadcast use vstd::string::group_string_axioms;

/// The first index at or after `i` holding `name`.
pub open spec fn flag_index(args: Seq<Seq<char>>, name: Seq<char>, i: int) -> Option<int>
    decreases args.len() - i,
{
    if i < 0 || i >= args.len() {
        None
    } else if args[i] == name {
        Some(i)
    } else {
        flag_index(args, name, i + 1)
    }
}

pub open spec fn arg_views(args: Seq<String>) -> Seq<Seq<char>> {
    args.map_values(|a: String| a@)
}

/// The value after the first occurrence of `name` (none when `name` is
/// missing or last).
pub open spec fn arg_spec(args: Seq<Seq<char>>, name: Seq<char>) -> Option<Seq<char>> {
    match flag_index(args, name, 0) {
        Some(i) => if i + 1 < args.len() {
            Some(args[i + 1])
        } else {
            None
        },
        None => None,
    }
}

fn flag_position(args: &Vec<String>, name: &str) -> (r: Option<usize>)
    ensures
        r matches Some(i) ==> i < args.len(),
        match r {
            Some(i) => flag_index(arg_views(args@), name@, 0) == Some(i as int),
            None => flag_index(arg_views(args@), name@, 0) is None,
        },
{
    let ghost av = arg_views(args@);
    let mut i: usize = 0;
    while i < args.len()
        invariant
            i <= args.len(),
            av == arg_views(args@),
            flag_index(av, name@, 0) == flag_index(av, name@, i as int),
        decreases args.len() - i,
    {
        assert(av[i as int] == args@[i as int]@);
        if crate::text::str_eq(args[i].as_str(), name) {
            return Some(i);
        }
        i += 1;
    }
    None
}

/// The value following flag `name`.
pub fn arg(args: &Vec<String>, name: &str) -> (r: Option<String>)
    ensures
        match r {
            Some(v) => arg_spec(arg_views(args@), name@) == Some(v@),
            None => arg_spec(arg_views(args@), name@) is None,
        },
{
    match flag_position(args, name) {
        Some(i) => if i + 1 < args.len() {
            Some(args[i + 1].clone())
        } else {
            None
        },
        None => None,
    }
}

/// Whether flag `flag` is present.
pub fn has_flag(args: &Vec<String>, flag: &str) -> (r: bool)
    ensures
        r == (flag_index(arg_views(args@), flag@, 0) is Some),
{
    flag_position(args, flag).is_some()
}

/// `--resume`: the stream id that follows it, or empty (open the picker)
/// when it is bare or followed by another flag.
pub open spec fn resume_spec(args: Seq<Seq<char>>) -> Option<Seq<char>> {
    match flag_index(args, "--resume"@, 0) {
        Some(i) => if i + 1 < args.len() && !starts_with(args[i + 1], "--"@) {
            Some(args[i + 1])
        } else {
            Some(Seq::empty())
        },
        None => None,
    }
}

pub fn resume_arg(args: &Vec<String>) -> (r: Option<String>)
    ensures
        match r {
            Some(v) => resume_spec(arg_views(args@)) == Some(v@),
            None => resume_spec(arg_views(args@)) is None,
        },
{
    match flag_position(args, "--resume") {
        Some(i) => {
            if i + 1 < args.len() {
                let next = chars_of(args[i + 1].as_str());
                if !starts_with_str(&next, "--") {
                    return Some(args[i + 1].clone());
                }
            }
            Some(String::new())
        },
        None => None,
    }
}

/// What `str::parse::<u64>` gives for a text.
pub open spec fn parsed_u64(s: Seq<char>) -> Option<u64> {
    match unsigned_text(s, u64::MAX as nat) {
        Some(n) => Some(n as u64),
        None => None,
    }
}

/// `str::parse::<u64>`, the error dropped.
pub(crate) fn parse_u64(s: &str) -> (r: Option<u64>)
    ensures
        r == parsed_u64(s@),
{
    parse_unsigned(s, u64::MAX)
}

/// What `str::parse::<u32>` gives for a text.
pub open spec fn parsed_u32(s: Seq<char>) -> Option<u32> {
    match unsigned_text(s, u32::MAX as nat) {
        Some(n) => Some(n as u32),
        None => None,
    }
}

/// `str::parse::<u32>`, the error dropped.
fn parse_u32(s: &str) -> (r: Option<u32>)
    ensures
        r == parsed_u32(s@),
{
    match parse_unsigned(s, 4_294_967_295u64) {
        Some(n) => Some(n as u32),
        None => None,
    }
}

/// The REPL's options. `config` and `dir` are resolved paths.
pub struct Opts {
    pub config: String,
    pub dir: String,
    pub feedback: bool,
    pub max_steps: Option<u32>,
    pub budget_micros: Option<u64>,
    pub wall_secs: Option<u64>,
    pub steering_inbox: Option<String>,
    pub task_inbox: Option<String>,
    pub interrupt_file: Option<String>,
    pub resume: Option<String>,
    pub fork: Option<String>,
    pub project_dir: Option<String>,
}

pub open spec fn opt_view(o: Option<String>) -> Option<Seq<char>> {
    match o {
        Some(s) => Some(s@),
        None => None,
    }
}

/// An optional number flag: absent is `None`, present must parse.
fn number_flag_u64(args: &Vec<String>, name: &str, msg: &str) -> (r: Result<Option<u64>, String>)
    ensures
        match arg_spec(arg_views(args@), name@) {
            None => r == Ok::<Option<u64>, String>(None),
            Some(v) => match parsed_u64(v) {
                Some(n) => r == Ok::<Option<u64>, String>(Some(n)),
                None => r matches Err(e) && e@ == msg@,
            },
        },
{
    match arg(args, name) {
        None => Ok(None),
        Some(v) => match parse_u64(v.as_str()) {
            Some(n) => Ok(Some(n)),
            None => Err(string_of(&chars_of(msg))),
        },
    }
}

/// The first number flag that is present but does not parse, in the
/// order the options are read, as its error.
pub open spec fn opts_error(args: Seq<Seq<char>>) -> Option<Seq<char>> {
    if arg_spec(args, "--max-steps"@) matches Some(v) && parsed_u32(v) is None {
        Some("--max-steps must be an integer"@)
    } else if arg_spec(args, "--budget-micros"@) matches Some(v) && parsed_u64(v) is None {
        Some("--budget-micros must be an integer"@)
    } else if arg_spec(args, "--wall-secs"@) matches Some(v) && parsed_u64(v) is None {
        Some("--wall-secs must be an integer"@)
    } else {
        None
    }
}

/// The REPL's options from its arguments; `config` and `dir` are the
/// already resolved paths. A number flag that does not parse is an error
/// naming it.
pub fn parse_opts(args: &Vec<String>, config: String, dir: String) -> (r: Result<Opts, String>)
    ensures
        match r {
            Ok(o) => {
                &&& o.config == config
                &&& o.dir == dir
                &&& o.feedback == (arg_spec(arg_views(args@), "--feedback"@) == Some("on"@))
                &&& (match arg_spec(arg_views(args@), "--max-steps"@) {
                    None => o.max_steps is None,
                    Some(v) => o.max_steps == parsed_u32(v) && parsed_u32(v) is Some,
                })
                &&& (match arg_spec(arg_views(args@), "--budget-micros"@) {
                    None => o.budget_micros is None,
                    Some(v) => o.budget_micros == parsed_u64(v) && parsed_u64(v) is Some,
                })
                &&& (match arg_spec(arg_views(args@), "--wall-secs"@) {
                    None => o.wall_secs is None,
                    Some(v) => o.wall_secs == parsed_u64(v) && parsed_u64(v) is Some,
                })
                &&& opt_view(o.project_dir) == arg_spec(arg_views(args@), "--project-dir"@)
                &&& opt_view(o.steering_inbox) == arg_spec(arg_views(args@), "--steering-inbox"@)
                &&& opt_view(o.task_inbox) == arg_spec(arg_views(args@), "--task-inbox"@)
                &&& opt_view(o.interrupt_file) == arg_spec(arg_views(args@), "--interrupt-file"@)
                &&& opt_view(o.resume) == resume_spec(arg_views(args@))
                &&& opt_view(o.fork) == arg_spec(arg_views(args@), "--fork"@)
            },
            Err(e) => opts_error(arg_views(args@)) == Some(e@),
        },
        opts_error(arg_views(args@)) is Some ==> r is Err,
{
    let feedback = match arg(args, "--feedback") {
        Some(v) => crate::text::str_eq(v.as_str(), "on"),
        None => false,
    };
    let max_steps = match arg(args, "--max-steps") {
        None => None,
        Some(v) => match parse_u32(v.as_str()) {
            Some(n) => Some(n),
            None => return Err(string_of(&chars_of("--max-steps must be an integer"))),
        },
    };
    let budget_micros = number_flag_u64(args, "--budget-micros", "--budget-micros must be an integer")?;
    let wall_secs = number_flag_u64(args, "--wall-secs", "--wall-secs must be an integer")?;
    Ok(
        Opts {
            config,
            dir,
            feedback,
            max_steps,
            budget_micros,
            wall_secs,
            project_dir: arg(args, "--project-dir"),
            steering_inbox: arg(args, "--steering-inbox"),
            task_inbox: arg(args, "--task-inbox"),
            interrupt_file: arg(args, "--interrupt-file"),
            resume: resume_arg(args),
            fork: arg(args, "--fork"),
        },
    )
}

// ------------------------------------------------------- prompt reads ---

/// The `ANSWER_PATH` value out of an operator prompt: the trimmed rest of
/// the line after the first `ANSWER_PATH: `, when not empty.
pub open spec fn answer_path_spec(prompt: Seq<char>) -> Option<Seq<char>> {
    match find(prompt, "ANSWER_PATH: "@) {
        None => None,
        Some(i) => {
            let rest = prompt.skip(i + 13);
            let end = match find_char_from(rest, '\n', 0) {
                Some(e) => e,
                None => rest.len() as int,
            };
            let p = trim(rest.take(end));
            if p.len() == 0 {
                None
            } else {
                Some(p)
            }
        },
    }
}

pub fn extract_answer_path(prompt: &str) -> (r: Option<String>)
    ensures
        match r {
            Some(p) => answer_path_spec(prompt@) == Some(p@),
            None => answer_path_spec(prompt@) is None,
        },
{
    let v = chars_of(prompt);
    let pat = chars_of("ANSWER_PATH: ");
    proof {
        reveal_strlit("ANSWER_PATH: ");
    }
    let i = match find_exec(&v, &pat) {
        Some(i) => i,
        None => return None,
    };
    proof {
        crate::text::lemma_find_from_some(v@, pat@, 0);
        assert(pat@.len() == 13);
        assert(find_from(v@, pat@, 0) == Some(i as int));
        assert(crate::text::match_at(v@, pat@, i as int));
        assert(i + 13 <= v@.len());
    }
    let rest = slice_chars(&v, i + 13, v.len());
    assert(rest@ =~= prompt@.skip(i + 13));
    let end = match find_char_from_exec(&rest, '\n', 0) {
        Some(e) => {
            proof {
                crate::text::lemma_find_char_from_some(rest@, '\n', 0);
            }
            e
        },
        None => rest.len(),
    };
    let head = slice_chars(&rest, 0, end);
    assert(head@ =~= rest@.take(end as int));
    let p = trim_chars(&head);
    if p.len() == 0 {
        None
    } else {
        Some(string_of(&p))
    }
}

/// The end of the ARTIFACT body: the first of the section markers that
/// occurs (tried in order), else the end.
pub open spec fn body_end(body: Seq<char>) -> int {
    match find(body, "\nFEEDBACK"@) {
        Some(e) => e,
        None => match find(body, "\nLEDGER"@) {
            Some(e) => e,
            None => match find(body, "\nMEMORY"@) {
                Some(e) => e,
                None => match find(body, "\nATTEMPT"@) {
                    Some(e) => e,
                    None => body.len() as int,
                },
            },
        },
    }
}

/// Whether the prompt's ARTIFACT block already shows a written answer:
/// its body (after the header's `):` line, up to the next section) is
/// neither empty nor `<none>`.
pub open spec fn artifact_on_disk_spec(prompt: Seq<char>) -> bool {
    match find(prompt, "ARTIFACT"@) {
        None => false,
        Some(i) => {
            let after = prompt.skip(i);
            match find(after, "):\n"@) {
                None => false,
                Some(j) => {
                    let body = after.skip(j + 3);
                    let b = trim(body.take(body_end(body)));
                    b.len() > 0 && b != "<none>"@
                },
            }
        },
    }
}

/// The first of the markers found in `body`, tried in order.
fn body_end_exec(body: &Vec<char>) -> (r: usize)
    ensures
        r == body_end(body@),
        r <= body.len(),
{
    let m0 = chars_of("\nFEEDBACK");
    if let Some(e) = find_exec(body, &m0) {
        proof {
            crate::text::lemma_find_from_some(body@, m0@, 0);
        }
        return e;
    }
    let m1 = chars_of("\nLEDGER");
    if let Some(e) = find_exec(body, &m1) {
        proof {
            crate::text::lemma_find_from_some(body@, m1@, 0);
        }
        return e;
    }
    let m2 = chars_of("\nMEMORY");
    if let Some(e) = find_exec(body, &m2) {
        proof {
            crate::text::lemma_find_from_some(body@, m2@, 0);
        }
        return e;
    }
    let m3 = chars_of("\nATTEMPT");
    if let Some(e) = find_exec(body, &m3) {
        proof {
            crate::text::lemma_find_from_some(body@, m3@, 0);
        }
        return e;
    }
    body.len()
}

pub fn artifact_on_disk(prompt: &str) -> (r: bool)
    ensures
        r == artifact_on_disk_spec(prompt@),
{
    let v = chars_of(prompt);
    let i = match find_exec(&v, &chars_of("ARTIFACT")) {
        Some(i) => i,
        None => return false,
    };
    proof {
        crate::text::lemma_find_from_some(v@, "ARTIFACT"@, 0);
    }
    let after = slice_chars(&v, i, v.len());
    assert(after@ =~= prompt@.skip(i as int));
    let pat = chars_of("):\n");
    proof {
        reveal_strlit("):\n");
    }
    let j = match find_exec(&after, &pat) {
        Some(j) => j,
        None => return false,
    };
    proof {
        crate::text::lemma_find_from_some(after@, pat@, 0);
    }
    let body = slice_chars(&after, j + 3, after.len());
    assert(body@ =~= after@.skip(j + 3));
    let end = body_end_exec(&body);
    let head = slice_chars(&body, 0, end);
    assert(head@ =~= body@.take(end as int));
    let b = trim_chars(&head);
    b.len() > 0 && !crate::text::eq_str(&b, "<none>")
}

/// A flag's path, or the default file of that name in the session dir.
pub open spec fn channel_path(flag: Option<Seq<char>>, dir: Seq<char>, default_name: Seq<char>) -> Seq<char> {
    match flag {
        Some(p) => p,
        None => crate::text::join_path(dir, default_name),
    }
}

fn channel_path_exec(flag: &Option<String>, dir: &str, default_name: &str) -> (r: String)
    ensures
        r@ == channel_path(opt_view(*flag), dir@, default_name@),
{
    match flag {
        Some(p) => string_of(&chars_of(p.as_str())),
        None => string_of(&crate::text::join_path_exec(dir, default_name)),
    }
}

/// The operator channels every mission carries: the steering inbox, the
/// interrupt file and the task inbox - the flags' paths, else
/// `steering.txt`, `interrupt` and `tasks.txt` in the session dir.
pub fn operator_channels(opts: &Opts) -> (r: (String, String, String))
    ensures
        r.0@ == channel_path(opt_view(opts.steering_inbox), opts.dir@, "steering.txt"@),
        r.1@ == channel_path(opt_view(opts.interrupt_file), opts.dir@, "interrupt"@),
        r.2@ == channel_path(opt_view(opts.task_inbox), opts.dir@, "tasks.txt"@),
{
    (
        channel_path_exec(&opts.steering_inbox, opts.dir.as_str(), "steering.txt"),
        channel_path_exec(&opts.interrupt_file, opts.dir.as_str(), "interrupt"),
        channel_path_exec(&opts.task_inbox, opts.dir.as_str(), "tasks.txt"),
    )
}

} // verus!
