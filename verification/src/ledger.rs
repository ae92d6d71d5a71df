//! The execution ledger: a read model over a mission's tool calls, updated
//! per call. Its bounded summary is always part of the prompt; an exact
//! duplicate (tool, args) call is found against the recent-call window with
//! its prior seq, and repeated whitespace-equivalent calls are detected as a
//! doom loop.
use vstd::prelude::*;
use std::collections::VecDeque;
use crate::json::{
    as_array, as_bool, as_i64, as_str, as_u64, get, get_array, get_bool, get_i64, get_str,
    get_u64, norm, normalized, render, rendered, str_lt, Json,
};
use crate::text::{
    byte_len, byte_len_exceeds, floor_boundary, lemma_byte_len_concat, truncate_floor, chars_eq, chars_of, dec, extend_chars, extend_str, find,
    join, join_exec, last_chars, lines, lines_exec, push_dec, slice_chars, string_of, take_chars,
    trim, trim_chars, words, words_exec,
};

verus! {

broadcast use vstd::std_specs::vecdeque::group_vec_dequeue_axioms;

/// Hard cap on the rendered summary, in bytes (about 2k tokens).
pub const LEDGER_SUMMARY_CHARS: usize = 8000;

pub const LAST_CALLS_CAP: usize = 512;
pub const RANGES_PER_FILE_STORED: usize = 16;
pub const RANGES_PER_FILE_SHOWN: usize = 3;
pub const EDITS_SHOWN: usize = 10;
pub const TESTS_SHOWN: usize = 10;
pub const OPEN_SHOWN: usize = 5;

/// One remembered call: (plugin, compact args text, normalized args, seq).
pub type CallRecord = (String, String, String, u64);

pub struct Ledger {
    /// Read line ranges per file, files in ascending path order.
    files_read: Vec<(String, Vec<(u32, u32)>)>,
    edits: Vec<(u64, String)>,
    test_runs: Vec<(u64, String, bool, String)>,
    /// seq watermark of the last verifier-mandated workspace restore.
    restored_before: Option<u64>,
    open_threads: Vec<String>,
    last_calls: VecDeque<CallRecord>,
    /// The model has run something itself (a repo.exec run); the
    /// harness checker's runs never set it.
    model_ran: bool,
}

/// The ledger's abstract state.
pub struct LedgerView {
    pub files_read: Seq<(Seq<char>, Seq<(u32, u32)>)>,
    pub edits: Seq<(u64, Seq<char>)>,
    pub test_runs: Seq<(u64, Seq<char>, bool, Seq<char>)>,
    pub restored_before: Option<u64>,
    pub open_threads: Seq<Seq<char>>,
    pub last_calls: Seq<(Seq<char>, Seq<char>, Seq<char>, u64)>,
    pub model_ran: bool,
}

impl View for Ledger {
    type V = LedgerView;

    closed spec fn view(&self) -> LedgerView {
        LedgerView {
            files_read: self.files_read@.map_values(
                |f: (String, Vec<(u32, u32)>)| (f.0@, f.1@),
            ),
            edits: self.edits@.map_values(|e: (u64, String)| (e.0, e.1@)),
            test_runs: self.test_runs@.map_values(
                |t: (u64, String, bool, String)| (t.0, t.1@, t.2, t.3@),
            ),
            restored_before: self.restored_before,
            open_threads: self.open_threads@.map_values(|t: String| t@),
            last_calls: self.last_calls@.map_values(|c: CallRecord| (c.0@, c.1@, c.2@, c.3)),
            model_ran: self.model_ran,
        }
    }
}

// ------------------------------------------------------------ model ---

/// The ledger's invariant: paths ascending, bounded stores.
pub open spec fn ledger_wf(v: LedgerView) -> bool {
    &&& forall|i: int, j: int|
        0 <= i < j < v.files_read.len() ==> str_lt(v.files_read[i].0, v.files_read[j].0)
    &&& forall|i: int|
        0 <= i < v.files_read.len() ==> #[trigger] v.files_read[i].1.len()
            <= RANGES_PER_FILE_STORED
    &&& v.last_calls.len() <= LAST_CALLS_CAP
    &&& v.open_threads.len() <= OPEN_SHOWN
}

pub open spec fn empty_view() -> LedgerView {
    LedgerView {
        files_read: Seq::empty(),
        edits: Seq::empty(),
        test_runs: Seq::empty(),
        restored_before: None,
        open_threads: Seq::empty(),
        last_calls: Seq::empty(),
        model_ran: false,
    }
}

/// Two ranges touch or overlap (`hi + 1` computed without wrapping).
pub open spec fn touches(r: (u32, u32), lo: u32, hi: u32) -> bool {
    lo <= r.1 + 1 && hi + 1 >= r.0
}

/// First stored range that `lo..=hi` touches.
pub open spec fn first_touch(rs: Seq<(u32, u32)>, lo: u32, hi: u32, i: int) -> Option<int>
    decreases rs.len() - i,
{
    if i < 0 || i >= rs.len() {
        None
    } else if touches(rs[i], lo, hi) {
        Some(i)
    } else {
        first_touch(rs, lo, hi, i + 1)
    }
}

pub open spec fn min_u32(a: u32, b: u32) -> u32 {
    if a <= b { a } else { b }
}

pub open spec fn max_u32(a: u32, b: u32) -> u32 {
    if a >= b { a } else { b }
}

/// Fold `lo..=hi` into the ranges: widen the first touching range, else
/// append while fewer than the stored cap.
pub open spec fn merge_range_spec(rs: Seq<(u32, u32)>, lo: u32, hi: u32) -> Seq<(u32, u32)> {
    match first_touch(rs, lo, hi, 0) {
        Some(i) => rs.update(i, (min_u32(rs[i].0, lo), max_u32(rs[i].1, hi))),
        None => if rs.len() < RANGES_PER_FILE_STORED {
            rs.push((lo, hi))
        } else {
            rs
        },
    }
}

/// Index of `path` among the files, or where it would be inserted.
pub open spec fn file_slot(fs: Seq<(Seq<char>, Seq<(u32, u32)>)>, path: Seq<char>) -> int
    decreases fs.len(),
{
    if fs.len() == 0 {
        0
    } else if str_lt(fs.last().0, path) {
        fs.len() as int
    } else {
        file_slot(fs.drop_last(), path)
    }
}

/// Record a read of `lo..=hi` of `path`.
pub open spec fn note_read(
    fs: Seq<(Seq<char>, Seq<(u32, u32)>)>,
    path: Seq<char>,
    lo: u32,
    hi: u32,
) -> Seq<(Seq<char>, Seq<(u32, u32)>)> {
    let k = file_slot(fs, path);
    if 0 <= k < fs.len() && fs[k].0 == path {
        fs.update(k, (path, merge_range_spec(fs[k].1, lo, hi)))
    } else {
        fs.insert(k, (path, seq![(lo, hi)]))
    }
}

/// `a.saturating_add(b)` on `u32`.
pub open spec fn sat_add_u32(a: u32, b: u32) -> u32 {
    if a + b > u32::MAX { u32::MAX } else { (a + b) as u32 }
}

/// `a.saturating_sub(1)` on `u32`.
pub open spec fn sat_dec_u32(a: u32) -> u32 {
    if a == 0 { 0 } else { (a - 1) as u32 }
}

/// The string members of a JSON array, in order (`filter_map(as_str)`).
pub open spec fn string_items(a: Seq<Json>) -> Seq<Seq<char>>
    decreases a.len(),
{
    if a.len() == 0 {
        Seq::empty()
    } else {
        string_items(a.drop_last()) + match as_str(a.last()) {
            Some(s) => seq![s],
            None => Seq::empty(),
        }
    }
}

/// The whitespace-collapsed last 160 characters of the run's stdout.
pub open spec fn output_tail_spec(result: Json) -> Seq<char> {
    let out = match as_str(get(result, "stdout"@)) {
        Some(s) => s,
        None => Seq::empty(),
    };
    last_chars(join(words(out), seq![' ']), 160)
}

/// First line of `s` that is not blank.
pub open spec fn first_nonblank_line(ls: Seq<Seq<char>>, i: int) -> Option<Seq<char>>
    decreases ls.len() - i,
{
    if i < 0 || i >= ls.len() {
        None
    } else if trim(ls[i]).len() > 0 {
        Some(ls[i])
    } else {
        first_nonblank_line(ls, i + 1)
    }
}

/// The per-plugin effect of one call on the read-model parts.
pub open spec fn fold_call(
    v: LedgerView,
    seq: u64,
    plugin: Seq<char>,
    args: Json,
    result: Json,
) -> LedgerView {
    if plugin == "repo.read"@ {
        match as_str(get(args, "path"@)) {
            Some(p) => {
                let lo = (match as_u64(get(args, "start_line"@)) {
                    Some(x) => x,
                    None => 1,
                }) as u32;
                let n = (match as_u64(get(args, "max_lines"@)) {
                    Some(x) => x,
                    None => 400,
                }) as u32;
                LedgerView {
                    files_read: note_read(v.files_read, p, lo, sat_dec_u32(sat_add_u32(lo, n))),
                    ..v
                }
            },
            None => v,
        }
    } else if plugin == "edit.apply"@ {
        if as_bool(get(result, "applied"@)) == Some(true) && as_array(get(result, "files_changed"@))
            is Some {
            let fs = string_items(as_array(get(result, "files_changed"@))->0);
            LedgerView { edits: v.edits + fs.map_values(|f: Seq<char>| (seq, f)), ..v }
        } else {
            v
        }
    } else if plugin == "answer.write"@ {
        match as_str(get(args, "path"@)) {
            Some(p) => LedgerView { edits: v.edits.push((seq, p)), ..v },
            None => v,
        }
    } else if plugin == "repo.exec"@ {
        if as_bool(get(result, "applied"@)) == Some(true) {
            let cmd = take_chars(
                match as_str(get(args, "command"@)) {
                    Some(c) => c,
                    None => Seq::empty(),
                },
                60,
            );
            let ok = as_i64(get(result, "exit_code"@)) == Some(0i64);
            LedgerView {
                test_runs: v.test_runs.push((seq, cmd, ok, output_tail_spec(result))),
                model_ran: true,
                ..v
            }
        } else {
            v
        }
    } else if plugin == "checker.run"@ {
        let ok = as_bool(get(result, "passed"@)) == Some(true);
        LedgerView { test_runs: v.test_runs.push((seq, "checker"@, ok, Seq::empty())), ..v }
    } else if plugin == "notes.scratch"@ {
        let op = as_str(get(args, "op"@));
        if op == Some("write"@) || op == Some("append"@) {
            match as_str(get(args, "content"@)) {
                Some(c) => match first_nonblank_line(lines(c), 0) {
                    Some(l) => {
                        let t = v.open_threads.push(take_chars(l, 80));
                        LedgerView {
                            open_threads: if t.len() > OPEN_SHOWN { t.drop_first() } else { t },
                            ..v
                        }
                    },
                    None => v,
                },
                None => v,
            }
        } else {
            v
        }
    } else {
        v
    }
}

/// The ledger after folding in one call: the call is remembered (the
/// oldest forgotten at the cap) and its plugin-specific facts recorded.
pub open spec fn apply_spec(
    v: LedgerView,
    seq: u64,
    plugin: Seq<char>,
    args: Json,
    result: Json,
) -> LedgerView {
    let calls = if v.last_calls.len() >= LAST_CALLS_CAP {
        v.last_calls.drop_first()
    } else {
        v.last_calls
    };
    fold_call(
        LedgerView { last_calls: calls.push((plugin, render(args), norm(args), seq)), ..v },
        seq,
        plugin,
        args,
        result,
    )
}

/// The model itself ran something: a repo.exec run was recorded (the
/// harness checker's runs are recorded too but never count).
pub open spec fn model_verified_spec(v: LedgerView) -> bool {
    v.model_ran
}

/// Latest remembered call seq, 0 when none.
pub open spec fn last_seq_spec(v: LedgerView) -> u64 {
    if v.last_calls.len() == 0 {
        0
    } else {
        v.last_calls.last().3
    }
}

/// Latest remembered call with this plugin and exactly this args text.
pub open spec fn find_duplicate_spec(
    calls: Seq<(Seq<char>, Seq<char>, Seq<char>, u64)>,
    plugin: Seq<char>,
    text: Seq<char>,
) -> Option<u64>
    decreases calls.len(),
{
    if calls.len() == 0 {
        None
    } else if calls.last().0 == plugin && calls.last().1 == text {
        Some(calls.last().3)
    } else {
        find_duplicate_spec(calls.drop_last(), plugin, text)
    }
}

/// Calls in `calls[lo..hi]` with the same plugin and normalized args as `c`.
pub open spec fn count_same(
    calls: Seq<(Seq<char>, Seq<char>, Seq<char>, u64)>,
    lo: int,
    hi: int,
    c: (Seq<char>, Seq<char>, Seq<char>, u64),
) -> nat
    decreases hi - lo,
{
    if hi <= lo {
        0
    } else {
        count_same(calls, lo, hi - 1, c) + (if calls[hi - 1].0 == c.0 && calls[hi - 1].2 == c.2 {
            1nat
        } else {
            0nat
        })
    }
}

/// First index of the window `lo..hi` reaching the window's largest group
/// count among those from `i`, given as (index, count).
pub open spec fn best_group(
    calls: Seq<(Seq<char>, Seq<char>, Seq<char>, u64)>,
    lo: int,
    hi: int,
    i: int,
) -> (int, nat)
    decreases hi - i,
{
    if i >= hi - 1 {
        (i, count_same(calls, lo, hi, calls[i]))
    } else {
        let rest = best_group(calls, lo, hi, i + 1);
        let c = count_same(calls, lo, hi, calls[i]);
        if c >= rest.1 {
            (i, c)
        } else {
            rest
        }
    }
}

/// Doom-loop verdict over the last `window` calls: the largest group of
/// calls sharing (plugin, normalized args), earliest group first on ties,
/// when its size reaches `threshold`.
pub open spec fn doom_spec(
    calls: Seq<(Seq<char>, Seq<char>, Seq<char>, u64)>,
    window: nat,
    threshold: nat,
) -> Option<(Seq<char>, nat)> {
    let hi = calls.len() as int;
    let lo = if window >= hi { 0 } else { hi - window };
    if lo >= hi {
        None
    } else {
        let b = best_group(calls, lo, hi, lo);
        if b.1 >= threshold {
            Some((calls[b.0].0, b.1))
        } else {
            None
        }
    }
}

// -------------------------------------------------------- summary model ---

pub open spec fn range_text(r: (u32, u32)) -> Seq<char> {
    seq!['L'] + dec(r.0 as nat) + seq!['-'] + dec(r.1 as nat)
}

/// `path:L1-9,L20-30+2; ` for one file.
pub open spec fn file_entry(f: (Seq<char>, Seq<(u32, u32)>)) -> Seq<char> {
    let shown = take_ranges(f.1);
    f.0 + seq![':'] + join(shown.map_values(|r: (u32, u32)| range_text(r)), seq![','])
        + (if f.1.len() > RANGES_PER_FILE_SHOWN {
        seq!['+'] + dec((f.1.len() - RANGES_PER_FILE_SHOWN) as nat)
    } else {
        Seq::empty()
    }) + seq![';', ' ']
}

pub open spec fn take_ranges(rs: Seq<(u32, u32)>) -> Seq<(u32, u32)> {
    if rs.len() <= RANGES_PER_FILE_SHOWN {
        rs
    } else {
        rs.take(RANGES_PER_FILE_SHOWN as int)
    }
}

/// Newest-path-first file entries while the text stays within half the
/// cap and fewer than 30 files are shown: (text, files shown).
pub open spec fn reads_fold(
    fs: Seq<(Seq<char>, Seq<(u32, u32)>)>,
    i: int,
    acc: Seq<char>,
    shown: nat,
) -> (Seq<char>, nat)
    decreases i,
{
    if i <= 0 || byte_len(acc) > LEDGER_SUMMARY_CHARS / 2 || shown >= 30 {
        (acc, shown)
    } else {
        reads_fold(fs, i - 1, acc + file_entry(fs[i - 1]), shown + 1)
    }
}

pub open spec fn reads_section(fs: Seq<(Seq<char>, Seq<(u32, u32)>)>) -> Seq<char> {
    if fs.len() == 0 {
        Seq::empty()
    } else {
        let r = reads_fold(fs, fs.len() as int, "reads: "@, 0);
        r.0 + (if fs.len() > r.1 {
            "(+"@ + dec((fs.len() - r.1) as nat) + " more files) "@
        } else {
            Seq::empty()
        }) + seq!['\n']
    }
}

/// The newest `n` items of `s`, oldest first.
pub open spec fn newest<T>(s: Seq<T>, n: nat) -> Seq<T> {
    if s.len() <= n {
        s
    } else {
        s.skip(s.len() - n)
    }
}

pub open spec fn edits_text(es: Seq<(u64, Seq<char>)>) -> Seq<char>
    decreases es.len(),
{
    if es.len() == 0 {
        Seq::empty()
    } else {
        edits_text(es.drop_last()) + es.last().1 + "@seq"@ + dec(es.last().0 as nat) + seq![';', ' ']
    }
}

pub open spec fn edits_section(es: Seq<(u64, Seq<char>)>) -> Seq<char> {
    if es.len() == 0 {
        Seq::empty()
    } else {
        "edits: "@ + edits_text(newest(es, EDITS_SHOWN as nat)) + seq!['\n']
    }
}

/// A rendered run up to its seq number: where the pre-restore marker goes.
pub open spec fn run_head(t: (u64, Seq<char>, bool, Seq<char>)) -> Seq<char> {
    seq!['"'] + t.1 + seq!['"', ' '] + (if t.2 { "PASS"@ } else { "FAIL"@ }) + "@seq"@ + dec(t.0 as nat)
}

pub open spec fn run_text(t: (u64, Seq<char>, bool, Seq<char>), restored: Option<u64>) -> Seq<char> {
    seq!['"'] + t.1 + seq!['"', ' '] + (if t.2 { "PASS"@ } else { "FAIL"@ }) + "@seq"@ + dec(
        t.0 as nat,
    ) + (if restored is Some && t.0 <= restored->0 {
        "(pre-restore)"@
    } else {
        Seq::empty()
    }) + (if t.3.len() == 0 {
        Seq::empty()
    } else {
        seq![' ', '['] + t.3 + seq![']']
    }) + seq![';', ' ']
}

pub open spec fn runs_text(ts: Seq<(u64, Seq<char>, bool, Seq<char>)>, restored: Option<u64>) -> Seq<
    char,
>
    decreases ts.len(),
{
    if ts.len() == 0 {
        Seq::empty()
    } else {
        runs_text(ts.drop_last(), restored) + run_text(ts.last(), restored)
    }
}

pub open spec fn tests_section(v: LedgerView) -> Seq<char> {
    if v.test_runs.len() == 0 {
        Seq::empty()
    } else {
        "tests: "@ + runs_text(newest(v.test_runs, TESTS_SHOWN as nat), v.restored_before) + seq![
            '\n',
        ]
    }
}

pub open spec fn no_test_note(v: LedgerView) -> Seq<char> {
    if !model_verified_spec(v) && (v.files_read.len() > 0 || v.edits.len() > 0) {
        "tests: NO TEST RUN YET - you have not verified anything yourself this mission\n"@
    } else {
        Seq::empty()
    }
}

pub open spec fn notes_text(ns: Seq<Seq<char>>) -> Seq<char>
    decreases ns.len(),
{
    if ns.len() == 0 {
        Seq::empty()
    } else {
        notes_text(ns.drop_last()) + seq!['-', ' '] + ns.last() + seq![' ']
    }
}

pub open spec fn notes_section(ns: Seq<Seq<char>>) -> Seq<char> {
    if ns.len() == 0 {
        Seq::empty()
    } else {
        "notes: "@ + notes_text(ns) + seq!['\n']
    }
}

/// The summary before the size cap.
pub open spec fn summary_body(v: LedgerView) -> Seq<char> {
    let s = reads_section(v.files_read) + edits_section(v.edits) + no_test_note(v) + tests_section(
        v,
    ) + notes_section(v.open_threads);
    if s.len() == 0 {
        "(no tool calls yet)\n"@
    } else {
        s
    }
}

/// The rendered summary: the body, or, when it exceeds the cap, the body
/// cut at the last character boundary at or before byte 7980 plus a
/// marker.
pub open spec fn summary_spec(v: LedgerView) -> Seq<char> {
    let b = summary_body(v);
    if byte_len(b) > LEDGER_SUMMARY_CHARS {
        b.take(floor_boundary(b, (LEDGER_SUMMARY_CHARS - 20) as nat)) + "...[ledger capped]"@
    } else {
        b
    }
}


/// The cap marker keeps a cut summary within the cap.
proof fn lemma_capped_len(cut: Seq<char>)
    requires
        byte_len(cut) <= LEDGER_SUMMARY_CHARS - 20,
    ensures
        byte_len(cut + "...[ledger capped]"@) <= LEDGER_SUMMARY_CHARS,
{
    reveal_strlit("...[ledger capped]");
    reveal_with_fuel(byte_len, 19);
    assert(byte_len("...[ledger capped]"@) == 18);
    lemma_byte_len_concat(cut, "...[ledger capped]"@);
}

// ------------------------------------------------------------- exec ---

/// Widen the first range that `lo..=hi` touches, else append it while
/// fewer than the stored cap are kept.
fn merge_range(ranges: &mut Vec<(u32, u32)>, lo: u32, hi: u32)
    ensures
        final(ranges)@ == merge_range_spec(old(ranges)@, lo, hi),
{
    let mut i: usize = 0;
    while i < ranges.len()
        invariant
            i <= ranges.len(),
            ranges@ == old(ranges)@,
            first_touch(ranges@, lo, hi, 0) == first_touch(ranges@, lo, hi, i as int),
        decreases ranges.len() - i,
    {
        let r = ranges[i];
        if (lo as u64) <= (r.1 as u64) + 1 && (hi as u64) + 1 >= (r.0 as u64) {
            let a = if r.0 <= lo { r.0 } else { lo };
            let b = if r.1 >= hi { r.1 } else { hi };
            ranges.set(i, (a, b));
            return;
        }
        i += 1;
    }
    if ranges.len() < RANGES_PER_FILE_STORED {
        ranges.push((lo, hi));
    }
}

/// Text of a `String` as characters.
fn chars_of_string(s: &String) -> (r: Vec<char>)
    ensures
        r@ == s@,
{
    chars_of(s.as_str())
}


/// The whitespace-collapsed last 160 characters of a run's stdout.
fn output_tail(result: &Json) -> (r: String)
    ensures
        r@ == output_tail_spec(*result),
{
    let out: Vec<char> = match get_str(result, "stdout") {
        Some(s) => chars_of_string(s),
        None => Vec::new(),
    };
    let ws = words_exec(&out);
    let mut sp: Vec<char> = Vec::new();
    sp.push(' ');
    let flat = join_exec(&ws, &sp);
    assert(sp@ =~= seq![' ']);
    proof {
        if as_str(get(*result, "stdout"@)) is None {
            assert(out@ =~= Seq::<char>::empty());
        }
    }
    let n = flat.len();
    let t = if n <= 160 { slice_chars(&flat, 0, n) } else { slice_chars(&flat, n - 160, n) };
    assert(flat@.subrange(0, n as int) =~= flat@);
    assert(n > 160 ==> flat@.subrange(n - 160, n as int) =~= flat@.skip(n - 160));
    string_of(&t)
}

/// The first `n` characters of `v`.
fn take_n(v: &Vec<char>, n: usize) -> (r: Vec<char>)
    ensures
        r@ == take_chars(v@, n as nat),
{
    if v.len() <= n {
        let r = slice_chars(v, 0, v.len());
        assert(v@.subrange(0, v.len() as int) =~= v@);
        r
    } else {
        let r = slice_chars(v, 0, n);
        assert(v@.subrange(0, n as int) =~= v@.take(n as int));
        r
    }
}

/// The first line of `c` that is not blank.
fn first_nonblank(c: &String) -> (r: Option<Vec<char>>)
    ensures
        match r {
            Some(l) => first_nonblank_line(lines(c@), 0) == Some(l@),
            None => first_nonblank_line(lines(c@), 0) is None,
        },
{
    let cs = chars_of_string(c);
    let ls = lines_exec(&cs);
    let ghost spec_ls = lines(c@);
    let mut i: usize = 0;
    while i < ls.len()
        invariant
            i <= ls.len(),
            ls@.len() == spec_ls.len(),
            spec_ls == lines(c@),
            forall|k: int| 0 <= k < ls@.len() ==> #[trigger] ls@[k]@ == spec_ls[k],
            first_nonblank_line(spec_ls, 0) == first_nonblank_line(spec_ls, i as int),
        decreases ls.len() - i,
    {
        let t = trim_chars(&ls[i]);
        if t.len() > 0 {
            return Some(slice_chars(&ls[i], 0, ls[i].len()));
        }
        i += 1;
    }
    None
}

impl Ledger {
    /// An empty ledger.
    pub fn new() -> (r: Self)
        ensures
            r@ == empty_view(),
    {
        let r = Ledger {
            files_read: Vec::new(),
            edits: Vec::new(),
            test_runs: Vec::new(),
            restored_before: None,
            open_threads: Vec::new(),
            last_calls: VecDeque::new(),
            model_ran: false,
        };
        assert(r@.files_read =~= Seq::empty());
        assert(r@.edits =~= Seq::empty());
        assert(r@.test_runs =~= Seq::empty());
        assert(r@.open_threads =~= Seq::empty());
        assert(r@.last_calls =~= Seq::empty());
        r
    }

    /// True once the model has verified something itself: a recorded run
    /// that is not the harness checker's own verdict.
    pub fn model_verified(&self) -> (r: bool)
        ensures
            r == model_verified_spec(self@),
    {
        self.model_ran
    }

    /// Mark every run recorded at or before `seq` as pre-restore: the
    /// workspace was restored, so those runs describe a tree that no
    /// longer exists. Display only; the history is kept.
    pub fn note_restore(&mut self, seq: u64)
        ensures
            final(self)@ == (LedgerView { restored_before: Some(seq), ..old(self)@ }),
    {
        self.restored_before = Some(seq);
    }

    /// Latest recorded call seq (0 when the ledger is empty).
    pub fn last_seq(&self) -> (r: u64)
        ensures
            r == last_seq_spec(self@),
    {
        let n = self.last_calls.len();
        if n == 0 {
            0
        } else {
            self.last_calls[n - 1].3
        }
    }

    /// A prior seq for an identical (plugin, args) call, if one is
    /// remembered (the latest such).
    pub fn find_duplicate(&self, plugin: &str, args: &Json) -> (r: Option<u64>)
        ensures
            r == find_duplicate_spec(self@.last_calls, plugin@, render(*args)),
    {
        let text = rendered(args);
        let p = chars_of(plugin);
        let mut i: usize = self.last_calls.len();
        assert(self@.last_calls.take(i as int) =~= self@.last_calls);
        while i > 0
            invariant
                i <= self.last_calls@.len(),
                text@ == render(*args),
                p@ == plugin@,
                find_duplicate_spec(self@.last_calls, plugin@, render(*args))
                    == find_duplicate_spec(self@.last_calls.take(i as int), plugin@, render(*args)),
            decreases i,
        {
            let ghost pre = self@.last_calls.take(i as int);
            assert(pre.drop_last() =~= self@.last_calls.take(i - 1));
            let c = &self.last_calls[i - 1];
            let cp = chars_of_string(&c.0);
            let ct = chars_of_string(&c.1);
            if chars_eq(&cp, &p) && chars_eq(&ct, &text) {
                return Some(c.3);
            }
            i -= 1;
        }
        assert(self@.last_calls.take(0) =~= Seq::empty());
        None
    }

    /// Doom-loop detection: within the last `window` calls, the largest
    /// group sharing (plugin, whitespace-normalized args), with its size,
    /// when that size reaches `threshold`.
    pub fn doom_loop_repeat(&self, window: usize, threshold: usize) -> (r: Option<(String, usize)>)
        ensures
            match (r, doom_spec(self@.last_calls, window as nat, threshold as nat)) {
                (None, None) => true,
                (Some(a), Some(b)) => a.0@ == b.0 && a.1 as nat == b.1,
                _ => false,
            },
    {
        let ghost calls = self@.last_calls;
        let n = self.last_calls.len();
        let lo = if window >= n { 0 } else { n - window };
        if lo >= n {
            return None;
        }
        // best over i in (j..n) as the spec's right fold, computed from the end
        let mut j: usize = n - 1;
        let mut best_i: usize = j;
        let mut best_c: usize = self.count_same_exec(lo, n, j);
        while j > lo
            invariant
                lo < n,
                n == calls.len(),
                calls == self@.last_calls,
                lo <= j < n,
                lo <= best_i < n,
                best_group(calls, lo as int, n as int, j as int) == (best_i as int, best_c as nat),
            decreases j,
        {
            j -= 1;
            let c = self.count_same_exec(lo, n, j);
            if c >= best_c {
                best_i = j;
                best_c = c;
            }
        }
        if best_c >= threshold {
            let p = self.last_calls[best_i].0.clone();
            Some((p, best_c))
        } else {
            None
        }
    }

    /// Fold one tool call into the ledger: the call is remembered (the
    /// oldest forgotten once 512 are held) and its plugin-specific facts
    /// recorded - reads as merged line ranges, applied edits and answer
    /// writes, model and checker runs with their verdicts, scratch notes.
    pub fn apply_tool_call(&mut self, seq: u64, plugin: &str, args: &Json, result: &Json)
        ensures
            final(self)@ == apply_spec(old(self)@, seq, plugin@, *args, *result),
    {
        let ghost v0 = self@;
        if self.last_calls.len() >= LAST_CALLS_CAP {
            self.last_calls.pop_front();
        }
        let text = string_of(&rendered(args));
        let nrm = string_of(&normalized(args));
        let ghost calls = if v0.last_calls.len() >= LAST_CALLS_CAP {
            v0.last_calls.drop_first()
        } else {
            v0.last_calls
        };
        proof {
            assert(self@.last_calls =~= calls);
        }
        self.last_calls.push_back((String::from_str(plugin), text, nrm, seq));
        let ghost v1 = LedgerView {
            last_calls: calls.push((plugin@, render(*args), norm(*args), seq)),
            ..v0
        };
        assert(self@.last_calls =~= v1.last_calls);
        assert(self@ == v1);
        let pv = chars_of(plugin);
        if crate::text::eq_str(&pv, "repo.read") {
            if let Some(p) = get_str(args, "path") {
                let lo: u32 = match get_u64(args, "start_line") {
                    Some(x) => #[verifier::truncate] (x as u32),
                    None => 1,
                };
                let n: u32 = match get_u64(args, "max_lines") {
                    Some(x) => #[verifier::truncate] (x as u32),
                    None => 400,
                };
                let end: u32 = if (lo as u64) + (n as u64) > 4294967295u64 { 4294967295u32 } else { lo + n };
                let hi: u32 = if end == 0 { 0 } else { end - 1 };
                self.note_read(p, lo, hi);
            }
        } else if crate::text::eq_str(&pv, "edit.apply") {
            if get_bool(result, "applied") == Some(true) {
                if let Some(fs) = get_array(result, "files_changed") {
                    let ghost e0 = self@.edits;
                    let mut i: usize = 0;
                    while i < fs.len()
                        invariant
                            i <= fs.len(),
                            self@ == (LedgerView { edits: self@.edits, ..v1 }),
                            self@.edits == e0 + string_items(fs@.take(i as int)).map_values(
                                |f: Seq<char>| (seq, f),
                            ),
                        decreases fs.len() - i,
                    {
                        proof {
                            assert(fs@.take(i + 1).drop_last() =~= fs@.take(i as int));
                        }
                        match &fs[i] {
                            Json::Str(f) => {
                                let ghost prev = self@.edits;
                                self.edits.push((seq, f.clone()));
                                proof {
                                    assert(self@.edits =~= prev.push((seq, f@)));
                                    let ghost a = fs@.take(i + 1);
                                    assert(a.last() == fs@[i as int]);
                                    assert(string_items(a) =~= string_items(fs@.take(i as int)).push(f@));
                                    assert(string_items(a).map_values(|f: Seq<char>| (seq, f)) =~=
                                        string_items(fs@.take(i as int)).map_values(|f: Seq<char>| (seq, f)).push((seq, f@)));
                                    assert(self@.edits =~= e0 + string_items(fs@.take(i + 1)).map_values(
                                        |f: Seq<char>| (seq, f),
                                    ));
                                }
                            },
                            _ => {
                                proof {
                                    assert(string_items(fs@.take(i + 1)) =~= string_items(fs@.take(i as int)));
                                }
                            },
                        }
                        i += 1;
                    }
                    assert(fs@.take(fs.len() as int) =~= fs@);
                }
            }
        } else if crate::text::eq_str(&pv, "answer.write") {
            if let Some(p) = get_str(args, "path") {
                self.edits.push((seq, p.clone()));
                assert(self@.edits =~= v1.edits.push((seq, p@)));
            }
        } else if crate::text::eq_str(&pv, "repo.exec") {
            if get_bool(result, "applied") == Some(true) {
                let cmd_full: Vec<char> = match get_str(args, "command") {
                    Some(c) => chars_of_string(c),
                    None => Vec::new(),
                };
                proof {
                    if as_str(get(*args, "command"@)) is None {
                        assert(cmd_full@ =~= Seq::<char>::empty());
                    }
                }
                let cmd = string_of(&take_n(&cmd_full, 60));
                let ok = get_i64(result, "exit_code") == Some(0i64);
                let tail = output_tail(result);
                self.test_runs.push((seq, cmd, ok, tail));
                self.model_ran = true;
                assert(self@.test_runs =~= v1.test_runs.push((seq, cmd@, ok, tail@)));
            }
        } else if crate::text::eq_str(&pv, "checker.run") {
            let ok = get_bool(result, "passed") == Some(true);
            let c = String::from_str("checker");
            self.test_runs.push((seq, c, ok, String::new()));
            assert(self@.test_runs =~= v1.test_runs.push((seq, "checker"@, ok, Seq::empty())));
        } else if crate::text::eq_str(&pv, "notes.scratch") {
            let op_ok = match get_str(args, "op") {
                Some(o) => {
                    let ov = chars_of_string(o);
                    crate::text::eq_str(&ov, "write") || crate::text::eq_str(&ov, "append")
                },
                None => false,
            };
            if op_ok {
                if let Some(c) = get_str(args, "content") {
                    if let Some(l) = first_nonblank(c) {
                        let t = string_of(&take_n(&l, 80));
                        self.open_threads.push(t);
                        let ghost t1 = v1.open_threads.push(take_chars(l@, 80));
                        assert(self@.open_threads =~= t1);
                        if self.open_threads.len() > OPEN_SHOWN {
                            self.open_threads.remove(0);
                            assert(self@.open_threads =~= t1.drop_first());
                        }
                    }
                }
            }
        }
    }

    /// Calls in `lo..hi` sharing (plugin, normalized args) with call `k`.
    fn count_same_exec(&self, lo: usize, hi: usize, k: usize) -> (r: usize)
        requires
            lo <= hi <= self@.last_calls.len(),
            k < self@.last_calls.len(),
        ensures
            r as nat == count_same(self@.last_calls, lo as int, hi as int, self@.last_calls[k as int]),
    {
        let ghost calls = self@.last_calls;
        let kp = chars_of_string(&self.last_calls[k].0);
        let kn = chars_of_string(&self.last_calls[k].2);
        let mut c: usize = 0;
        let mut i = lo;
        while i < hi
            invariant
                lo <= i <= hi <= calls.len(),
                calls == self@.last_calls,
                kp@ == calls[k as int].0,
                kn@ == calls[k as int].2,
                c as nat == count_same(calls, lo as int, i as int, calls[k as int]),
                c <= i - lo,
            decreases hi - i,
        {
            let ip = chars_of_string(&self.last_calls[i].0);
            let inn = chars_of_string(&self.last_calls[i].2);
            if chars_eq(&ip, &kp) && chars_eq(&inn, &kn) {
                c += 1;
            }
            i += 1;
        }
        c
    }

    /// Record a read of `lo..=hi` of `path`.
    fn note_read(&mut self, path: &String, lo: u32, hi: u32)
        ensures
            final(self)@ == (LedgerView {
                files_read: note_read(old(self)@.files_read, path@, lo, hi),
                ..old(self)@
            }),
    {
        let pv = chars_of_string(path);
        let ghost fs = self@.files_read;
        let mut k: usize = self.files_read.len();
        assert(fs.take(k as int) =~= fs);
        let mut done = false;
        while k > 0 && !done
            invariant
                k <= self.files_read.len(),
                fs == self@.files_read,
                pv@ == path@,
                file_slot(fs, path@) == file_slot(fs.take(k as int), path@),
                done ==> file_slot(fs.take(k as int), path@) == k,
            decreases k, (if done { 0int } else { 1int }),
        {
            let key = chars_of_string(&self.files_read[k - 1].0);
            let ghost pre = fs.take(k as int);
            assert(pre.drop_last() =~= fs.take(k - 1));
            assert(pre.last().0 == key@);
            if crate::json::str_lt_exec(&key, &pv) {
                assert(file_slot(pre, path@) == k);
                done = true;
            } else {
                k -= 1;
            }
        }
        proof {
            if k == 0 {
                assert(fs.take(0) =~= Seq::<(Seq<char>, Seq<(u32, u32)>)>::empty());
            }
            assert(file_slot(fs, path@) == k);
        }
        let ghost old_files = self.files_read@;
        if k < self.files_read.len() {
            let key = chars_of_string(&self.files_read[k].0);
            if chars_eq(&key, &pv) {
                let mut entry = self.files_read.remove(k);
                merge_range(&mut entry.1, lo, hi);
                self.files_read.insert(k, entry);
                proof {
                    assert(self@.files_read =~= fs.update(k as int, (path@, merge_range_spec(fs[k as int].1, lo, hi))));
                }
                return;
            }
        }
        let mut rs: Vec<(u32, u32)> = Vec::new();
        rs.push((lo, hi));
        self.files_read.insert(k, (path.clone(), rs));
        proof {
            assert(rs@ =~= seq![(lo, hi)]);
            assert(self@.files_read =~= fs.insert(k as int, (path@, seq![(lo, hi)])));
        }
    }
}


/// `L<lo>-<hi>`.
fn range_text_exec(r: (u32, u32)) -> (t: Vec<char>)
    ensures
        t@ == range_text(r),
{
    let mut t: Vec<char> = Vec::new();
    t.push('L');
    push_dec(&mut t, r.0 as u64);
    t.push('-');
    push_dec(&mut t, r.1 as u64);
    assert(t@ =~= range_text(r));
    t
}

/// One file's `path:L..,L..+n; ` entry.
fn file_entry_exec(f: &(String, Vec<(u32, u32)>)) -> (t: Vec<char>)
    ensures
        t@ == file_entry((f.0@, f.1@)),
{
    let mut parts: Vec<Vec<char>> = Vec::new();
    let shown = if f.1.len() <= RANGES_PER_FILE_SHOWN { f.1.len() } else { RANGES_PER_FILE_SHOWN };
    let ghost want = take_ranges(f.1@).map_values(|r: (u32, u32)| range_text(r));
    let mut i: usize = 0;
    while i < shown
        invariant
            shown <= f.1.len(),
            shown == take_ranges(f.1@).len(),
            i <= shown,
            want == take_ranges(f.1@).map_values(|r: (u32, u32)| range_text(r)),
            parts@.map_values(|p: Vec<char>| p@) == want.take(i as int),
        decreases shown - i,
    {
        let t = range_text_exec(f.1[i]);
        let ghost prev = parts@;
        parts.push(t);
        proof {
            assert(parts@.map_values(|p: Vec<char>| p@) =~= prev.map_values(|p: Vec<char>| p@).push(t@));
            assert(take_ranges(f.1@)[i as int] == f.1@[i as int]);
            assert(want[i as int] == t@);
            assert(parts@.map_values(|p: Vec<char>| p@) =~= want.take(i + 1));
        }
        i += 1;
    }
    assert(want.take(shown as int) =~= want);
    let mut comma: Vec<char> = Vec::new();
    comma.push(',');
    assert(comma@ =~= seq![',']);
    let joined = join_exec(&parts, &comma);
    let mut t = chars_of_string(&f.0);
    t.push(':');
    extend_chars(&mut t, &joined);
    let ghost before_more = t@;
    if f.1.len() > RANGES_PER_FILE_SHOWN {
        t.push('+');
        push_dec(&mut t, (f.1.len() - RANGES_PER_FILE_SHOWN) as u64);
    }
    t.push(';');
    t.push(' ');
    assert(t@ =~= file_entry((f.0@, f.1@)));
    t
}

/// `path@seq<n>; ` entries for the given edits.
fn edits_text_exec(es: &Vec<(u64, String)>, a: usize, b: usize) -> (t: Vec<char>)
    requires
        a <= b <= es.len(),
    ensures
        t@ == edits_text(es@.subrange(a as int, b as int).map_values(|e: (u64, String)| (e.0, e.1@))),
{
    let mut t: Vec<char> = Vec::new();
    let mut j = a;
    while j < b
        invariant
            a <= j <= b <= es.len(),
            t@ == edits_text(es@.subrange(a as int, j as int).map_values(|e: (u64, String)| (e.0, e.1@))),
        decreases b - j,
    {
        let ghost m = es@.subrange(a as int, j + 1).map_values(|e: (u64, String)| (e.0, e.1@));
        assert(m.drop_last() =~= es@.subrange(a as int, j as int).map_values(|e: (u64, String)| (e.0, e.1@)));
        let p = chars_of_string(&es[j].1);
        extend_chars(&mut t, &p);
        extend_str(&mut t, "@seq");
        push_dec(&mut t, es[j].0);
        t.push(';');
        t.push(' ');
        assert(t@ =~= edits_text(m));
        j += 1;
    }
    t
}

/// The `"cmd" PASS@seqN...; ` entry of one run.
fn run_text_exec(t: &(u64, String, bool, String), restored: Option<u64>) -> (r: Vec<char>)
    ensures
        r@ == run_text((t.0, t.1@, t.2, t.3@), restored),
{
    let mut r: Vec<char> = Vec::new();
    r.push('"');
    let c = chars_of_string(&t.1);
    extend_chars(&mut r, &c);
    r.push('"');
    r.push(' ');
    if t.2 {
        extend_str(&mut r, "PASS");
    } else {
        extend_str(&mut r, "FAIL");
    }
    extend_str(&mut r, "@seq");
    push_dec(&mut r, t.0);
    let stale = match restored {
        Some(x) => t.0 <= x,
        None => false,
    };
    if stale {
        extend_str(&mut r, "(pre-restore)");
    }
    let tail = chars_of_string(&t.3);
    if tail.len() > 0 {
        r.push(' ');
        r.push('[');
        extend_chars(&mut r, &tail);
        r.push(']');
    }
    r.push(';');
    r.push(' ');
    assert(r@ =~= run_text((t.0, t.1@, t.2, t.3@), restored));
    r
}

impl Ledger {
    fn reads_section_exec(&self) -> (r: Vec<char>)
        ensures
            r@ == reads_section(self@.files_read),
    {
        let ghost fs = self@.files_read;
        let n = self.files_read.len();
        let mut s: Vec<char> = Vec::new();
        if n == 0 {
            assert(s@ =~= reads_section(fs));
            return s;
        }
        extend_str(&mut s, "reads: ");
        assert(s@ =~= "reads: "@);
        let mut shown: usize = 0;
        let mut i: usize = n;
        let mut stop = false;
        while i > 0 && !stop
            invariant
                n == fs.len(),
                fs == self@.files_read,
                i <= n,
                shown <= 30,
                shown + i == n,
                reads_fold(fs, n as int, "reads: "@, 0) == if stop {
                    (s@, shown as nat)
                } else {
                    reads_fold(fs, i as int, s@, shown as nat)
                },
            decreases i, (if stop { 0int } else { 1int }),
        {
            if byte_len_exceeds(&s, LEDGER_SUMMARY_CHARS / 2) || shown >= 30 {
                stop = true;
            } else {
                let e = file_entry_exec(&self.files_read[i - 1]);
                assert(fs[i - 1] == (self.files_read@[i - 1].0@, self.files_read@[i - 1].1@));
                extend_chars(&mut s, &e);
                shown += 1;
                i -= 1;
            }
        }
        assert(reads_fold(fs, n as int, "reads: "@, 0) == (s@, shown as nat));
        if n > shown {
            extend_str(&mut s, "(+");
            push_dec(&mut s, (n - shown) as u64);
            extend_str(&mut s, " more files) ");
        }
        s.push('\n');
        assert(s@ =~= reads_section(fs));
        s
    }

    fn edits_section_exec(&self) -> (r: Vec<char>)
        ensures
            r@ == edits_section(self@.edits),
    {
        let n = self.edits.len();
        let mut s: Vec<char> = Vec::new();
        if n == 0 {
            assert(s@ =~= edits_section(self@.edits));
            return s;
        }
        extend_str(&mut s, "edits: ");
        let a = if n <= EDITS_SHOWN { 0 } else { n - EDITS_SHOWN };
        let t = edits_text_exec(&self.edits, a, n);
        assert(newest(self@.edits, EDITS_SHOWN as nat) =~= self.edits@.subrange(a as int, n as int).map_values(
            |e: (u64, String)| (e.0, e.1@),
        ));
        extend_chars(&mut s, &t);
        s.push('\n');
        assert(s@ =~= edits_section(self@.edits));
        s
    }

    fn tests_section_exec(&self) -> (r: Vec<char>)
        ensures
            r@ == tests_section(self@),
    {
        let n = self.test_runs.len();
        let ghost ts = self@.test_runs;
        let mut s: Vec<char> = Vec::new();
        if n == 0 {
            assert(s@ =~= tests_section(self@));
            return s;
        }
        extend_str(&mut s, "tests: ");
        let ghost s0 = s@;
        let a = if n <= TESTS_SHOWN { 0 } else { n - TESTS_SHOWN };
        let mut j = a;
        while j < n
            invariant
                a <= j <= n,
                n == self.test_runs.len(),
                ts == self@.test_runs,
                s@ == s0 + runs_text(ts.subrange(a as int, j as int), self.restored_before),
            decreases n - j,
        {
            let ghost m = ts.subrange(a as int, j + 1);
            assert(m.drop_last() =~= ts.subrange(a as int, j as int));
            let e = run_text_exec(&self.test_runs[j], self.restored_before);
            extend_chars(&mut s, &e);
            j += 1;
        }
        assert(ts.subrange(a as int, n as int) =~= newest(ts, TESTS_SHOWN as nat));
        s.push('\n');
        assert(s@ =~= tests_section(self@));
        s
    }

    fn notes_section_exec(&self) -> (r: Vec<char>)
        ensures
            r@ == notes_section(self@.open_threads),
    {
        let n = self.open_threads.len();
        let ghost ns = self@.open_threads;
        let mut s: Vec<char> = Vec::new();
        if n == 0 {
            assert(s@ =~= notes_section(ns));
            return s;
        }
        extend_str(&mut s, "notes: ");
        let ghost s0 = s@;
        let mut j: usize = 0;
        while j < n
            invariant
                j <= n,
                n == self.open_threads.len(),
                ns == self@.open_threads,
                s@ == s0 + notes_text(ns.take(j as int)),
            decreases n - j,
        {
            assert(ns.take(j + 1).drop_last() =~= ns.take(j as int));
            s.push('-');
            s.push(' ');
            let t = chars_of_string(&self.open_threads[j]);
            extend_chars(&mut s, &t);
            s.push(' ');
            assert(s@ =~= s0 + notes_text(ns.take(j + 1)));
            j += 1;
        }
        assert(ns.take(n as int) =~= ns);
        s.push('\n');
        assert(s@ =~= notes_section(ns));
        s
    }

    /// The bounded render of the ledger for the always-resident prompt
    /// block: reads (newest paths first), the latest edits, a nudge when
    /// the model has verified nothing yet, the latest runs with their
    /// verdicts and output tails, the scratch notes; cut at the byte cap.
    pub fn summary(&self) -> (r: String)
        ensures
            r@ == summary_spec(self@),
            byte_len(r@) <= LEDGER_SUMMARY_CHARS,
    {
        let mut s = self.reads_section_exec();
        let e = self.edits_section_exec();
        extend_chars(&mut s, &e);
        if !self.model_verified() && (self.files_read.len() > 0 || self.edits.len() > 0) {
            extend_str(&mut s, "tests: NO TEST RUN YET - you have not verified anything yourself this mission\n");
        }
        let t = self.tests_section_exec();
        extend_chars(&mut s, &t);
        let n = self.notes_section_exec();
        extend_chars(&mut s, &n);
        proof {
            let v = self@;
            assert(v.files_read.len() == self.files_read.len());
            assert(v.edits.len() == self.edits.len());
            assert(s@ =~= reads_section(v.files_read) + edits_section(v.edits) + no_test_note(v)
                + tests_section(v) + notes_section(v.open_threads));
        }
        if s.len() == 0 {
            extend_str(&mut s, "(no tool calls yet)\n");
            assert(s@ =~= "(no tool calls yet)\n"@);
        }
        assert(s@ == summary_body(self@));
        if byte_len_exceeds(&s, LEDGER_SUMMARY_CHARS) {
            let mut cut = truncate_floor(&s, LEDGER_SUMMARY_CHARS - 20);
            let ghost c0 = cut@;
            extend_str(&mut cut, "...[ledger capped]");
            proof {
                lemma_capped_len(c0);
            }
            string_of(&cut)
        } else {
            string_of(&s)
        }
    }
}


// ------------------------------------------------------------- laws ---

pub open spec fn files_sorted(fs: Seq<(Seq<char>, Seq<(u32, u32)>)>) -> bool {
    forall|i: int, j: int| 0 <= i < j < fs.len() ==> str_lt(fs[i].0, fs[j].0)
}

proof fn lemma_file_slot(fs: Seq<(Seq<char>, Seq<(u32, u32)>)>, path: Seq<char>)
    requires
        files_sorted(fs),
    ensures
        0 <= file_slot(fs, path) <= fs.len(),
        forall|i: int| 0 <= i < file_slot(fs, path) ==> str_lt(#[trigger] fs[i].0, path),
        forall|i: int| file_slot(fs, path) <= i < fs.len() ==> !str_lt(#[trigger] fs[i].0, path),
    decreases fs.len(),
{
    if fs.len() > 0 {
        if str_lt(fs.last().0, path) {
            assert forall|i: int| 0 <= i < fs.len() implies str_lt(#[trigger] fs[i].0, path) by {
                if i < fs.len() - 1 {
                    crate::json::lemma_str_lt_trans(fs[i].0, fs.last().0, path);
                }
            }
        } else {
            let d = fs.drop_last();
            assert(files_sorted(d));
            lemma_file_slot(d, path);
            assert forall|i: int| 0 <= i < file_slot(fs, path) implies str_lt(#[trigger] fs[i].0, path) by {
                assert(fs[i] == d[i]);
            }
            assert forall|i: int| file_slot(fs, path) <= i < fs.len() implies !str_lt(#[trigger] fs[i].0, path) by {
                if i < fs.len() - 1 {
                    assert(fs[i] == d[i]);
                }
            }
        }
    }
}

proof fn lemma_merge_range_len(rs: Seq<(u32, u32)>, lo: u32, hi: u32)
    requires
        rs.len() <= RANGES_PER_FILE_STORED,
    ensures
        merge_range_spec(rs, lo, hi).len() <= RANGES_PER_FILE_STORED,
        merge_range_spec(rs, lo, hi).len() >= rs.len(),
        merge_range_spec(rs, lo, hi).len() >= 1,
{
    match first_touch(rs, lo, hi, 0) {
        Some(i) => {
            lemma_first_touch_range(rs, lo, hi, 0);
        },
        None => {},
    }
}

proof fn lemma_first_touch_range(rs: Seq<(u32, u32)>, lo: u32, hi: u32, i: int)
    requires
        0 <= i,
        first_touch(rs, lo, hi, i) is Some,
    ensures
        i <= first_touch(rs, lo, hi, i)->0 < rs.len(),
        touches(rs[first_touch(rs, lo, hi, i)->0], lo, hi),
    decreases rs.len() - i,
{
    if !touches(rs[i], lo, hi) {
        lemma_first_touch_range(rs, lo, hi, i + 1);
    }
}

proof fn lemma_note_read_wf(
    fs: Seq<(Seq<char>, Seq<(u32, u32)>)>,
    path: Seq<char>,
    lo: u32,
    hi: u32,
)
    requires
        files_sorted(fs),
        forall|i: int| 0 <= i < fs.len() ==> #[trigger] fs[i].1.len() <= RANGES_PER_FILE_STORED,
    ensures
        files_sorted(note_read(fs, path, lo, hi)),
        forall|i: int|
            0 <= i < note_read(fs, path, lo, hi).len() ==> #[trigger] note_read(
                fs,
                path,
                lo,
                hi,
            )[i].1.len() <= RANGES_PER_FILE_STORED,
{
    lemma_file_slot(fs, path);
    let k = file_slot(fs, path);
    let n = note_read(fs, path, lo, hi);
    if 0 <= k < fs.len() && fs[k].0 == path {
        lemma_merge_range_len(fs[k].1, lo, hi);
        assert forall|i: int, j: int| 0 <= i < j < n.len() implies str_lt(n[i].0, n[j].0) by {
            assert(n[i].0 == fs[i].0);
            assert(n[j].0 == fs[j].0);
        }
    } else {
        if k < fs.len() {
            crate::json::lemma_str_lt_total(fs[k].0, path);
        }
        assert forall|i: int, j: int| 0 <= i < j < n.len() implies str_lt(n[i].0, n[j].0) by {
            if j < k {
                assert(n[i] == fs[i] && n[j] == fs[j]);
            } else if j == k {
                assert(n[i] == fs[i]);
            } else if i == k {
                assert(n[j] == fs[j - 1]);
                if j - 1 > k {
                    crate::json::lemma_str_lt_trans(path, fs[k].0, fs[j - 1].0);
                }
            } else if i < k {
                assert(n[i] == fs[i] && n[j] == fs[j - 1]);
                if j - 1 >= k {
                    crate::json::lemma_str_lt_total(fs[j - 1].0, path);
                    if j - 1 > k {
                        crate::json::lemma_str_lt_trans(path, fs[k].0, fs[j - 1].0);
                    }
                    crate::json::lemma_str_lt_trans(fs[i].0, path, fs[j - 1].0);
                }
            } else {
                assert(n[i] == fs[i - 1] && n[j] == fs[j - 1]);
            }
        }
        assert forall|i: int| 0 <= i < n.len() implies #[trigger] n[i].1.len()
            <= RANGES_PER_FILE_STORED by {
            if i < k {
                assert(n[i] == fs[i]);
            } else if i > k {
                assert(n[i] == fs[i - 1]);
            }
        }
    }
}

/// Every call keeps the ledger's invariant: read paths stay in strictly
/// ascending order, at most 16 ranges are stored per file, at most 512
/// calls and 5 notes are remembered.
pub proof fn law_apply_keeps_wf(v: LedgerView, seq: u64, plugin: Seq<char>, args: Json, result: Json)
    requires
        ledger_wf(v),
    ensures
        ledger_wf(apply_spec(v, seq, plugin, args, result)),
{
    let calls = if v.last_calls.len() >= LAST_CALLS_CAP {
        v.last_calls.drop_first()
    } else {
        v.last_calls
    };
    let v1 = LedgerView { last_calls: calls.push((plugin, render(args), norm(args), seq)), ..v };
    assert(ledger_wf(v1));
    if plugin == "repo.read"@ {
        match as_str(get(args, "path"@)) {
            Some(p) => {
                let lo = (match as_u64(get(args, "start_line"@)) {
                    Some(x) => x,
                    None => 1,
                }) as u32;
                let n = (match as_u64(get(args, "max_lines"@)) {
                    Some(x) => x,
                    None => 400,
                }) as u32;
                lemma_note_read_wf(v1.files_read, p, lo, sat_dec_u32(sat_add_u32(lo, n)));
            },
            None => {},
        }
    }
}

/// A new ledger satisfies the invariant.
pub proof fn law_new_wf()
    ensures
        ledger_wf(empty_view()),
{
}

/// After a call, the latest recorded seq is that call's seq.
pub proof fn law_apply_last_seq(v: LedgerView, seq: u64, plugin: Seq<char>, args: Json, result: Json)
    ensures
        last_seq_spec(apply_spec(v, seq, plugin, args, result)) == seq,
{
}

/// After a call, an identical (plugin, args) call is found as a duplicate
/// of it: the prior seq is that call's seq.
pub proof fn law_apply_then_duplicate(
    v: LedgerView,
    seq: u64,
    plugin: Seq<char>,
    args: Json,
    result: Json,
)
    ensures
        find_duplicate_spec(apply_spec(v, seq, plugin, args, result).last_calls, plugin, render(args))
            == Some(seq),
{
}

/// Recorded runs are never lost: once the model has verified something,
/// it stays verified whatever calls follow.
pub proof fn law_model_verified_monotone(
    v: LedgerView,
    seq: u64,
    plugin: Seq<char>,
    args: Json,
    result: Json,
)
    requires
        model_verified_spec(v),
    ensures
        model_verified_spec(apply_spec(v, seq, plugin, args, result)),
{
}

/// The harness checker's verdicts are ground truth, never the model
/// testing its work: a `checker.run` call does not make the ledger
/// model-verified.
pub proof fn law_checker_run_is_not_model_verification(
    v: LedgerView,
    seq: u64,
    args: Json,
    result: Json,
)
    ensures
        model_verified_spec(apply_spec(v, seq, "checker.run"@, args, result))
            == model_verified_spec(v),
{
    let w = apply_spec(v, seq, "checker.run"@, args, result);
    reveal_strlit("checker.run");
    reveal_strlit("repo.read");
    reveal_strlit("edit.apply");
    reveal_strlit("answer.write");
    reveal_strlit("repo.exec");
    assert("checker.run"@[0] != "repo.read"@[0]);
    assert("checker.run"@[0] != "edit.apply"@[0]);
    assert("checker.run"@ != "answer.write"@);
    assert("checker.run"@ != "repo.exec"@);
}

/// Any repo.exec run the model makes counts as its own verification,
/// whatever its command text (a command named `checker` included).
pub proof fn law_repo_exec_run_verifies(v: LedgerView, seq: u64, args: Json, result: Json)
    requires
        as_bool(get(result, "applied"@)) == Some(true),
    ensures
        model_verified_spec(apply_spec(v, seq, "repo.exec"@, args, result)),
{
    reveal_strlit("repo.read");
    reveal_strlit("edit.apply");
    reveal_strlit("answer.write");
    reveal_strlit("repo.exec");
    assert("repo.exec"@[5] != "repo.read"@[5]);
    assert("repo.exec"@[0] != "edit.apply"@[0]);
    assert("repo.exec"@[0] != "answer.write"@[0]);
}

proof fn lemma_best_group(calls: Seq<(Seq<char>, Seq<char>, Seq<char>, u64)>, lo: int, hi: int, i: int)
    requires
        lo <= i < hi,
    ensures
        i <= best_group(calls, lo, hi, i).0 < hi,
        best_group(calls, lo, hi, i).1 == count_same(calls, lo, hi, calls[best_group(calls, lo, hi, i).0]),
        forall|k: int| i <= k < hi ==> #[trigger] count_same(calls, lo, hi, calls[k]) <= best_group(calls, lo, hi, i).1,
        forall|k: int| i <= k < best_group(calls, lo, hi, i).0 ==> #[trigger] count_same(calls, lo, hi, calls[k])
            < best_group(calls, lo, hi, i).1,
    decreases hi - i,
{
    if i < hi - 1 {
        lemma_best_group(calls, lo, hi, i + 1);
    }
}

/// The window of the last `window` calls starts here.
pub open spec fn window_start(calls: Seq<(Seq<char>, Seq<char>, Seq<char>, u64)>, window: nat) -> int {
    if window >= calls.len() {
        0
    } else {
        calls.len() - window
    }
}

/// Call `j` opens the window's earliest group of size `c`, and no group
/// in the window is larger.
pub open spec fn earliest_largest(
    calls: Seq<(Seq<char>, Seq<char>, Seq<char>, u64)>,
    lo: int,
    j: int,
    c: nat,
) -> bool {
    let hi = calls.len() as int;
    &&& lo <= j < hi
    &&& count_same(calls, lo, hi, calls[j]) == c
    &&& forall|k: int| lo <= k < hi ==> #[trigger] count_same(calls, lo, hi, calls[k]) <= c
    &&& forall|k: int| lo <= k < j ==> #[trigger] count_same(calls, lo, hi, calls[k]) < c
}

/// The doom-loop read (`Ledger::doom_loop_repeat` over the ledger's kept
/// calls) is the largest group of effectively identical calls in the
/// window, the earliest such group on ties: `None` exactly
/// when every group in the window is below the threshold; otherwise the
/// plugin of the earliest call whose group has the largest size, and
/// that size, which reaches the threshold.
pub proof fn law_doom_is_largest_earliest_group(
    calls: Seq<(Seq<char>, Seq<char>, Seq<char>, u64)>,
    window: nat,
    threshold: nat,
)
    ensures
        doom_spec(calls, window, threshold) is None <==> forall|k: int|
            window_start(calls, window) <= k < calls.len() ==> #[trigger] count_same(
                calls,
                window_start(calls, window),
                calls.len() as int,
                calls[k],
            ) < threshold,
        doom_spec(calls, window, threshold) matches Some((p, c)) ==> c >= threshold && exists|j: int|
            #[trigger] earliest_largest(calls, window_start(calls, window), j, c) && calls[j].0 == p,
{
    let hi = calls.len() as int;
    let lo = window_start(calls, window);
    if lo < hi {
        lemma_best_group(calls, lo, hi, lo);
        let b = best_group(calls, lo, hi, lo);
        if b.1 < threshold {
            assert forall|k: int| lo <= k < hi implies #[trigger] count_same(calls, lo, hi, calls[k]) < threshold by {}
        } else {
            assert(earliest_largest(calls, lo, b.0, b.1));
            assert(count_same(calls, lo, hi, calls[b.0]) >= threshold);
        }
    }
}

/// A workspace restore (`Ledger::note_restore`) is display only: it marks
/// earlier runs in the summary but changes no recorded call, run, edit,
/// read or note, so `last_seq`, `model_verified` and every
/// `doom_loop_repeat` read stay as they were. A run recorded at or before the restore renders with the
/// pre-restore marker inserted into its unmarked text; a later run renders
/// as if no restore had happened.
pub proof fn law_restore_is_display_only(v: LedgerView, seq: u64, window: nat, threshold: nat)
    ensures
        ({
            let w = LedgerView { restored_before: Some(seq), ..v };
            &&& last_seq_spec(w) == last_seq_spec(v)
            &&& model_verified_spec(w) == model_verified_spec(v)
            &&& doom_spec(w.last_calls, window, threshold) == doom_spec(v.last_calls, window, threshold)
            &&& w.test_runs == v.test_runs && w.edits == v.edits && w.files_read == v.files_read
            &&& w.open_threads == v.open_threads
        }),
        forall|t: (u64, Seq<char>, bool, Seq<char>)|
            t.0 > seq ==> #[trigger] run_text(t, Some(seq)) == run_text(t, None),
        forall|t: (u64, Seq<char>, bool, Seq<char>)|
            t.0 <= seq ==> #[trigger] run_text(t, Some(seq)) == run_text(t, None).take(run_head(t).len() as int)
                + "(pre-restore)"@ + run_text(t, None).skip(run_head(t).len() as int),
{
    assert forall|t: (u64, Seq<char>, bool, Seq<char>)| t.0 <= seq implies #[trigger] run_text(t, Some(seq))
        == run_text(t, None).take(run_head(t).len() as int) + "(pre-restore)"@ + run_text(t, None).skip(
        run_head(t).len() as int,
    ) by {
        let head = run_head(t);
        let rest = (if t.3.len() == 0 {
            Seq::empty()
        } else {
            seq![' ', '['] + t.3 + seq![']']
        }) + seq![';', ' '];
        let plain = run_text(t, None);
        assert(plain =~= head + rest);
        assert(plain.take(head.len() as int) =~= head);
        assert(plain.skip(head.len() as int) =~= rest);
        assert(run_text(t, Some(seq)) =~= plain.take(head.len() as int) + "(pre-restore)"@ + plain.skip(
            head.len() as int,
        ));
    }
}


proof fn lemma_first_nonblank_at(ls: Seq<Seq<char>>, k: int, i: int)
    requires
        0 <= i <= k < ls.len(),
        trim(ls[k]).len() > 0,
        forall|j: int| i <= j < k ==> trim(#[trigger] ls[j]).len() == 0,
    ensures
        first_nonblank_line(ls, i) == Some(ls[k]),
    decreases k - i,
{
    if i < k {
        lemma_first_nonblank_at(ls, k, i + 1);
    }
}

/// A scratch-note write or append whose content has a non-blank line
/// opens a thread: afterwards the ledger's open threads end with the
/// content's first non-blank line (cut to 80 characters), after the
/// earlier threads (the oldest dropped once the shown cap is full).
pub proof fn law_note_write_or_append_opens_a_thread(
    v: LedgerView,
    seq: u64,
    args: Json,
    result: Json,
    content: Seq<char>,
    k: int,
)
    requires
        v.open_threads.len() <= OPEN_SHOWN,
        as_str(get(args, "op"@)) == Some("append"@) || as_str(get(args, "op"@)) == Some("write"@),
        as_str(get(args, "content"@)) == Some(content),
        0 <= k < lines(content).len(),
        trim(lines(content)[k]).len() > 0,
        forall|j: int| 0 <= j < k ==> trim(#[trigger] lines(content)[j]).len() == 0,
    ensures
        ({
            let w = apply_spec(v, seq, "notes.scratch"@, args, result);
            &&& w.open_threads.len() > 0
            &&& w.open_threads.last() == take_chars(lines(content)[k], 80)
            &&& w.open_threads.drop_last() == (if v.open_threads.len() >= OPEN_SHOWN {
                v.open_threads.drop_first()
            } else {
                v.open_threads
            })
        }),
{
    reveal_strlit("notes.scratch");
    reveal_strlit("repo.read");
    reveal_strlit("edit.apply");
    reveal_strlit("answer.write");
    reveal_strlit("repo.exec");
    reveal_strlit("checker.run");
    reveal_strlit("append");
    reveal_strlit("write");
    lemma_first_nonblank_at(lines(content), k, 0);
    let p = "notes.scratch"@;
    assert(p[0] == 'n');
    assert(p != "repo.read"@ && p != "edit.apply"@ && p != "answer.write"@ && p != "repo.exec"@ && p
        != "checker.run"@) by {
        assert("repo.read"@[0] == 'r' && "edit.apply"@[0] == 'e' && "answer.write"@[0] == 'a'
            && "repo.exec"@[0] == 'r' && "checker.run"@[0] == 'c');
    }
    let calls = if v.last_calls.len() >= LAST_CALLS_CAP {
        v.last_calls.drop_first()
    } else {
        v.last_calls
    };
    let v1 = LedgerView { last_calls: calls.push((p, render(args), norm(args), seq)), ..v };
    assert(apply_spec(v, seq, p, args, result) == fold_call(v1, seq, p, args, result));
    let t = v.open_threads.push(take_chars(lines(content)[k], 80));
    assert(fold_call(v1, seq, p, args, result).open_threads == (if t.len() > OPEN_SHOWN {
        t.drop_first()
    } else {
        t
    }));
    if t.len() > OPEN_SHOWN {
        assert(t.drop_first().drop_last() =~= v.open_threads.drop_first());
    } else {
        assert(t.drop_last() =~= v.open_threads);
    }
}

/// The summary's edits line always ends with the most recent edit.
pub proof fn law_edits_line_ends_with_the_latest_edit(es: Seq<(u64, Seq<char>)>)
    requires
        es.len() > 0,
    ensures
        ({
            let line = edits_section(es);
            let tail = es.last().1 + "@seq"@ + dec(es.last().0 as nat) + seq![';', ' ', '\n'];
            &&& line.len() >= tail.len()
            &&& line.subrange(line.len() - tail.len(), line.len() as int) == tail
        }),
{
    let n = newest(es, EDITS_SHOWN as nat);
    assert(n.len() > 0);
    assert(n.last() == es.last());
    let line = edits_section(es);
    let tail = es.last().1 + "@seq"@ + dec(es.last().0 as nat) + seq![';', ' ', '\n'];
    let head = "edits: "@ + edits_text(n.drop_last());
    assert(line =~= head + tail);
    assert(line.subrange(line.len() - tail.len(), line.len() as int) =~= tail);
}

/// Only the newest `EDITS_SHOWN` edits reach the summary: older edits
/// never change the edits line.
pub proof fn law_edits_line_shows_only_the_newest(es: Seq<(u64, Seq<char>)>)
    requires
        es.len() > EDITS_SHOWN,
    ensures
        edits_section(es) == edits_section(es.skip(es.len() - EDITS_SHOWN)),
{
}

/// With at most `EDITS_SHOWN` edits, every one is listed, oldest first.
pub proof fn law_edits_line_lists_few_edits_whole(es: Seq<(u64, Seq<char>)>)
    requires
        0 < es.len() <= EDITS_SHOWN,
    ensures
        edits_section(es) == "edits: "@ + edits_text(es) + seq!['\n'],
{
}


proof fn lemma_plugin_names_differ()
    ensures
        "repo.read"@ != "edit.apply"@,
        "repo.read"@ != "answer.write"@,
        "repo.read"@ != "repo.exec"@,
        "repo.read"@ != "checker.run"@,
        "repo.read"@ != "notes.scratch"@,
        "edit.apply"@ != "answer.write"@,
        "edit.apply"@ != "repo.exec"@,
        "edit.apply"@ != "checker.run"@,
        "edit.apply"@ != "notes.scratch"@,
        "answer.write"@ != "repo.exec"@,
        "answer.write"@ != "checker.run"@,
        "answer.write"@ != "notes.scratch"@,
        "repo.exec"@ != "checker.run"@,
        "repo.exec"@ != "notes.scratch"@,
        "checker.run"@ != "notes.scratch"@,
{
    reveal_strlit("repo.read");
    reveal_strlit("edit.apply");
    reveal_strlit("answer.write");
    reveal_strlit("repo.exec");
    reveal_strlit("checker.run");
    reveal_strlit("notes.scratch");
    assert("repo.read"@.len() == 9 && "repo.read"@[5] == 'r');
    assert("edit.apply"@.len() == 10 && "edit.apply"@[0] == 'e');
    assert("answer.write"@.len() == 12 && "answer.write"@[0] == 'a');
    assert("repo.exec"@.len() == 9 && "repo.exec"@[5] == 'e');
    assert("checker.run"@.len() == 11 && "checker.run"@[0] == 'c');
    assert("notes.scratch"@.len() == 13);
}

/// Every call is remembered: afterwards the newest remembered call is this
/// one (its plugin, compact args and seq), after the earlier ones (the
/// oldest forgotten at the cap), and `last_seq` reads its seq.
pub proof fn law_every_call_is_remembered(v: LedgerView, seq: u64, plugin: Seq<char>, args: Json, result: Json)
    ensures
        ({
            let w = apply_spec(v, seq, plugin, args, result);
            &&& w.last_calls.len() > 0
            &&& w.last_calls.last().0 == plugin
            &&& w.last_calls.last().1 == render(args)
            &&& w.last_calls.last().3 == seq
            &&& w.last_calls.drop_last() == (if v.last_calls.len() >= LAST_CALLS_CAP {
                v.last_calls.drop_first()
            } else {
                v.last_calls
            })
            &&& last_seq_spec(w) == seq
        }),
{
    let calls = if v.last_calls.len() >= LAST_CALLS_CAP {
        v.last_calls.drop_first()
    } else {
        v.last_calls
    };
    let v1 = LedgerView { last_calls: calls.push((plugin, render(args), norm(args), seq)), ..v };
    assert(v1.last_calls.drop_last() =~= calls);
}

/// An answer write with a path records that path as the newest edit at
/// this seq, after every earlier edit; nothing else but the remembered
/// calls changes.
pub proof fn law_answer_write_records_an_edit(v: LedgerView, seq: u64, args: Json, result: Json, path: Seq<char>)
    requires
        as_str(get(args, "path"@)) == Some(path),
    ensures
        ({
            let w = apply_spec(v, seq, "answer.write"@, args, result);
            &&& w.edits == v.edits.push((seq, path))
            &&& w.test_runs == v.test_runs && w.open_threads == v.open_threads && w.files_read == v.files_read
            &&& w.model_ran == v.model_ran
        }),
{
    lemma_plugin_names_differ();
}

/// An applied `repo.exec` records a test run at this seq: its command cut
/// to 60 characters, passing exactly when the exit code is 0, with the
/// output's tail; and it counts as the model's own verification. One that
/// was not applied records nothing.
pub proof fn law_repo_exec_records_a_run(v: LedgerView, seq: u64, args: Json, result: Json, cmd: Seq<char>)
    requires
        as_str(get(args, "command"@)) == Some(cmd),
    ensures
        ({
            let w = apply_spec(v, seq, "repo.exec"@, args, result);
            &&& as_bool(get(result, "applied"@)) == Some(true) ==> {
                &&& w.test_runs == v.test_runs.push(
                    (seq, take_chars(cmd, 60), as_i64(get(result, "exit_code"@)) == Some(0i64), output_tail_spec(result)),
                )
                &&& w.model_ran
            }
            &&& as_bool(get(result, "applied"@)) != Some(true) ==> w.test_runs == v.test_runs && w.model_ran
                == v.model_ran
            &&& w.edits == v.edits && w.open_threads == v.open_threads && w.files_read == v.files_read
        }),
{
    lemma_plugin_names_differ();
}

/// A checker run records a `checker` test run at this seq, passing exactly
/// when the checker reports `passed: true`; it is never the model's own
/// verification.
pub proof fn law_checker_run_records_a_run(v: LedgerView, seq: u64, args: Json, result: Json)
    ensures
        ({
            let w = apply_spec(v, seq, "checker.run"@, args, result);
            &&& w.test_runs == v.test_runs.push(
                (seq, "checker"@, as_bool(get(result, "passed"@)) == Some(true), Seq::empty()),
            )
            &&& w.model_ran == v.model_ran
            &&& w.edits == v.edits && w.open_threads == v.open_threads && w.files_read == v.files_read
        }),
{
    lemma_plugin_names_differ();
}

/// A plugin the ledger does not read changes nothing but the remembered
/// calls.
pub proof fn law_other_plugins_change_only_the_call_record(
    v: LedgerView,
    seq: u64,
    plugin: Seq<char>,
    args: Json,
    result: Json,
)
    requires
        plugin != "repo.read"@,
        plugin != "edit.apply"@,
        plugin != "answer.write"@,
        plugin != "repo.exec"@,
        plugin != "checker.run"@,
        plugin != "notes.scratch"@,
    ensures
        ({
            let w = apply_spec(v, seq, plugin, args, result);
            &&& w.edits == v.edits && w.test_runs == v.test_runs && w.open_threads == v.open_threads
            &&& w.files_read == v.files_read && w.model_ran == v.model_ran
            &&& w.restored_before == v.restored_before
        }),
{
}

/// The summary's tests line always ends with the most recent run, and
/// only the newest `TESTS_SHOWN` runs reach it.
pub proof fn law_tests_line_shows_the_newest_runs(v: LedgerView)
    requires
        v.test_runs.len() > 0,
    ensures
        ({
            let line = tests_section(v);
            let tail = run_text(v.test_runs.last(), v.restored_before) + seq!['\n'];
            &&& line.len() >= tail.len()
            &&& line.subrange(line.len() - tail.len(), line.len() as int) == tail
        }),
        v.test_runs.len() > TESTS_SHOWN ==> tests_section(v) == tests_section(
            LedgerView { test_runs: v.test_runs.skip(v.test_runs.len() - TESTS_SHOWN), ..v },
        ),
{
    let n = newest(v.test_runs, TESTS_SHOWN as nat);
    assert(n.last() == v.test_runs.last());
    let line = tests_section(v);
    let tail = run_text(v.test_runs.last(), v.restored_before) + seq!['\n'];
    let head = "tests: "@ + runs_text(n.drop_last(), v.restored_before);
    assert(line =~= head + tail);
    assert(line.subrange(line.len() - tail.len(), line.len() as int) =~= tail);
}

/// The notes line lists every open thread in order, each after `- `.
pub proof fn law_notes_line_ends_with_the_newest_thread(ns: Seq<Seq<char>>)
    requires
        ns.len() > 0,
    ensures
        ({
            let line = notes_section(ns);
            let tail = seq!['-', ' '] + ns.last() + seq![' ', '\n'];
            &&& line.len() >= tail.len()
            &&& line.subrange(line.len() - tail.len(), line.len() as int) == tail
        }),
{
    let line = notes_section(ns);
    let tail = seq!['-', ' '] + ns.last() + seq![' ', '\n'];
    assert(line =~= ("notes: "@ + notes_text(ns.drop_last())) + tail);
    assert(line.subrange(line.len() - tail.len(), line.len() as int) =~= tail);
}
} // verus!
