//! The REPL's rules: parsing an input line, the path-safe mission id of a
//! goal, command completion, the config-text editors (default model,
//! caps keys), the dollar literal, the resume notice, the /models add
//! wizard, the offered tool surface, the default session directory and the
//! counters a resumed session folds from its stream's history. The
//! terminal, the files and the mission runs live outside.
use vstd::prelude::*;
use crate::json::{as_str, get, get_str, member, Json};
use crate::repexec::{char_pred, split_char, split_where};
use crate::text::{
    chars_eq, chars_of, contains, contains_str, dec, eq_str, extend_chars, extend_str, is_ascii_alnum,
    is_ascii_digit, is_ws, lines, push_dec, slice_chars, starts_with, starts_with_str, string_of, trim, trim_chars,
    trim_end_char, trim_end_char_chars,
};

verus! {

broadcast use vstd::string::group_string_axioms;

/// One parsed input line of the interactive REPL.
#[derive(Debug, Clone, PartialEq, Eq)]
pub enum ReplCommand {
    /// A goal to run end-to-end (any line not starting with a sigil).
    Goal(String),
    Help,
    /// Steps/cost/stream of the current session.
    Status,
    /// Snapshot the mission workdir.
    Snapshot,
    /// Restore the workdir from a snapshot id.
    Restore(String),
    /// Print the input history.
    History,
    /// Print the latest mission's answer artifact.
    LastAnswer,
    Quit,
    /// Sigil-prefixed input that names no command.
    Unknown(String),
}

/// A parsed line as plain values.
pub enum CommandView {
    Goal(Seq<char>),
    Help,
    Status,
    Snapshot,
    Restore(Seq<char>),
    History,
    LastAnswer,
    Quit,
    Unknown(Seq<char>),
}

pub open spec fn command_view(c: ReplCommand) -> CommandView {
    match c {
        ReplCommand::Goal(g) => CommandView::Goal(g@),
        ReplCommand::Help => CommandView::Help,
        ReplCommand::Status => CommandView::Status,
        ReplCommand::Snapshot => CommandView::Snapshot,
        ReplCommand::Restore(id) => CommandView::Restore(id@),
        ReplCommand::History => CommandView::History,
        ReplCommand::LastAnswer => CommandView::LastAnswer,
        ReplCommand::Quit => CommandView::Quit,
        ReplCommand::Unknown(t) => CommandView::Unknown(t@),
    }
}

/// `s` with every leading copy of `p` removed (`trim_start_matches`).
pub open spec fn strip_all_prefix(s: Seq<char>, p: Seq<char>) -> Seq<char>
    decreases s.len(),
{
    if p.len() > 0 && starts_with(s, p) {
        strip_all_prefix(s.skip(p.len() as int), p)
    } else {
        s
    }
}

/// The trimmed line with a leading `/` read as the `:` sigil.
pub open spec fn sigil_normal(line: Seq<char>) -> Seq<char> {
    let t = trim(line);
    if t.len() > 0 && t[0] == '/' {
        seq![':'] + t.skip(1)
    } else {
        t
    }
}

/// What a line means: `/cmd` is the canonical spelling, `:cmd` the
/// alias; any other text is a goal.
pub open spec fn parse_spec(line: Seq<char>) -> CommandView {
    let t = sigil_normal(line);
    if t == ":quit"@ || t == ":q"@ || t == ":exit"@ {
        CommandView::Quit
    } else if t == ":help"@ || t == ":h"@ || t == ":?"@ {
        CommandView::Help
    } else if t == ":status"@ {
        CommandView::Status
    } else if t == ":snapshot"@ {
        CommandView::Snapshot
    } else if starts_with(t, ":restore"@) {
        CommandView::Restore(trim(strip_all_prefix(t, ":restore"@)))
    } else if t == ":history"@ {
        CommandView::History
    } else if t == ":last"@ {
        CommandView::LastAnswer
    } else if t.len() > 0 && t[0] == ':' {
        CommandView::Unknown(t)
    } else {
        CommandView::Goal(t)
    }
}

/// Parse one input line.
pub fn parse_command(line: &str) -> (r: ReplCommand)
    ensures
        command_view(r) == parse_spec(line@),
{
    let lv = chars_of(line);
    let t0 = trim_chars(&lv);
    let t: Vec<char> = if t0.len() > 0 && t0[0] == '/' {
        let mut x: Vec<char> = Vec::new();
        x.push(':');
        let rest = slice_chars(&t0, 1, t0.len());
        extend_chars(&mut x, &rest);
        proof {
            assert(x@ =~= seq![':'] + t0@.skip(1));
        }
        x
    } else {
        t0
    };
    assert(t@ == sigil_normal(line@));
    if eq_str(&t, ":quit") || eq_str(&t, ":q") || eq_str(&t, ":exit") {
        return ReplCommand::Quit;
    }
    if eq_str(&t, ":help") || eq_str(&t, ":h") || eq_str(&t, ":?") {
        return ReplCommand::Help;
    }
    if eq_str(&t, ":status") {
        return ReplCommand::Status;
    }
    if eq_str(&t, ":snapshot") {
        return ReplCommand::Snapshot;
    }
    if starts_with_str(&t, ":restore") {
        let p = chars_of(":restore");
        proof {
            reveal_strlit(":restore");
        }
        let mut rest = t;
        while starts_with_exec_len(&rest, &p)
            invariant
                p@ == ":restore"@,
                p.len() == 8,
                strip_all_prefix(rest@, p@) == strip_all_prefix(sigil_normal(line@), ":restore"@),
            decreases rest.len(),
        {
            rest = slice_chars(&rest, 8, rest.len());
            assert(rest@ =~= rest@);
        }
        let id = trim_chars(&rest);
        return ReplCommand::Restore(string_of(&id));
    }
    if eq_str(&t, ":history") {
        return ReplCommand::History;
    }
    if eq_str(&t, ":last") {
        return ReplCommand::LastAnswer;
    }
    if t.len() > 0 && t[0] == ':' {
        return ReplCommand::Unknown(string_of(&t));
    }
    ReplCommand::Goal(string_of(&t))
}

/// `starts_with` for a non-empty prefix.
fn starts_with_exec_len(s: &Vec<char>, p: &Vec<char>) -> (r: bool)
    ensures
        r == (p.len() > 0 && starts_with(s@, p@)),
{
    p.len() > 0 && crate::text::starts_with_exec(s, p)
}

// -------------------------------------------------------------- slugs ---

/// What `char::to_lowercase` yields for a character.
pub uninterp spec fn lowercase_of(c: char) -> Seq<char>;

/// `char::to_lowercase`, collected. For an ASCII character the mapping is
/// the ASCII one: `A`-`Z` become `a`-`z`, everything else stays.
#[verifier::external_body]
fn char_lowercase(c: char) -> (r: Vec<char>)
    ensures
        r@ == lowercase_of(c),
        'A' <= c <= 'Z' ==> r@ == seq![((c as u32) + 32) as char],
        (c as u32) < 128 && !('A' <= c <= 'Z') ==> r@ == seq![c],
{
    c.to_lowercase().collect()
}

/// One character lowercased: the ASCII mapping for an ASCII character
/// (`A`-`Z` become `a`-`z`, everything else stays), `char::to_lowercase`
/// otherwise.
pub open spec fn lower_char(c: char) -> Seq<char> {
    if 'A' <= c <= 'Z' {
        seq![((c as u32) + 32) as char]
    } else if (c as u32) < 128 {
        seq![c]
    } else {
        lowercase_of(c)
    }
}

/// Every character of `s` lowercased, in order.
pub open spec fn lower_all(s: Seq<char>) -> Seq<char>
    decreases s.len(),
{
    if s.len() == 0 {
        Seq::empty()
    } else {
        lower_all(s.drop_last()) + lower_char(s.last())
    }
}

/// The slug under construction after `cs`: alphanumerics kept, every run
/// of anything else one dash (never a leading one), and nothing added
/// once 40 characters are there. The flag says the last push was a dash.
pub open spec fn slug_fold(cs: Seq<char>) -> (Seq<char>, bool)
    decreases cs.len(),
{
    if cs.len() == 0 {
        (Seq::empty(), false)
    } else {
        let (o, d) = slug_fold(cs.drop_last());
        let c = cs.last();
        if o.len() >= 40 {
            (o, d)
        } else if is_ascii_alnum(c) {
            (o.push(c), false)
        } else if !d && o.len() > 0 {
            (o.push('-'), true)
        } else {
            (o, d)
        }
    }
}

/// The path-safe mission id of a goal (`goal` when nothing survives).
pub open spec fn goal_slug_spec(goal: Seq<char>) -> Seq<char> {
    let t = trim_end_char(slug_fold(lower_all(goal)).0, '-');
    if t.len() == 0 {
        "goal"@
    } else {
        t
    }
}

/// Path-safe mission id from goal text: lowercase, alphanumeric runs
/// joined by single dashes, capped at 40 characters. The id names the
/// work dir, so it never contains a separator.
pub fn goal_slug(goal: &str) -> (r: String)
    ensures
        r@ == goal_slug_spec(goal@),
{
    let gv = chars_of(goal);
    let mut out: Vec<char> = Vec::new();
    let mut dash = false;
    let mut i: usize = 0;
    let ghost mut lowered: Seq<char> = Seq::empty();
    assert(gv@.take(0) =~= Seq::<char>::empty());
    while i < gv.len()
        invariant
            i <= gv.len(),
            lowered == lower_all(gv@.take(i as int)),
            (out@, dash) == slug_fold(lowered),
        decreases gv.len() - i,
    {
        let lc = char_lowercase(gv[i]);
        assert(lc@ == lower_char(gv@[i as int]));
        let mut j: usize = 0;
        let ghost base = lowered;
        while j < lc.len()
            invariant
                j <= lc.len(),
                lowered == base + lc@.take(j as int),
                (out@, dash) == slug_fold(lowered),
            decreases lc.len() - j,
        {
            let c = lc[j];
            proof {
                let nl = base + lc@.take(j + 1);
                assert(nl.drop_last() =~= lowered);
                assert(nl.last() == c);
                lowered = nl;
            }
            if out.len() >= 40 {
            } else if crate::text::char_is_ascii_alnum(c) {
                out.push(c);
                dash = false;
            } else if !dash && out.len() > 0 {
                out.push('-');
                dash = true;
            }
            j += 1;
        }
        proof {
            assert(lc@.take(lc.len() as int) =~= lc@);
            assert(gv@.take(i + 1).drop_last() =~= gv@.take(i as int));
            assert(gv@.take(i + 1).last() == gv@[i as int]);
        }
        i += 1;
    }
    proof {
        assert(gv@.take(gv.len() as int) =~= gv@);
    }
    let t = trim_end_char_chars(&out, '-');
    if t.len() == 0 {
        proof {
            reveal_strlit("goal");
        }
        string_of(&chars_of("goal"))
    } else {
        string_of(&t)
    }
}

// ---------------------------------------------------------- dollars ---

/// Six-digit zero-padded `n < 10^6`.
pub open spec fn six_digits(n: nat) -> Seq<char> {
    seq![
        crate::text::digit((n / 100000) % 10),
        crate::text::digit((n / 10000) % 10),
        crate::text::digit((n / 1000) % 10),
        crate::text::digit((n / 100) % 10),
        crate::text::digit((n / 10) % 10),
        crate::text::digit(n % 10),
    ]
}

/// `s` without its trailing zeros.
pub open spec fn trim_zeros(s: Seq<char>) -> Seq<char> {
    trim_end_char(s, '0')
}

/// The dollar figure of `micros` as a TOML float literal: whole dollars,
/// a point, and the fraction's digits without trailing zeros - at least
/// one digit (`100.0`, `1.5`, `0.000001`).
pub open spec fn usd_literal_spec(micros: u64) -> Seq<char> {
    let whole = (micros / 1_000_000) as nat;
    let frac = trim_zeros(six_digits((micros % 1_000_000) as nat));
    dec(whole) + seq!['.'] + if frac.len() == 0 {
        seq!['0']
    } else {
        frac
    }
}

/// Canonical TOML literal for a dollar figure: always a float, so a
/// whole-dollar cap never reads back as an integer.
pub fn usd_literal(micros: u64) -> (r: String)
    ensures
        r@ == usd_literal_spec(micros),
{
    let whole = micros / 1_000_000;
    let frac = micros % 1_000_000;
    let mut digits: Vec<char> = Vec::new();
    let mut p: u64 = 100000;
    let mut k: usize = 0;
    while k < 6
        invariant
            k <= 6,
            frac < 1_000_000,
            p == (if k == 0 { 100000u64 } else if k == 1 { 10000u64 } else if k == 2 { 1000u64 } else if k
                == 3 { 100u64 } else if k == 4 { 10u64 } else if k == 5 { 1u64 } else { 0u64 }),
            digits@ == six_digits(frac as nat).take(k as int),
        decreases 6 - k,
    {
        let d = (frac / p) % 10;
        let c = if d == 0 { '0' } else if d == 1 { '1' } else if d == 2 { '2' } else if d == 3 {
            '3'
        } else if d == 4 { '4' } else if d == 5 { '5' } else if d == 6 { '6' } else if d == 7 {
            '7'
        } else if d == 8 { '8' } else { '9' };
        assert(c == crate::text::digit(d as nat));
        digits.push(c);
        assert(digits@ =~= six_digits(frac as nat).take(k + 1));
        p = p / 10;
        k += 1;
    }
    assert(digits@ =~= six_digits(frac as nat));
    let t = trim_end_char_chars(&digits, '0');
    let mut out = crate::text::dec_u64(whole);
    out.push('.');
    if t.len() == 0 {
        out.push('0');
    } else {
        extend_chars(&mut out, &t);
    }
    string_of(&out)
}

// -------------------------------------------------------- mission ids ---

/// The slug with the `-n` suffix.
pub open spec fn suffixed(base: Seq<char>, n: nat) -> Seq<char> {
    base + "-"@ + dec(n)
}

/// Only so many suffixed ids can all be taken: each takes a distinct
/// entry of `used`.
proof fn lemma_suffix_pigeonhole(used: Seq<Seq<char>>, base: Seq<char>, n: int)
    requires
        2 <= n,
        forall|m: int| 2 <= m < n ==> used.contains(#[trigger] suffixed(base, m as nat)),
    ensures
        n - 2 <= used.len(),
{
    broadcast use vstd::seq_lib::seq_to_set_is_finite;

    reveal_strlit("-");
    let x = vstd::set_lib::set_int_range(2, n);
    vstd::set_lib::lemma_int_range(2, n);
    let f = |m: int| suffixed(base, m as nat);
    assert forall|a: int, b: int| x.contains(a) && x.contains(b) && #[trigger] f(a) == #[trigger] f(b) implies a
        == b by {
        assert(f(a).skip(base.len() + 1int) =~= dec(a as nat));
        assert(f(b).skip(base.len() + 1int) =~= dec(b as nat));
        crate::text::lemma_dec_injective(a as nat, b as nat);
    }
    assert(vstd::relations::injective_on(f, x));
    let y = x.map(f);
    vstd::set_lib::lemma_map_size(x, y, f);
    assert forall|v: Seq<char>| y.contains(v) implies used.to_set().contains(v) by {
        let m = choose|m: int| x.contains(m) && f(m) == v;
        assert(used.contains(suffixed(base, m as nat)));
    }
    used.lemma_cardinality_of_set();
    vstd::set_lib::lemma_len_subset(y, used.to_set());
}

fn contains_string(v: &Vec<String>, s: &Vec<char>) -> (r: bool)
    ensures
        r == crate::text::strings_view(v@).contains(s@),
{
    let ghost sv = crate::text::strings_view(v@);
    let mut i: usize = 0;
    while i < v.len()
        invariant
            i <= v.len(),
            sv == crate::text::strings_view(v@),
            forall|k: int| 0 <= k < i ==> sv[k] != s@,
        decreases v.len() - i,
    {
        assert(sv[i as int] == v@[i as int]@);
        let c = chars_of(v[i].as_str());
        if chars_eq(&c, s) {
            assert(sv[i as int] == s@);
            return true;
        }
        i += 1;
    }
    proof {
        if sv.contains(s@) {
            let k = choose|k: int| 0 <= k < sv.len() && sv[k] == s@;
            assert(sv[k] != s@);
        }
    }
    false
}

/// The mission id for a goal: its slug, or - when the slug is taken - the
/// slug with the first free `-n` suffix, `n` counting from 2.
pub fn mission_id_for(used_ids: &Vec<String>, goal: &str) -> (r: String)
    requires
        used_ids.len() <= usize::MAX - 2,
    ensures
        ({
            let used = crate::text::strings_view(used_ids@);
            let base = goal_slug_spec(goal@);
            &&& !used.contains(base) ==> r@ == base
            &&& used.contains(base) ==> exists|n: nat|
                n >= 2 && r@ == suffixed(base, n) && !used.contains(r@) && forall|m: nat|
                    2 <= m < n ==> used.contains(#[trigger] suffixed(base, m))
        }),
{
    let ghost used = crate::text::strings_view(used_ids@);
    let slug = goal_slug(goal);
    let base = chars_of(slug.as_str());
    if !contains_string(used_ids, &base) {
        return slug;
    }
    let mut n: usize = 2;
    loop
        invariant
            2 <= n <= used_ids.len() + 2,
            used == crate::text::strings_view(used_ids@),
            used_ids.len() <= usize::MAX - 2,
            base@ == goal_slug_spec(goal@),
            used.contains(base@),
            forall|m: nat| 2 <= m < n ==> used.contains(#[trigger] suffixed(base@, m)),
        decreases used_ids.len() + 2 - n,
    {
        let mut cand = base.clone();
        cand.push('-');
        push_dec(&mut cand, n as u64);
        proof {
            reveal_strlit("-");
        }
        assert(cand@ =~= suffixed(base@, n as nat));
        if !contains_string(used_ids, &cand) {
            return string_of(&cand);
        }
        proof {
            assert forall|m: int| 2 <= m < n + 1 implies used.contains(#[trigger] suffixed(base@, m as nat)) by {
                if m < n {
                    assert(used.contains(suffixed(base@, m as nat)));
                }
            }
            lemma_suffix_pigeonhole(used, base@, n + 1);
        }
        n += 1;
    }
}

// ---------------------------------------------------------- previews ---

/// The first 59 characters and an ellipsis, when `s` is longer than 60.
pub open spec fn truncate60_spec(s: Seq<char>) -> Seq<char> {
    if s.len() <= 60 {
        s
    } else {
        s.take(59).push('\u{2026}')
    }
}

/// A preview of at most 60 characters.
pub fn truncate60(s: &str) -> (r: String)
    ensures
        r@ == truncate60_spec(s@),
{
    let v = chars_of(s);
    if v.len() <= 60 {
        return string_of(&v);
    }
    let mut t = slice_chars(&v, 0, 59);
    t.push('\u{2026}');
    assert(t@ =~= s@.take(59).push('\u{2026}'));
    string_of(&t)
}

/// The resume banner when the last mission ended at a cap.
pub open spec fn capped_notice_spec(outcome: Option<Seq<char>>) -> Option<Seq<char>> {
    match outcome {
        None => None,
        Some(o) => if contains(o, "exhausted"@) || contains(o, "killed"@) {
            Some(
                "\u{26a0} last mission ended at the cap ("@ + o
                    + ") - raise it with /caps (e.g. /caps steps 100) before re-running the goal"@,
            )
        } else {
            None
        },
    }
}

/// Resuming a session whose last mission died at a cap says so and names
/// the fix; a clean outcome stays quiet. `outcome` is the last goal
/// update's outcome text.
pub fn capped_resume_notice(outcome: Option<&str>) -> (r: Option<String>)
    ensures
        match r {
            Some(t) => capped_notice_spec(crate::text::opt_str(outcome)) == Some(t@),
            None => capped_notice_spec(crate::text::opt_str(outcome)) is None,
        },
{
    let o = match outcome {
        Some(o) => o,
        None => return None,
    };
    let ov = chars_of(o);
    if !(contains_str(&ov, "exhausted") || contains_str(&ov, "killed")) {
        return None;
    }
    let mut t = chars_of("\u{26a0} last mission ended at the cap (");
    extend_chars(&mut t, &ov);
    extend_str(
        &mut t,
        ") - raise it with /caps (e.g. /caps steps 100) before re-running the goal",
    );
    Some(string_of(&t))
}

// -------------------------------------------------------- completion ---

/// The REPL's commands, in completion order.
pub open spec fn repl_commands() -> Seq<Seq<char>> {
    seq![":help"@, ":history"@, ":last"@, ":quit"@, ":restore"@, ":snapshot"@, ":status"@]
}

/// The commands whose name (after the sigil) starts with `want`, each
/// spelled with `sigil`.
pub open spec fn completions_from(cmds: Seq<Seq<char>>, sigil: char, want: Seq<char>) -> Seq<Seq<char>>
    decreases cmds.len(),
{
    if cmds.len() == 0 {
        Seq::empty()
    } else {
        let rest = completions_from(cmds.drop_last(), sigil, want);
        let c = cmds.last();
        if starts_with(c.skip(1), want) {
            rest.push(seq![sigil] + c.skip(1))
        } else {
            rest
        }
    }
}

/// Completions for a command prefix: sigil-prefixed input (`/`
/// canonical, `:` the alias) completes to the commands it starts; goal
/// text never does.
pub open spec fn completions_spec(prefix: Seq<char>) -> Seq<Seq<char>> {
    if prefix.len() > 0 && (prefix[0] == '/' || prefix[0] == ':') {
        completions_from(repl_commands(), prefix[0], prefix.skip(1))
    } else {
        Seq::empty()
    }
}

/// Completions for a command prefix.
pub fn command_completions(prefix: &str) -> (r: Vec<String>)
    ensures
        r@.map_values(|s: String| s@) == completions_spec(prefix@),
{
    let pv = chars_of(prefix);
    if pv.len() == 0 || !(pv[0] == '/' || pv[0] == ':') {
        let r: Vec<String> = Vec::new();
        assert(r@.map_values(|s: String| s@) =~= Seq::<Seq<char>>::empty());
        return r;
    }
    let sigil = pv[0];
    let want = slice_chars(&pv, 1, pv.len());
    let mut cmds: Vec<Vec<char>> = Vec::new();
    cmds.push(chars_of(":help"));
    cmds.push(chars_of(":history"));
    cmds.push(chars_of(":last"));
    cmds.push(chars_of(":quit"));
    cmds.push(chars_of(":restore"));
    cmds.push(chars_of(":snapshot"));
    cmds.push(chars_of(":status"));
    let ghost cv = cmds@.map_values(|c: Vec<char>| c@);
    assert(cv =~= repl_commands());
    proof {
        reveal_strlit(":help");
        reveal_strlit(":history");
        reveal_strlit(":last");
        reveal_strlit(":quit");
        reveal_strlit(":restore");
        reveal_strlit(":snapshot");
        reveal_strlit(":status");
    }
    let mut out: Vec<String> = Vec::new();
    let mut i: usize = 0;
    assert(cv.take(0) =~= Seq::<Seq<char>>::empty());
    while i < cmds.len()
        invariant
            i <= cmds.len(),
            cv == cmds@.map_values(|c: Vec<char>| c@),
            forall|k: int| 0 <= k < cv.len() ==> (#[trigger] cv[k]).len() >= 1,
            want@ == pv@.skip(1),
            out@.map_values(|s: String| s@) == completions_from(cv.take(i as int), sigil, want@),
        decreases cmds.len() - i,
    {
        let c = &cmds[i];
        assert(cv[i as int].len() >= 1);
        let name = slice_chars(c, 1, c.len());
        proof {
            assert(cv.take(i + 1).drop_last() =~= cv.take(i as int));
            assert(cv.take(i + 1).last() == c@);
            assert(name@ =~= c@.skip(1));
        }
        if crate::text::starts_with_exec(&name, &want) {
            let mut s: Vec<char> = Vec::new();
            s.push(sigil);
            extend_chars(&mut s, &name);
            let st = string_of(&s);
            proof {
                assert(s@ =~= seq![sigil] + c@.skip(1));
                assert(out@.push(st).map_values(|s: String| s@) =~= out@.map_values(|s: String| s@).push(
                    st@,
                ));
            }
            out.push(st);
        }
        i += 1;
    }
    assert(cv.take(cmds.len() as int) =~= cv);
    out
}

// -------------------------------------------------------- validators ---

/// A provider name keeps the `HS_<NAME>_API_KEY` convention derivable:
/// lowercase letters, digits and dashes, not starting with a dash.
pub open spec fn valid_provider_name_spec(name: Seq<char>) -> bool {
    &&& name.len() > 0
    &&& forall|i: int| 0 <= i < name.len() ==> ('a' <= #[trigger] name[i] <= 'z' || is_ascii_digit(name[i]) || name[i] == '-')
    &&& name[0] != '-'
}

pub fn valid_provider_name(name: &str) -> (r: bool)
    ensures
        r == valid_provider_name_spec(name@),
{
    let v = chars_of(name);
    if v.len() == 0 {
        return false;
    }
    let mut i: usize = 0;
    while i < v.len()
        invariant
            i <= v.len(),
            v@ == name@,
            forall|k: int| 0 <= k < i ==> ('a' <= #[trigger] v@[k] <= 'z' || is_ascii_digit(v@[k]) || v@[k] == '-'),
        decreases v.len() - i,
    {
        let c = v[i];
        if !(('a' <= c && c <= 'z') || ('0' <= c && c <= '9') || c == '-') {
            assert(!('a' <= name@[i as int] <= 'z' || is_ascii_digit(name@[i as int]) || name@[i as int] == '-'));
            return false;
        }
        i += 1;
    }
    v[0] != '-'
}

/// An http(s) URL with a non-empty rest free of whitespace and quotes.
pub open spec fn valid_base_url_spec(url: Seq<char>) -> bool {
    let rest = if starts_with(url, "https://"@) {
        Some(url.skip(8))
    } else if starts_with(url, "http://"@) {
        Some(url.skip(7))
    } else {
        None
    };
    match rest {
        Some(r) => r.len() > 0 && url_clean(r),
        None => false,
    }
}

/// No whitespace and no quote.
pub open spec fn url_clean(r: Seq<char>) -> bool {
    forall|i: int| 0 <= i < r.len() ==> !is_ws(#[trigger] r[i]) && r[i] != '"'
}

pub fn valid_base_url(url: &str) -> (r: bool)
    ensures
        r == valid_base_url_spec(url@),
{
    let v = chars_of(url);
    proof {
        reveal_strlit("https://");
        reveal_strlit("http://");
    }
    let start: usize = if starts_with_str(&v, "https://") {
        8
    } else if starts_with_str(&v, "http://") {
        7
    } else {
        return false;
    };
    let rest = slice_chars(&v, start, v.len());
    assert(rest@ =~= url@.skip(start as int));
    rest.len() > 0 && url_rest_clean(&rest)
}

/// No whitespace and no quote in `v`.
fn url_rest_clean(v: &Vec<char>) -> (r: bool)
    ensures
        r == url_clean(v@),
{
    let mut i: usize = 0;
    while i < v.len()
        invariant
            i <= v.len(),
            forall|k: int| 0 <= k < i ==> !is_ws(#[trigger] v@[k]) && v@[k] != '"',
        decreases v.len() - i,
    {
        if crate::text::char_is_ws(v[i]) || v[i] == '"' {
            assert(!(!is_ws(v@[i as int]) && v@[i as int] != '"'));
            return false;
        }
        i += 1;
    }
    true
}

/// A non-empty model id without newlines or quotes.
pub open spec fn valid_model_id_spec(model: Seq<char>) -> bool {
    model.len() > 0 && forall|i: int| 0 <= i < model.len() ==> #[trigger] model[i] != '\n' && model[i] != '"'
}

pub fn valid_model_id(model: &str) -> (r: bool)
    ensures
        r == valid_model_id_spec(model@),
{
    let v = chars_of(model);
    if v.len() == 0 {
        return false;
    }
    let mut i: usize = 0;
    while i < v.len()
        invariant
            i <= v.len(),
            v@ == model@,
            forall|k: int| 0 <= k < i ==> #[trigger] v@[k] != '\n' && v@[k] != '"',
        decreases v.len() - i,
    {
        if v[i] == '\n' || v[i] == '"' {
            assert(!(model@[i as int] != '\n' && model@[i as int] != '"'));
            return false;
        }
        i += 1;
    }
    true
}

// ---------------------------------------------------------- /models add ---

/// What one wizard line produces.
#[derive(Debug)]
pub enum WizardFeed {
    /// The next prompt to print.
    Next(&'static str),
    /// All four fields collected.
    Ready { name: String, base_url: String, model: String, key: String },
    Cancelled,
}

/// The wizard's step.
#[derive(Debug, Clone, Copy, PartialEq, Eq, Structural)]
pub enum WizardStep {
    Name,
    BaseUrl,
    Model,
    Key,
}

/// The /models add conversation: name, then base URL, then model id, then
/// key. Pure state; the composer drives it (the key step is secret).
#[derive(Debug)]
pub struct AddProviderWizard {
    step: WizardStep,
    name: String,
    base_url: String,
    model: String,
}

/// The prompt for a step.
pub open spec fn prompt_spec(step: WizardStep) -> Seq<char> {
    match step {
        WizardStep::Name => "provider name (lowercase, e.g. openrouter):"@,
        WizardStep::BaseUrl => "base URL (the chat completions endpoint, e.g. https://openrouter.ai/api/v1/chat/completions):"@,
        WizardStep::Model => "model id (e.g. openai/gpt-5.2):"@,
        WizardStep::Key => "API key (input hidden, never written to history):"@,
    }
}

/// What `format!("{:?}", s)` writes for a string.
pub uninterp spec fn debug_text(s: Seq<char>) -> Seq<char>;

/// The Debug rendering of a string (quoted and escaped).
#[verifier::external_body]
pub(crate) fn debug_str(s: &str) -> (r: String)
    ensures
        r@ == debug_text(s@),
{
    format!("{:?}", s)
}

/// Whether a key holds whitespace.
pub open spec fn has_ws(s: Seq<char>) -> bool {
    exists|i: int| 0 <= i < s.len() && is_ws(#[trigger] s[i])
}

fn has_ws_exec(v: &Vec<char>) -> (r: bool)
    ensures
        r == has_ws(v@),
{
    let mut i: usize = 0;
    while i < v.len()
        invariant
            i <= v.len(),
            forall|k: int| 0 <= k < i ==> !is_ws(#[trigger] v@[k]),
        decreases v.len() - i,
    {
        if crate::text::char_is_ws(v[i]) {
            return true;
        }
        i += 1;
    }
    false
}

impl Default for AddProviderWizard {
    fn default() -> (r: Self)
        ensures
            r.step() == WizardStep::Name,
            r.fields() == (Seq::<char>::empty(), Seq::<char>::empty(), Seq::<char>::empty()),
    {
        Self::new()
    }
}

impl AddProviderWizard {
    /// The step the wizard is on.
    pub closed spec fn step(&self) -> WizardStep {
        self.step
    }

    /// The name, base URL and model collected so far.
    pub closed spec fn fields(&self) -> (Seq<char>, Seq<char>, Seq<char>) {
        (self.name@, self.base_url@, self.model@)
    }

    /// A wizard at its first step, nothing collected.
    pub fn new() -> (r: Self)
        ensures
            r.step() == WizardStep::Name,
            r.fields() == (Seq::<char>::empty(), Seq::<char>::empty(), Seq::<char>::empty()),
    {
        AddProviderWizard {
            step: WizardStep::Name,
            name: String::new(),
            base_url: String::new(),
            model: String::new(),
        }
    }

    /// The prompt for the step the wizard is on.
    pub fn prompt(&self) -> (r: &'static str)
        ensures
            r@ == prompt_spec(self.step()),
    {
        match self.step {
            WizardStep::Name => "provider name (lowercase, e.g. openrouter):",
            WizardStep::BaseUrl => "base URL (the chat completions endpoint, e.g. https://openrouter.ai/api/v1/chat/completions):",
            WizardStep::Model => "model id (e.g. openai/gpt-5.2):",
            WizardStep::Key => "API key (input hidden, never written to history):",
        }
    }

    /// The key step hides the composer input.
    pub fn is_secret(&self) -> (r: bool)
        ensures
            r == (self.step() == WizardStep::Key),
    {
        match self.step {
            WizardStep::Key => true,
            _ => false,
        }
    }

    /// One line of input. `/cancel` cancels at any step; an empty line is
    /// refused; each step validates its value and moves on; the key step
    /// returns all four fields (the key is never stored).
    pub fn feed(&mut self, line: &str) -> (r: Result<WizardFeed, String>)
        ensures
            ({
                let v = trim(line@);
                let st = old(self).step();
                let f = old(self).fields();
                if v == "/cancel"@ {
                    r matches Ok(WizardFeed::Cancelled) && final(self).step() == st && final(self).fields() == f
                } else if v.len() == 0 {
                    r matches Err(e) && e@ == "empty - type a value, or /cancel to stop"@ && final(self).step() == st
                        && final(self).fields() == f
                } else {
                    match st {
                        WizardStep::Name => if valid_provider_name_spec(v) {
                            r matches Ok(WizardFeed::Next(p)) && p@ == prompt_spec(WizardStep::BaseUrl)
                                && final(self).step() == WizardStep::BaseUrl && final(self).fields() == (v, f.1, f.2)
                        } else {
                            r matches Err(e) && e@ == "bad name "@ + debug_text(v) + " - lowercase letters, digits, dashes"@
                                && final(self).step() == st && final(self).fields() == f
                        },
                        WizardStep::BaseUrl => if valid_base_url_spec(v) {
                            r matches Ok(WizardFeed::Next(p)) && p@ == prompt_spec(WizardStep::Model)
                                && final(self).step() == WizardStep::Model && final(self).fields() == (f.0, v, f.2)
                        } else {
                            r matches Err(e) && e@ == "bad base URL "@ + debug_text(v) + " - starts http:// or https://"@
                                && final(self).step() == st && final(self).fields() == f
                        },
                        WizardStep::Model => if valid_model_id_spec(v) {
                            r matches Ok(WizardFeed::Next(p)) && p@ == prompt_spec(WizardStep::Key)
                                && final(self).step() == WizardStep::Key && final(self).fields() == (f.0, f.1, v)
                        } else {
                            r matches Err(e) && e@ == "bad model id "@ + debug_text(v)
                                && final(self).step() == st && final(self).fields() == f
                        },
                        WizardStep::Key => if has_ws(v) {
                            r matches Err(e) && e@ == "the key contains whitespace - paste it exactly as issued"@
                                && final(self).step() == st && final(self).fields() == f
                        } else {
                            r matches Ok(WizardFeed::Ready { name, base_url, model, key }) && name@ == f.0
                                && base_url@ == f.1 && model@ == f.2 && key@ == v && final(self).step() == st
                                && final(self).fields() == f
                        },
                    }
                }
            }),
    {
        let lv = chars_of(line);
        let vv = trim_chars(&lv);
        let v = string_of(&vv);
        if eq_str(&vv, "/cancel") {
            return Ok(WizardFeed::Cancelled);
        }
        if vv.len() == 0 {
            return Err(string_of(&chars_of("empty - type a value, or /cancel to stop")));
        }
        match self.step {
            WizardStep::Name => {
                if !valid_provider_name(v.as_str()) {
                    let mut t = chars_of("bad name ");
                    let d = debug_str(v.as_str());
                    extend_str(&mut t, d.as_str());
                    extend_str(&mut t, " - lowercase letters, digits, dashes");
                    return Err(string_of(&t));
                }
                self.name = v;
                self.step = WizardStep::BaseUrl;
                Ok(WizardFeed::Next(self.prompt()))
            },
            WizardStep::BaseUrl => {
                if !valid_base_url(v.as_str()) {
                    let mut t = chars_of("bad base URL ");
                    let d = debug_str(v.as_str());
                    extend_str(&mut t, d.as_str());
                    extend_str(&mut t, " - starts http:// or https://");
                    return Err(string_of(&t));
                }
                self.base_url = v;
                self.step = WizardStep::Model;
                Ok(WizardFeed::Next(self.prompt()))
            },
            WizardStep::Model => {
                if !valid_model_id(v.as_str()) {
                    let mut t = chars_of("bad model id ");
                    let d = debug_str(v.as_str());
                    extend_str(&mut t, d.as_str());
                    return Err(string_of(&t));
                }
                self.model = v;
                self.step = WizardStep::Key;
                Ok(WizardFeed::Next(self.prompt()))
            },
            WizardStep::Key => {
                if has_ws_exec(&vv) {
                    return Err(string_of(&chars_of("the key contains whitespace - paste it exactly as issued")));
                }
                Ok(
                    WizardFeed::Ready {
                        name: self.name.clone(),
                        base_url: self.base_url.clone(),
                        model: self.model.clone(),
                        key: v,
                    },
                )
            },
        }
    }
}

// ------------------------------------------------------ config texts ---

/// A section header line (`[...]` after trimming).
pub open spec fn is_header(l: Seq<char>) -> bool {
    starts_with(trim(l), "["@)
}

/// The value after the first `=` of a line: trimmed, quotes stripped.
pub open spec fn eq_value(t: Seq<char>) -> Option<Seq<char>> {
    match crate::text::find_char_from(t, '=', 0) {
        Some(eq) => Some(trim_end_char(crate::text::trim_start_char(trim(t.skip(eq + 1)), '"'), '"')),
        None => None,
    }
}

/// The value of a `name = ...` line: trimmed, quotes stripped.
pub open spec fn name_of(l: Seq<char>) -> Option<Seq<char>> {
    let t = trim(l);
    if starts_with(t, "name"@) {
        eq_value(t)
    } else {
        None
    }
}

fn eq_value_exec(t: &Vec<char>) -> (r: Option<Vec<char>>)
    ensures
        match r {
            Some(v) => eq_value(t@) == Some(v@),
            None => eq_value(t@) is None,
        },
{
    match crate::text::find_char_from_exec(t, '=', 0) {
        Some(eq) => {
            proof {
                crate::text::lemma_find_char_from_some(t@, '=', 0);
            }
            assert(eq < t.len());
            let rest = slice_chars(t, eq + 1, t.len());
            assert(rest@ =~= t@.skip(eq + 1));
            let r1 = trim_chars(&rest);
            let r2 = crate::text::trim_start_char_chars(&r1, '"');
            Some(trim_end_char_chars(&r2, '"'))
        },
        None => None,
    }
}

/// The header line that owns line `i`: the last header at or before it.
pub open spec fn owner(ls: Seq<Seq<char>>, i: int) -> Option<int>
    decreases i + 1,
{
    if i < 0 || i >= ls.len() {
        None
    } else if is_header(ls[i]) {
        Some(i)
    } else {
        owner(ls, i - 1)
    }
}

/// Line `i` lies in a `[[models]]` block.
pub open spec fn in_models(ls: Seq<Seq<char>>, i: int) -> bool {
    match owner(ls, i) {
        Some(h) => trim(ls[h]) == "[[models]]"@,
        None => false,
    }
}

/// Line `i` is its models block's first `name` line.
pub open spec fn first_name_line(ls: Seq<Seq<char>>, i: int) -> bool {
    &&& in_models(ls, i)
    &&& name_of(ls[i]) is Some
    &&& forall|j: int| owner(ls, i)->0 <= j < i ==> #[trigger] name_of(ls[j]) is None
}

/// The models' names among the first `k` lines, in order.
pub open spec fn known_names(ls: Seq<Seq<char>>, k: int) -> Seq<Seq<char>>
    decreases k,
{
    if k <= 0 {
        Seq::empty()
    } else {
        let p = known_names(ls, k - 1);
        if first_name_line(ls, k - 1) {
            p.push(name_of(ls[k - 1])->0)
        } else {
            p
        }
    }
}

/// The last first-name line among the first `k` that names `name`.
pub open spec fn target_line(ls: Seq<Seq<char>>, name: Seq<char>, k: int) -> Option<int>
    decreases k,
{
    if k <= 0 {
        None
    } else if first_name_line(ls, k - 1) && name_of(ls[k - 1]) == Some(name) {
        Some(k - 1)
    } else {
        target_line(ls, name, k - 1)
    }
}

/// An active (not commented-out) `default = true` assignment, however
/// it is spaced: `default` and `true` on either side of an `=`.
pub open spec fn is_active_default(l: Seq<char>) -> bool {
    let t = trim(l);
    match crate::text::find_char_from(t, '=', 0) {
        Some(e) => trim(t.take(e)) == "default"@ && trim(t.skip(e + 1)) == "true"@,
        None => false,
    }
}

fn is_active_default_exec(l: &Vec<char>) -> (r: bool)
    ensures
        r == is_active_default(l@),
{
    let t = trim_chars(l);
    match crate::text::find_char_from_exec(&t, '=', 0) {
        Some(e) => {
            proof {
                crate::text::lemma_find_char_from_some(t@, '=', 0);
            }
            let pre = slice_chars(&t, 0, e);
            assert(pre@ =~= t@.take(e as int));
            let post = slice_chars(&t, e + 1, t.len());
            assert(post@ =~= t@.skip(e + 1));
            eq_str(&trim_chars(&pre), "default") && eq_str(&trim_chars(&post), "true")
        },
        None => false,
    }
}

/// The first `k` lines with every active default assignment of a models
/// block dropped and `default = true` added after line `t`.
pub open spec fn flipped_lines(ls: Seq<Seq<char>>, t: int, k: int) -> Seq<Seq<char>>
    decreases k,
{
    if k <= 0 {
        Seq::empty()
    } else {
        let p = flipped_lines(ls, t, k - 1);
        let i = k - 1;
        let kept = if in_models(ls, i) && is_active_default(ls[i]) {
            p
        } else {
            p.push(ls[i])
        };
        if i == t {
            kept.push("default = true"@)
        } else {
            kept
        }
    }
}

/// `joined` plus the final newline of `text`, when `text` had one and
/// `joined` lacks it.
pub open spec fn keep_final_newline(text: Seq<char>, joined: Seq<char>) -> Seq<char> {
    if crate::text::ends_with(text, "\n"@) && !crate::text::ends_with(joined, "\n"@) {
        joined + "\n"@
    } else {
        joined
    }
}

/// Flip the active default across the config's `[[models]]` blocks: the
/// picked block gains `default = true` after its name line, every other
/// block loses its active default; comments and everything else stay.
pub open spec fn set_default_spec(text: Seq<char>, name: Seq<char>) -> Result<Seq<char>, Seq<char>> {
    let ls = lines(text);
    match target_line(ls, name, ls.len() as int) {
        None => Err(
            "unknown model "@ + debug_text(name) + " (known: "@ + crate::text::join(
                known_names(ls, ls.len() as int),
                ", "@,
            ) + ")"@,
        ),
        Some(t) => Ok(keep_final_newline(text, crate::text::join(flipped_lines(ls, t, ls.len() as int), "\n"@))),
    }
}

fn name_of_exec(l: &Vec<char>) -> (r: Option<Vec<char>>)
    ensures
        match r {
            Some(v) => name_of(l@) == Some(v@),
            None => name_of(l@) is None,
        },
{
    let t = trim_chars(l);
    if !starts_with_str(&t, "name") {
        return None;
    }
    eq_value_exec(&t)
}

proof fn lemma_owner_step(ls: Seq<Seq<char>>, i: int)
    requires
        0 <= i < ls.len(),
    ensures
        owner(ls, i) == (if is_header(ls[i]) { Some(i) } else { owner(ls, i - 1) }),
        owner(ls, i) matches Some(h) ==> 0 <= h <= i && is_header(ls[h]),
    decreases i,
{
    if !is_header(ls[i]) && i > 0 {
        lemma_owner_step(ls, i - 1);
    }
}

/// Point the config's default model at `name` (the text of the config
/// file in, the new text out). An unknown name is an error naming the
/// known ones.
pub fn set_default_model_text(text: &str, name: &str) -> (r: Result<String, String>)
    ensures
        match r {
            Ok(t) => set_default_spec(text@, name@) == Ok::<Seq<char>, Seq<char>>(t@),
            Err(e) => set_default_spec(text@, name@) == Err::<Seq<char>, Seq<char>>(e@),
        },
{
    let tv = chars_of(text);
    let ls = lines_exec_views(&tv);
    let ghost lv = lines(text@);
    let nv = chars_of(name);
    let n = ls.len();
    // Pass 1: the models' first name lines, the known names, the target.
    let mut cur: Option<usize> = None;
    let mut cur_models = false;
    let mut seen = false;
    let mut known: Vec<Vec<char>> = Vec::new();
    let mut target: Option<usize> = None;
    let mut i: usize = 0;
    proof {
        reveal_strlit("[[models]]");
    }
    while i < n
        invariant
            n == ls.len(),
            i <= n,
            lv == ls@.map_values(|x: Vec<char>| x@),
            nv@ == name@,
            cur == (if i == 0 { None } else { match owner(lv, i - 1) { Some(h) => Some(h as usize), None => None } }),
            cur matches Some(h) ==> h < i && cur_models == (trim(lv[h as int]) == "[[models]]"@),
            cur is None ==> !cur_models,
            i > 0 ==> (in_models(lv, i - 1) == cur_models),
            cur matches Some(h) ==> (seen <==> exists|j: int| h <= j < i && #[trigger] name_of(lv[j]) is Some),
            known@.map_values(|x: Vec<char>| x@) == known_names(lv, i as int),
            match target {
                Some(t) => target_line(lv, name@, i as int) == Some(t as int),
                None => target_line(lv, name@, i as int) is None,
            },
        decreases n - i,
    {
        let l = &ls[i];
        let t = trim_chars(l);
        proof {
            lemma_owner_step(lv, i as int);
            assert(lv[i as int] == l@);
        }
        if starts_with_str(&t, "[") {
            cur = Some(i);
            cur_models = eq_str(&t, "[[models]]");
            seen = false;
        }
        let nm = name_of_exec(l);
        let first = cur_models && !seen && nm.is_some();
        proof {
            assert(owner(lv, i as int) == match cur { Some(h) => Some(h as int), None => None });
            assert(in_models(lv, i as int) == cur_models);
            if cur_models {
                let h = cur->0 as int;
                assert forall|j: int| h <= j < i implies !(#[trigger] name_of(lv[j]) is Some) || seen by {}
                if !seen {
                    assert(forall|j: int| owner(lv, i as int)->0 <= j < i ==> #[trigger] name_of(lv[j]) is None);
                }
            }
            assert(first == first_name_line(lv, i as int)) by {
                if cur_models && !seen && nm.is_some() {
                } else if cur_models && seen && nm.is_some() {
                    let h = cur->0 as int;
                    let j = choose|j: int| h <= j < i && #[trigger] name_of(lv[j]) is Some;
                    assert(owner(lv, i as int)->0 <= j < i && !(name_of(lv[j]) is None));
                }
            }
        }
        if first {
            let v = match nm {
                Some(v) => v,
                None => Vec::new(),
            };
            if crate::text::chars_eq(&v, &nv) {
                target = Some(i);
            }
            proof {
                assert(known@.push(v).map_values(|x: Vec<char>| x@) =~= known@.map_values(|x: Vec<char>| x@).push(v@));
            }
            known.push(v);
            seen = true;
        } else if nm.is_some() {
            seen = true;
        }
        i += 1;
    }
    proof {
        lemma_target_line_bound(lv, name@, n as int);
    }
    let t = match target {
        Some(t) => t,
        None => {
            let mut msg = chars_of("unknown model ");
            let d = debug_str(name);
            extend_str(&mut msg, d.as_str());
            extend_str(&mut msg, " (known: ");
            let sep = chars_of(", ");
            let j = crate::text::join_exec(&known, &sep);
            extend_chars(&mut msg, &j);
            extend_str(&mut msg, ")");
            return Err(string_of(&msg));
        },
    };
    // Pass 2: the flipped lines.
    let mut out: Vec<Vec<char>> = Vec::new();
    let mut k: usize = 0;
    let mut cur2: Option<usize> = None;
    let mut models2 = false;
    while k < n
        invariant
            n == ls.len(),
            k <= n,
            t < n,
            lv == ls@.map_values(|x: Vec<char>| x@),
            cur2 == (if k == 0 { None } else { match owner(lv, k - 1) { Some(h) => Some(h as usize), None => None } }),
            cur2 matches Some(h) ==> h < k && models2 == (trim(lv[h as int]) == "[[models]]"@),
            cur2 is None ==> !models2,
            out@.map_values(|x: Vec<char>| x@) == flipped_lines(lv, t as int, k as int),
        decreases n - k,
    {
        let l = &ls[k];
        let tl = trim_chars(l);
        proof {
            lemma_owner_step(lv, k as int);
            assert(lv[k as int] == l@);
            reveal_strlit("default = true");
        }
        if starts_with_str(&tl, "[") {
            cur2 = Some(k);
            models2 = eq_str(&tl, "[[models]]");
        }
        proof {
            assert(in_models(lv, k as int) == models2);
        }
        let ghost before = out@.map_values(|x: Vec<char>| x@);
        if !(models2 && is_active_default_exec(l)) {
            let c = slice_chars(l, 0, l.len());
            assert(c@ =~= l@);
            proof {
                assert(out@.push(c).map_values(|x: Vec<char>| x@) =~= out@.map_values(|x: Vec<char>| x@).push(c@));
            }
            out.push(c);
        }
        if k == t {
            let d = chars_of("default = true");
            proof {
                assert(out@.push(d).map_values(|x: Vec<char>| x@) =~= out@.map_values(|x: Vec<char>| x@).push(d@));
            }
            out.push(d);
        }
        k += 1;
    }
    let sep = chars_of("\n");
    let mut joined = crate::text::join_exec(&out, &sep);
    let ghost j0 = joined@;
    proof {
        reveal_strlit("\n");
        assert(out@.map_values(|x: Vec<char>| x@) == flipped_lines(lv, t as int, n as int));
        assert(target_line(lv, name@, n as int) == Some(t as int));
    }
    if crate::text::ends_with_str(&tv, "\n") && !crate::text::ends_with_str(&joined, "\n") {
        joined.push('\n');
        assert(joined@ =~= j0 + "\n"@);
    }
    assert(joined@ == keep_final_newline(text@, j0));
    Ok(string_of(&joined))
}

proof fn lemma_target_line_bound(ls: Seq<Seq<char>>, name: Seq<char>, k: int)
    ensures
        target_line(ls, name, k) matches Some(t) ==> 0 <= t < k,
    decreases k,
{
    if k > 0 {
        lemma_target_line_bound(ls, name, k - 1);
    }
}

/// `str::lines` of `s`, as a vector whose views are those lines.
fn lines_exec_views(s: &Vec<char>) -> (r: Vec<Vec<char>>)
    ensures
        r@.map_values(|x: Vec<char>| x@) == lines(s@),
{
    let r = crate::text::lines_exec(s);
    assert(r@.map_values(|x: Vec<char>| x@) =~= lines(s@));
    r
}

/// The lines of a text cut at its line feeds with nothing stripped (a
/// `\r` stays with its line); a final line feed ends the last line
/// rather than starting an empty one.
pub open spec fn raw_lines(s: Seq<char>) -> Seq<Seq<char>> {
    if s.len() == 0 {
        Seq::empty()
    } else if s.last() == '\n' {
        split_where(s, char_pred('\n')).drop_last()
    } else {
        split_where(s, char_pred('\n'))
    }
}

/// Lines put back together: joined by line feeds, with the final line
/// feed of `text` when it had one.
pub open spec fn rejoin(ls: Seq<Seq<char>>, text: Seq<char>) -> Seq<char> {
    crate::text::join(ls, seq!['\n']) + if text.len() > 0 && text.last() == '\n' {
        seq!['\n']
    } else {
        Seq::<char>::empty()
    }
}

proof fn lemma_join_cons(a: Seq<char>, rest: Seq<Seq<char>>, sep: Seq<char>)
    requires
        rest.len() >= 1,
    ensures
        crate::text::join(seq![a] + rest, sep) == a + sep + crate::text::join(rest, sep),
    decreases rest.len(),
{
    let all = seq![a] + rest;
    assert(all.len() >= 2);
    assert(crate::text::join(all, sep) == crate::text::join(all.drop_last(), sep) + sep + all.last());
    if rest.len() == 1 {
        assert(all.drop_last() =~= seq![a]);
        assert(crate::text::join(seq![a], sep) == a);
        assert(all.last() == rest[0]);
        assert(crate::text::join(rest, sep) == rest[0]);
    } else {
        assert(all.drop_last() =~= seq![a] + rest.drop_last());
        lemma_join_cons(a, rest.drop_last(), sep);
        assert(all.last() == rest.last());
        assert(crate::text::join(rest, sep) == crate::text::join(rest.drop_last(), sep) + sep + rest.last());
        assert(a + sep + crate::text::join(rest.drop_last(), sep) + sep + rest.last() =~= a + sep + (
        crate::text::join(rest.drop_last(), sep) + sep + rest.last()));
    }
}

proof fn lemma_split_rejoin(s: Seq<char>)
    ensures
        split_where(s, char_pred('\n')).len() >= 1,
        crate::text::join(split_where(s, char_pred('\n')), seq!['\n']) == s,
        s.len() > 0 && s.last() == '\n' ==> split_where(s, char_pred('\n')).len() >= 2 && split_where(
            s,
            char_pred('\n'),
        ).last() == Seq::<char>::empty(),
    decreases s.len(),
{
    let f = char_pred('\n');
    match crate::repexec::first_where(s, f, 0) {
        None => {
            crate::repexec::lemma_first_where_none(s, f, 0);
            crate::repexec::lemma_split_last(s, f);
            if s.len() > 0 {
                assert(!f(s[s.len() - 1]));
            }
        },
        Some(k) => {
            crate::repexec::lemma_first_where_some(s, f, 0);
            crate::repexec::lemma_split_step(s, f, k);
            let rest = s.skip(k + 1);
            lemma_split_rejoin(rest);
            lemma_join_cons(s.take(k), split_where(rest, f), seq!['\n']);
            assert(s.take(k) + seq!['\n'] + rest =~= s);
            if s.last() == '\n' {
                if rest.len() == 0 {
                    crate::repexec::lemma_split_last(rest, f);
                    assert(split_where(rest, f) == seq![rest]);
                } else {
                    assert(rest.last() == s.last());
                }
            }
        },
    }
}

/// The line split loses nothing: put back together, the lines are the
/// text, byte for byte (line-feed and carriage-return endings alike).
pub proof fn law_raw_lines_rejoin(s: Seq<char>)
    ensures
        rejoin(raw_lines(s), s) == s,
{
    lemma_split_rejoin(s);
    let p = split_where(s, char_pred('\n'));
    if s.len() == 0 {
        assert(raw_lines(s) =~= Seq::<Seq<char>>::empty());
        assert(rejoin(raw_lines(s), s) =~= s);
    } else if s.last() == '\n' {
        assert(p.drop_last().len() >= 1);
        assert(crate::text::join(p, seq!['\n']) == crate::text::join(p.drop_last(), seq!['\n']) + seq!['\n'] + p.last());
        assert(crate::text::join(p.drop_last(), seq!['\n']) + seq!['\n'] + Seq::<char>::empty()
            =~= crate::text::join(p.drop_last(), seq!['\n']) + seq!['\n']);
    } else {
        assert(crate::text::join(p, seq!['\n']) + Seq::<char>::empty() =~= crate::text::join(p, seq!['\n']));
    }
}

/// `raw_lines`, executed.
fn raw_lines_exec(v: &Vec<char>) -> (r: Vec<Vec<char>>)
    ensures
        r@.map_values(|x: Vec<char>| x@) == raw_lines(v@),
{
    if v.len() == 0 {
        let r: Vec<Vec<char>> = Vec::new();
        assert(r@.map_values(|x: Vec<char>| x@) =~= raw_lines(v@));
        return r;
    }
    let mut parts = split_char(v, '\n');
    let ghost pv = parts@.map_values(|x: Vec<char>| x@);
    proof {
        lemma_split_rejoin(v@);
    }
    if v[v.len() - 1] == '\n' {
        parts.pop();
        assert(parts@.map_values(|x: Vec<char>| x@) =~= pv.drop_last());
    }
    parts
}

/// The carriage return a CRLF line ends with (nothing for a LF line).
pub open spec fn cr_of(l: Seq<char>) -> Seq<char> {
    if l.len() > 0 && l.last() == '\r' {
        seq!['\r']
    } else {
        Seq::empty()
    }
}

/// A section or key that toml_upsert cannot write.
pub open spec fn bad_section_key(section: Seq<char>, key: Seq<char>) -> bool {
    section.len() == 0 || key.len() == 0 || section.contains('[') || section.contains(']')
        || section.contains('\n') || key.contains('=') || key.contains('\n')
}

/// The first line at or after `i` whose trimmed text is `header`.
pub open spec fn header_pos(ls: Seq<Seq<char>>, header: Seq<char>, i: int) -> Option<int>
    decreases ls.len() - i,
{
    if i < 0 || i >= ls.len() {
        None
    } else if trim(ls[i]) == header {
        Some(i)
    } else {
        header_pos(ls, header, i + 1)
    }
}

/// The `key = ...` line of the section body starting at `i` (the body
/// ends at the next line starting with `[`).
pub open spec fn key_line_from(ls: Seq<Seq<char>>, key: Seq<char>, i: int) -> Option<int>
    decreases ls.len() - i,
{
    if i < 0 || i >= ls.len() {
        None
    } else if starts_with(trim(ls[i]), "["@) {
        None
    } else {
        match crate::text::find_char_from(trim(ls[i]), '=', 0) {
            Some(eq) => if trim(trim(ls[i]).take(eq)) == key {
                Some(i)
            } else {
                key_line_from(ls, key, i + 1)
            },
            None => key_line_from(ls, key, i + 1),
        }
    }
}

/// `key = value`.
pub open spec fn kv_line(key: Seq<char>, v: Seq<char>) -> Seq<char> {
    key + " = "@ + v
}

/// The lines after the upsert: the key replaced in place, removed,
/// inserted right under its header (a replaced or inserted line keeps the
/// CRLF ending of the line it replaces or follows), or a new section
/// appended (after a blank line unless the text already ends in one).
pub open spec fn upsert_lines(ls: Seq<Seq<char>>, section: Seq<char>, key: Seq<char>, value: Option<Seq<char>>) -> Seq<Seq<char>> {
    let header = "["@ + section + "]"@;
    match header_pos(ls, header, 0) {
        Some(h) => match (key_line_from(ls, key, h + 1), value) {
            (Some(i), Some(v)) => ls.update(i, kv_line(key, v) + cr_of(ls[i])),
            (Some(i), None) => ls.remove(i),
            (None, Some(v)) => ls.insert(h + 1, kv_line(key, v) + cr_of(ls[h])),
            (None, None) => ls,
        },
        None => match value {
            Some(v) => (if ls.len() > 0 && crate::text::strip_cr(ls.last()).len() > 0 {
                ls.push(Seq::empty())
            } else {
                ls
            }).push(header).push(kv_line(key, v)),
            None => ls,
        },
    }
}

/// One key in one TOML section: created when missing, replaced in place
/// when present, removed when `value` is None; every other line, and
/// every line ending, stays byte for byte.
pub open spec fn toml_upsert_spec(text: Seq<char>, section: Seq<char>, key: Seq<char>, value: Option<Seq<char>>) -> Result<Seq<char>, Seq<char>> {
    if bad_section_key(section, key) {
        Err("bad section/key for toml_upsert: ["@ + section + "] "@ + key)
    } else {
        Ok(rejoin(upsert_lines(raw_lines(text), section, key, value), text))
    }
}

/// Removing a key the section does not hold leaves the text exactly as
/// it was.
pub proof fn law_upsert_of_nothing_keeps_text(text: Seq<char>, section: Seq<char>, key: Seq<char>)
    requires
        !bad_section_key(section, key),
        match header_pos(raw_lines(text), "["@ + section + "]"@, 0) {
            Some(h) => key_line_from(raw_lines(text), key, h + 1) is None,
            None => true,
        },
    ensures
        toml_upsert_spec(text, section, key, None) == Ok::<Seq<char>, Seq<char>>(text),
{
    law_raw_lines_rejoin(text);
}

fn has_char(v: &Vec<char>, c: char) -> (r: bool)
    ensures
        r == v@.contains(c),
{
    let mut i: usize = 0;
    while i < v.len()
        invariant
            i <= v.len(),
            forall|k: int| 0 <= k < i ==> v@[k] != c,
        decreases v.len() - i,
    {
        if v[i] == c {
            assert(v@[i as int] == c);
            return true;
        }
        i += 1;
    }
    false
}

/// Write one flat key of one TOML section (the caps writer's job).
pub fn toml_upsert(text: &str, section: &str, key: &str, value: Option<&str>) -> (r: Result<String, String>)
    ensures
        match r {
            Ok(t) => toml_upsert_spec(text@, section@, key@, crate::text::opt_str(value)) == Ok::<Seq<char>, Seq<char>>(t@),
            Err(e) => toml_upsert_spec(text@, section@, key@, crate::text::opt_str(value)) == Err::<Seq<char>, Seq<char>>(e@),
        },
{
    let sv = chars_of(section);
    let kv = chars_of(key);
    if sv.len() == 0 || kv.len() == 0 || has_char(&sv, '[') || has_char(&sv, ']') || has_char(&sv, '\n')
        || has_char(&kv, '=') || has_char(&kv, '\n') {
        let mut t = chars_of("bad section/key for toml_upsert: [");
        extend_chars(&mut t, &sv);
        extend_str(&mut t, "] ");
        extend_chars(&mut t, &kv);
        return Err(string_of(&t));
    }
    let tv = chars_of(text);
    let mut ls = raw_lines_exec(&tv);
    let ghost lv = raw_lines(text@);
    let mut header = chars_of("[");
    extend_chars(&mut header, &sv);
    header.push(']');
    proof {
        reveal_strlit("[");
        reveal_strlit("]");
        assert(header@ =~= "["@ + section@ + "]"@);
    }
    // the header's line
    let mut h: usize = 0;
    let mut hfound = false;
    while h < ls.len() && !hfound
        invariant
            h <= ls.len(),
            ls@.map_values(|x: Vec<char>| x@) == lv,
            header_pos(lv, header@, 0) == (if hfound { Some(h as int) } else { header_pos(lv, header@, h as int) }),
            hfound ==> h < ls.len(),
        decreases ls.len() - h, (if hfound { 0int } else { 1int }),
    {
        let t = trim_chars(&ls[h]);
        assert(lv[h as int] == ls@[h as int]@);
        if chars_eq(&t, &header) {
            hfound = true;
        } else {
            h += 1;
        }
    }
    let ghost value_view = crate::text::opt_str(value);
    if hfound {
        // the key's line inside the section
        let mut i: usize = h + 1;
        let mut kfound = false;
        let mut stop = false;
        proof {
            reveal_strlit("[");
        }
        while i < ls.len() && !kfound && !stop
            invariant
                h < i <= ls.len(),
                ls@.map_values(|x: Vec<char>| x@) == lv,
                kv@ == key@,
                key_line_from(lv, key@, h + 1) == (if kfound { Some(i as int) } else if stop { None } else {
                    key_line_from(lv, key@, i as int)
                }),
                kfound ==> i < ls.len(),
            decreases ls.len() - i, (if kfound || stop { 0int } else { 1int }),
        {
            let t = trim_chars(&ls[i]);
            assert(lv[i as int] == ls@[i as int]@);
            if starts_with_str(&t, "[") {
                stop = true;
            } else {
                match crate::text::find_char_from_exec(&t, '=', 0) {
                    Some(eq) => {
                        proof {
                            crate::text::lemma_find_char_from_some(t@, '=', 0);
                        }
                        let pre = slice_chars(&t, 0, eq);
                        assert(pre@ =~= t@.take(eq as int));
                        let pk = trim_chars(&pre);
                        if chars_eq(&pk, &kv) {
                            kfound = true;
                        } else {
                            i += 1;
                        }
                    },
                    None => {
                        i += 1;
                    },
                }
            }
        }
        match value {
            Some(v) => {
                let mut line = chars_of(key);
                extend_str(&mut line, " = ");
                extend_str(&mut line, v);
                let at: usize = if kfound { i } else { h };
                assert(lv[at as int] == ls@[at as int]@);
                let crlf = ls[at].len() > 0 && ls[at][ls[at].len() - 1] == '\r';
                if crlf {
                    line.push('\r');
                }
                assert(line@ =~= kv_line(key@, v@) + cr_of(lv[at as int]));
                if kfound {
                    ls.set(i, line);
                } else {
                    ls.insert(h + 1, line);
                }
                proof {
                    if kfound {
                        assert(ls@.map_values(|x: Vec<char>| x@) =~= lv.update(
                            i as int,
                            kv_line(key@, v@) + cr_of(lv[i as int]),
                        ));
                    } else {
                        assert(ls@.map_values(|x: Vec<char>| x@) =~= lv.insert(
                            h + 1,
                            kv_line(key@, v@) + cr_of(lv[h as int]),
                        ));
                    }
                }
            },
            None => {
                if kfound {
                    ls.remove(i);
                    assert(ls@.map_values(|x: Vec<char>| x@) =~= lv.remove(i as int));
                }
            },
        }
    } else {
        match value {
            Some(v) => {
                let nonblank = ls.len() > 0 && {
                    let last = &ls[ls.len() - 1];
                    last.len() > 1 || (last.len() == 1 && last[0] != '\r')
                };
                proof {
                    if ls.len() > 0 {
                        assert(lv.last() == ls@[ls.len() - 1]@);
                    }
                }
                if nonblank {
                    ls.push(Vec::new());
                    proof {
                        assert(lv.last() == ls@[ls.len() - 2]@);
                    }
                }
                let ghost mid = ls@.map_values(|x: Vec<char>| x@);
                let hd = slice_chars(&header, 0, header.len());
                assert(hd@ =~= header@);
                ls.push(hd);
                let mut line = chars_of(key);
                extend_str(&mut line, " = ");
                extend_str(&mut line, v);
                ls.push(line);
                proof {
                    assert(ls@.map_values(|x: Vec<char>| x@) =~= mid.push(header@).push(kv_line(key@, v@)));
                    assert(mid =~= (if lv.len() > 0 && crate::text::strip_cr(lv.last()).len() > 0 {
                        lv.push(Seq::<char>::empty())
                    } else {
                        lv
                    }));
                }
            },
            None => {},
        }
    }
    assert(ls@.map_values(|x: Vec<char>| x@) == upsert_lines(lv, section@, key@, value_view));
    let mut sep: Vec<char> = Vec::new();
    sep.push('\n');
    assert(sep@ =~= seq!['\n']);
    let mut joined = crate::text::join_exec(&ls, &sep);
    let ghost j0 = joined@;
    if tv.len() > 0 && tv[tv.len() - 1] == '\n' {
        joined.push('\n');
        assert(joined@ =~= j0 + seq!['\n']);
    } else {
        assert(joined@ =~= j0 + Seq::<char>::empty());
    }
    Ok(string_of(&joined))
}

// --------------------------------------------------------- rig texts ---

/// The model names of the `[[models]]` blocks so far, and whether the
/// scan is inside such a block still looking for its name.
pub open spec fn rig_names_fold(ls: Seq<Seq<char>>) -> (Seq<Seq<char>>, bool)
    decreases ls.len(),
{
    if ls.len() == 0 {
        (Seq::empty(), false)
    } else {
        let (o, m) = rig_names_fold(ls.drop_last());
        let t = trim(ls.last());
        if starts_with(t, "["@) {
            (o, t == "[[models]]"@)
        } else if m && starts_with(t, "name"@) {
            match eq_value(t) {
                Some(v) => (o.push(v), false),
                None => (o, false),
            }
        } else {
            (o, m)
        }
    }
}

/// The model names declared in a rig TOML (one per `[[models]]` block).
pub fn rig_model_names(text: &str) -> (r: Vec<String>)
    ensures
        r@.map_values(|s: String| s@) == rig_names_fold(lines(text@)).0,
{
    let tv = chars_of(text);
    let ls = lines_exec_views(&tv);
    let ghost lv = lines(text@);
    let mut out: Vec<String> = Vec::new();
    let mut in_models = false;
    let mut i: usize = 0;
    assert(lv.take(0) =~= Seq::<Seq<char>>::empty());
    proof {
        reveal_strlit("[");
        reveal_strlit("name");
    }
    while i < ls.len()
        invariant
            i <= ls.len(),
            lv == ls@.map_values(|x: Vec<char>| x@),
            (out@.map_values(|s: String| s@), in_models) == rig_names_fold(lv.take(i as int)),
        decreases ls.len() - i,
    {
        let t = trim_chars(&ls[i]);
        proof {
            assert(lv.take(i + 1).drop_last() =~= lv.take(i as int));
            assert(lv.take(i + 1).last() == ls@[i as int]@);
        }
        if starts_with_str(&t, "[") {
            in_models = eq_str(&t, "[[models]]");
        } else if in_models && starts_with_str(&t, "name") {
            match eq_value_exec(&t) {
                Some(r3) => {
                    let nm = string_of(&r3);
                    proof {
                        assert(out@.push(nm).map_values(|s: String| s@) =~= out@.map_values(|s: String| s@).push(nm@));
                    }
                    out.push(nm);
                },
                None => {},
            }
            in_models = false;
        }
        i += 1;
    }
    assert(lv.take(ls.len() as int) =~= lv);
    out
}

/// The first `command` line inside a `[[models]]` block, scanning from
/// `i` (`m`: whether the scan is inside such a block).
pub open spec fn command_line(ls: Seq<Seq<char>>, i: int, m: bool) -> Option<int>
    decreases ls.len() - i,
{
    if i < 0 || i >= ls.len() {
        None
    } else {
        let t = trim(ls[i]);
        if starts_with(t, "["@) {
            command_line(ls, i + 1, t == "[[models]]"@)
        } else if m && starts_with(t, "command"@) {
            Some(i)
        } else {
            command_line(ls, i + 1, m)
        }
    }
}

/// What `Path::parent` gives for a path (as text).
pub uninterp spec fn path_parent_of(p: Seq<char>) -> Option<Seq<char>>;

/// `std::path::Path::parent`, as text.
#[verifier::external_body]
fn path_parent(p: &str) -> (r: Option<String>)
    ensures
        match r {
            Some(q) => path_parent_of(p@) == Some(q@),
            None => path_parent_of(p@) is None,
        },
{
    std::path::Path::new(p).parent().map(|q| q.to_string_lossy().into_owned())
}

/// The directory of the rig's plugin binaries: the parent of the first
/// `[[models]]` command's quoted path.
pub open spec fn rig_plugin_dir_spec(text: Seq<char>) -> Result<Seq<char>, Seq<char>> {
    let ls = lines(text);
    match command_line(ls, 0, false) {
        None => Err("no [[models]] command found in the rig"@),
        Some(i) => {
            let t = trim(ls[i]);
            match crate::text::find_char_from(t, '"', 0) {
                None => Err("[[models]] command has no quoted path"@),
                Some(s) => match crate::text::find_char_from(t, '"', s + 1) {
                    None => Err("[[models]] command path unterminated"@),
                    Some(e) => match path_parent_of(t.subrange(s + 1, e)) {
                        Some(p) => Ok(p),
                        None => Err("[[models]] command path has no parent dir"@),
                    },
                },
            }
        },
    }
}

pub fn rig_plugin_dir(text: &str) -> (r: Result<String, String>)
    ensures
        match r {
            Ok(p) => rig_plugin_dir_spec(text@) == Ok::<Seq<char>, Seq<char>>(p@),
            Err(e) => rig_plugin_dir_spec(text@) == Err::<Seq<char>, Seq<char>>(e@),
        },
{
    let tv = chars_of(text);
    let ls = lines_exec_views(&tv);
    let ghost lv = lines(text@);
    let mut in_models = false;
    let mut i: usize = 0;
    proof {
        reveal_strlit("[");
        reveal_strlit("command");
    }
    while i < ls.len()
        invariant
            i <= ls.len(),
            lv == ls@.map_values(|x: Vec<char>| x@),
            lv == lines(text@),
            command_line(lv, 0, false) == command_line(lv, i as int, in_models),
        decreases ls.len() - i,
    {
        let t = trim_chars(&ls[i]);
        assert(lv[i as int] == ls@[i as int]@);
        if starts_with_str(&t, "[") {
            in_models = eq_str(&t, "[[models]]");
        } else if in_models && starts_with_str(&t, "command") {
            assert(command_line(lv, i as int, in_models) == Some(i as int));
            assert(t@ == trim(lv[i as int]));
            let s0 = match crate::text::find_char_from_exec(&t, '"', 0) {
                Some(s0) => s0,
                None => return Err(string_of(&chars_of("[[models]] command has no quoted path"))),
            };
            proof {
                crate::text::lemma_find_char_from_some(t@, '"', 0);
            }
            let e = match crate::text::find_char_from_exec(&t, '"', s0 + 1) {
                Some(e) => e,
                None => return Err(string_of(&chars_of("[[models]] command path unterminated"))),
            };
            proof {
                crate::text::lemma_find_char_from_some(t@, '"', s0 + 1);
            }
            let bin = string_of(&slice_chars(&t, s0 + 1, e));
            return match path_parent(bin.as_str()) {
                Some(p) => Ok(p),
                None => Err(string_of(&chars_of("[[models]] command path has no parent dir"))),
            };
        }
        i += 1;
    }
    Err(string_of(&chars_of("no [[models]] command found in the rig")))
}

// ------------------------------------------------------ provider add ---

/// What `toml::from_str::<toml::Value>` reports for a text: `None` when
/// it parses, else the error's message.
pub uninterp spec fn toml_error(text: Seq<char>) -> Option<Seq<char>>;

/// `toml::from_str::<toml::Value>`, kept only as its error message.
#[verifier::external_body]
fn toml_check(text: &str) -> (r: Option<String>)
    ensures
        match r {
            Some(e) => toml_error(text@) == Some(e@),
            None => toml_error(text@) is None,
        },
{
    toml::from_str::<toml::Value>(text).err().map(|e| e.to_string())
}

/// The `[[providers]]` entry of a new provider.
pub open spec fn provider_entry(name: Seq<char>, base_url: Seq<char>, model: Seq<char>) -> Seq<char> {
    "[[providers]]\nname = \""@ + name + "\"\nbase_url = \""@ + base_url + "\"\nmodel = \""@ + model + "\"\n"@
}

/// `t` ending in a newline (one added when missing).
pub open spec fn with_newline(t: Seq<char>) -> Seq<char> {
    if crate::text::ends_with(t, "\n"@) {
        t
    } else {
        t + "\n"@
    }
}

/// The providers file after the addition: appended after a blank line,
/// or a new file with a header comment.
pub open spec fn new_providers_text(old: Option<Seq<char>>, entry: Seq<char>) -> Seq<char> {
    match old {
        Some(t) => with_newline(t) + "\n"@ + entry,
        None => "# Declared from the TUI (/models add); the generic provmodel plugin serves them.\n"@ + entry,
    }
}

/// The rig after the addition: one `[[models]]` block on the generic
/// provider plugin.
pub open spec fn new_rig_text(rig: Seq<char>, name: Seq<char>, provmodel: Seq<char>) -> Seq<char> {
    with_newline(rig) + "\n[[models]]\nname = \""@ + name + "\"\ncommand = [\""@ + provmodel + "\", \""@ + name
        + "\"]\nsubjects = [\"*\"]\n"@
}

/// The existing providers file, if there is one: its text and declared
/// names, or the error loading it.
pub open spec fn providers_view(p: Option<Result<(String, Vec<String>), String>>) -> Option<Result<(Seq<char>, Seq<Seq<char>>), Seq<char>>> {
    match p {
        None => None,
        Some(Ok((t, ns))) => Some(Ok((t@, ns@.map_values(|n: String| n@)))),
        Some(Err(e)) => Some(Err(e@)),
    }
}

/// What `/models add` writes: the new providers file and the new rig, or
/// why nothing is written. Inputs are trimmed, validated in order, and
/// neither the built-in providers nor a name already in the rig or the
/// providers file can be added again; both texts must parse as TOML.
pub open spec fn add_provider_spec(
    rig: Seq<char>,
    providers: Option<Result<(Seq<char>, Seq<Seq<char>>), Seq<char>>>,
    name0: Seq<char>,
    base_url0: Seq<char>,
    model0: Seq<char>,
) -> Result<(Seq<char>, Seq<char>), Seq<char>> {
    let name = trim(name0);
    let base_url = trim(base_url0);
    let model = trim(model0);
    if !valid_provider_name_spec(name) {
        Err("bad provider name "@ + debug_text(name) + " - lowercase letters, digits, dashes (e.g. openrouter)"@)
    } else if !valid_base_url_spec(base_url) {
        Err("bad base URL "@ + debug_text(base_url) + " - the http(s) chat completions endpoint"@)
    } else if !valid_model_id_spec(model) {
        Err("bad model id "@ + debug_text(model))
    } else if name == "deepseek"@ || name == "glm"@ {
        Err(name + " is built in already"@)
    } else if rig_names_fold(lines(rig)).0.contains(name) {
        Err("model "@ + debug_text(name) + " already exists in the rig"@)
    } else if providers is Some && providers->0 is Err {
        Err(providers->0->Err_0)
    } else if providers is Some && providers->0 is Ok && (providers->0->Ok_0).1.contains(name) {
        Err("provider "@ + debug_text(name) + " already declared"@)
    } else {
        match rig_plugin_dir_spec(rig) {
            Err(e) => Err(e),
            Ok(dir) => {
                let provmodel = crate::text::join_path(dir, "hs-plugin-provmodel"@);
                let old = match providers {
                    Some(Ok((t, _))) => Some(t),
                    _ => None,
                };
                let prov = new_providers_text(old, provider_entry(name, base_url, model));
                let new_rig = new_rig_text(rig, name, provmodel);
                match toml_error(prov) {
                    Some(e) => Err("providers TOML would not parse: "@ + e),
                    None => match toml_error(new_rig) {
                        Some(e) => Err("rig would not parse: "@ + e),
                        None => Ok((prov, new_rig)),
                    },
                }
            },
        }
    }
}

fn contains_name(names: &Vec<Vec<char>>, name: &Vec<char>) -> (r: bool)
    ensures
        r == names@.map_values(|x: Vec<char>| x@).contains(name@),
{
    let ghost nv = names@.map_values(|x: Vec<char>| x@);
    let mut i: usize = 0;
    while i < names.len()
        invariant
            i <= names.len(),
            nv == names@.map_values(|x: Vec<char>| x@),
            forall|k: int| 0 <= k < i ==> nv[k] != name@,
        decreases names.len() - i,
    {
        if chars_eq(&names[i], name) {
            assert(nv[i as int] == name@);
            return true;
        }
        assert(nv[i as int] == names@[i as int]@);
        i += 1;
    }
    false
}

fn strings_to_chars(v: &Vec<String>) -> (r: Vec<Vec<char>>)
    ensures
        r@.map_values(|x: Vec<char>| x@) == v@.map_values(|s: String| s@),
{
    let mut out: Vec<Vec<char>> = Vec::new();
    let mut i: usize = 0;
    while i < v.len()
        invariant
            i <= v.len(),
            out@.map_values(|x: Vec<char>| x@) == v@.map_values(|s: String| s@).take(i as int),
        decreases v.len() - i,
    {
        let c = chars_of(v[i].as_str());
        proof {
            assert(c@ == v@[i as int]@);
            assert(out@.push(c).map_values(|x: Vec<char>| x@) =~= out@.map_values(|x: Vec<char>| x@).push(c@));
            assert(v@.map_values(|s: String| s@).take(i + 1) =~= v@.map_values(|s: String| s@).take(i as int).push(
                v@[i as int]@,
            ));
        }
        out.push(c);
        i += 1;
    }
    assert(v@.map_values(|s: String| s@).take(v.len() as int) =~= v@.map_values(|s: String| s@));
    out
}

/// The `/models add` writer's decision: the new providers file text and
/// the new rig text, or the refusal. `providers` is the existing
/// providers file (its text and declared names, or the error loading
/// it), `None` when there is none. Nothing is written here; the caller
/// writes both texts only on `Ok`.
pub fn add_provider_plan(
    rig: &str,
    providers: &Option<Result<(String, Vec<String>), String>>,
    name: &str,
    base_url: &str,
    model: &str,
) -> (r: Result<(String, String), String>)
    ensures
        match r {
            Ok((p, g)) => add_provider_spec(rig@, providers_view(*providers), name@, base_url@, model@)
                == Ok::<(Seq<char>, Seq<char>), Seq<char>>((p@, g@)),
            Err(e) => add_provider_spec(rig@, providers_view(*providers), name@, base_url@, model@)
                == Err::<(Seq<char>, Seq<char>), Seq<char>>(e@),
        },
{
    let name = string_of(&trim_chars(&chars_of(name)));
    let base_url = string_of(&trim_chars(&chars_of(base_url)));
    let model = string_of(&trim_chars(&chars_of(model)));
    if !valid_provider_name(name.as_str()) {
        let mut t = chars_of("bad provider name ");
        extend_str(&mut t, debug_str(name.as_str()).as_str());
        extend_str(&mut t, " - lowercase letters, digits, dashes (e.g. openrouter)");
        return Err(string_of(&t));
    }
    if !valid_base_url(base_url.as_str()) {
        let mut t = chars_of("bad base URL ");
        extend_str(&mut t, debug_str(base_url.as_str()).as_str());
        extend_str(&mut t, " - the http(s) chat completions endpoint");
        return Err(string_of(&t));
    }
    if !valid_model_id(model.as_str()) {
        let mut t = chars_of("bad model id ");
        extend_str(&mut t, debug_str(model.as_str()).as_str());
        return Err(string_of(&t));
    }
    let nv = chars_of(name.as_str());
    if eq_str(&nv, "deepseek") || eq_str(&nv, "glm") {
        let mut t = nv.clone();
        extend_str(&mut t, " is built in already");
        return Err(string_of(&t));
    }
    let rig_names = rig_model_names(rig);
    let rn = strings_to_chars(&rig_names);
    if contains_name(&rn, &nv) {
        let mut t = chars_of("model ");
        extend_str(&mut t, debug_str(name.as_str()).as_str());
        extend_str(&mut t, " already exists in the rig");
        return Err(string_of(&t));
    }
    let old: Option<&String> = match providers {
        None => None,
        Some(Err(e)) => return Err(e.clone()),
        Some(Ok((t, ns))) => {
            let pn = strings_to_chars(ns);
            if contains_name(&pn, &nv) {
                let mut m = chars_of("provider ");
                extend_str(&mut m, debug_str(name.as_str()).as_str());
                extend_str(&mut m, " already declared");
                return Err(string_of(&m));
            }
            Some(t)
        },
    };
    let dir = rig_plugin_dir(rig)?;
    let mut provmodel = chars_of(dir.as_str());
    if provmodel.len() > 0 && provmodel[provmodel.len() - 1] != '/' {
        provmodel.push('/');
    }
    extend_str(&mut provmodel, "hs-plugin-provmodel");
    proof {
        reveal_strlit("/");
        if dir@.len() > 0 && dir@.last() != '/' {
            assert(provmodel@ =~= dir@ + "/"@ + "hs-plugin-provmodel"@);
        } else {
            assert(provmodel@ =~= crate::text::join_path(dir@, "hs-plugin-provmodel"@));
        }
    }
    let mut entry = chars_of("[[providers]]\nname = \"");
    extend_chars(&mut entry, &nv);
    extend_str(&mut entry, "\"\nbase_url = \"");
    extend_str(&mut entry, base_url.as_str());
    extend_str(&mut entry, "\"\nmodel = \"");
    extend_str(&mut entry, model.as_str());
    extend_str(&mut entry, "\"\n");
    proof {
        reveal_strlit("\n");
    }
    let prov: Vec<char> = match old {
        Some(t) => {
            let mut p = chars_of(t.as_str());
            if !crate::text::ends_with_str(&p, "\n") {
                p.push('\n');
            }
            p.push('\n');
            extend_chars(&mut p, &entry);
            p
        },
        None => {
            let mut p = chars_of(
                "# Declared from the TUI (/models add); the generic provmodel plugin serves them.\n",
            );
            extend_chars(&mut p, &entry);
            p
        },
    };
    let prov_s = string_of(&prov);
    let mut g = chars_of(rig);
    if !crate::text::ends_with_str(&g, "\n") {
        g.push('\n');
    }
    extend_str(&mut g, "\n[[models]]\nname = \"");
    extend_chars(&mut g, &nv);
    extend_str(&mut g, "\"\ncommand = [\"");
    extend_chars(&mut g, &provmodel);
    extend_str(&mut g, "\", \"");
    extend_chars(&mut g, &nv);
    extend_str(&mut g, "\"]\nsubjects = [\"*\"]\n");
    let rig_s = string_of(&g);
    proof {
        assert(prov_s@ =~= new_providers_text(
            match old { Some(t) => Some(t@), None => None },
            provider_entry(name@, base_url@, model@),
        ));
        assert(rig_s@ =~= new_rig_text(rig@, name@, provmodel@));
    }
    if let Some(e) = toml_check(prov_s.as_str()) {
        let mut t = chars_of("providers TOML would not parse: ");
        extend_str(&mut t, e.as_str());
        return Err(string_of(&t));
    }
    if let Some(e) = toml_check(rig_s.as_str()) {
        let mut t = chars_of("rig would not parse: ");
        extend_str(&mut t, e.as_str());
        return Err(string_of(&t));
    }
    Ok((prov_s, rig_s))
}

// --------------------------------------------------------------- laws ---

/// A character a mission id may hold.
pub open spec fn slug_char(c: char) -> bool {
    is_ascii_alnum(c) || c == '-'
}

/// No two dashes in a row.
pub open spec fn no_double_dash(s: Seq<char>) -> bool {
    forall|i: int| 0 <= i < s.len() - 1 ==> !(#[trigger] s[i] == '-' && s[i + 1] == '-')
}

proof fn lemma_slug_fold_shape(cs: Seq<char>)
    ensures
        slug_fold(cs).0.len() <= 40,
        forall|i: int| 0 <= i < slug_fold(cs).0.len() ==> slug_char(#[trigger] slug_fold(cs).0[i]),
        slug_fold(cs).0.len() > 0 ==> slug_fold(cs).0[0] != '-',
        slug_fold(cs).1 == (slug_fold(cs).0.len() > 0 && slug_fold(cs).0.last() == '-'),
        no_double_dash(slug_fold(cs).0),
        (forall|i: int| 0 <= i < cs.len() ==> !is_ascii_alnum(#[trigger] cs[i])) ==> slug_fold(cs).0.len() == 0,
        (forall|i: int| 0 <= i < cs.len() ==> !('A' <= #[trigger] cs[i] <= 'Z')) ==> forall|i: int|
            0 <= i < slug_fold(cs).0.len() ==> !('A' <= #[trigger] slug_fold(cs).0[i] <= 'Z'),
    decreases cs.len(),
{
    if cs.len() > 0 {
        let p = cs.drop_last();
        lemma_slug_fold_shape(p);
        if forall|i: int| 0 <= i < cs.len() ==> !is_ascii_alnum(#[trigger] cs[i]) {
            assert forall|i: int| 0 <= i < p.len() implies !is_ascii_alnum(#[trigger] p[i]) by {
                assert(p[i] == cs[i]);
            }
        }
        if forall|i: int| 0 <= i < cs.len() ==> !('A' <= #[trigger] cs[i] <= 'Z') {
            assert forall|i: int| 0 <= i < p.len() implies !('A' <= #[trigger] p[i] <= 'Z') by {
                assert(p[i] == cs[i]);
            }
        }
        let (o, d) = slug_fold(p);
        let c = cs.last();
        if o.len() < 40 && is_ascii_alnum(c) {
            assert forall|i: int| 0 <= i < o.push(c).len() implies slug_char(#[trigger] o.push(c)[i]) by {
                if i < o.len() {
                    assert(o.push(c)[i] == o[i]);
                }
            }
            assert forall|i: int| 0 <= i < o.push(c).len() - 1 implies !(#[trigger] o.push(c)[i] == '-' && o.push(c)[i
                + 1] == '-') by {
                if i + 1 < o.len() {
                    assert(o.push(c)[i] == o[i] && o.push(c)[i + 1] == o[i + 1]);
                }
            }
            if forall|i: int| 0 <= i < cs.len() ==> !('A' <= #[trigger] cs[i] <= 'Z') {
                assert(c == cs[cs.len() - 1]);
                assert forall|i: int| 0 <= i < o.push(c).len() implies !('A' <= #[trigger] o.push(c)[i] <= 'Z') by {
                    if i < o.len() {
                        assert(o.push(c)[i] == o[i]);
                    }
                }
            }
        } else if o.len() < 40 && !d && o.len() > 0 {
            assert forall|i: int| 0 <= i < o.push('-').len() implies slug_char(#[trigger] o.push('-')[i]) by {
                if i < o.len() {
                    assert(o.push('-')[i] == o[i]);
                }
            }
            assert(o.push('-')[0] == o[0]);
            assert forall|i: int| 0 <= i < o.push('-').len() - 1 implies !(#[trigger] o.push('-')[i] == '-'
                && o.push('-')[i + 1] == '-') by {
                if i + 1 < o.len() {
                    assert(o.push('-')[i] == o[i] && o.push('-')[i + 1] == o[i + 1]);
                } else {
                    assert(o.push('-')[i] == o.last());
                }
            }
            if forall|i: int| 0 <= i < cs.len() ==> !('A' <= #[trigger] cs[i] <= 'Z') {
                assert forall|i: int| 0 <= i < o.push('-').len() implies !('A' <= #[trigger] o.push('-')[i] <= 'Z') by {
                    if i < o.len() {
                        assert(o.push('-')[i] == o[i]);
                    }
                }
            }
        }
        if forall|i: int| 0 <= i < cs.len() ==> !is_ascii_alnum(#[trigger] cs[i]) {
            assert(!is_ascii_alnum(cs[cs.len() - 1]));
        }
    }
}

proof fn lemma_trim_end_char_prefix(s: Seq<char>, c: char)
    ensures
        trim_end_char(s, c).len() <= s.len(),
        forall|i: int| 0 <= i < trim_end_char(s, c).len() ==> #[trigger] trim_end_char(s, c)[i] == s[i],
        trim_end_char(s, c).len() > 0 ==> trim_end_char(s, c).last() != c,
    decreases s.len(),
{
    if s.len() > 0 && s.last() == c {
        lemma_trim_end_char_prefix(s.drop_last(), c);
    }
}

/// A mission id names a work directory, so it is path-safe: between 1
/// and 40 characters, only ASCII letters, digits and dashes (never a
/// separator), never two dashes in a row, and it neither starts nor ends
/// with a dash. When no character of the goal lowercases to an ASCII
/// letter or digit, the id is `goal`.
pub proof fn law_goal_slug_is_path_safe(goal: Seq<char>)
    ensures
        ({
            let s = goal_slug_spec(goal);
            &&& 1 <= s.len() <= 40
            &&& forall|i: int| 0 <= i < s.len() ==> slug_char(#[trigger] s[i])
            &&& s[0] != '-'
            &&& s.last() != '-'
            &&& no_double_dash(s)
        }),
        (forall|i: int| 0 <= i < lower_all(goal).len() ==> !is_ascii_alnum(#[trigger] lower_all(goal)[i]))
            ==> goal_slug_spec(goal) == "goal"@,
{
    lemma_goal_slug_shape(goal);
}

/// The id's shape, and that it keeps what the lowercased goal lacks.
proof fn lemma_goal_slug_shape(goal: Seq<char>)
    ensures
        ({
            let s = goal_slug_spec(goal);
            &&& 1 <= s.len() <= 40
            &&& forall|i: int| 0 <= i < s.len() ==> slug_char(#[trigger] s[i])
            &&& s[0] != '-'
            &&& s.last() != '-'
            &&& no_double_dash(s)
            &&& (forall|i: int| 0 <= i < lower_all(goal).len() ==> !('A' <= #[trigger] lower_all(goal)[i] <= 'Z'))
                ==> forall|i: int| 0 <= i < s.len() ==> !('A' <= #[trigger] s[i] <= 'Z')
        }),
        (forall|i: int| 0 <= i < lower_all(goal).len() ==> !is_ascii_alnum(#[trigger] lower_all(goal)[i]))
            ==> goal_slug_spec(goal) == "goal"@,
{
    let o = slug_fold(lower_all(goal)).0;
    lemma_slug_fold_shape(lower_all(goal));
    lemma_trim_end_char_prefix(o, '-');
    let t = trim_end_char(o, '-');
    reveal_strlit("goal");
    if t.len() == 0 {
        assert(goal_slug_spec(goal) == "goal"@);
        assert(no_double_dash("goal"@));
    } else {
        assert(t[0] == o[0]);
        assert forall|i: int| 0 <= i < t.len() implies slug_char(#[trigger] t[i]) by {
            assert(t[i] == o[i]);
        }
        assert forall|i: int| 0 <= i < t.len() - 1 implies !(#[trigger] t[i] == '-' && t[i + 1] == '-') by {
            assert(t[i] == o[i] && t[i + 1] == o[i + 1]);
        }
        if forall|i: int| 0 <= i < lower_all(goal).len() ==> !('A' <= #[trigger] lower_all(goal)[i] <= 'Z') {
            assert forall|i: int| 0 <= i < t.len() implies !('A' <= #[trigger] t[i] <= 'Z') by {
                assert(t[i] == o[i]);
            }
        }
    }
}

proof fn lemma_lower_ascii(s: Seq<char>)
    requires
        forall|i: int| 0 <= i < s.len() ==> (#[trigger] s[i] as u32) < 128,
    ensures
        lower_all(s).len() == s.len(),
        forall|i: int| 0 <= i < s.len() ==> !('A' <= #[trigger] lower_all(s)[i] <= 'Z'),
        (forall|i: int| 0 <= i < s.len() ==> !('A' <= #[trigger] s[i] <= 'Z')) ==> lower_all(s) == s,
    decreases s.len(),
{
    if s.len() > 0 {
        let p = s.drop_last();
        assert forall|i: int| 0 <= i < p.len() implies (#[trigger] p[i] as u32) < 128 by {
            assert(p[i] == s[i]);
        }
        lemma_lower_ascii(p);
        let c = s.last();
        assert((c as u32) < 128);
        assert(lower_char(c).len() == 1);
        assert(!('A' <= lower_char(c)[0] <= 'Z'));
        assert forall|i: int| 0 <= i < s.len() implies !('A' <= #[trigger] lower_all(s)[i] <= 'Z') by {
            if i < p.len() {
                assert(lower_all(s)[i] == lower_all(p)[i]);
            } else {
                assert(lower_all(s)[i] == lower_char(c)[0]);
            }
        }
        if forall|i: int| 0 <= i < s.len() ==> !('A' <= #[trigger] s[i] <= 'Z') {
            assert forall|i: int| 0 <= i < p.len() implies !('A' <= #[trigger] p[i] <= 'Z') by {
                assert(p[i] == s[i]);
            }
            assert(!('A' <= s[s.len() - 1] <= 'Z'));
            assert(lower_all(s) =~= s);
        }
    }
}

/// A text of slug shape folds to itself.
proof fn lemma_slug_fold_of_slug(s: Seq<char>)
    requires
        s.len() <= 40,
        forall|i: int| 0 <= i < s.len() ==> slug_char(#[trigger] s[i]),
        s.len() > 0 ==> s[0] != '-',
        no_double_dash(s),
    ensures
        slug_fold(s) == (s, s.len() > 0 && s.last() == '-'),
    decreases s.len(),
{
    if s.len() > 0 {
        let p = s.drop_last();
        assert forall|i: int| 0 <= i < p.len() implies slug_char(#[trigger] p[i]) by {
            assert(p[i] == s[i]);
        }
        assert forall|i: int| 0 <= i < p.len() - 1 implies !(#[trigger] p[i] == '-' && p[i + 1] == '-') by {
            assert(p[i] == s[i] && p[i + 1] == s[i + 1]);
        }
        if p.len() > 0 {
            assert(p[0] == s[0]);
        }
        lemma_slug_fold_of_slug(p);
        let c = s.last();
        assert(slug_char(s[s.len() - 1]));
        if !is_ascii_alnum(c) {
            assert(c == '-');
            assert(p.len() > 0);
            assert(p.last() == s[s.len() - 2]);
            assert(!(s[s.len() - 2] == '-' && s[s.len() - 1] == '-'));
        }
        assert(p.push(c) =~= s);
    }
}

/// Lowercasing an ASCII goal leaves no capital, so every ASCII goal meets
/// the condition of `law_goal_slug_is_idempotent`.
pub proof fn law_ascii_goals_lower_without_capitals(goal: Seq<char>)
    requires
        forall|i: int| 0 <= i < goal.len() ==> (#[trigger] goal[i] as u32) < 128,
    ensures
        forall|i: int| 0 <= i < lower_all(goal).len() ==> !('A' <= #[trigger] lower_all(goal)[i] <= 'Z'),
{
    lemma_lower_ascii(goal);
}

/// The mission id is a fixed point: the id of the id is the id itself.
/// Stated for every goal whose lowercasing yields no ASCII capital (every
/// ASCII goal among them); how a non-ASCII character lowercases is only
/// named here.
pub proof fn law_goal_slug_is_idempotent(goal: Seq<char>)
    requires
        forall|i: int| 0 <= i < lower_all(goal).len() ==> !('A' <= #[trigger] lower_all(goal)[i] <= 'Z'),
    ensures
        goal_slug_spec(goal_slug_spec(goal)) == goal_slug_spec(goal),
{
    lemma_goal_slug_shape(goal);
    let s = goal_slug_spec(goal);
    assert forall|i: int| 0 <= i < s.len() implies (#[trigger] s[i] as u32) < 128 by {
        assert(slug_char(s[i]));
    }
    lemma_lower_ascii(s);
    assert(lower_all(s) == s);
    lemma_slug_fold_of_slug(s);
    assert(trim_end_char(s, '-') == s);
}

/// A dollar literal always reads back as a float: it holds a point, and
/// whole dollars keep one zero after it.
pub proof fn law_usd_literal_is_a_float(micros: u64)
    ensures
        usd_literal_spec(micros).contains('.'),
        micros % 1_000_000 == 0 ==> usd_literal_spec(micros) == dec((micros / 1_000_000) as nat) + ".0"@,
{
    let whole = dec((micros / 1_000_000) as nat);
    let frac = trim_zeros(six_digits((micros % 1_000_000) as nat));
    let rest = if frac.len() == 0 { seq!['0'] } else { frac };
    assert(usd_literal_spec(micros) == whole + seq!['.'] + rest);
    assert((whole + seq!['.'] + rest)[whole.len() as int] == '.');
    if micros % 1_000_000 == 0 {
        reveal_strlit(".0");
        assert(six_digits(0) =~= seq!['0', '0', '0', '0', '0', '0']);
        assert(trim_zeros(seq!['0', '0', '0', '0', '0', '0']) =~= Seq::<char>::empty()) by {
            let z = seq!['0', '0', '0', '0', '0', '0'];
            assert(z.drop_last() =~= seq!['0', '0', '0', '0', '0']);
            assert(z.drop_last().drop_last() =~= seq!['0', '0', '0', '0']);
            assert(z.drop_last().drop_last().drop_last() =~= seq!['0', '0', '0']);
            assert(z.drop_last().drop_last().drop_last().drop_last() =~= seq!['0', '0']);
            assert(z.drop_last().drop_last().drop_last().drop_last().drop_last() =~= seq!['0']);
            assert(z.drop_last().drop_last().drop_last().drop_last().drop_last().drop_last() =~= Seq::<char>::empty());
            reveal_with_fuel(trim_end_char, 8);
        }
        assert(whole + seq!['.'] + seq!['0'] =~= whole + ".0"@);
    }
}

proof fn lemma_trim_end_cons(c: char, x: Seq<char>)
    requires
        !is_ws(c),
    ensures
        crate::text::trim_end(seq![c] + x) == seq![c] + crate::text::trim_end(x),
    decreases x.len(),
{
    if x.len() > 0 {
        assert((seq![c] + x).drop_last() =~= seq![c] + x.drop_last());
        lemma_trim_end_cons(c, x.drop_last());
    } else {
        assert(seq![c] + x =~= seq![c]);
        assert(crate::text::trim_end(x) =~= x);
    }
}

/// `/cmd` is the canonical spelling and `:cmd` its alias: a line that is
/// a sigil followed by the same text means the same command either way.
pub proof fn law_slash_and_colon_sigils_agree(x: Seq<char>)
    ensures
        parse_spec(seq!['/'] + x) == parse_spec(seq![':'] + x),
{
    let a = seq!['/'] + x;
    let b = seq![':'] + x;
    assert(crate::text::trim_start(a) == a);
    assert(crate::text::trim_start(b) == b);
    lemma_trim_end_cons('/', x);
    lemma_trim_end_cons(':', x);
    assert(trim(a) == seq!['/'] + crate::text::trim_end(x));
    assert(trim(b) == seq![':'] + crate::text::trim_end(x));
    assert((seq!['/'] + crate::text::trim_end(x)).skip(1) =~= crate::text::trim_end(x));
    assert(sigil_normal(a) =~= sigil_normal(b));
}

proof fn lemma_sigil_word(line: Seq<char>, x: Seq<char>)
    requires
        trim(line) == seq!['/'] + x || trim(line) == seq![':'] + x,
    ensures
        sigil_normal(line) == seq![':'] + x,
{
    let t = trim(line);
    assert(t[0] == '/' || t[0] == ':');
    if t[0] == '/' {
        assert(t == seq!['/'] + x);
        assert(t.skip(1) =~= x);
    }
}

/// A line that is `quit`, `q` or `exit` behind either sigil (`/` or `:`),
/// with any surrounding blanks, quits.
pub proof fn law_quit_spellings(line: Seq<char>, x: Seq<char>)
    requires
        x == "quit"@ || x == "q"@ || x == "exit"@,
        trim(line) == seq!['/'] + x || trim(line) == seq![':'] + x,
    ensures
        parse_spec(line) == CommandView::Quit,
{
    lemma_sigil_word(line, x);
    reveal_strlit("quit");
    reveal_strlit("q");
    reveal_strlit("exit");
    reveal_strlit(":quit");
    reveal_strlit(":q");
    reveal_strlit(":exit");
    if x == "quit"@ {
        assert(seq![':'] + x =~= ":quit"@);
    } else if x == "q"@ {
        assert(seq![':'] + x =~= ":q"@);
    } else {
        assert(seq![':'] + x =~= ":exit"@);
    }
}

/// The other fixed commands, behind either sigil: `help` (also `h` and
/// `?`), `status`, `snapshot`, `history` and `last`.
pub proof fn law_command_spellings(line: Seq<char>, x: Seq<char>)
    requires
        trim(line) == seq!['/'] + x || trim(line) == seq![':'] + x,
    ensures
        (x == "help"@ || x == "h"@ || x == "?"@) ==> parse_spec(line) == CommandView::Help,
        x == "status"@ ==> parse_spec(line) == CommandView::Status,
        x == "snapshot"@ ==> parse_spec(line) == CommandView::Snapshot,
        x == "history"@ ==> parse_spec(line) == CommandView::History,
        x == "last"@ ==> parse_spec(line) == CommandView::LastAnswer,
{
    lemma_sigil_word(line, x);
    let t = seq![':'] + x;
    reveal_strlit("help");
    reveal_strlit("h");
    reveal_strlit("?");
    reveal_strlit("status");
    reveal_strlit("snapshot");
    reveal_strlit("history");
    reveal_strlit("last");
    reveal_strlit(":quit");
    reveal_strlit(":q");
    reveal_strlit(":exit");
    reveal_strlit(":help");
    reveal_strlit(":h");
    reveal_strlit(":?");
    reveal_strlit(":status");
    reveal_strlit(":snapshot");
    reveal_strlit(":restore");
    reveal_strlit(":history");
    reveal_strlit(":last");
    assert(":quit"@.len() == 5 && ":quit"@[1] == 'q');
    assert(":q"@.len() == 2 && ":q"@[1] == 'q');
    assert(":exit"@.len() == 5 && ":exit"@[1] == 'e');
    assert(":help"@.len() == 5 && ":help"@[1] == 'h');
    assert(":h"@.len() == 2 && ":h"@[1] == 'h');
    assert(":?"@.len() == 2 && ":?"@[1] == '?');
    assert(":status"@.len() == 7 && ":status"@[1] == 's');
    assert(":snapshot"@.len() == 9 && ":snapshot"@[1] == 's');
    assert(":restore"@.len() == 8 && ":restore"@[1] == 'r');
    assert(":history"@.len() == 8 && ":history"@[1] == 'h');
    assert(":last"@.len() == 5 && ":last"@[1] == 'l');
    if x == "help"@ {
        assert(t =~= ":help"@);
    } else if x == "h"@ {
        assert(t =~= ":h"@);
    } else if x == "?"@ {
        assert(t =~= ":?"@);
    } else if x == "status"@ {
        assert(t =~= ":status"@);
    } else if x == "snapshot"@ {
        assert(t =~= ":snapshot"@);
    } else if x == "history"@ {
        assert(t =~= ":history"@);
    } else if x == "last"@ {
        assert(t =~= ":last"@);
    }
}

/// A line whose trimmed text does not start with a sigil is a goal: that
/// trimmed text. One that starts with a sigil is never a goal.
pub proof fn law_plain_text_is_a_goal(line: Seq<char>)
    ensures
        (trim(line).len() == 0 || (trim(line)[0] != '/' && trim(line)[0] != ':')) ==> parse_spec(line)
            == CommandView::Goal(trim(line)),
        (trim(line).len() > 0 && (trim(line)[0] == '/' || trim(line)[0] == ':')) ==> !(parse_spec(
            line,
        ) is Goal),
{
    reveal_strlit(":quit");
    reveal_strlit(":q");
    reveal_strlit(":exit");
    reveal_strlit(":help");
    reveal_strlit(":h");
    reveal_strlit(":?");
    reveal_strlit(":status");
    reveal_strlit(":snapshot");
    reveal_strlit(":restore");
    reveal_strlit(":history");
    reveal_strlit(":last");
    let t = sigil_normal(line);
    if trim(line).len() > 0 && (trim(line)[0] == '/' || trim(line)[0] == ':') {
        assert(t[0] == ':');
    } else {
        assert(t == trim(line));
        assert(":quit"@[0] == ':' && ":q"@[0] == ':' && ":exit"@[0] == ':' && ":help"@[0] == ':' && ":h"@[0]
            == ':' && ":?"@[0] == ':' && ":status"@[0] == ':' && ":snapshot"@[0] == ':' && ":history"@[0]
            == ':' && ":last"@[0] == ':');
        assert(":restore"@.len() == 8 && ":restore"@[0] == ':');
        if starts_with(t, ":restore"@) {
            assert(t[0] == ":restore"@[0]);
        }
    }
}

/// `restore` behind either sigil restores the snapshot named by the rest
/// of the line, trimmed.
pub proof fn law_restore_names_its_snapshot(line: Seq<char>, rest: Seq<char>)
    requires
        trim(line) == seq!['/'] + "restore"@ + rest || trim(line) == seq![':'] + "restore"@ + rest,
        !starts_with(rest, ":restore"@),
    ensures
        parse_spec(line) == CommandView::Restore(trim(rest)),
{
    reveal_strlit("restore");
    reveal_strlit(":quit");
    reveal_strlit(":q");
    reveal_strlit(":exit");
    reveal_strlit(":help");
    reveal_strlit(":h");
    reveal_strlit(":?");
    reveal_strlit(":status");
    reveal_strlit(":snapshot");
    reveal_strlit(":restore");
    let x = "restore"@ + rest;
    if trim(line) == seq!['/'] + "restore"@ + rest {
        assert(seq!['/'] + "restore"@ + rest =~= seq!['/'] + x);
    } else {
        assert(seq![':'] + "restore"@ + rest =~= seq![':'] + x);
    }
    lemma_sigil_word(line, x);
    let t = sigil_normal(line);
    assert(t =~= ":restore"@ + rest);
    assert(t[1] == 'r' && t.len() >= 8);
    assert(":quit"@[1] == 'q' && ":q"@[1] == 'q' && ":exit"@[1] == 'e' && ":help"@[1] == 'h' && ":h"@[1]
        == 'h' && ":?"@[1] == '?' && ":status"@[1] == 's' && ":snapshot"@[1] == 's');
    assert(t.take(8) =~= ":restore"@);
    assert(starts_with(t, ":restore"@));
    assert(t.skip(8) =~= rest);
    assert(strip_all_prefix(t, ":restore"@) == strip_all_prefix(rest, ":restore"@));
    assert(strip_all_prefix(rest, ":restore"@) == rest);
}

// ----------------------------------------------------- offered tools ---

/// The wire name of an offered tool schema: `function.name`.
pub open spec fn tool_name(t: Json) -> Option<Seq<char>> {
    as_str(get(get(t, "function"@), "name"@))
}

/// The name a new schema is checked under (empty when it has none).
pub open spec fn offered_name(t: Json) -> Seq<char> {
    match tool_name(t) {
        Some(n) => n,
        None => Seq::empty(),
    }
}

fn tool_name_exec(t: &Json) -> (r: Option<&String>)
    ensures
        match r {
            Some(n) => tool_name(*t) == Some(n@),
            None => tool_name(*t) is None,
        },
{
    match member(member(Some(t), "function"), "name") {
        Some(Json::Str(n)) => Some(n),
        _ => None,
    }
}

/// Offer a tool schema on the model surface once: it is added only when
/// no schema already offered carries its wire name (providers refuse
/// duplicate tool names).
pub fn offer_unique(native_tools: &mut Vec<Json>, t: Json)
    ensures
        (exists|i: int| 0 <= i < old(native_tools)@.len() && tool_name(old(native_tools)@[i]) == Some(offered_name(t)))
            ==> final(native_tools)@ == old(native_tools)@,
        !(exists|i: int| 0 <= i < old(native_tools)@.len() && tool_name(old(native_tools)@[i]) == Some(offered_name(t)))
            ==> final(native_tools)@ == old(native_tools)@.push(t),
{
    let name: Vec<char> = match tool_name_exec(&t) {
        Some(n) => chars_of(n.as_str()),
        None => Vec::new(),
    };
    assert(name@ == offered_name(t));
    let mut i: usize = 0;
    while i < native_tools.len()
        invariant
            i <= native_tools.len(),
            name@ == offered_name(t),
            forall|j: int| 0 <= j < i ==> tool_name(native_tools@[j]) != Some(offered_name(t)),
        decreases native_tools.len() - i,
    {
        match tool_name_exec(&native_tools[i]) {
            Some(n) => {
                if chars_eq(&chars_of(n.as_str()), &name) {
                    return;
                }
            },
            None => {},
        }
        i += 1;
    }
    native_tools.push(t);
}

/// The names of the offered tool schemas, in order; schemas without a
/// name are skipped.
pub open spec fn tool_names_spec(ts: Seq<Json>) -> Seq<Seq<char>>
    decreases ts.len(),
{
    if ts.len() == 0 {
        Seq::empty()
    } else {
        let rest = tool_names_spec(ts.drop_last());
        match tool_name(ts.last()) {
            Some(n) => rest.push(n),
            None => rest,
        }
    }
}

/// The wire names of the tool schemas delivered on operator model calls
/// (`tools`, an array; anything else delivers none).
pub fn native_tool_names(tools: Option<&Json>) -> (r: Vec<String>)
    ensures
        crate::text::strings_view(r@) == match tools {
            Some(Json::Array(a)) => tool_names_spec(a@),
            _ => Seq::<Seq<char>>::empty(),
        },
{
    let a = match tools {
        Some(Json::Array(a)) => a,
        _ => {
            let out: Vec<String> = Vec::new();
            assert(crate::text::strings_view(out@) =~= Seq::<Seq<char>>::empty());
            return out;
        },
    };
    let mut out: Vec<String> = Vec::new();
    let mut i: usize = 0;
    assert(a@.take(0) =~= Seq::<Json>::empty());
    assert(crate::text::strings_view(out@) =~= Seq::<Seq<char>>::empty());
    while i < a.len()
        invariant
            i <= a.len(),
            crate::text::strings_view(out@) == tool_names_spec(a@.take(i as int)),
        decreases a.len() - i,
    {
        assert(a@.take(i + 1).drop_last() =~= a@.take(i as int));
        assert(a@.take(i + 1).last() == a@[i as int]);
        let ghost before = crate::text::strings_view(out@);
        match tool_name_exec(&a[i]) {
            Some(n) => {
                out.push(string_of(&chars_of(n.as_str())));
                assert(crate::text::strings_view(out@) =~= before.push(n@));
            },
            None => {},
        }
        i += 1;
    }
    assert(a@.take(a.len() as int) =~= a@);
    out
}

// ------------------------------------------------------ session dir ---

/// The automatic session directory: `$XDG_DATA_HOME/hairspring/run` when
/// that is set and not empty, else `$HOME/.local/share/hairspring/run`
/// (`.` for an unset `HOME`).
pub open spec fn session_dir_spec(xdg_data_home: Option<Seq<char>>, home: Option<Seq<char>>) -> Seq<char> {
    match xdg_data_home {
        Some(x) if x.len() > 0 => crate::text::join_path(crate::text::join_path(x, "hairspring"@), "run"@),
        _ => {
            let h = match home {
                Some(h) => h,
                None => "."@,
            };
            crate::text::join_path(
                crate::text::join_path(
                    crate::text::join_path(crate::text::join_path(h, ".local"@), "share"@),
                    "hairspring"@,
                ),
                "run"@,
            )
        },
    }
}

fn join_string(root: &Vec<char>, rel: &str) -> (r: Vec<char>)
    ensures
        r@ == crate::text::join_path(root@, rel@),
{
    let s = string_of(root);
    crate::text::join_path_exec(s.as_str(), rel)
}

/// The session directory from the environment's `XDG_DATA_HOME` and
/// `HOME` values.
pub fn default_session_dir(xdg_data_home: Option<&str>, home: Option<&str>) -> (r: String)
    ensures
        r@ == session_dir_spec(
            match xdg_data_home {
                Some(x) => Some(x@),
                None => None,
            },
            match home {
                Some(h) => Some(h@),
                None => None,
            },
        ),
{
    match xdg_data_home {
        Some(x) => {
            if chars_of(x).len() > 0 {
                let a = crate::text::join_path_exec(x, "hairspring");
                return string_of(&join_string(&a, "run"));
            }
        },
        None => {},
    }
    let h = match home {
        Some(h) => chars_of(h),
        None => chars_of("."),
    };
    let a = join_string(&h, ".local");
    let b = join_string(&a, "share");
    let c = join_string(&b, "hairspring");
    string_of(&join_string(&c, "run"))
}


// ------------------------------------------------------ resume fold ---

/// One event of an adopted stream, as the resume fold reads it.
#[derive(Debug)]
pub enum ResumeEvent {
    /// A closed mission's goal update.
    GoalUpdate,
    /// A booked model call, with its metadata payload (`None` when the
    /// payload could not be read or parsed).
    ModelCall(Option<Json>),
    /// Any other event.
    Other,
}

/// A model call that books no loop step: an autocompact distill
/// (`why == "distill"`) or a verifier round (`role == "verifier"`).
pub open spec fn books_no_step(meta: Option<Json>) -> bool {
    match meta {
        Some(m) => as_str(get(m, "why"@)) == Some("distill"@) || as_str(get(m, "role"@)) == Some(
            "verifier"@,
        ),
        None => false,
    }
}

/// The session counters folded from a stream's events: missions run (one
/// goal update per closed mission), loop steps (model calls that book a
/// step) and model calls.
pub open spec fn resume_fold(es: Seq<ResumeEvent>) -> (nat, nat, nat)
    decreases es.len(),
{
    if es.len() == 0 {
        (0, 0, 0)
    } else {
        let p = resume_fold(es.drop_last());
        match es.last() {
            ResumeEvent::GoalUpdate => ((p.0 + 1) as nat, p.1, p.2),
            ResumeEvent::ModelCall(meta) => (
                p.0,
                if books_no_step(meta) {
                    p.1
                } else {
                    (p.1 + 1) as nat
                },
                (p.2 + 1) as nat,
            ),
            ResumeEvent::Other => p,
        }
    }
}

/// Whether a model call's metadata marks it as booking no step.
pub fn model_call_books_no_step(meta: &Option<Json>) -> (r: bool)
    ensures
        r == books_no_step(*meta),
{
    match meta {
        Some(m) => {
            let distill = match get_str(m, "why") {
                Some(w) => eq_str(&chars_of(w.as_str()), "distill"),
                None => false,
            };
            if distill {
                return true;
            }
            match get_str(m, "role") {
                Some(w) => eq_str(&chars_of(w.as_str()), "verifier"),
                None => false,
            }
        },
        None => false,
    }
}

/// Fold an adopted stream's history into the session counters
/// `(missions_run, total_steps, total_model_calls)`, so a resumed session
/// shows the accounting it had instead of zeros.
pub fn resume_counters(events: &Vec<ResumeEvent>) -> (r: (u64, u64, u64))
    ensures
        (r.0 as nat, r.1 as nat, r.2 as nat) == resume_fold(events@),
{
    let mut missions: u64 = 0;
    let mut steps: u64 = 0;
    let mut calls: u64 = 0;
    let mut i: usize = 0;
    while i < events.len()
        invariant
            i <= events.len(),
            missions <= i && steps <= i && calls <= i,
            (missions as nat, steps as nat, calls as nat) == resume_fold(events@.take(i as int)),
        decreases events.len() - i,
    {
        assert(events@.take(i as int + 1).drop_last() =~= events@.take(i as int));
        match &events[i] {
            ResumeEvent::GoalUpdate => {
                missions = missions + 1;
            },
            ResumeEvent::ModelCall(meta) => {
                calls = calls + 1;
                if !model_call_books_no_step(meta) {
                    steps = steps + 1;
                }
            },
            ResumeEvent::Other => {},
        }
        i += 1;
    }
    assert(events@.take(events.len() as int) =~= events@);
    (missions, steps, calls)
}

} // verus!
