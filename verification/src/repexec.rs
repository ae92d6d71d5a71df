//! The repo.exec guardrails: repo.exec is build/test only, so a command
//! that invokes `git apply` or writes a raw `.diff`/`.patch` file is refused
//! before anything runs, with a classed steering result; repeated refusals
//! of one class escalate. Also the host-side command wrapper for the egress policy.
use vstd::prelude::*;
use crate::json::{as_str, Json, JsonNumber};
use crate::text::{
    chars_eq, chars_of, eq_str, extend_chars, extend_str, find, match_at, slice_chars,
    starts_with, starts_with_str, string_of, words, words_exec, find_exec, find_from,
    lemma_find_from_some, lemma_find_from_none, replace_char, contains, contains_str, str_eq,
    join_path, join_path_exec, strings_view, ends_with,
};

verus! {

broadcast use vstd::string::group_string_axioms;

// ------------------------------------------------------------- specs ---

/// A shell operator that ends a simple command.
pub open spec fn is_seg_sep(c: char) -> bool {
    c == '|' || c == ';' || c == '&' || c == '(' || c == ')'
}

pub open spec fn seg_sep_pred() -> spec_fn(char) -> bool {
    |c: char| is_seg_sep(c)
}

pub open spec fn slash_pred() -> spec_fn(char) -> bool {
    |c: char| c == '/'
}

pub open spec fn redir_pred() -> spec_fn(char) -> bool {
    |c: char| is_redir_char(c)
}

/// Index of the first character of `s` at or after `i` satisfying `f`.
pub open spec fn first_where(s: Seq<char>, f: spec_fn(char) -> bool, i: int) -> Option<int>
    decreases s.len() - i,
{
    if i < 0 || i >= s.len() {
        None
    } else if f(s[i]) {
        Some(i)
    } else {
        first_where(s, f, i + 1)
    }
}

/// `s` split at every character satisfying `f` (empty pieces kept), as
/// `str::split` with a character-set pattern.
pub open spec fn split_where(s: Seq<char>, f: spec_fn(char) -> bool) -> Seq<Seq<char>>
    decreases s.len(),
{
    match first_where(s, f, 0) {
        None => seq![s],
        Some(i) => {
            proof {
                lemma_first_where_some(s, f, 0);
            }
            seq![s.take(i)] + split_where(s.skip(i + 1), f)
        },
    }
}

pub open spec fn is_redir_char(c: char) -> bool {
    c == '>' || c == '<'
}

/// One whitespace token with an attached redirection split off: `2>f`
/// becomes `2>` and `f` when everything up to and including the first
/// `>`/`<` is redirection syntax and a target follows.
pub open spec fn tok_split(raw: Seq<char>) -> Seq<Seq<char>> {
    match first_where(raw, redir_pred(), 0) {
        Some(pos) => {
            let op = raw.take(pos + 1);
            let target = raw.skip(pos + 1);
            if all_redir_or_digit(op) && target.len() > 0 {
                seq![op, target]
            } else {
                seq![raw]
            }
        },
        None => seq![raw],
    }
}

pub open spec fn all_redir_or_digit(s: Seq<char>) -> bool {
    forall|i: int| 0 <= i < s.len() ==> is_redir_char(#[trigger] s[i]) || ('0' <= s[i] && s[i] <= '9')
}

/// `s` has a `>` and only `>` and digits.
pub open spec fn is_write_redir(s: Seq<char>) -> bool {
    &&& exists|i: int| 0 <= i < s.len() && s[i] == '>'
    &&& forall|i: int| 0 <= i < s.len() ==> #[trigger] s[i] == '>' || ('0' <= s[i] && s[i] <= '9')
}

/// The tokens of one simple command.
pub open spec fn seg_tokens(seg: Seq<char>) -> Seq<Seq<char>> {
    flatten_toks(words(seg))
}

pub open spec fn flatten_toks(ws: Seq<Seq<char>>) -> Seq<Seq<char>>
    decreases ws.len(),
{
    if ws.len() == 0 {
        Seq::empty()
    } else {
        flatten_toks(ws.drop_last()) + tok_split(ws.last())
    }
}

/// The quote characters trimmed around a diff-target operand.
pub open spec fn is_quote(c: char) -> bool {
    c == '"' || c == '\''
}

pub open spec fn trim_quotes_start(s: Seq<char>) -> Seq<char>
    decreases s.len(),
{
    if s.len() > 0 && is_quote(s[0]) {
        trim_quotes_start(s.drop_first())
    } else {
        s
    }
}

pub open spec fn trim_quotes_end(s: Seq<char>) -> Seq<char>
    decreases s.len(),
{
    if s.len() > 0 && is_quote(s.last()) {
        trim_quotes_end(s.drop_last())
    } else {
        s
    }
}

/// The last normal path component (`Path::file_name`): the last piece
/// between `/` that is neither empty nor `.`, unless that piece is `..`.
pub open spec fn file_name(p: Seq<char>) -> Option<Seq<char>> {
    let segs = split_where(p, slash_pred());
    match last_named(segs, segs.len() as int) {
        None => None,
        Some(k) => if segs[k] == seq!['.', '.'] {
            None
        } else {
            Some(segs[k])
        },
    }
}

/// Index of the last piece before `i` that is neither empty nor `.`.
pub open spec fn last_named(segs: Seq<Seq<char>>, i: int) -> Option<int>
    decreases i,
{
    if i <= 0 || i > segs.len() {
        None
    } else if segs[i - 1].len() > 0 && segs[i - 1] != seq!['.'] {
        Some(i - 1)
    } else {
        last_named(segs, i - 1)
    }
}

/// Index of the last `.` in `s` before `i`.
pub open spec fn last_dot(s: Seq<char>, i: int) -> Option<int>
    decreases i,
{
    if i <= 0 || i > s.len() {
        None
    } else if s[i - 1] == '.' {
        Some(i - 1)
    } else {
        last_dot(s, i - 1)
    }
}

/// `Path::extension` of a file name: what follows the last `.`, unless
/// that `.` leads the name.
pub open spec fn extension(f: Seq<char>) -> Option<Seq<char>> {
    match last_dot(f, f.len() as int) {
        None => None,
        Some(d) => if d == 0 {
            None
        } else {
            Some(f.skip(d + 1))
        },
    }
}

pub open spec fn ascii_lower(c: char) -> char {
    if 'A' <= c && c <= 'Z' {
        ((c as u32) + 32) as char
    } else {
        c
    }
}

/// `str::eq_ignore_ascii_case`.
pub open spec fn eq_ignore_ascii_case(a: Seq<char>, b: Seq<char>) -> bool {
    a.len() == b.len() && forall|i: int| 0 <= i < a.len() ==> ascii_lower(#[trigger] a[i])
        == ascii_lower(b[i])
}

/// The operand names a `.diff` or `.patch` file (quotes around it ignored,
/// extension case ignored).
pub open spec fn is_diff_target(t: Seq<char>) -> bool {
    let u = trim_quotes_end(trim_quotes_start(t));
    match file_name(u) {
        None => false,
        Some(f) => match extension(f) {
            None => false,
            Some(e) => eq_ignore_ascii_case(e, "diff"@) || eq_ignore_ascii_case(e, "patch"@),
        },
    }
}

pub open spec fn is_git_two_arg_opt(g: Seq<char>) -> bool {
    g == "-C"@ || g == "-c"@ || g == "--git-dir"@ || g == "--work-tree"@ || g == "--namespace"@
        || g == "--exec-path"@
}

/// Index of git's subcommand: global options skipped from `j` (`-C dir`,
/// `-c k=v`, `--git-dir d`, ... take a value; other `-` flags stand alone).
pub open spec fn skip_git_opts(toks: Seq<Seq<char>>, j: int) -> int
    decreases toks.len() + 1 - j,
{
    if j < 0 || j >= toks.len() {
        j
    } else if is_git_two_arg_opt(toks[j]) {
        skip_git_opts(toks, j + 2)
    } else if starts_with(toks[j], seq!['-']) {
        skip_git_opts(toks, j + 1)
    } else {
        j
    }
}

/// A token that runs git: `git` itself or a path whose file name is
/// `git` (`/usr/bin/git`).
pub open spec fn is_git_binary(t: Seq<char>) -> bool {
    t == "git"@ || ends_with(t, "/git"@)
}

/// Some git token is followed (after global options) by `apply`.
pub open spec fn has_git_apply(toks: Seq<Seq<char>>) -> bool {
    exists|i: int|
        0 <= i < toks.len() && is_git_binary(toks[i]) && {
            let j = skip_git_opts(toks, i + 1);
            0 <= j < toks.len() && toks[j] == "apply"@
        }
}

/// First write redirection whose target is a diff file: (op, target).
pub open spec fn first_redir_write(toks: Seq<Seq<char>>, i: int) -> Option<(Seq<char>, Seq<char>)>
    decreases toks.len() - i,
{
    if i < 0 || i >= toks.len() {
        None
    } else if is_write_redir(toks[i]) && i + 1 < toks.len() && is_diff_target(toks[i + 1]) {
        Some((toks[i], toks[i + 1]))
    } else {
        first_redir_write(toks, i + 1)
    }
}

/// Index of the first token equal to one of the given names.
pub open spec fn first_named(toks: Seq<Seq<char>>, f: spec_fn(Seq<char>) -> bool, i: int) -> Option<
    int,
>
    decreases toks.len() - i,
{
    if i < 0 || i >= toks.len() {
        None
    } else if f(toks[i]) {
        Some(i)
    } else {
        first_named(toks, f, i + 1)
    }
}

/// First non-flag operand from `i` on that is a diff target.
pub open spec fn first_diff_operand(toks: Seq<Seq<char>>, i: int) -> Option<Seq<char>>
    decreases toks.len() - i,
{
    if i < 0 || i >= toks.len() {
        None
    } else if !starts_with(toks[i], seq!['-']) && is_diff_target(toks[i]) {
        Some(toks[i])
    } else {
        first_diff_operand(toks, i + 1)
    }
}

/// Last non-flag operand among `toks[lo..i]`.
pub open spec fn last_operand(toks: Seq<Seq<char>>, lo: int, i: int) -> Option<Seq<char>>
    decreases i - lo,
{
    if i <= lo || i > toks.len() || lo < 0 {
        None
    } else if !starts_with(toks[i - 1], seq!['-']) {
        Some(toks[i - 1])
    } else {
        last_operand(toks, lo, i - 1)
    }
}

pub open spec fn is_copy_cmd(t: Seq<char>) -> bool {
    t == "cp"@ || t == "mv"@ || t == "install"@
}

pub open spec fn tee_pred() -> spec_fn(Seq<char>) -> bool {
    |t: Seq<char>| t == "tee"@
}

pub open spec fn copy_pred() -> spec_fn(Seq<char>) -> bool {
    |t: Seq<char>| is_copy_cmd(t)
}

/// The violation found in one simple command's tokens, checked in order:
/// git apply, write redirection, tee operand, cp/mv/install destination.
pub open spec fn seg_violation(toks: Seq<Seq<char>>) -> Option<Seq<char>> {
    if has_git_apply(toks) {
        Some("git apply invocation"@)
    } else if first_redir_write(toks, 0) is Some {
        let (op, t) = first_redir_write(toks, 0)->0;
        Some("raw diff-file write ("@ + op + seq![' '] + t + seq![')'])
    } else if first_named(toks, tee_pred(), 0) is Some && first_diff_operand(
        toks,
        first_named(toks, tee_pred(), 0)->0 + 1,
    ) is Some {
        let a = first_diff_operand(toks, first_named(toks, tee_pred(), 0)->0 + 1)->0;
        Some("raw diff-file write (tee "@ + a + seq![')'])
    } else {
        match first_named(toks, copy_pred(), 0) {
            Some(i) => match last_operand(toks, i + 1, toks.len() as int) {
                Some(d) => if is_diff_target(d) {
                    Some("raw diff-file write ("@ + toks[i] + seq![' '] + d + seq![')'])
                } else {
                    None
                },
                None => None,
            },
            None => None,
        }
    }
}

/// The first simple command (in order) with a violation.
pub open spec fn first_violation(segs: Seq<Seq<char>>, i: int) -> Option<Seq<char>>
    decreases segs.len() - i,
{
    if i < 0 || i >= segs.len() {
        None
    } else if seg_violation(seg_tokens(segs[i])) is Some {
        seg_violation(seg_tokens(segs[i]))
    } else {
        first_violation(segs, i + 1)
    }
}

/// The guardrail verdict for a repo.exec command.
pub open spec fn edit_path_violation_spec(command: Seq<char>) -> Option<Seq<char>> {
    first_violation(split_where(command, seg_sep_pred()), 0)
}


// ------------------------------------------------------------- exec ---

fn is_seg_sep_exec(c: char) -> (r: bool)
    ensures
        r == is_seg_sep(c),
{
    c == '|' || c == ';' || c == '&' || c == '(' || c == ')'
}

pub proof fn lemma_split_step(s: Seq<char>, f: spec_fn(char) -> bool, k: int)
    requires
        0 <= k < s.len(),
        f(s[k]),
        forall|j: int| 0 <= j < k ==> !f(#[trigger] s[j]),
    ensures
        split_where(s, f) == seq![s.take(k)] + split_where(s.skip(k + 1), f),
{
    lemma_first_where_is(s, f, 0, k);
}

pub proof fn lemma_split_last(s: Seq<char>, f: spec_fn(char) -> bool)
    requires
        forall|j: int| 0 <= j < s.len() ==> !f(#[trigger] s[j]),
    ensures
        split_where(s, f) == seq![s],
{
    lemma_first_where_is(s, f, 0, s.len() as int);
}

/// `command.split(['|', ';', '&', '(', ')'])`.
fn split_segments(s: &Vec<char>) -> (r: Vec<Vec<char>>)
    ensures
        r@.map_values(|x: Vec<char>| x@) == split_where(s@, seg_sep_pred()),
{
    let ghost f = seg_sep_pred();
    let mut out: Vec<Vec<char>> = Vec::new();
    let mut start: usize = 0;
    assert(s@.skip(0) =~= s@);
    assert(out@.map_values(|x: Vec<char>| x@) + split_where(s@, f) =~= split_where(s@, f));
    let mut k: usize = 0;
    while k < s.len()
        invariant
            f == seg_sep_pred(),
            start <= k <= s.len(),
            forall|j: int| start <= j < k ==> !f(#[trigger] s@[j]),
            split_where(s@, f) == out@.map_values(|x: Vec<char>| x@) + split_where(s@.skip(start as int), f),
        decreases s.len() - k,
    {
        assert(f(s@[k as int]) == is_seg_sep(s@[k as int]));
        if is_seg_sep_exec(s[k]) {
            let piece = slice_chars(s, start, k);
            proof {
                let rest = s@.skip(start as int);
                assert forall|j: int| 0 <= j < k - start implies !f(#[trigger] rest[j]) by {
                    assert(rest[j] == s@[start + j]);
                }
                assert(rest[k - start] == s@[k as int]);
                lemma_split_step(rest, f, k - start);
                assert(rest.take(k - start) =~= piece@);
                assert(rest.skip(k - start + 1) =~= s@.skip(k + 1));
                assert(out@.push(piece).map_values(|x: Vec<char>| x@) =~= out@.map_values(|x: Vec<char>| x@).push(piece@));
            }
            out.push(piece);
            start = k + 1;
        }
        k += 1;
    }
    let piece = slice_chars(s, start, s.len());
    proof {
        let rest = s@.skip(start as int);
        assert forall|j: int| 0 <= j < rest.len() implies !f(#[trigger] rest[j]) by {
            assert(rest[j] == s@[start + j]);
        }
        lemma_split_last(rest, f);
        assert(rest =~= piece@);
        assert(out@.push(piece).map_values(|x: Vec<char>| x@) =~= out@.map_values(|x: Vec<char>| x@).push(piece@));
    }
    out.push(piece);
    out
}

/// `p.split('/')`.
fn split_slash(s: &Vec<char>) -> (r: Vec<Vec<char>>)
    ensures
        r@.map_values(|x: Vec<char>| x@) == split_where(s@, slash_pred()),
{
    let ghost f = slash_pred();
    let mut out: Vec<Vec<char>> = Vec::new();
    let mut start: usize = 0;
    assert(s@.skip(0) =~= s@);
    assert(out@.map_values(|x: Vec<char>| x@) + split_where(s@, f) =~= split_where(s@, f));
    let mut k: usize = 0;
    while k < s.len()
        invariant
            f == slash_pred(),
            start <= k <= s.len(),
            forall|j: int| start <= j < k ==> !f(#[trigger] s@[j]),
            split_where(s@, f) == out@.map_values(|x: Vec<char>| x@) + split_where(s@.skip(start as int), f),
        decreases s.len() - k,
    {
        assert(f(s@[k as int]) == (s@[k as int] == '/'));
        if s[k] == '/' {
            let piece = slice_chars(s, start, k);
            proof {
                let rest = s@.skip(start as int);
                assert forall|j: int| 0 <= j < k - start implies !f(#[trigger] rest[j]) by {
                    assert(rest[j] == s@[start + j]);
                }
                assert(rest[k - start] == s@[k as int]);
                lemma_split_step(rest, f, k - start);
                assert(rest.take(k - start) =~= piece@);
                assert(rest.skip(k - start + 1) =~= s@.skip(k + 1));
                assert(out@.push(piece).map_values(|x: Vec<char>| x@) =~= out@.map_values(|x: Vec<char>| x@).push(piece@));
            }
            out.push(piece);
            start = k + 1;
        }
        k += 1;
    }
    let piece = slice_chars(s, start, s.len());
    proof {
        let rest = s@.skip(start as int);
        assert forall|j: int| 0 <= j < rest.len() implies !f(#[trigger] rest[j]) by {
            assert(rest[j] == s@[start + j]);
        }
        lemma_split_last(rest, f);
        assert(rest =~= piece@);
        assert(out@.push(piece).map_values(|x: Vec<char>| x@) =~= out@.map_values(|x: Vec<char>| x@).push(piece@));
    }
    out.push(piece);
    out
}

/// The predicate "is `sep`".
pub open spec fn char_pred(sep: char) -> spec_fn(char) -> bool {
    |c: char| c == sep
}

/// `s.split(sep)`.
pub fn split_char(s: &Vec<char>, sep: char) -> (r: Vec<Vec<char>>)
    ensures
        r@.map_values(|x: Vec<char>| x@) == split_where(s@, char_pred(sep)),
{
    let ghost f = char_pred(sep);
    let mut out: Vec<Vec<char>> = Vec::new();
    let mut start: usize = 0;
    assert(s@.skip(0) =~= s@);
    assert(out@.map_values(|x: Vec<char>| x@) + split_where(s@, f) =~= split_where(s@, f));
    let mut k: usize = 0;
    while k < s.len()
        invariant
            f == char_pred(sep),
            start <= k <= s.len(),
            forall|j: int| start <= j < k ==> !f(#[trigger] s@[j]),
            split_where(s@, f) == out@.map_values(|x: Vec<char>| x@) + split_where(s@.skip(start as int), f),
        decreases s.len() - k,
    {
        assert(f(s@[k as int]) == (s@[k as int] == sep));
        if s[k] == sep {
            let piece = slice_chars(s, start, k);
            proof {
                let rest = s@.skip(start as int);
                assert forall|j: int| 0 <= j < k - start implies !f(#[trigger] rest[j]) by {
                    assert(rest[j] == s@[start + j]);
                }
                assert(rest[k - start] == s@[k as int]);
                lemma_split_step(rest, f, k - start);
                assert(rest.take(k - start) =~= piece@);
                assert(rest.skip(k - start + 1) =~= s@.skip(k + 1));
                assert(out@.push(piece).map_values(|x: Vec<char>| x@) =~= out@.map_values(|x: Vec<char>| x@).push(piece@));
            }
            out.push(piece);
            start = k + 1;
        }
        k += 1;
    }
    let piece = slice_chars(s, start, s.len());
    proof {
        let rest = s@.skip(start as int);
        assert forall|j: int| 0 <= j < rest.len() implies !f(#[trigger] rest[j]) by {
            assert(rest[j] == s@[start + j]);
        }
        lemma_split_last(rest, f);
        assert(rest =~= piece@);
        assert(out@.push(piece).map_values(|x: Vec<char>| x@) =~= out@.map_values(|x: Vec<char>| x@).push(piece@));
    }
    out.push(piece);
    out
}

/// Split an attached redirection off one token.
fn tok_split_exec(raw: &Vec<char>, out: &mut Vec<Vec<char>>)
    ensures
        final(out)@.map_values(|x: Vec<char>| x@) == old(out)@.map_values(|x: Vec<char>| x@)
            + tok_split(raw@),
{
    let ghost f = redir_pred();
    let ghost o = old(out)@.map_values(|x: Vec<char>| x@);
    let mut pos: usize = 0;
    while pos < raw.len() && !(raw[pos] == '>' || raw[pos] == '<')
        invariant
            f == redir_pred(),
            pos <= raw.len(),
            forall|j: int| 0 <= j < pos ==> !f(#[trigger] raw@[j]),
        decreases raw.len() - pos,
    {
        assert(f(raw@[pos as int]) == is_redir_char(raw@[pos as int]));
        pos += 1;
    }
    assert(pos < raw.len() ==> f(raw@[pos as int]) == is_redir_char(raw@[pos as int]));
    proof {
        lemma_first_where_is(raw@, f, 0, pos as int);
    }
    if pos < raw.len() {
        let op = slice_chars(raw, 0, pos + 1);
        let target = slice_chars(raw, pos + 1, raw.len());
        let mut ok = true;
        let mut k: usize = 0;
        while k < op.len()
            invariant
                k <= op.len(),
                ok == (forall|j: int| 0 <= j < k ==> is_redir_char(#[trigger] op@[j]) || ('0' <= op@[j]
                    && op@[j] <= '9')),
            decreases op.len() - k,
        {
            let c = op[k];
            if !(c == '>' || c == '<' || ('0' <= c && c <= '9')) {
                ok = false;
            }
            k += 1;
        }
        assert(op@ =~= raw@.take(pos + 1));
        assert(target@ =~= raw@.skip(pos + 1));
        if ok && target.len() > 0 {
            let ghost p0 = out@;
            out.push(op);
            out.push(target);
            assert(out@.map_values(|x: Vec<char>| x@) =~= o + seq![raw@.take(pos + 1), raw@.skip(pos + 1)]);
            return;
        }
    }
    let r2 = slice_chars(raw, 0, raw.len());
    assert(r2@ =~= raw@);
    out.push(r2);
    assert(out@.map_values(|x: Vec<char>| x@) =~= o + seq![raw@]);
}

/// The tokens of one simple command.
fn seg_tokens_exec(seg: &Vec<char>) -> (r: Vec<Vec<char>>)
    ensures
        r@.map_values(|x: Vec<char>| x@) == seg_tokens(seg@),
{
    let ws = words_exec(seg);
    let ghost wv = ws@.map_values(|w: Vec<char>| w@);
    let mut out: Vec<Vec<char>> = Vec::new();
    let mut i: usize = 0;
    while i < ws.len()
        invariant
            i <= ws.len(),
            wv == ws@.map_values(|w: Vec<char>| w@),
            out@.map_values(|x: Vec<char>| x@) == flatten_toks(wv.take(i as int)),
        decreases ws.len() - i,
    {
        proof {
            assert(wv.take(i + 1).drop_last() =~= wv.take(i as int));
            assert(wv.take(i + 1).last() == ws@[i as int]@);
        }
        tok_split_exec(&ws[i], &mut out);
        i += 1;
    }
    assert(wv.take(ws.len() as int) =~= wv);
    out
}

fn is_quote_exec(c: char) -> (r: bool)
    ensures
        r == is_quote(c),
{
    c == '"' || c == '\''
}

proof fn lemma_trim_quotes_start(s: Seq<char>, i: int)
    requires
        0 <= i <= s.len(),
        forall|j: int| 0 <= j < i ==> is_quote(#[trigger] s[j]),
        i == s.len() || !is_quote(s[i]),
    ensures
        trim_quotes_start(s) == s.skip(i),
    decreases i,
{
    if i > 0 {
        assert(s.drop_first().skip(i - 1) =~= s.skip(i));
        lemma_trim_quotes_start(s.drop_first(), i - 1);
    } else {
        assert(s.skip(0) =~= s);
    }
}

proof fn lemma_trim_quotes_end(s: Seq<char>, i: int)
    requires
        0 <= i <= s.len(),
        forall|j: int| i <= j < s.len() ==> is_quote(#[trigger] s[j]),
        i == 0 || !is_quote(s[i - 1]),
    ensures
        trim_quotes_end(s) == s.take(i),
    decreases s.len() - i,
{
    if i < s.len() {
        assert(s.drop_last().take(i) =~= s.take(i));
        lemma_trim_quotes_end(s.drop_last(), i);
    } else {
        assert(s.take(i) =~= s);
    }
}

fn ascii_lower_exec(c: char) -> (r: char)
    ensures
        r == ascii_lower(c),
{
    if 'A' <= c && c <= 'Z' {
        let u: u8 = (c as u8) + 32;
        u as char
    } else {
        c
    }
}

fn eq_ignore_case_exec(a: &Vec<char>, b: &str) -> (r: bool)
    ensures
        r == eq_ignore_ascii_case(a@, b@),
{
    let bv = chars_of(b);
    if a.len() != bv.len() {
        return false;
    }
    let mut i: usize = 0;
    while i < a.len()
        invariant
            a.len() == bv.len(),
            bv@ == b@,
            i <= a.len(),
            forall|j: int| 0 <= j < i ==> ascii_lower(#[trigger] a@[j]) == ascii_lower(bv@[j]),
        decreases a.len() - i,
    {
        if ascii_lower_exec(a[i]) != ascii_lower_exec(bv[i]) {
            return false;
        }
        i += 1;
    }
    true
}

/// The operand names a `.diff` or `.patch` file.
fn is_diff_target_exec(t: &Vec<char>) -> (r: bool)
    ensures
        r == is_diff_target(t@),
{
    let mut a: usize = 0;
    while a < t.len() && is_quote_exec(t[a])
        invariant
            a <= t.len(),
            forall|j: int| 0 <= j < a ==> is_quote(#[trigger] t@[j]),
        decreases t.len() - a,
    {
        a += 1;
    }
    proof { lemma_trim_quotes_start(t@, a as int); }
    let s1 = slice_chars(t, a, t.len());
    assert(s1@ =~= t@.skip(a as int));
    let mut b: usize = s1.len();
    while b > 0 && is_quote_exec(s1[b - 1])
        invariant
            b <= s1.len(),
            forall|j: int| b <= j < s1.len() ==> is_quote(#[trigger] s1@[j]),
        decreases b,
    {
        b -= 1;
    }
    proof { lemma_trim_quotes_end(s1@, b as int); }
    let u = slice_chars(&s1, 0, b);
    assert(u@ =~= s1@.take(b as int));
    let segs = split_slash(&u);
    let ghost sv = segs@.map_values(|x: Vec<char>| x@);
    // last piece that is neither empty nor "."
    let mut i: usize = segs.len();
    while i > 0 && (segs[i - 1].len() == 0 || (segs[i - 1].len() == 1 && segs[i - 1][0] == '.'))
        invariant
            i <= segs.len(),
            sv == segs@.map_values(|x: Vec<char>| x@),
            last_named(sv, sv.len() as int) == last_named(sv, i as int),
        decreases i,
    {
        proof {
            if segs@[i - 1]@.len() == 1 {
                assert(segs@[i - 1]@ =~= seq!['.']);
            }
        }
        i -= 1;
    }
    if i == 0 {
        return false;
    }
    let f = &segs[i - 1];
    proof {
        if f@.len() == 1 {
            assert(f@ != seq!['.']);
        }
        assert(last_named(sv, i as int) == Some(i - 1));
    }
    if f.len() == 2 && f[0] == '.' && f[1] == '.' {
        assert(f@ =~= seq!['.', '.']);
        return false;
    }
    assert(f@ != seq!['.', '.']);
    // extension: after the last '.', unless it leads the name
    let mut d: usize = f.len();
    while d > 0 && f[d - 1] != '.'
        invariant
            d <= f.len(),
            last_dot(f@, f@.len() as int) == last_dot(f@, d as int),
        decreases d,
    {
        d -= 1;
    }
    if d <= 1 {
        return false;
    }
    let e = slice_chars(f, d, f.len());
    assert(e@ =~= f@.skip(d as int));
    eq_ignore_case_exec(&e, "diff") || eq_ignore_case_exec(&e, "patch")
}

fn is_git_two_arg_opt_exec(g: &Vec<char>) -> (r: bool)
    ensures
        r == is_git_two_arg_opt(g@),
{
    eq_str(g, "-C") || eq_str(g, "-c") || eq_str(g, "--git-dir") || eq_str(g, "--work-tree")
        || eq_str(g, "--namespace") || eq_str(g, "--exec-path")
}

fn starts_with_dash(t: &Vec<char>) -> (r: bool)
    ensures
        r == starts_with(t@, seq!['-']),
{
    let r = t.len() > 0 && t[0] == '-';
    proof {
        if t.len() > 0 {
            assert(t@.subrange(0, 1) =~= seq![t@[0]]);
            assert(seq![t@[0]][0] == t@[0]);
            assert(seq!['-'][0] == '-');
        }
    }
    r
}

fn has_git_apply_exec(toks: &Vec<Vec<char>>) -> (r: bool)
    ensures
        r == has_git_apply(toks@.map_values(|x: Vec<char>| x@)),
{
    let ghost tv = toks@.map_values(|x: Vec<char>| x@);
    let mut i: usize = 0;
    while i < toks.len()
        invariant
            i <= toks.len(),
            tv == toks@.map_values(|x: Vec<char>| x@),
            forall|k: int| 0 <= k < i ==> !(is_git_binary(tv[k]) && {
                let j = skip_git_opts(tv, k + 1);
                0 <= j < tv.len() && tv[j] == "apply"@
            }),
        decreases toks.len() - i,
    {
        assert(tv[i as int] == toks@[i as int]@);
        if eq_str(&toks[i], "git") || crate::text::ends_with_str(&toks[i], "/git") {
            let mut j = i + 1;
            let mut done = false;
            while j < toks.len() && !done
                invariant
                    i < j <= toks.len(),
                    i < toks.len(),
                    tv == toks@.map_values(|x: Vec<char>| x@),
                    skip_git_opts(tv, i + 1) == skip_git_opts(tv, j as int) || (j == toks.len()
                        && skip_git_opts(tv, i + 1) >= tv.len()),
                    done ==> j < toks.len() && skip_git_opts(tv, i + 1) == j,
                decreases toks.len() - j, (if done { 0int } else { 1int }),
            {
                if is_git_two_arg_opt_exec(&toks[j]) {
                    if j + 1 < toks.len() {
                        j = j + 2;
                    } else {
                        proof {
                            assert(skip_git_opts(tv, j as int) == skip_git_opts(tv, j + 2));
                            assert(skip_git_opts(tv, j + 2) == j + 2);
                        }
                        j = toks.len();
                    }
                } else if starts_with_dash(&toks[j]) {
                    j += 1;
                } else {
                    done = true;
                }
            }
            proof {
                if !done {
                    assert(j == toks.len());
                    if skip_git_opts(tv, i + 1) == skip_git_opts(tv, j as int) {
                        assert(skip_git_opts(tv, j as int) == j);
                    }
                }
            }
            if j < toks.len() && eq_str(&toks[j], "apply") {
                assert(is_git_binary(tv[i as int]));
                assert(skip_git_opts(tv, i + 1) == j);
                assert(tv[j as int] == "apply"@);
                return true;
            }
        }
        i += 1;
    }
    false
}

fn is_write_redir_exec(t: &Vec<char>) -> (r: bool)
    ensures
        r == is_write_redir(t@),
{
    let mut has_gt = false;
    let mut i: usize = 0;
    while i < t.len()
        invariant
            i <= t.len(),
            forall|j: int| 0 <= j < i ==> #[trigger] t@[j] == '>' || ('0' <= t@[j] && t@[j] <= '9'),
            has_gt == (exists|j: int| 0 <= j < i && t@[j] == '>'),
        decreases t.len() - i,
    {
        let c = t[i];
        if !(c == '>' || ('0' <= c && c <= '9')) {
            return false;
        }
        if c == '>' {
            has_gt = true;
        }
        i += 1;
    }
    has_gt
}

/// Appends the characters of `t`.
fn push_tok(acc: &mut Vec<char>, t: &Vec<char>)
    ensures
        final(acc)@ == old(acc)@ + t@,
{
    extend_chars(acc, t);
}

/// The violation found in one simple command's tokens.
fn seg_violation_exec(toks: &Vec<Vec<char>>) -> (r: Option<Vec<char>>)
    ensures
        match r {
            Some(m) => seg_violation(toks@.map_values(|x: Vec<char>| x@)) == Some(m@),
            None => seg_violation(toks@.map_values(|x: Vec<char>| x@)) is None,
        },
{
    let ghost tv = toks@.map_values(|x: Vec<char>| x@);
    if has_git_apply_exec(toks) {
        return Some(chars_of("git apply invocation"));
    }
    // write redirection to a diff file
    let n = toks.len();
    let mut i: usize = 0;
    while i < n
        invariant
            i <= n,
            n == toks.len(),
            tv == toks@.map_values(|x: Vec<char>| x@),
            first_redir_write(tv, 0) == first_redir_write(tv, i as int),
            !has_git_apply(tv),
        decreases n - i,
    {
        assert(tv[i as int] == toks@[i as int]@);
        assert(i + 1 < n ==> tv[i + 1] == toks@[i + 1]@);
        if is_write_redir_exec(&toks[i]) && i + 1 < n && is_diff_target_exec(&toks[i + 1]) {
            assert(first_redir_write(tv, i as int) == Some((tv[i as int], tv[i + 1])));
            let mut m = chars_of("raw diff-file write (");
            push_tok(&mut m, &toks[i]);
            m.push(' ');
            push_tok(&mut m, &toks[i + 1]);
            m.push(')');
            assert(m@ =~= "raw diff-file write ("@ + tv[i as int] + seq![' '] + tv[i + 1] + seq![')']);
            assert(!has_git_apply(tv));
            assert(first_redir_write(tv, 0) is Some);
            assert(seg_violation(tv) == Some(m@));
            return Some(m);
        }
        i += 1;
    }
    assert(first_redir_write(tv, 0) is None);
    // tee operands
    let ghost tee_f = tee_pred();
    let mut ti: usize = 0;
    let mut tee_at: Option<usize> = None;
    while ti < n && tee_at.is_none()
        invariant
            ti <= n,
            n == toks.len(),
            tv == toks@.map_values(|x: Vec<char>| x@),
            tee_f == tee_pred(),
            !has_git_apply(tv),
            first_redir_write(tv, 0) is None,
            match tee_at {
                None => first_named(tv, tee_f, 0) == first_named(tv, tee_f, ti as int),
                Some(k) => first_named(tv, tee_f, 0) == Some(k as int) && k < n,
            },
        decreases n - ti, (if tee_at.is_none() { 1int } else { 0int }),
    {
        assert(tv[ti as int] == toks@[ti as int]@);
        assert(tee_f(tv[ti as int]) == (tv[ti as int] == "tee"@));
        if eq_str(&toks[ti], "tee") {
            tee_at = Some(ti);
        } else {
            ti += 1;
        }
    }
    if let Some(k) = tee_at {
        let mut a = k + 1;
        while a < n
            invariant
                k < n,
                k + 1 <= a <= n,
                n == toks.len(),
                tv == toks@.map_values(|x: Vec<char>| x@),
                first_diff_operand(tv, k + 1) == first_diff_operand(tv, a as int),
                !has_git_apply(tv),
                first_redir_write(tv, 0) is None,
                first_named(tv, tee_pred(), 0) == Some(k as int),
            decreases n - a,
        {
            assert(tv[a as int] == toks@[a as int]@);
            if !starts_with_dash(&toks[a]) && is_diff_target_exec(&toks[a]) {
                assert(first_diff_operand(tv, a as int) == Some(tv[a as int]));
                let mut m = chars_of("raw diff-file write (tee ");
                push_tok(&mut m, &toks[a]);
                m.push(')');
                assert(m@ =~= "raw diff-file write (tee "@ + tv[a as int] + seq![')']);
                return Some(m);
            }
            a += 1;
        }
    }
    // cp / mv / install destination
    let ghost cp_f = copy_pred();
    let mut ci: usize = 0;
    let mut cp_at: Option<usize> = None;
    while ci < n && cp_at.is_none()
        invariant
            ci <= n,
            n == toks.len(),
            tv == toks@.map_values(|x: Vec<char>| x@),
            cp_f == copy_pred(),
            match cp_at {
                None => first_named(tv, cp_f, 0) == first_named(tv, cp_f, ci as int),
                Some(k) => first_named(tv, cp_f, 0) == Some(k as int) && k < n,
            },
        decreases n - ci, (if cp_at.is_none() { 1int } else { 0int }),
    {
        assert(tv[ci as int] == toks@[ci as int]@);
        assert(cp_f(tv[ci as int]) == is_copy_cmd(tv[ci as int]));
        if eq_str(&toks[ci], "cp") || eq_str(&toks[ci], "mv") || eq_str(&toks[ci], "install") {
            cp_at = Some(ci);
        } else {
            ci += 1;
        }
    }
    match cp_at {
        None => None,
        Some(k) => {
            let mut d = n;
            while d > k + 1 && starts_with_dash(&toks[d - 1])
                invariant
                    k < n,
                    k + 1 <= d <= n,
                    n == toks.len(),
                    tv == toks@.map_values(|x: Vec<char>| x@),
                    last_operand(tv, k + 1, n as int) == last_operand(tv, k + 1, d as int),
                decreases d,
            {
                d -= 1;
            }
            if d == k + 1 {
                return None;
            }
            if is_diff_target_exec(&toks[d - 1]) {
                let mut m = chars_of("raw diff-file write (");
                push_tok(&mut m, &toks[k]);
                m.push(' ');
                push_tok(&mut m, &toks[d - 1]);
                m.push(')');
                assert(m@ =~= "raw diff-file write ("@ + tv[k as int] + seq![' '] + tv[d - 1] + seq![')']);
                Some(m)
            } else {
                None
            }
        },
    }
}

/// Edit-path guardrail: repo.exec is build/test only, every source edit
/// goes through edit.apply. Returns the reason when the command invokes
/// `git apply` (any form, `--check` included) or writes a raw `.diff` /
/// `.patch` file (redirection, tee, cp/mv/install destination); reads of
/// diff files, `git diff` to stdout and every other command are allowed.
/// Each simple command (split at `| ; & ( )`) is judged on its own.
pub fn edit_path_violation(command: &str) -> (r: Option<String>)
    ensures
        match r {
            Some(m) => edit_path_violation_spec(command@) == Some(m@),
            None => edit_path_violation_spec(command@) is None,
        },
{
    let cv = chars_of(command);
    let segs = split_segments(&cv);
    let ghost sv = segs@.map_values(|x: Vec<char>| x@);
    let mut i: usize = 0;
    while i < segs.len()
        invariant
            i <= segs.len(),
            sv == segs@.map_values(|x: Vec<char>| x@),
            sv == split_where(command@, seg_sep_pred()),
            first_violation(sv, 0) == first_violation(sv, i as int),
        decreases segs.len() - i,
    {
        let toks = seg_tokens_exec(&segs[i]);
        match seg_violation_exec(&toks) {
            Some(m) => {
                return Some(string_of(&m));
            },
            None => {},
        }
        i += 1;
    }
    None
}

/// The stable class of a guardrail reason: escalation and telemetry
/// count per class, not per exact command.
pub fn violation_class(reason: &str) -> (r: String)
    ensures
        r@ == violation_class_spec(reason@),
{
    let rv = chars_of(reason);
    if starts_with_str(&rv, "git apply") {
        String::from_str("git_apply")
    } else if starts_with_str(&rv, "raw diff-file write") {
        String::from_str("diff_write")
    } else {
        String::from_str("other")
    }
}

/// A character that ends a class name inside a gate message.
pub open spec fn is_class_end(c: char) -> bool {
    c == ',' || c == ')' || c == ' ' || c == '\\' || c == '"'
}

pub open spec fn class_end_pred() -> spec_fn(char) -> bool {
    |c: char| is_class_end(c)
}

/// The violation class named in a gate result text: what follows the
/// first `class: `, up to the next `,`, `)`, space, backslash or quote.
pub open spec fn extract_gate_class_spec(output: Seq<char>) -> Option<Seq<char>> {
    if !crate::text::contains(output, "forbidden edit path"@) {
        None
    } else {
        match find(output, "class: "@) {
            None => None,
            Some(p0) => {
                let pos = p0 + 7;
                let rest = output.skip(pos);
                match first_where(rest, class_end_pred(), 0) {
                    Some(e) => Some(rest.take(e)),
                    None => Some(rest),
                }
            },
        }
    }
}

/// Pull the violation class back out of a gate result text (the loop
/// counts escalations from the tool output, not from internals).
pub fn extract_gate_class(output: &str) -> (r: Option<String>)
    ensures
        match r {
            Some(c) => extract_gate_class_spec(output@) == Some(c@),
            None => extract_gate_class_spec(output@) is None,
        },
{
    let ov = chars_of(output);
    if !crate::text::contains_str(&ov, "forbidden edit path") {
        return None;
    }
    let pat = chars_of("class: ");
    proof {
        reveal_strlit("class: ");
    }
    let p0 = match find_exec(&ov, &pat) {
        None => return None,
        Some(p) => p,
    };
    proof {
        crate::text::lemma_find_from_some(ov@, pat@, 0);
        assert(pat@.len() == 7);
        assert(match_at(ov@, pat@, p0 as int));
        assert(p0 + 7 <= ov.len());
    }
    let pos = p0 + 7;
    let ghost f = class_end_pred();
    let ghost rest = ov@.skip(pos as int);
    let mut e = pos;
    while e < ov.len() && !(ov[e] == ',' || ov[e] == ')' || ov[e] == ' ' || ov[e] == '\\' || ov[e] == '"')
        invariant
            pos <= e <= ov.len(),
            f == class_end_pred(),
            rest == ov@.skip(pos as int),
            forall|j: int| pos <= j < e ==> !f(#[trigger] ov@[j]),
        decreases ov.len() - e,
    {
        assert(f(ov@[e as int]) == is_class_end(ov@[e as int]));
        e += 1;
    }
    proof {
        assert(e < ov.len() ==> f(ov@[e as int]) == is_class_end(ov@[e as int]));
        assert forall|j: int| 0 <= j < e - pos implies !f(#[trigger] rest[j]) by {
            assert(rest[j] == ov@[pos + j]);
        }
        if e < ov.len() {
            assert(rest[e - pos] == ov@[e as int]);
        }
        lemma_first_where_is(rest, f, 0, e - pos);
        if e == ov.len() {
            assert(rest.take(e - pos) =~= rest);
        }
    }
    let c = slice_chars(&ov, pos, e);
    assert(c@ =~= rest.take(e - pos));
    Some(string_of(&c))
}

// ------------------------------------------------------ host wrapper ---

/// `c` as one single-quoted shell word: every `'` becomes `'\''`.
pub open spec fn shell_quote_spec(c: Seq<char>) -> Seq<char> {
    seq!['\''] + replace_char(c, '\'', seq!['\'', '\\', '\'', '\'']) + seq!['\'']
}

proof fn lemma_replace_char_push(s: Seq<char>, from: char, to: Seq<char>, c: char)
    ensures
        replace_char(s.push(c), from, to)
            == replace_char(s, from, to) + (if c == from { to } else { seq![c] }),
    decreases s.len(),
{
    if s.len() == 0 {
        assert(s.push(c).drop_first() =~= Seq::<char>::empty());
        assert(replace_char(Seq::<char>::empty(), from, to) =~= Seq::<char>::empty());
        assert(replace_char(s.push(c), from, to) =~= (if c == from { to } else { seq![c] }));
    } else {
        assert(s.push(c).drop_first() =~= s.drop_first().push(c));
        lemma_replace_char_push(s.drop_first(), from, to, c);
        assert(replace_char(s.push(c), from, to) =~= replace_char(s, from, to) + (if c
            == from {
            to
        } else {
            seq![c]
        }));
    }
}

/// Quotes `c` for `sh -c`.
pub fn shell_quote(c: &str) -> (r: String)
    ensures
        r@ == shell_quote_spec(c@),
{
    let cv = chars_of(c);
    let mut acc: Vec<char> = Vec::new();
    acc.push('\'');
    let ghost to = seq!['\'', '\\', '\'', '\''];
    let mut i: usize = 0;
    while i < cv.len()
        invariant
            i <= cv.len(),
            to == seq!['\'', '\\', '\'', '\''],
            acc@ == seq!['\''] + replace_char(cv@.take(i as int), '\'', to),
        decreases cv.len() - i,
    {
        let ch = cv[i];
        proof {
            lemma_replace_char_push(cv@.take(i as int), '\'', to, ch);
            assert(cv@.take(i + 1) =~= cv@.take(i as int).push(ch));
        }
        if ch == '\'' {
            acc.push('\'');
            acc.push('\\');
            acc.push('\'');
            acc.push('\'');
        } else {
            acc.push(ch);
        }
        i += 1;
    }
    acc.push('\'');
    assert(cv@.take(cv.len() as int) =~= cv@);
    string_of(&acc)
}

/// What the host-side evaluation runs: under the egress-off policy the
/// command loses network as well (`unshare -n`), otherwise it runs as given.
pub open spec fn host_command_spec(command: Seq<char>, egress_off: bool) -> Seq<char> {
    if egress_off {
        "unshare -n sh -c "@ + shell_quote_spec(command)
    } else {
        command
    }
}

/// The host-side eval command, wrapped for the egress policy
/// (`egress_off` is whether that policy is in force).
pub fn host_command_wrapper(command: &str, egress_off: bool) -> (r: String)
    ensures
        r@ == host_command_spec(command@, egress_off),
{
    if egress_off {
        let q = shell_quote(command);
        let mut acc: Vec<char> = chars_of("unshare -n sh -c ");
        extend_str(&mut acc, q.as_str());
        string_of(&acc)
    } else {
        string_of(&chars_of(command))
    }
}

// -------------------------------------------------------- escalation ---

/// The steer returned from the second same-class refusal on.
pub open spec fn escalation_text(n: nat, class: Seq<char>) -> Seq<char> {
    "GUARDRAIL ESCALATION: "@ + crate::text::dec(n) + " rejected edit-path attempts of class "@
        + class + ". Repeating a rejected bypass cannot ever succeed - the CLASS is forbidden outright, not the specific command. Make the edit with edit.apply (search/replace blocks) and use repo.exec ONLY to build and test."@
}

/// Counts guardrail refusals per violation class. The first refusal of a
/// class speaks through the refusal's own error; from the second one on,
/// `record` returns an escalating steer.
pub struct GuardrailEscalator {
    classes: Vec<String>,
    counts: Vec<usize>,
}

/// The slot at or after `i` that holds `class`, if any.
pub open spec fn class_slot(classes: Seq<Seq<char>>, class: Seq<char>, i: int) -> Option<int>
    decreases classes.len() - i,
{
    if i < 0 || i >= classes.len() {
        None
    } else if classes[i] == class {
        Some(i)
    } else {
        class_slot(classes, class, i + 1)
    }
}

proof fn lemma_class_slot_is(classes: Seq<Seq<char>>, class: Seq<char>, i: int, k: int)
    requires
        0 <= i <= k <= classes.len(),
        forall|j: int| i <= j < k ==> classes[j] != class,
        k == classes.len() || classes[k] == class,
    ensures
        class_slot(classes, class, i) == (if k == classes.len() { None } else { Some(k) }),
    decreases k - i,
{
    if i < k {
        lemma_class_slot_is(classes, class, i + 1, k);
    }
}

impl GuardrailEscalator {
    /// The class names, as character sequences.
    pub closed spec fn names(&self) -> Seq<Seq<char>> {
        self.classes@.map_values(|c: String| c@)
    }

    pub closed spec fn wf(&self) -> bool {
        self.classes.len() == self.counts.len()
    }

    /// How many refusals of `class` were recorded.
    pub closed spec fn count(&self, class: Seq<char>) -> nat {
        match class_slot(self.names(), class, 0) {
            Some(i) => self.counts@[i] as nat,
            None => 0,
        }
    }

    /// An escalator that has counted nothing.
    pub fn new() -> (r: Self)
        ensures
            r.wf(),
            forall|c: Seq<char>| r.count(c) == 0,
    {
        GuardrailEscalator { classes: Vec::new(), counts: Vec::new() }
    }

    /// Counts one refusal of `class`; the escalating steer when it is a
    /// repeat.
    pub fn record(&mut self, class: &str) -> (r: Option<String>)
        requires
            old(self).wf(),
            old(self).count(class@) < usize::MAX,
        ensures
            final(self).wf(),
            final(self).count(class@) == old(self).count(class@) + 1,
            forall|c: Seq<char>| c != class@ ==> final(self).count(c) == old(self).count(c),
            match r {
                Some(t) => final(self).count(class@) >= 2 && t@ == escalation_text(
                    final(self).count(class@),
                    class@,
                ),
                None => final(self).count(class@) < 2,
            },
    {
        let ghost names0 = self.names();
        let mut i: usize = 0;
        let mut found = false;
        while i < self.classes.len() && !found
            invariant
                self.wf(),
                names0 == self.names(),
                i <= self.classes.len(),
                forall|j: int| 0 <= j < i ==> names0[j] != class@,
                found ==> i < self.classes.len() && names0[i as int] == class@,
            decreases self.classes.len() - i, (if found { 0int } else { 1int }),
        {
            assert(names0[i as int] == self.classes@[i as int]@);
            if str_eq(self.classes[i].as_str(), class) {
                found = true;
            } else {
                i += 1;
            }
        }
        let n: usize;
        if found {
            proof {
                lemma_class_slot_is(names0, class@, 0, i as int);
            }
            n = self.counts[i] + 1;
            self.counts.set(i, n);
            proof {
                assert(self.names() == names0);
                assert forall|c: Seq<char>| c != class@ implies self.count(c) == old(self).count(c) by {
                    match class_slot(names0, c, 0) {
                        Some(k) => {
                            lemma_class_slot_some(names0, c, 0);
                            assert(k != i);
                        },
                        None => {},
                    }
                }
            }
        } else {
            proof {
                lemma_class_slot_is(names0, class@, 0, i as int);
            }
            self.classes.push(string_of(&chars_of(class)));
            self.counts.push(1);
            n = 1;
            proof {
                let names1 = self.names();
                assert(names1 =~= names0.push(class@));
                lemma_class_slot_is(names1, class@, 0, i as int);
                assert forall|c: Seq<char>| c != class@ implies self.count(c) == old(self).count(c) by {
                    lemma_class_slot_push(names0, class@, c, 0);
                    match class_slot(names0, c, 0) {
                        Some(k) => {
                            lemma_class_slot_some(names0, c, 0);
                        },
                        None => {},
                    }
                }
            }
        }
        if n < 2 {
            None
        } else {
            let mut acc: Vec<char> = chars_of("GUARDRAIL ESCALATION: ");
            crate::text::push_dec(&mut acc, n as u64);
            extend_str(&mut acc, " rejected edit-path attempts of class ");
            extend_str(&mut acc, class);
            extend_str(
                &mut acc,
                ". Repeating a rejected bypass cannot ever succeed - the CLASS is forbidden outright, not the specific command. Make the edit with edit.apply (search/replace blocks) and use repo.exec ONLY to build and test.",
            );
            Some(string_of(&acc))
        }
    }
}

proof fn lemma_class_slot_some(classes: Seq<Seq<char>>, class: Seq<char>, i: int)
    requires
        0 <= i,
        class_slot(classes, class, i) is Some,
    ensures
        i <= class_slot(classes, class, i)->0 < classes.len(),
        classes[class_slot(classes, class, i)->0] == class,
    decreases classes.len() - i,
{
    if classes[i] != class {
        lemma_class_slot_some(classes, class, i + 1);
    }
}

proof fn lemma_class_slot_push(classes: Seq<Seq<char>>, x: Seq<char>, class: Seq<char>, i: int)
    requires
        0 <= i <= classes.len(),
        class != x,
    ensures
        class_slot(classes.push(x), class, i) == class_slot(classes, class, i),
    decreases classes.len() - i,
{
    if i < classes.len() {
        lemma_class_slot_push(classes, x, class, i + 1);
    } else {
        assert(classes.push(x)[i] == x);
        assert(class_slot(classes.push(x), class, i + 1) is None);
    }
}

// ------------------------------------------------------------ lemmas ---

pub proof fn lemma_first_where_some(s: Seq<char>, f: spec_fn(char) -> bool, i: int)
    requires
        0 <= i,
        first_where(s, f, i) is Some,
    ensures
        i <= first_where(s, f, i)->0 < s.len(),
        f(s[first_where(s, f, i)->0]),
        forall|j: int| i <= j < first_where(s, f, i)->0 ==> !f(#[trigger] s[j]),
    decreases s.len() - i,
{
    if !f(s[i]) {
        lemma_first_where_some(s, f, i + 1);
    }
}

pub proof fn lemma_first_where_none(s: Seq<char>, f: spec_fn(char) -> bool, i: int)
    requires
        0 <= i,
        first_where(s, f, i) is None,
    ensures
        forall|j: int| i <= j < s.len() ==> !f(#[trigger] s[j]),
    decreases s.len() - i,
{
    if i < s.len() {
        lemma_first_where_none(s, f, i + 1);
    }
}

pub proof fn lemma_first_where_is(s: Seq<char>, f: spec_fn(char) -> bool, i: int, k: int)
    requires
        0 <= i <= k,
        k <= s.len(),
        forall|j: int| i <= j < k ==> !f(#[trigger] s[j]),
        k == s.len() || f(s[k]),
    ensures
        first_where(s, f, i) == (if k == s.len() { None } else { Some(k) }),
    decreases k - i,
{
    if i < k {
        lemma_first_where_is(s, f, i + 1, k);
    }
}

// ----------------------------------------------------------- sandbox ---

/// What the sandbox's command line depends on from the host: whether
/// egress is off, which of the optional system roots exist (aligned with
/// `optional_roots`), which toolchain cache directories could be made
/// (aligned with `cache_dirs`), where `/etc/resolv.conf` resolves when its
/// contents were copied into the scratch, and whether git credentials and
/// an ssh directory exist to be masked.
pub struct SandboxHost {
    pub egress_off: bool,
    pub roots_present: Vec<bool>,
    pub caches_bound: Vec<bool>,
    pub resolv_target: Option<String>,
    pub git_credentials: bool,
    pub ssh_dir: bool,
}

/// System roots bound read-only when they exist.
pub open spec fn optional_roots_spec() -> Seq<Seq<char>> {
    seq!["/lib"@, "/lib64"@, "/etc"@, "/var"@, "/opt"@, "/root"@]
}

/// Toolchain caches bound writable (made on the host when missing).
pub open spec fn cache_dirs_spec() -> Seq<Seq<char>> {
    seq!["/root/.cache"@, "/root/.cargo"@, "/root/.npm"@, "/root/.local"@, "/root/go"@]
}

/// `flag dir dir` for each of the first `n` directories that is on.
pub open spec fn binds(dirs: Seq<Seq<char>>, on: Seq<bool>, flag: Seq<char>, n: nat) -> Seq<Seq<char>>
    decreases n,
{
    if n == 0 || n > dirs.len() || n > on.len() {
        Seq::empty()
    } else {
        binds(dirs, on, flag, (n - 1) as nat) + if on[n - 1] {
            seq![flag, dirs[n - 1], dirs[n - 1]]
        } else {
            Seq::empty()
        }
    }
}

/// The resource limits and the namespace set-up that open every sandbox
/// command line.
pub open spec fn sandbox_prefix() -> Seq<Seq<char>> {
    seq![
        "prlimit"@, "--as=8589934592"@, "--nproc=512"@, "--fsize=8589934592"@, "--nofile=4096"@, "--"@,
        "bwrap"@, "--unshare-pid"@, "--unshare-ipc"@, "--die-with-parent"@, "--clearenv"@, "--ro-bind"@,
        "/usr"@, "/usr"@, "--ro-bind"@, "/bin"@, "/bin"@,
    ]
}

/// The command grouped so that every part of a compound command has its
/// output captured in the scratch.
pub open spec fn sandbox_script(cmd: Seq<char>) -> Seq<char> {
    "{ "@ + cmd + "\n} >/ws/.repexec-out 2>/ws/.repexec-err"@
}

/// The writable floor, the environment, and the command itself.
pub open spec fn sandbox_suffix(scratch: Seq<char>, cmd: Seq<char>) -> Seq<Seq<char>> {
    seq![
        "--dev-bind"@, "/dev"@, "/dev"@, "--proc"@, "/proc"@, "--bind"@, scratch, "/ws"@, "--tmpfs"@,
        "/tmp"@, "--chdir"@, "/ws"@, "--setenv"@, "PATH"@,
        "/root/.cargo/bin:/usr/local/cargo/bin:/usr/local/bin:/usr/bin:/bin"@, "--setenv"@, "HOME"@,
        "/root"@, "--setenv"@, "LANG"@, "C.UTF-8"@, "--"@, "sh"@, "-c"@, sandbox_script(cmd),
    ]
}

/// The host's secret material masked: git credentials by an empty file in
/// the scratch, the ssh directory by a tmpfs.
pub open spec fn sandbox_masks(h: SandboxHost, scratch: Seq<char>) -> Seq<Seq<char>> {
    resolv_bind(h, scratch) + credentials_mask(h, scratch) + ssh_mask(h)
}

/// The host's resolver configuration, copied into the scratch, bound at
/// the path the host's `/etc/resolv.conf` resolves to.
pub open spec fn resolv_bind(h: SandboxHost, scratch: Seq<char>) -> Seq<Seq<char>> {
    match h.resolv_target {
        Some(t) => seq!["--ro-bind"@, join_path(scratch, ".repexec-resolv.conf"@), t@],
        None => Seq::empty(),
    }
}

pub open spec fn credentials_mask(h: SandboxHost, scratch: Seq<char>) -> Seq<Seq<char>> {
    if h.git_credentials {
        seq!["--ro-bind"@, join_path(scratch, ".repexec-mask"@), "/root/.git-credentials"@]
    } else {
        Seq::empty()
    }
}

pub open spec fn ssh_mask(h: SandboxHost) -> Seq<Seq<char>> {
    if h.ssh_dir {
        seq!["--tmpfs"@, "/root/.ssh"@]
    } else {
        Seq::empty()
    }
}

/// The sandbox command line: system roots read-only, the scratch writable
/// at /ws, a private /tmp, host secrets masked, the environment cleared.
pub open spec fn sandbox_argv_spec(h: SandboxHost, scratch: Seq<char>, cmd: Seq<char>) -> Seq<Seq<char>> {
    sandbox_prefix() + (if h.egress_off {
        Seq::empty()
    } else {
        seq!["--share-net"@]
    }) + binds(optional_roots_spec(), h.roots_present@, "--ro-bind"@, 6) + binds(
        cache_dirs_spec(),
        h.caches_bound@,
        "--bind"@,
        5,
    ) + sandbox_masks(h, scratch) + sandbox_suffix(scratch, cmd)
}

fn push_s(v: &mut Vec<String>, t: &str)
    ensures
        strings_view(final(v)@) == strings_view(old(v)@).push(t@),
{
    let ghost before = v@;
    v.push(string_of(&chars_of(t)));
    assert(strings_view(v@) =~= strings_view(before).push(t@));
}

fn push_v(v: &mut Vec<String>, t: &Vec<char>)
    ensures
        strings_view(final(v)@) == strings_view(old(v)@).push(t@),
{
    let ghost before = v@;
    v.push(string_of(t));
    assert(strings_view(v@) =~= strings_view(before).push(t@));
}

/// The optional system roots, in binding order.
pub fn optional_roots() -> (r: Vec<String>)
    ensures
        strings_view(r@) == optional_roots_spec(),
{
    let mut v: Vec<String> = Vec::new();
    push_s(&mut v, "/lib");
    push_s(&mut v, "/lib64");
    push_s(&mut v, "/etc");
    push_s(&mut v, "/var");
    push_s(&mut v, "/opt");
    push_s(&mut v, "/root");
    assert(strings_view(v@) =~= optional_roots_spec());
    v
}

/// The toolchain cache directories, in binding order.
pub fn cache_dirs() -> (r: Vec<String>)
    ensures
        strings_view(r@) == cache_dirs_spec(),
{
    let mut v: Vec<String> = Vec::new();
    push_s(&mut v, "/root/.cache");
    push_s(&mut v, "/root/.cargo");
    push_s(&mut v, "/root/.npm");
    push_s(&mut v, "/root/.local");
    push_s(&mut v, "/root/go");
    assert(strings_view(v@) =~= cache_dirs_spec());
    v
}

fn push_binds(v: &mut Vec<String>, dirs: &Vec<String>, on: &Vec<bool>, flag: &str)
    requires
        dirs.len() == on.len(),
    ensures
        strings_view(final(v)@) == strings_view(old(v)@) + binds(strings_view(dirs@), on@, flag@, dirs.len() as nat),
{
    let ghost base = strings_view(v@);
    let ghost ds = strings_view(dirs@);
    let mut i: usize = 0;
    assert(base + binds(ds, on@, flag@, 0) =~= base);
    while i < dirs.len()
        invariant
            i <= dirs.len() == on.len(),
            ds == strings_view(dirs@),
            strings_view(v@) == base + binds(ds, on@, flag@, i as nat),
        decreases dirs.len() - i,
    {
        let ghost prev = strings_view(v@);
        if on[i] {
            push_s(v, flag);
            let d = chars_of(dirs[i].as_str());
            push_v(v, &d);
            push_v(v, &d);
            assert(strings_view(v@) =~= prev + seq![flag@, ds[i as int], ds[i as int]]);
        }
        assert(binds(ds, on@, flag@, (i + 1) as nat) == binds(ds, on@, flag@, i as nat) + if on@[i as int] {
            seq![flag@, ds[i as int], ds[i as int]]
        } else {
            Seq::<Seq<char>>::empty()
        });
        assert(strings_view(v@) =~= base + binds(ds, on@, flag@, (i + 1) as nat));
        i += 1;
    }
}

fn sandbox_prefix_vec() -> (r: Vec<String>)
    ensures
        strings_view(r@) == sandbox_prefix(),
{
    let mut v: Vec<String> = Vec::new();
    push_s(&mut v, "prlimit");
    push_s(&mut v, "--as=8589934592");
    push_s(&mut v, "--nproc=512");
    push_s(&mut v, "--fsize=8589934592");
    push_s(&mut v, "--nofile=4096");
    push_s(&mut v, "--");
    push_s(&mut v, "bwrap");
    push_s(&mut v, "--unshare-pid");
    push_s(&mut v, "--unshare-ipc");
    push_s(&mut v, "--die-with-parent");
    push_s(&mut v, "--clearenv");
    push_s(&mut v, "--ro-bind");
    push_s(&mut v, "/usr");
    push_s(&mut v, "/usr");
    push_s(&mut v, "--ro-bind");
    push_s(&mut v, "/bin");
    push_s(&mut v, "/bin");
    assert(strings_view(v@) =~= sandbox_prefix());
    v
}

fn push_masks(v: &mut Vec<String>, h: &SandboxHost, scratch: &str)
    ensures
        strings_view(final(v)@) == strings_view(old(v)@) + sandbox_masks(*h, scratch@),
{
    let ghost base = strings_view(v@);
    match &h.resolv_target {
        Some(t) => {
            push_s(v, "--ro-bind");
            let p = join_path_exec(scratch, ".repexec-resolv.conf");
            push_v(v, &p);
            push_s(v, t.as_str());
        },
        None => {},
    }
    let ghost mid = strings_view(v@);
    if h.git_credentials {
        push_s(v, "--ro-bind");
        let m = join_path_exec(scratch, ".repexec-mask");
        push_v(v, &m);
        push_s(v, "/root/.git-credentials");
    }
    let ghost mid2 = strings_view(v@);
    if h.ssh_dir {
        push_s(v, "--tmpfs");
        push_s(v, "/root/.ssh");
    }
    assert(mid =~= base + resolv_bind(*h, scratch@));
    assert(mid2 =~= mid + credentials_mask(*h, scratch@));
    assert(strings_view(v@) =~= base + sandbox_masks(*h, scratch@));
}

fn push_suffix(v: &mut Vec<String>, scratch: &str, cmd: &str)
    ensures
        strings_view(final(v)@) == strings_view(old(v)@) + sandbox_suffix(scratch@, cmd@),
{
    let ghost base = strings_view(v@);
    push_s(v, "--dev-bind");
    push_s(v, "/dev");
    push_s(v, "/dev");
    push_s(v, "--proc");
    push_s(v, "/proc");
    push_s(v, "--bind");
    push_s(v, scratch);
    push_s(v, "/ws");
    push_s(v, "--tmpfs");
    push_s(v, "/tmp");
    push_s(v, "--chdir");
    push_s(v, "/ws");
    push_s(v, "--setenv");
    push_s(v, "PATH");
    push_s(v, "/root/.cargo/bin:/usr/local/cargo/bin:/usr/local/bin:/usr/bin:/bin");
    push_s(v, "--setenv");
    push_s(v, "HOME");
    push_s(v, "/root");
    push_s(v, "--setenv");
    push_s(v, "LANG");
    push_s(v, "C.UTF-8");
    push_s(v, "--");
    push_s(v, "sh");
    push_s(v, "-c");
    let mut script = chars_of("{ ");
    extend_str(&mut script, cmd);
    extend_str(&mut script, "\n} >/ws/.repexec-out 2>/ws/.repexec-err");
    assert(script@ =~= sandbox_script(cmd@));
    push_v(v, &script);
    assert(strings_view(v@) =~= base + sandbox_suffix(scratch@, cmd@));
}

/// The sandbox command line for running `cmd` over the scratch worktree
/// `scratch` (as displayed), given what the host holds. System roots are
/// read-only binds, the scratch is writable at /ws, /tmp is private; host
/// home secrets are masked and the mission's environment is cleared.
pub fn sandbox_argv(host: &SandboxHost, scratch: &str, cmd: &str) -> (r: Vec<String>)
    requires
        host.roots_present.len() == 6,
        host.caches_bound.len() == 5,
    ensures
        strings_view(r@) == sandbox_argv_spec(*host, scratch@, cmd@),
{
    let mut v = sandbox_prefix_vec();
    let ghost s0 = strings_view(v@);
    if !host.egress_off {
        push_s(&mut v, "--share-net");
    }
    let ghost s1 = strings_view(v@);
    let roots = optional_roots();
    assert(strings_view(roots@).len() == roots@.len());
    push_binds(&mut v, &roots, &host.roots_present, "--ro-bind");
    let ghost s2 = strings_view(v@);
    let caches = cache_dirs();
    assert(strings_view(caches@).len() == caches@.len());
    push_binds(&mut v, &caches, &host.caches_bound, "--bind");
    let ghost s3 = strings_view(v@);
    push_masks(&mut v, host, scratch);
    let ghost s4 = strings_view(v@);
    push_suffix(&mut v, scratch, cmd);
    proof {
        let net: Seq<Seq<char>> = if host.egress_off {
            Seq::empty()
        } else {
            seq!["--share-net"@]
        };
        assert(s1 =~= s0 + net);
    }
    assert(strings_view(v@) =~= sandbox_argv_spec(*host, scratch@, cmd@));
    v
}

// --------------------------------------------------------- edit gate ---

/// The class a refusal reason falls in.
pub open spec fn violation_class_spec(reason: Seq<char>) -> Seq<char> {
    if starts_with(reason, "git apply"@) {
        "git_apply"@
    } else if starts_with(reason, "raw diff-file write"@) {
        "diff_write"@
    } else {
        "other"@
    }
}

/// The steering text of a refused repo.exec command.
pub open spec fn edit_gate_error(reason: Seq<char>) -> Seq<char> {
    "forbidden edit path (class: "@ + violation_class_spec(reason) + ", "@ + reason
        + "): repo.exec is build/test only. Make ALL edits with edit.apply - example: edit.apply {\"edits\":[{\"path\":\"src/file.py\",\"search\":\"<exact old text>\",\"replace\":\"<new text>\"}]}; op=\"diff\" shows the cumulative diff. git apply and raw .diff/.patch file writes are rejected here, and repeated attempts of the same class are counted and escalate."@
}

/// The result every repo.exec entry point returns for a refused command:
/// nothing applied or run (exit code -1, empty output), `scratch` unless
/// the command ran in patch mode, and the steering error. Members in key
/// order.
pub open spec fn edit_gate_row(r: Json, reason: Seq<char>, patch_mode: bool) -> bool {
    &&& r is Object
    &&& r->Object_0@.map_values(|m: (String, Json)| m.0@) == seq![
        "applied"@,
        "error"@,
        "exit_code"@,
        "scratch"@,
        "stderr"@,
        "stdout"@,
        "timed_out"@,
    ]
    &&& r->Object_0@[0].1 == Json::Bool(false)
    &&& as_str(r->Object_0@[1].1) == Some(edit_gate_error(reason))
    &&& r->Object_0@[2].1 == Json::Number(JsonNumber::NegInt(-1i64))
    &&& r->Object_0@[3].1 == Json::Bool(!patch_mode)
    &&& as_str(r->Object_0@[4].1) == Some(Seq::<char>::empty())
    &&& as_str(r->Object_0@[5].1) == Some(Seq::<char>::empty())
    &&& r->Object_0@[6].1 == Json::Bool(false)
}

/// Gate a repo.exec command before anything runs: `None` when it is
/// allowed, else the refusal result.
pub fn edit_gate(command: &str, patch_mode: bool) -> (r: Option<Json>)
    ensures
        edit_path_violation_spec(command@) is None ==> r is None,
        edit_path_violation_spec(command@) matches Some(reason) ==> (r matches Some(j) && edit_gate_row(
            j,
            reason,
            patch_mode,
        )),
{
    let reason = match edit_path_violation(command) {
        None => return None,
        Some(m) => m,
    };
    let class = violation_class(reason.as_str());
    let mut e = chars_of("forbidden edit path (class: ");
    extend_str(&mut e, class.as_str());
    extend_str(&mut e, ", ");
    extend_str(&mut e, reason.as_str());
    extend_str(
        &mut e,
        "): repo.exec is build/test only. Make ALL edits with edit.apply - example: edit.apply {\"edits\":[{\"path\":\"src/file.py\",\"search\":\"<exact old text>\",\"replace\":\"<new text>\"}]}; op=\"diff\" shows the cumulative diff. git apply and raw .diff/.patch file writes are rejected here, and repeated attempts of the same class are counted and escalate.",
    );
    let mut m: Vec<(String, Json)> = Vec::new();
    m.push((String::from_str("applied"), Json::Bool(false)));
    m.push((String::from_str("error"), Json::Str(string_of(&e))));
    m.push((String::from_str("exit_code"), Json::Number(JsonNumber::NegInt(-1))));
    m.push((String::from_str("scratch"), Json::Bool(!patch_mode)));
    m.push((String::from_str("stderr"), Json::Str(String::new())));
    m.push((String::from_str("stdout"), Json::Str(String::new())));
    m.push((String::from_str("timed_out"), Json::Bool(false)));
    assert(m@.map_values(|x: (String, Json)| x.0@) =~= seq![
        "applied"@,
        "error"@,
        "exit_code"@,
        "scratch"@,
        "stderr"@,
        "stdout"@,
        "timed_out"@,
    ]);
    Some(Json::Object(m))
}

// ------------------------------------------------------ refusal laws ---

/// The two forms a refusal takes.
pub open spec fn violation_form(r: Seq<char>) -> bool {
    r == "git apply invocation"@ || starts_with(r, "raw diff-file write ("@)
}

proof fn lemma_prefix_starts(a: Seq<char>, b: Seq<char>)
    ensures
        starts_with(a + b, a),
{
    assert((a + b).subrange(0, a.len() as int) =~= a);
}

proof fn lemma_seg_violation_form(toks: Seq<Seq<char>>)
    ensures
        seg_violation(toks) matches Some(r) ==> violation_form(r),
{
    let pre = "raw diff-file write ("@;
    if has_git_apply(toks) {
    } else if first_redir_write(toks, 0) is Some {
        let (op, t) = first_redir_write(toks, 0)->0;
        lemma_prefix_starts(pre, op + seq![' '] + t + seq![')']);
        assert(pre + op + seq![' '] + t + seq![')'] =~= pre + (op + seq![' '] + t + seq![')']));
    } else if first_named(toks, tee_pred(), 0) is Some && first_diff_operand(
        toks,
        first_named(toks, tee_pred(), 0)->0 + 1,
    ) is Some {
        let a = first_diff_operand(toks, first_named(toks, tee_pred(), 0)->0 + 1)->0;
        reveal_strlit("raw diff-file write (tee ");
        reveal_strlit("raw diff-file write (");
        reveal_strlit("tee ");
        assert("raw diff-file write (tee "@ =~= pre + "tee "@);
        assert("raw diff-file write (tee "@ + a + seq![')'] =~= pre + ("tee "@ + a + seq![')']));
        lemma_prefix_starts(pre, "tee "@ + a + seq![')']);
    } else {
        match first_named(toks, copy_pred(), 0) {
            Some(i) => match last_operand(toks, i + 1, toks.len() as int) {
                Some(d) => {
                    lemma_prefix_starts(pre, toks[i] + seq![' '] + d + seq![')']);
                    assert(pre + toks[i] + seq![' '] + d + seq![')'] =~= pre + (toks[i] + seq![' '] + d + seq![')']));
                },
                None => {},
            },
            None => {},
        }
    }
}

proof fn lemma_first_violation_form(segs: Seq<Seq<char>>, i: int)
    ensures
        first_violation(segs, i) matches Some(r) ==> violation_form(r),
    decreases segs.len() - i,
{
    if 0 <= i < segs.len() {
        lemma_seg_violation_form(seg_tokens(segs[i]));
        lemma_first_violation_form(segs, i + 1);
    }
}

/// A refusal is always one of the two classed forms - a git apply
/// invocation or a raw diff-file write - so its class is `git_apply` or
/// `diff_write`, never `other`.
pub proof fn law_refusals_are_classed(command: Seq<char>)
    ensures
        edit_path_violation_spec(command) matches Some(r) ==> violation_form(r) && (violation_class_spec(r)
            == "git_apply"@ || violation_class_spec(r) == "diff_write"@),
{
    lemma_first_violation_form(split_where(command, seg_sep_pred()), 0);
    if let Some(r) = edit_path_violation_spec(command) {
        reveal_strlit("git apply invocation");
        reveal_strlit("git apply");
        reveal_strlit("raw diff-file write (");
        reveal_strlit("raw diff-file write");
        if r == "git apply invocation"@ {
            assert(r.subrange(0, 9) =~= "git apply"@);
        } else {
            assert(r.subrange(0, 21) =~= "raw diff-file write ("@);
            assert(r[0] == r.subrange(0, 21)[0]);
            assert(r[0] == 'r');
            assert(!starts_with(r, "git apply"@)) by {
                if starts_with(r, "git apply"@) {
                    assert(r.subrange(0, 9)[0] == r[0]);
                }
            }
            assert(r.subrange(0, 21) =~= "raw diff-file write ("@);
            assert(r.subrange(0, 19) =~= r.subrange(0, 21).subrange(0, 19));
            assert(r.subrange(0, 19) =~= "raw diff-file write"@);
        }
    }
}

proof fn lemma_find_at(s: Seq<char>, p: Seq<char>, i: int, k: int)
    requires
        0 <= i <= k,
        match_at(s, p, k),
        forall|j: int| i <= j < k ==> !match_at(s, p, j),
    ensures
        find_from(s, p, i) == Some(k),
    decreases k - i,
{
    if i < k {
        lemma_find_at(s, p, i + 1, k);
    }
}

/// The class named in a refusal's steering text is read back out of it
/// unchanged, for any class name free of the characters that end one.
proof fn lemma_gate_text_class(cls: Seq<char>, r: Seq<char>)
    requires
        forall|i: int| 0 <= i < cls.len() ==> !is_class_end(#[trigger] cls[i]),
    ensures
        extract_gate_class_spec(
            "forbidden edit path (class: "@ + cls + ", "@ + r
                + "): repo.exec is build/test only. Make ALL edits with edit.apply - example: edit.apply {\"edits\":[{\"path\":\"src/file.py\",\"search\":\"<exact old text>\",\"replace\":\"<new text>\"}]}; op=\"diff\" shows the cumulative diff. git apply and raw .diff/.patch file writes are rejected here, and repeated attempts of the same class are counted and escalate."@,
        ) == Some(cls),
{
    let a = "forbidden edit path (class: "@;
    let t = "): repo.exec is build/test only. Make ALL edits with edit.apply - example: edit.apply {\"edits\":[{\"path\":\"src/file.py\",\"search\":\"<exact old text>\",\"replace\":\"<new text>\"}]}; op=\"diff\" shows the cumulative diff. git apply and raw .diff/.patch file writes are rejected here, and repeated attempts of the same class are counted and escalate."@;
    let f = "forbidden edit path"@;
    let c = "class: "@;
    reveal_strlit("forbidden edit path (class: ");
    reveal_strlit("forbidden edit path");
    reveal_strlit("class: ");
    reveal_strlit(", ");
    let s = a + cls + ", "@ + r + t;
    assert(s.subrange(0, 19) =~= f);
    lemma_find_at(s, f, 0, 0);
    assert(crate::text::contains(s, f));
    assert(s.subrange(21, 28) =~= c);
    assert forall|j: int| 0 <= j < 21 implies !match_at(s, c, j) by {
        if match_at(s, c, j) {
            assert(s.subrange(j, j + 7)[0] == s[j]);
            assert(s[j] == a[j]);
        }
    }
    lemma_find_at(s, c, 0, 21);
    let rest = s.skip(28);
    assert(rest =~= cls + (", "@ + r + t));
    assert(rest[cls.len() as int] == ',');
    assert forall|j: int| 0 <= j < cls.len() implies !class_end_pred()(#[trigger] rest[j]) by {
        assert(rest[j] == cls[j]);
    }
    lemma_first_where_is(rest, class_end_pred(), 0, cls.len() as int);
    assert(rest.take(cls.len() as int) =~= cls);
}

/// The class survives the round trip through the steering text: reading
/// the class back out of a refusal's gate message gives the refusal's
/// class.
pub proof fn law_gate_class_round_trip(command: Seq<char>)
    requires
        edit_path_violation_spec(command) is Some,
    ensures
        extract_gate_class_spec(edit_gate_error(edit_path_violation_spec(command)->0)) == Some(
            violation_class_spec(edit_path_violation_spec(command)->0),
        ),
{
    let r = edit_path_violation_spec(command)->0;
    law_refusals_are_classed(command);
    let cls = violation_class_spec(r);
    reveal_strlit("git_apply");
    reveal_strlit("diff_write");
    assert forall|i: int| 0 <= i < cls.len() implies !is_class_end(#[trigger] cls[i]) by {}
    lemma_gate_text_class(cls, r);
    assert(edit_gate_error(r) == "forbidden edit path (class: "@ + cls + ", "@ + r
        + "): repo.exec is build/test only. Make ALL edits with edit.apply - example: edit.apply {\"edits\":[{\"path\":\"src/file.py\",\"search\":\"<exact old text>\",\"replace\":\"<new text>\"}]}; op=\"diff\" shows the cumulative diff. git apply and raw .diff/.patch file writes are rejected here, and repeated attempts of the same class are counted and escalate."@);
}

} // verus!
