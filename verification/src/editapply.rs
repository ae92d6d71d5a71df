//! The edit.apply rules: search/replace blocks. A block's `old` text must
//! match the file exactly once; when it matches nowhere, a
//! whitespace-tolerant match (trailing whitespace of each line ignored) is
//! tried, again requiring exactly one hit. Also the line window of an
//! anchored read. The candidate worktree and the git plumbing around it
//! run outside.
use vstd::prelude::*;
use crate::text::{
    chars_eq, chars_of, dec, extend_chars, extend_str, find, find_char_from, find_char_from_exec,
    find_exec, find_from, find_from_exec, lemma_find_char_from_some, lemma_find_from_some,
    lines, lines_exec, match_at, push_dec, slice_chars, string_of, trim_end, trim_end_chars,
    starts_with, starts_with_str, strings_view,
};
use crate::meta_harness::escapes;

verus! {

broadcast use vstd::string::group_string_axioms;

/// One search/replace block: replace `old` with `new` in the file at `path`.
#[derive(Clone, Debug)]
pub struct EditBlock {
    pub path: String,
    pub old: String,
    pub new: String,
}

/// Non-overlapping occurrences of a non-empty `p` in `s`, scanning from `i`.
pub open spec fn count_from(s: Seq<char>, p: Seq<char>, i: int) -> nat
    decreases s.len() + 1 - i,
{
    if p.len() == 0 || i < 0 {
        0
    } else {
        match find_from(s, p, i) {
            None => 0,
            Some(k) => {
                proof {
                    lemma_find_from_some(s, p, i);
                }
                1 + count_from(s, p, k + p.len())
            },
        }
    }
}

/// `s.matches(p).count()`: an empty pattern matches at every character
/// boundary.
pub open spec fn match_count(s: Seq<char>, p: Seq<char>) -> nat {
    if p.len() == 0 {
        s.len() + 1
    } else {
        count_from(s, p, 0)
    }
}

/// `s.replacen(p, new, 1)` when `p` occurs in `s`.
pub open spec fn replace_first(s: Seq<char>, p: Seq<char>, new: Seq<char>) -> Seq<char> {
    let k = find(s, p)->0;
    s.take(k) + new + s.skip(k + p.len())
}

/// `s.split_inclusive('\n')`: the lines with their terminators; no empty
/// piece after a final newline.
pub open spec fn split_incl(s: Seq<char>) -> Seq<Seq<char>>
    decreases s.len(),
{
    if s.len() == 0 {
        Seq::empty()
    } else {
        match find_char_from(s, '\n', 0) {
            None => seq![s],
            Some(i) => {
                proof {
                    lemma_find_char_from_some(s, '\n', 0);
                }
                seq![s.take(i + 1)] + split_incl(s.skip(i + 1))
            },
        }
    }
}

/// The pieces concatenated.
pub open spec fn concat_all(ls: Seq<Seq<char>>) -> Seq<char>
    decreases ls.len(),
{
    if ls.len() == 0 {
        Seq::empty()
    } else {
        concat_all(ls.drop_last()) + ls.last()
    }
}

/// The lines from `w` on equal `ols` once trailing whitespace is ignored.
pub open spec fn window_ok(ls: Seq<Seq<char>>, ols: Seq<Seq<char>>, w: int) -> bool {
    forall|k: int| 0 <= k < ols.len() ==> trim_end(#[trigger] ls[w + k]) == ols[k]
}

/// The matching windows among the first `n` start positions, ascending.
pub open spec fn hits_upto(ls: Seq<Seq<char>>, ols: Seq<Seq<char>>, n: int) -> Seq<int>
    decreases n,
{
    if n <= 0 {
        Seq::empty()
    } else {
        let h = hits_upto(ls, ols, n - 1);
        if window_ok(ls, ols, n - 1) {
            h.push(n - 1)
        } else {
            h
        }
    }
}

/// Every start position whose window matches.
pub open spec fn fuzzy_hits(ls: Seq<Seq<char>>, ols: Seq<Seq<char>>) -> Seq<int> {
    if ls.len() >= ols.len() {
        hits_upto(ls, ols, ls.len() - ols.len() + 1)
    } else {
        Seq::empty()
    }
}

/// `old`'s lines without trailing whitespace.
pub open spec fn trimmed_lines(old: Seq<char>) -> Seq<Seq<char>> {
    lines(old).map_values(|l: Seq<char>| trim_end(l))
}

/// What splicing one block does: the new content and the match mode, or
/// the reason it cannot apply.
pub open spec fn splice_spec(content: Seq<char>, old: Seq<char>, new: Seq<char>) -> Result<
    (Seq<char>, Seq<char>),
    Seq<char>,
> {
    let n = match_count(content, old);
    if n == 1 {
        Ok((replace_first(content, old, new), "exact"@))
    } else if n > 1 {
        Err(
            "old matches "@ + dec(n) + " times - add more surrounding context so it matches exactly once"@,
        )
    } else {
        let ols = trimmed_lines(old);
        if ols.len() == 0 {
            Err("old not found in file"@)
        } else {
            let ls = split_incl(content);
            let hs = fuzzy_hits(ls, ols);
            if hs.len() == 0 {
                Err("old not found in file (tried exact and whitespace-tolerant match)"@)
            } else if hs.len() == 1 {
                Ok(
                    (
                        concat_all(ls.take(hs[0])) + new + concat_all(ls.skip(hs[0] + ols.len())),
                        "fuzzy"@,
                    ),
                )
            } else {
                Err(
                    "old matches "@ + dec(hs.len()) + " times under whitespace-tolerant matching - add more surrounding context"@,
                )
            }
        }
    }
}

/// Occurrences of a non-empty `p` in `s`.
fn count_matches(s: &Vec<char>, p: &Vec<char>) -> (n: usize)
    requires
        p.len() > 0,
    ensures
        n == count_from(s@, p@, 0),
{
    let mut n: usize = 0;
    let mut i: usize = 0;
    let mut done = false;
    while !done
        invariant
            p.len() > 0,
            n <= i,
            done ==> count_from(s@, p@, 0) == n,
            !done ==> count_from(s@, p@, 0) == n + count_from(s@, p@, i as int),
        decreases s.len() + 1 - i, (if done { 0int } else { 1int }),
    {
        match find_from_exec(s, p, i) {
            Some(k) => {
                proof {
                    lemma_find_from_some(s@, p@, i as int);
                }
                n = n + 1;
                i = k + p.len();
            },
            None => {
                done = true;
            },
        }
    }
    n
}

/// `s.split_inclusive('\n')`.
fn split_incl_exec(s: &Vec<char>) -> (r: Vec<Vec<char>>)
    ensures
        r@.map_values(|x: Vec<char>| x@) == split_incl(s@),
{
    let mut out: Vec<Vec<char>> = Vec::new();
    let mut start: usize = 0;
    let mut k: usize = 0;
    assert(s@.skip(0) =~= s@);
    assert(out@.map_values(|x: Vec<char>| x@) + split_incl(s@) =~= split_incl(s@));
    while k < s.len()
        invariant
            start <= k <= s.len(),
            forall|j: int| start <= j < k ==> s@[j] != '\n',
            split_incl(s@) == out@.map_values(|x: Vec<char>| x@) + split_incl(s@.skip(start as int)),
        decreases s.len() - k,
    {
        if s[k] == '\n' {
            let piece = slice_chars(s, start, k + 1);
            proof {
                let rest = s@.skip(start as int);
                assert forall|j: int| 0 <= j < k - start implies rest[j] != '\n' by {
                    assert(rest[j] == s@[start + j]);
                }
                assert(rest[k - start] == s@[k as int]);
                crate::text::lemma_find_char_from_first(rest, '\n', k - start);
                assert(rest.take(k - start + 1) =~= piece@);
                assert(rest.skip(k - start + 1) =~= s@.skip(k + 1));
                assert(out@.push(piece).map_values(|x: Vec<char>| x@) =~= out@.map_values(
                    |x: Vec<char>| x@,
                ).push(piece@));
            }
            out.push(piece);
            start = k + 1;
        }
        k += 1;
    }
    if start < s.len() {
        let piece = slice_chars(s, start, s.len());
        proof {
            let rest = s@.skip(start as int);
            assert forall|j: int| 0 <= j < rest.len() implies rest[j] != '\n' by {
                assert(rest[j] == s@[start + j]);
            }
            lemma_no_newline(rest, 0);
            assert(rest =~= piece@);
            assert(out@.push(piece).map_values(|x: Vec<char>| x@) =~= out@.map_values(
                |x: Vec<char>| x@,
            ).push(piece@));
        }
        out.push(piece);
    } else {
        assert(s@.skip(start as int) =~= Seq::<char>::empty());
        assert(out@.map_values(|x: Vec<char>| x@) + Seq::<Seq<char>>::empty() =~= out@.map_values(
            |x: Vec<char>| x@,
        ));
    }
    out
}

proof fn lemma_no_newline(s: Seq<char>, i: int)
    requires
        0 <= i <= s.len(),
        forall|j: int| i <= j < s.len() ==> s[j] != '\n',
    ensures
        find_char_from(s, '\n', i) is None,
    decreases s.len() - i,
{
    if i < s.len() {
        lemma_no_newline(s, i + 1);
    }
}

/// The pieces concatenated.
fn concat_range(ls: &Vec<Vec<char>>, a: usize, b: usize, out: &mut Vec<char>)
    requires
        a <= b <= ls.len(),
    ensures
        final(out)@ == old(out)@ + concat_all(
            ls@.map_values(|x: Vec<char>| x@).subrange(a as int, b as int),
        ),
{
    let ghost lv = ls@.map_values(|x: Vec<char>| x@);
    let ghost o0 = out@;
    let mut i = a;
    assert(lv.subrange(a as int, a as int) =~= Seq::<Seq<char>>::empty());
    while i < b
        invariant
            a <= i <= b <= ls.len(),
            lv == ls@.map_values(|x: Vec<char>| x@),
            out@ == o0 + concat_all(lv.subrange(a as int, i as int)),
        decreases b - i,
    {
        extend_chars(out, &ls[i]);
        proof {
            assert(lv.subrange(a as int, i + 1).drop_last() =~= lv.subrange(a as int, i as int));
            assert(lv.subrange(a as int, i + 1).last() == ls@[i as int]@);
        }
        i += 1;
    }
}

/// Splice one block into content: an exact, unique match first; when the
/// exact match misses, a whitespace-tolerant one (trailing whitespace per
/// line ignored). Both modes require uniqueness. The second component of
/// the result names the mode that matched.
pub fn splice_one(content: &str, old: &str, new: &str) -> (r: Result<(String, &'static str), String>)
    requires
        old@.len() > 0 || content@.len() < usize::MAX,
    ensures
        match r {
            Ok((t, how)) => splice_spec(content@, old@, new@) == Ok::<(Seq<char>, Seq<char>), Seq<char>>((t@, how@)),
            Err(e) => splice_spec(content@, old@, new@) == Err::<(Seq<char>, Seq<char>), Seq<char>>(e@),
        },
{
    let cv = chars_of(content);
    let ov = chars_of(old);
    let nv = chars_of(new);
    let n: usize = if ov.len() == 0 {
        cv.len() + 1
    } else {
        count_matches(&cv, &ov)
    };
    if n == 1 {
        let k: usize = if ov.len() == 0 {
            assert(cv@.subrange(0, 0) =~= ov@);
            assert(match_at(cv@, ov@, 0));
            0
        } else {
            match find_exec(&cv, &ov) {
                Some(k) => k,
                None => {
                    assert(false);
                    0
                },
            }
        };
        proof {
            lemma_find_from_some(cv@, ov@, 0);
        }
        let mut out = slice_chars(&cv, 0, k);
        extend_chars(&mut out, &nv);
        let tail = slice_chars(&cv, k + ov.len(), cv.len());
        extend_chars(&mut out, &tail);
        proof {
            reveal_strlit("exact");
            assert(out@ =~= replace_first(cv@, ov@, nv@));
        }
        return Ok((string_of(&out), "exact"));
    }
    if n > 1 {
        let mut t = chars_of("old matches ");
        push_dec(&mut t, n as u64);
        extend_str(&mut t, " times - add more surrounding context so it matches exactly once");
        return Err(string_of(&t));
    }
    // No exact match: whitespace-tolerant line matching.
    let ol = lines_exec(&ov);
    let ghost olv = lines(ov@);
    let mut ols: Vec<Vec<char>> = Vec::new();
    let mut j: usize = 0;
    while j < ol.len()
        invariant
            j <= ol.len(),
            ol@.len() == olv.len(),
            olv == lines(ov@),
            forall|q: int| 0 <= q < ol@.len() ==> #[trigger] ol@[q]@ == olv[q],
            ols@.map_values(|x: Vec<char>| x@) == olv.map_values(|l: Seq<char>| trim_end(l)).take(
                j as int,
            ),
        decreases ol.len() - j,
    {
        let t = trim_end_chars(&ol[j]);
        proof {
            assert(t@ == trim_end(olv[j as int]));
            assert(ols@.push(t).map_values(|x: Vec<char>| x@) =~= ols@.map_values(
                |x: Vec<char>| x@,
            ).push(t@));
            assert(olv.map_values(|l: Seq<char>| trim_end(l)).take(j + 1) =~= olv.map_values(
                |l: Seq<char>| trim_end(l),
            ).take(j as int).push(trim_end(olv[j as int])));
        }
        ols.push(t);
        j += 1;
    }
    let ghost olsv = trimmed_lines(ov@);
    assert(olv.map_values(|l: Seq<char>| trim_end(l)).take(ol.len() as int) =~= olsv);
    if ols.len() == 0 {
        return Err(string_of(&chars_of("old not found in file")));
    }
    let ls = split_incl_exec(&cv);
    let ghost lsv = split_incl(cv@);
    let m = ols.len();
    let mut hits: Vec<usize> = Vec::new();
    if ls.len() >= m {
        let mut w: usize = 0;
        assert(hits@.map_values(|x: usize| x as int) =~= hits_upto(lsv, olsv, 0));
        while w <= ls.len() - m
            invariant
                ls.len() >= m,
                m == ols.len(),
                m > 0,
                w <= ls.len() - m + 1,
                lsv == ls@.map_values(|x: Vec<char>| x@),
                olsv == ols@.map_values(|x: Vec<char>| x@),
                hits@.map_values(|x: usize| x as int) == hits_upto(lsv, olsv, w as int),
                hits.len() <= w,
            decreases ls.len() - m + 1 - w,
        {
            let mut ok = true;
            let mut q: usize = 0;
            while q < m && ok
                invariant
                    q <= m,
                    m == ols.len(),
                    w + m <= ls.len(),
                    lsv == ls@.map_values(|x: Vec<char>| x@),
                    olsv == ols@.map_values(|x: Vec<char>| x@),
                    ok ==> forall|k: int| 0 <= k < q ==> trim_end(#[trigger] lsv[w + k]) == olsv[k],
                    !ok ==> !window_ok(lsv, olsv, w as int),
                decreases m - q, (if ok { 1int } else { 0int }),
            {
                let t = trim_end_chars(&ls[w + q]);
                if !chars_eq(&t, &ols[q]) {
                    ok = false;
                    proof {
                        assert(trim_end(lsv[w + q]) != olsv[q as int]);
                    }
                } else {
                    q += 1;
                }
            }
            proof {
                if ok {
                    assert(window_ok(lsv, olsv, w as int));
                }
            }
            if ok {
                proof {
                    assert(hits@.push(w).map_values(|x: usize| x as int) =~= hits@.map_values(
                        |x: usize| x as int,
                    ).push(w as int));
                }
                hits.push(w);
            }
            w += 1;
        }
        assert(fuzzy_hits(lsv, olsv) == hits_upto(lsv, olsv, (lsv.len() - olsv.len() + 1) as int));
    } else {
        assert(hits@.map_values(|x: usize| x as int) =~= fuzzy_hits(lsv, olsv));
    }
    assert(hits@.map_values(|x: usize| x as int) == fuzzy_hits(lsv, olsv));
    if hits.len() == 0 {
        return Err(string_of(&chars_of("old not found in file (tried exact and whitespace-tolerant match)")));
    }
    if hits.len() == 1 {
        let w = hits[0];
        proof {
            lemma_hits_bounded(lsv, olsv, (lsv.len() - olsv.len() + 1) as int);
            assert(fuzzy_hits(lsv, olsv)[0] == w as int);
        }
        let mut out: Vec<char> = Vec::new();
        concat_range(&ls, 0, w, &mut out);
        extend_chars(&mut out, &nv);
        concat_range(&ls, w + m, ls.len(), &mut out);
        proof {
            reveal_strlit("fuzzy");
            assert(lsv.subrange(0, w as int) =~= lsv.take(w as int));
            assert(lsv.subrange(w + m, lsv.len() as int) =~= lsv.skip(w + m));
        }
        return Ok((string_of(&out), "fuzzy"));
    }
    let mut t = chars_of("old matches ");
    push_dec(&mut t, hits.len() as u64);
    extend_str(&mut t, " times under whitespace-tolerant matching - add more surrounding context");
    Err(string_of(&t))
}

proof fn lemma_hits_bounded(ls: Seq<Seq<char>>, ols: Seq<Seq<char>>, n: int)
    requires
        n <= ls.len() - ols.len() + 1,
    ensures
        forall|i: int| 0 <= i < hits_upto(ls, ols, n).len() ==> 0 <= #[trigger] hits_upto(ls, ols, n)[i] < n,
    decreases n,
{
    if n > 0 {
        lemma_hits_bounded(ls, ols, n - 1);
        let h = hits_upto(ls, ols, n - 1);
        if window_ok(ls, ols, n - 1) {
            assert forall|i: int| 0 <= i < h.push(n - 1).len() implies 0 <= #[trigger] h.push(n - 1)[i]
                < n by {
                if i < h.len() {
                    assert(h.push(n - 1)[i] == h[i]);
                }
            }
        }
    }
}

proof fn lemma_concat_all_cons(a: Seq<char>, rest: Seq<Seq<char>>)
    ensures
        concat_all(seq![a] + rest) == a + concat_all(rest),
    decreases rest.len(),
{
    let full = seq![a] + rest;
    assert(concat_all(Seq::<Seq<char>>::empty()) == Seq::<char>::empty());
    if rest.len() == 0 {
        assert(full =~= seq![a]);
        assert(seq![a].drop_last() =~= Seq::<Seq<char>>::empty());
        assert(concat_all(seq![a]) == concat_all(seq![a].drop_last()) + seq![a].last());
        assert(concat_all(seq![a]) =~= a);
        assert(a + concat_all(rest) =~= a);
    } else {
        assert(full.drop_last() =~= seq![a] + rest.drop_last());
        assert(full.last() == rest.last());
        lemma_concat_all_cons(a, rest.drop_last());
        assert(concat_all(full) == concat_all(full.drop_last()) + full.last());
        assert(concat_all(rest) == concat_all(rest.drop_last()) + rest.last());
        assert(a + concat_all(rest.drop_last()) + rest.last() =~= a + (concat_all(rest.drop_last()) + rest.last()));
    }
}

/// The lines the whitespace-tolerant match works on are the content cut
/// at its newlines and nothing else: put back together they are the
/// content, so a fuzzy splice changes only the matched window.
pub proof fn law_split_lines_rejoin(s: Seq<char>)
    ensures
        concat_all(split_incl(s)) == s,
    decreases s.len(),
{
    if s.len() == 0 {
        assert(split_incl(s) =~= Seq::<Seq<char>>::empty());
        assert(s =~= Seq::<char>::empty());
    } else {
        match find_char_from(s, '\n', 0) {
            None => {
                assert(split_incl(s) == seq![s]);
                assert(seq![s].drop_last() =~= Seq::<Seq<char>>::empty());
                assert(concat_all(seq![s]) == concat_all(seq![s].drop_last()) + seq![s].last());
                assert(Seq::<char>::empty() + s =~= s);
            },
            Some(i) => {
                lemma_find_char_from_some(s, '\n', 0);
                assert(split_incl(s) == seq![s.take(i + 1)] + split_incl(s.skip(i + 1)));
                law_split_lines_rejoin(s.skip(i + 1));
                lemma_concat_all_cons(s.take(i + 1), split_incl(s.skip(i + 1)));
                assert(s.take(i + 1) + s.skip(i + 1) =~= s);
            },
        }
    }
}

/// An exact splice replaces exactly the one occurrence: the text before
/// and after it is kept.
pub proof fn law_exact_splice_keeps_context(content: Seq<char>, old: Seq<char>, new: Seq<char>)
    requires
        old.len() > 0,
        match_count(content, old) == 1,
    ensures
        splice_spec(content, old, new) == Ok::<(Seq<char>, Seq<char>), Seq<char>>((
            content.take(find(content, old)->0) + new + content.skip(find(content, old)->0 + old.len()),
            "exact"@,
        )),
        find(content, old) is Some,
{
    if find(content, old) is None {
        assert(count_from(content, old, 0) == 0);
    }
}

// ------------------------------------------------------ block staging ---

/// The refusal for an empty edit list.
pub const NO_BLOCKS_ERROR: &'static str = "edits array is empty - pass at least one {path, old, new} block";

/// Why a block is refused before its file is read: its path escapes the
/// candidate, or its `old` is empty.
pub open spec fn block_precheck(b: EditBlock) -> Option<Seq<char>> {
    if escapes(b.path@) {
        Some("path must be repo-relative, no absolute paths or .."@)
    } else if b.old@.len() == 0 {
        Some("old must be non-empty"@)
    } else {
        None
    }
}

/// The files staging reads, first touch first: the paths of the blocks
/// before the first one refused by its precheck.
pub open spec fn plan_from(bs: Seq<EditBlock>, i: int, acc: Seq<Seq<char>>) -> Seq<Seq<char>>
    decreases bs.len() - i,
{
    if i < 0 || i >= bs.len() || block_precheck(bs[i]) is Some {
        acc
    } else {
        plan_from(
            bs,
            i + 1,
            if acc.contains(bs[i].path@) {
                acc
            } else {
                acc.push(bs[i].path@)
            },
        )
    }
}

/// The outcome of one block: its path, whether it applied, and how it
/// matched (`exact` or `fuzzy`) or why it failed.
pub struct BlockResult {
    pub path: String,
    pub ok: bool,
    pub detail: String,
}

/// Staging an edit list: refused with the first error and the results so
/// far, or staged with every touched file's new content (first touch
/// first) and one result per block.
pub enum BlockStaging {
    Refused { error: String, results: Vec<BlockResult> },
    Staged { files: Vec<(String, String)>, results: Vec<BlockResult> },
}

pub open spec fn results_view(rs: Seq<BlockResult>) -> Seq<(Seq<char>, bool, Seq<char>)> {
    rs.map_values(|r: BlockResult| (r.path@, r.ok, r.detail@))
}

pub open spec fn files_view(fs: Seq<(String, String)>) -> Seq<(Seq<char>, Seq<char>)> {
    fs.map_values(|f: (String, String)| (f.0@, f.1@))
}

/// The first index at or after `i` of the file `p` in `fs`.
pub open spec fn file_index(fs: Seq<(Seq<char>, Seq<char>)>, p: Seq<char>, i: int) -> Option<int>
    decreases fs.len() - i,
{
    if i < 0 || i >= fs.len() {
        None
    } else if fs[i].0 == p {
        Some(i)
    } else {
        file_index(fs, p, i + 1)
    }
}

pub open spec fn file_lookup(fs: Seq<(Seq<char>, Seq<char>)>, p: Seq<char>) -> Option<Seq<char>> {
    match file_index(fs, p, 0) {
        Some(k) => Some(fs[k].1),
        None => None,
    }
}

/// `fs` with file `p` holding `c` (replaced in place, or added last).
pub open spec fn file_put(fs: Seq<(Seq<char>, Seq<char>)>, p: Seq<char>, c: Seq<char>) -> Seq<
    (Seq<char>, Seq<char>),
> {
    match file_index(fs, p, 0) {
        Some(k) => fs.update(k, (p, c)),
        None => fs.push((p, c)),
    }
}

pub open spec fn block_error(i: int, path: Seq<char>, msg: Seq<char>) -> Seq<char> {
    "block "@ + dec(i as nat) + " ("@ + path + "): "@ + msg
}

/// Staging blocks from `i` over the candidate's files `disk`, with the
/// files staged so far and the results so far: the refusal, if any, the
/// staged files, and the results.
pub open spec fn stage_from(
    bs: Seq<EditBlock>,
    disk: Seq<(Seq<char>, Seq<char>)>,
    i: int,
    staged: Seq<(Seq<char>, Seq<char>)>,
    results: Seq<(Seq<char>, bool, Seq<char>)>,
) -> (Option<Seq<char>>, Seq<(Seq<char>, Seq<char>)>, Seq<(Seq<char>, bool, Seq<char>)>)
    decreases bs.len() - i,
{
    if i < 0 || i >= bs.len() {
        (None, staged, results)
    } else {
        let b = bs[i];
        match block_precheck(b) {
            Some(m) => (Some(block_error(i, b.path@, m)), staged, results),
            None => {
                let cur = match file_lookup(staged, b.path@) {
                    Some(c) => Some(c),
                    None => file_lookup(disk, b.path@),
                };
                match cur {
                    None => (Some(block_error(i, b.path@, "file not found in candidate"@)), staged, results),
                    Some(c) => match splice_spec(c, b.old@, b.new@) {
                        Ok((next, how)) => stage_from(
                            bs,
                            disk,
                            i + 1,
                            file_put(staged, b.path@, next),
                            results.push((b.path@, true, how)),
                        ),
                        Err(e) => (
                            Some(block_error(i, b.path@, e)),
                            staged,
                            results.push((b.path@, false, e)),
                        ),
                    },
                }
            },
        }
    }
}

pub open spec fn staging_matches(
    r: BlockStaging,
    s: (Option<Seq<char>>, Seq<(Seq<char>, Seq<char>)>, Seq<(Seq<char>, bool, Seq<char>)>),
) -> bool {
    match r {
        BlockStaging::Refused { error, results } => s.0 == Some(error@) && results_view(results@) == s.2,
        BlockStaging::Staged { files, results } => s.0 is None && files_view(files@) == s.1
            && results_view(results@) == s.2,
    }
}

/// The index of file `p` in `fs`.
fn find_file(fs: &Vec<(String, String)>, p: &str) -> (r: Option<usize>)
    ensures
        match r {
            Some(k) => k < fs.len() && file_index(files_view(fs@), p@, 0) == Some(k as int),
            None => file_index(files_view(fs@), p@, 0) is None,
        },
{
    let ghost fv = files_view(fs@);
    let mut i: usize = 0;
    while i < fs.len()
        invariant
            i <= fs.len(),
            fv == files_view(fs@),
            file_index(fv, p@, 0) == file_index(fv, p@, i as int),
        decreases fs.len() - i,
    {
        assert(fv[i as int].0 == fs@[i as int].0@);
        if crate::text::str_eq(fs[i].0.as_str(), p) {
            return Some(i);
        }
        i += 1;
    }
    None
}

/// Whether a block passes its precheck, and the refusal when it does not.
fn precheck(b: &EditBlock) -> (r: Option<&'static str>)
    ensures
        match r {
            Some(m) => block_precheck(*b) == Some(m@),
            None => block_precheck(*b) is None,
        },
{
    if crate::meta_harness::escapes_exec(b.path.as_str()) {
        return Some("path must be repo-relative, no absolute paths or ..");
    }
    if b.old.as_str().unicode_len() == 0 {
        return Some("old must be non-empty");
    }
    None
}

/// The files staging will read (the paths of the blocks up to the first
/// precheck refusal, each once), or the refusal of an empty edit list.
pub fn read_plan(blocks: &Vec<EditBlock>) -> (r: Result<Vec<String>, String>)
    ensures
        blocks.len() == 0 ==> (r matches Err(e) && e@ == NO_BLOCKS_ERROR@),
        blocks.len() > 0 ==> (r matches Ok(ps) && strings_view(ps@) == plan_from(blocks@, 0, Seq::empty())),
{
    if blocks.len() == 0 {
        return Err(string_of(&chars_of(NO_BLOCKS_ERROR)));
    }
    let mut out: Vec<String> = Vec::new();
    let mut i: usize = 0;
    let mut stop = false;
    assert(strings_view(out@) =~= Seq::<Seq<char>>::empty());
    while i < blocks.len() && !stop
        invariant
            i <= blocks.len(),
            stop ==> plan_from(blocks@, 0, Seq::empty()) == strings_view(out@),
            !stop ==> plan_from(blocks@, 0, Seq::empty()) == plan_from(blocks@, i as int, strings_view(out@)),
        decreases blocks.len() - i, (if stop { 0int } else { 1int }),
    {
        let b = &blocks[i];
        if precheck(b).is_some() {
            stop = true;
        } else {
            let ghost before = strings_view(out@);
            let mut seen = false;
            let mut k: usize = 0;
            while k < out.len()
                invariant
                    k <= out.len(),
                    before == strings_view(out@),
                    seen == exists|j: int| 0 <= j < k && before[j] == b.path@,
                decreases out.len() - k,
            {
                if crate::text::str_eq(out[k].as_str(), b.path.as_str()) {
                    assert(before[k as int] == b.path@);
                    seen = true;
                } else {
                    assert(before[k as int] == out@[k as int]@);
                }
                k += 1;
            }
            if !seen {
                out.push(string_of(&chars_of(b.path.as_str())));
                assert(strings_view(out@) =~= before.push(b.path@));
            }
            proof {
                if seen {
                    let j = choose|j: int| 0 <= j < before.len() && before[j] == b.path@;
                    assert(before.contains(b.path@));
                } else {
                    assert(!before.contains(b.path@));
                }
            }
            i += 1;
        }
    }
    Ok(out)
}

/// Stage an edit list over the candidate's files (`disk`: the readable
/// files among those `read_plan` names). Blocks apply in order to the
/// staged content of their file; the first refused or failing block
/// refuses the whole list, with the results so far, and nothing is staged.
pub fn stage_blocks(blocks: &Vec<EditBlock>, disk: &Vec<(String, String)>) -> (r: BlockStaging)
    ensures
        staging_matches(r, stage_from(blocks@, files_view(disk@), 0, Seq::empty(), Seq::empty())),
{
    let ghost dv = files_view(disk@);
    let ghost goal = stage_from(blocks@, dv, 0, Seq::empty(), Seq::empty());
    let mut staged: Vec<(String, String)> = Vec::new();
    let mut results: Vec<BlockResult> = Vec::new();
    let mut i: usize = 0;
    assert(files_view(staged@) =~= Seq::<(Seq<char>, Seq<char>)>::empty());
    assert(results_view(results@) =~= Seq::<(Seq<char>, bool, Seq<char>)>::empty());
    while i < blocks.len()
        invariant
            i <= blocks.len(),
            dv == files_view(disk@),
            goal == stage_from(blocks@, dv, 0, Seq::empty(), Seq::empty()),
            goal == stage_from(blocks@, dv, i as int, files_view(staged@), results_view(results@)),
        decreases blocks.len() - i,
    {
        let b = &blocks[i];
        let mut err = chars_of("block ");
        push_dec(&mut err, i as u64);
        extend_str(&mut err, " (");
        extend_str(&mut err, b.path.as_str());
        extend_str(&mut err, "): ");
        assert(err@ =~= "block "@ + dec(i as nat) + " ("@ + b.path@ + "): "@);
        if let Some(m) = precheck(b) {
            extend_str(&mut err, m);
            return BlockStaging::Refused { error: string_of(&err), results };
        }
        let cur: String = match find_file(&staged, b.path.as_str()) {
            Some(k) => {
                assert(files_view(staged@)[k as int].1 == staged@[k as int].1@);
                string_of(&chars_of(staged[k].1.as_str()))
            },
            None => match find_file(disk, b.path.as_str()) {
                Some(k) => {
                    assert(dv[k as int].1 == disk@[k as int].1@);
                    string_of(&chars_of(disk[k].1.as_str()))
                },
                None => {
                    extend_str(&mut err, "file not found in candidate");
                    return BlockStaging::Refused { error: string_of(&err), results };
                },
            },
        };
        match splice_one(cur.as_str(), b.old.as_str(), b.new.as_str()) {
            Ok((next, how)) => {
                let ghost sv = files_view(staged@);
                let ghost rv = results_view(results@);
                match find_file(&staged, b.path.as_str()) {
                    Some(k) => {
                        let p = string_of(&chars_of(b.path.as_str()));
                        staged.set(k, (p, next));
                        assert(files_view(staged@) =~= sv.update(k as int, (b.path@, cur@)).update(
                            k as int,
                            files_view(staged@)[k as int],
                        ));
                        assert(files_view(staged@) =~= file_put(sv, b.path@, splice_spec(cur@, b.old@, b.new@)->Ok_0.0));
                    },
                    None => {
                        let p = string_of(&chars_of(b.path.as_str()));
                        staged.push((p, next));
                        assert(files_view(staged@) =~= file_put(sv, b.path@, splice_spec(cur@, b.old@, b.new@)->Ok_0.0));
                    },
                }
                let d = string_of(&chars_of(how));
                let p2 = string_of(&chars_of(b.path.as_str()));
                results.push(BlockResult { path: p2, ok: true, detail: d });
                assert(results_view(results@) =~= rv.push((b.path@, true, how@)));
            },
            Err(e) => {
                let ghost rv = results_view(results@);
                let p2 = string_of(&chars_of(b.path.as_str()));
                let ec = chars_of(e.as_str());
                extend_chars(&mut err, &ec);
                results.push(BlockResult { path: p2, ok: false, detail: e });
                assert(results_view(results@) =~= rv.push((b.path@, false, ec@)));
                return BlockStaging::Refused { error: string_of(&err), results };
            },
        }
        i += 1;
    }
    BlockStaging::Staged { files: staged, results }
}

/// The text after the last `p` in `l`, scanning from `k` (`split(p).last()`).
pub open spec fn last_seg_from(l: Seq<char>, p: Seq<char>, k: int) -> int
    decreases l.len() - k,
{
    match find_from(l, p, k) {
        None => k,
        Some(i) => if p.len() == 0 || i + p.len() > l.len() || i + p.len() <= k {
            k
        } else {
            last_seg_from(l, p, i + p.len())
        },
    }
}

/// The files a cumulative diff changes: the `b/` path of each
/// `diff --git` header line.
pub open spec fn changed_files(ls: Seq<Seq<char>>) -> Seq<Seq<char>>
    decreases ls.len(),
{
    if ls.len() == 0 {
        Seq::empty()
    } else {
        let rest = changed_files(ls.drop_last());
        let l = ls.last();
        if starts_with(l, "diff --git"@) {
            rest.push(l.skip(last_seg_from(l, " b/"@, 0)))
        } else {
            rest
        }
    }
}

fn after_last_b(l: &Vec<char>) -> (r: Vec<char>)
    ensures
        r@ == l@.skip(last_seg_from(l@, " b/"@, 0)),
{
    let pat = chars_of(" b/");
    proof {
        reveal_strlit(" b/");
    }
    assert(pat@.len() == 3);
    let mut pos: usize = 0;
    let mut done = false;
    while !done
        invariant
            pos <= l.len(),
            pat@ == " b/"@,
            pat@.len() == 3,
            done ==> last_seg_from(l@, pat@, 0) == pos,
            !done ==> last_seg_from(l@, pat@, 0) == last_seg_from(l@, pat@, pos as int),
        decreases l.len() - pos, (if done { 0int } else { 1int }),
    {
        match find_from_exec(l, &pat, pos) {
            Some(i) => {
                proof {
                    lemma_find_from_some(l@, pat@, pos as int);
                }
                pos = i + 3;
            },
            None => {
                done = true;
            },
        }
    }
    slice_chars(l, pos, l.len())
}

/// The files a cumulative diff changes, in diff order.
pub fn files_changed(cumulative_diff: &str) -> (r: Vec<String>)
    ensures
        strings_view(r@) == changed_files(lines(cumulative_diff@)),
{
    let v = chars_of(cumulative_diff);
    let ls = lines_exec(&v);
    let ghost lv = lines(cumulative_diff@);
    let mut out: Vec<String> = Vec::new();
    let mut i: usize = 0;
    assert(lv.take(0) =~= Seq::<Seq<char>>::empty());
    while i < ls.len()
        invariant
            i <= ls.len() == lv.len(),
            lv == lines(cumulative_diff@),
            forall|j: int| 0 <= j < ls@.len() ==> #[trigger] ls@[j]@ == lv[j],
            strings_view(out@) == changed_files(lv.take(i as int)),
        decreases ls.len() - i,
    {
        assert(lv.take(i + 1).drop_last() =~= lv.take(i as int));
        assert(ls@[i as int]@ == lv[i as int]);
        let ghost before = strings_view(out@);
        if starts_with_str(&ls[i], "diff --git") {
            let f = after_last_b(&ls[i]);
            out.push(string_of(&f));
            assert(strings_view(out@) =~= before.push(f@));
        }
        i += 1;
    }
    assert(lv.take(ls.len() as int) =~= lv);
    out
}

// --------------------------------------------------- read-plan law ---

/// The files of `disk` whose path `ps` names, in order.
pub open spec fn keep_named(disk: Seq<(Seq<char>, Seq<char>)>, ps: Seq<Seq<char>>) -> Seq<(Seq<char>, Seq<char>)>
    decreases disk.len(),
{
    if disk.len() == 0 {
        Seq::empty()
    } else {
        let rest = keep_named(disk.drop_last(), ps);
        if ps.contains(disk.last().0) {
            rest.push(disk.last())
        } else {
            rest
        }
    }
}

proof fn lemma_file_index_push(s: Seq<(Seq<char>, Seq<char>)>, x: (Seq<char>, Seq<char>), p: Seq<char>, i: int)
    requires
        0 <= i <= s.len(),
    ensures
        file_index(s.push(x), p, i) == match file_index(s, p, i) {
            Some(k) => Some(k),
            None => if x.0 == p {
                Some(s.len() as int)
            } else {
                None
            },
        },
    decreases s.len() - i,
{
    let t = s.push(x);
    if i < s.len() {
        assert(t[i] == s[i]);
        lemma_file_index_push(s, x, p, i + 1);
    } else {
        assert(t[i] == x);
        assert(file_index(t, p, i + 1) is None);
    }
}

proof fn lemma_file_lookup_push(s: Seq<(Seq<char>, Seq<char>)>, x: (Seq<char>, Seq<char>), p: Seq<char>)
    ensures
        file_lookup(s.push(x), p) == match file_lookup(s, p) {
            Some(v) => Some(v),
            None => if x.0 == p {
                Some(x.1)
            } else {
                None
            },
        },
{
    lemma_file_index_push(s, x, p, 0);
    lemma_file_index_range(s, p, 0);
    if let Some(k) = file_index(s, p, 0) {
        assert(s.push(x)[k] == s[k]);
    }
}

proof fn lemma_file_index_range(s: Seq<(Seq<char>, Seq<char>)>, p: Seq<char>, i: int)
    ensures
        file_index(s, p, i) matches Some(k) ==> i <= k < s.len(),
    decreases s.len() - i,
{
    if 0 <= i < s.len() && s[i].0 != p {
        lemma_file_index_range(s, p, i + 1);
    }
}

/// Looking a named file up among the kept files finds what the whole
/// candidate holds.
proof fn lemma_keep_named_lookup(disk: Seq<(Seq<char>, Seq<char>)>, ps: Seq<Seq<char>>, p: Seq<char>)
    requires
        ps.contains(p),
    ensures
        file_lookup(keep_named(disk, ps), p) == file_lookup(disk, p),
    decreases disk.len(),
{
    if disk.len() > 0 {
        let d = disk.drop_last();
        let x = disk.last();
        lemma_keep_named_lookup(d, ps, p);
        assert(d.push(x) =~= disk);
        lemma_file_lookup_push(d, x, p);
        if ps.contains(x.0) {
            lemma_file_lookup_push(keep_named(d, ps), x, p);
        }
    }
}

/// The plan keeps what it has gathered.
proof fn lemma_plan_keeps(bs: Seq<EditBlock>, i: int, acc: Seq<Seq<char>>, p: Seq<char>)
    requires
        acc.contains(p),
    ensures
        plan_from(bs, i, acc).contains(p),
    decreases bs.len() - i,
{
    if !(i < 0 || i >= bs.len() || block_precheck(bs[i]) is Some) {
        let next = if acc.contains(bs[i].path@) {
            acc
        } else {
            acc.push(bs[i].path@)
        };
        if !acc.contains(bs[i].path@) {
            let k = choose|k: int| 0 <= k < acc.len() && acc[k] == p;
            assert(next[k] == p);
        }
        lemma_plan_keeps(bs, i + 1, next, p);
    }
}

/// Every block up to `j` passing its precheck puts block `j`'s file in
/// the plan.
proof fn lemma_plan_names(bs: Seq<EditBlock>, i: int, acc: Seq<Seq<char>>, j: int)
    requires
        0 <= i <= j < bs.len(),
        forall|m: int| i <= m <= j ==> #[trigger] block_precheck(bs[m]) is None,
    ensures
        plan_from(bs, i, acc).contains(bs[j].path@),
    decreases j - i,
{
    let next = if acc.contains(bs[i].path@) {
        acc
    } else {
        acc.push(bs[i].path@)
    };
    assert(block_precheck(bs[i]) is None);
    if i == j {
        if !acc.contains(bs[i].path@) {
            assert(next[acc.len() as int] == bs[i].path@);
        }
        lemma_plan_keeps(bs, i + 1, next, bs[j].path@);
    } else {
        lemma_plan_names(bs, i + 1, next, j);
    }
}

proof fn lemma_stage_restricted(
    bs: Seq<EditBlock>,
    disk: Seq<(Seq<char>, Seq<char>)>,
    i: int,
    staged: Seq<(Seq<char>, Seq<char>)>,
    results: Seq<(Seq<char>, bool, Seq<char>)>,
)
    requires
        0 <= i,
        forall|m: int| 0 <= m < i && m < bs.len() ==> #[trigger] block_precheck(bs[m]) is None,
    ensures
        stage_from(bs, disk, i, staged, results) == stage_from(
            bs,
            keep_named(disk, plan_from(bs, 0, Seq::empty())),
            i,
            staged,
            results,
        ),
    decreases bs.len() - i,
{
    let kd = keep_named(disk, plan_from(bs, 0, Seq::empty()));
    if i < bs.len() && block_precheck(bs[i]) is None {
        let b = bs[i];
        assert forall|m: int| 0 <= m <= i implies #[trigger] block_precheck(bs[m]) is None by {}
        lemma_plan_names(bs, 0, Seq::empty(), i);
        lemma_keep_named_lookup(disk, plan_from(bs, 0, Seq::empty()), b.path@);
        let cur = match file_lookup(staged, b.path@) {
            Some(c) => Some(c),
            None => file_lookup(disk, b.path@),
        };
        if let Some(c) = cur {
            if let Ok((next, how)) = splice_spec(c, b.old@, b.new@) {
                assert forall|m: int| 0 <= m < i + 1 && m < bs.len() implies #[trigger] block_precheck(bs[m]) is None by {}
                lemma_stage_restricted(
                    bs,
                    disk,
                    i + 1,
                    file_put(staged, b.path@, next),
                    results.push((b.path@, true, how)),
                );
            }
        }
    }
}

/// Staging reads no file that the read plan does not name: restricting
/// the candidate's files to the plan's leaves the staging unchanged.
pub proof fn law_read_plan_suffices(bs: Seq<EditBlock>, disk: Seq<(Seq<char>, Seq<char>)>)
    ensures
        stage_from(bs, disk, 0, Seq::empty(), Seq::empty()) == stage_from(
            bs,
            keep_named(disk, plan_from(bs, 0, Seq::empty())),
            0,
            Seq::empty(),
            Seq::empty(),
        ),
{
    lemma_stage_restricted(bs, disk, 0, Seq::empty(), Seq::empty());
}

// -------------------------------------------------------- read window ---

/// The window an anchored read shows of a file: its first line (1-based,
/// at least 1), how many lines it asks for (at most 400), its last line,
/// the file's line count, and whether lines follow the window.
#[derive(Clone, Copy, Debug, PartialEq, Eq)]
pub struct ReadWindow {
    pub start_line: u64,
    pub want: u64,
    pub end_line: u64,
    pub total_lines: u64,
    pub truncated: bool,
}

pub open spec fn read_window_spec(text: Seq<char>, start_line: Option<u64>, max_lines: Option<u64>) -> ReadWindow {
    let total = lines(text).len();
    let s = match start_line {
        Some(n) => if n < 1 {
            1
        } else {
            n
        },
        None => 1,
    };
    let w = match max_lines {
        Some(n) => if n > 400 {
            400
        } else {
            n
        },
        None => 400,
    };
    let e = if s - 1 + w < total {
        s - 1 + w
    } else {
        total as int
    };
    ReadWindow {
        start_line: s as u64,
        want: w as u64,
        end_line: e as u64,
        total_lines: total as u64,
        truncated: e < total,
    }
}

/// The window of an anchored read of `text`, from `start_line` (default
/// 1) for `max_lines` (default and cap 400).
pub fn read_window(text: &str, start_line: Option<u64>, max_lines: Option<u64>) -> (r: ReadWindow)
    requires
        start_line matches Some(n) ==> n <= u64::MAX - 400,
    ensures
        r == read_window_spec(text@, start_line, max_lines),
{
    let v = chars_of(text);
    let ls = lines_exec(&v);
    let total = ls.len() as u64;
    let s: u64 = match start_line {
        Some(n) => if n < 1 {
            1
        } else {
            n
        },
        None => 1,
    };
    let w: u64 = match max_lines {
        Some(n) => if n > 400 {
            400
        } else {
            n
        },
        None => 400,
    };
    let e: u64 = if s - 1 + w < total {
        s - 1 + w
    } else {
        total
    };
    ReadWindow { start_line: s, want: w, end_line: e, total_lines: total, truncated: e < total }
}

} // verus!
