//! The resume picker's rules: a session's one-line preview of its mission,
//! the listing order (newest first, ties by id), the listing without the
//! session already open, the numbered picker line, reading the
//! operator's numeric pick, and which listed streams are resumable
//! sessions. Walking the log directory and reading its streams run
//! outside.
use vstd::prelude::*;
use crate::json::{lemma_str_lt_asym, lemma_str_lt_irrefl, lemma_str_lt_total, lemma_str_lt_trans, str_lt, str_lt_exec};
use crate::repl::{truncate60, truncate60_spec};
use crate::text::{
    chars_of, dec, extend_chars, extend_str, find, find_from, find_from_exec, lemma_find_from_some, match_at, push_dec,
    slice_chars, string_of, trim, trim_chars,
};

verus! {

broadcast use vstd::string::group_string_axioms;

/// A resumable session: its stream id, how many events it holds, the
/// preview of its mission, and when it was last written (nanoseconds
/// since the epoch).
pub struct SessionInfo {
    pub id: String,
    pub events: u64,
    pub preview: String,
    pub modified_nanos: u128,
}

pub open spec fn info_view(s: SessionInfo) -> (Seq<char>, u64, Seq<char>, u128) {
    (s.id@, s.events, s.preview@, s.modified_nanos)
}

pub open spec fn infos_view(v: Seq<SessionInfo>) -> Seq<(Seq<char>, u64, Seq<char>, u128)> {
    v.map_values(|s: SessionInfo| info_view(s))
}

// ------------------------------------------------------------ preview ---

/// Where the mission text of a payload stops: at the first quote or line
/// break.
pub open spec fn stop_at(rest: Seq<char>, k: int) -> int
    decreases rest.len() - k,
{
    if k < 0 || k >= rest.len() {
        rest.len() as int
    } else if rest[k] == '"' || rest[k] == '\n' {
        k
    } else {
        stop_at(rest, k + 1)
    }
}

/// The mission a payload names after `MISSION: `, up to the closing quote
/// or the line's end, trimmed.
pub open spec fn preview_cut(text: Seq<char>) -> Option<Seq<char>> {
    match find(text, "MISSION: "@) {
        None => None,
        Some(i) => {
            let rest = text.skip(i + 9);
            Some(trim(rest.take(stop_at(rest, 0))))
        },
    }
}

/// The first mission named by one of the first four payloads (those that
/// could be read).
pub open spec fn preview_from(ps: Seq<Option<Seq<char>>>, i: int) -> Seq<char>
    decreases 4 - i,
{
    if i < 0 || i >= 4 || i >= ps.len() {
        Seq::empty()
    } else {
        match ps[i] {
            Some(t) => match preview_cut(t) {
                Some(p) => p,
                None => preview_from(ps, i + 1),
            },
            None => preview_from(ps, i + 1),
        }
    }
}

/// `s` from `k` with each occurrence of `p` replaced by `r`, left to right.
pub open spec fn replace_from(s: Seq<char>, p: Seq<char>, r: Seq<char>, k: int) -> Seq<char>
    decreases s.len() - k,
{
    if k < 0 || k > s.len() {
        Seq::empty()
    } else {
        match find_from(s, p, k) {
            None => s.skip(k),
            Some(i) => if p.len() == 0 || i < k || i + p.len() > s.len() {
                s.skip(k)
            } else {
                s.subrange(k, i) + r + replace_from(s, p, r, i + p.len())
            },
        }
    }
}

/// `str::replace`.
pub open spec fn replace_str(s: Seq<char>, p: Seq<char>, r: Seq<char>) -> Seq<char> {
    replace_from(s, p, r, 0)
}

/// A multi-line goal arrives JSON-escaped: its `\n` and `\t` escapes
/// become spaces.
pub open spec fn flatten_escapes(p: Seq<char>) -> Seq<char> {
    replace_str(replace_str(p, "\\n"@, " "@), "\\t"@, " "@)
}

/// The picker's preview of a session from the payloads of its first
/// events (`None` for one that could not be read).
pub open spec fn mission_preview_spec(ps: Seq<Option<Seq<char>>>) -> Seq<char> {
    let f = flatten_escapes(preview_from(ps, 0));
    truncate60_spec(
        if f.len() == 0 {
            "(no mission)"@
        } else {
            f
        },
    )
}

pub(crate) fn replace_exec(s: &Vec<char>, p: &str, r: &str) -> (out: Vec<char>)
    requires
        p@.len() > 0,
    ensures
        out@ == replace_str(s@, p@, r@),
{
    let pv = chars_of(p);
    let plen = pv.len();
    let mut acc: Vec<char> = Vec::new();
    let mut k: usize = 0;
    let mut done = false;
    while !done
        invariant
            k <= s.len(),
            pv@ == p@,
            plen == pv@.len(),
            plen > 0,
            done ==> replace_str(s@, p@, r@) == acc@,
            !done ==> replace_str(s@, p@, r@) == acc@ + replace_from(s@, p@, r@, k as int),
        decreases s.len() - k, (if done { 0int } else { 1int }),
    {
        match find_from_exec(s, &pv, k) {
            Some(i) => {
                proof {
                    lemma_find_from_some(s@, pv@, k as int);
                }
                let seg = slice_chars(s, k, i);
                extend_chars(&mut acc, &seg);
                extend_str(&mut acc, r);
                k = i + plen;
            },
            None => {
                let seg = slice_chars(s, k, s.len());
                extend_chars(&mut acc, &seg);
                assert(seg@ =~= s@.skip(k as int));
                done = true;
            },
        }
    }
    acc
}

/// The index of the first quote or line break in `v`, or its length.
fn stop_exec(v: &Vec<char>) -> (r: usize)
    ensures
        r == stop_at(v@, 0),
        r <= v.len(),
{
    let mut k: usize = 0;
    while k < v.len()
        invariant
            k <= v.len(),
            stop_at(v@, 0) == stop_at(v@, k as int),
        decreases v.len() - k,
    {
        if v[k] == '"' || v[k] == '\n' {
            return k;
        }
        k += 1;
    }
    k
}

fn preview_cut_exec(text: &str) -> (r: Option<Vec<char>>)
    ensures
        match r {
            Some(p) => preview_cut(text@) == Some(p@),
            None => preview_cut(text@) is None,
        },
{
    let v = chars_of(text);
    let pat = chars_of("MISSION: ");
    proof {
        reveal_strlit("MISSION: ");
    }
    assert(pat@.len() == 9);
    match find_from_exec(&v, &pat, 0) {
        None => None,
        Some(i) => {
            proof {
                lemma_find_from_some(v@, pat@, 0);
                assert(match_at(v@, pat@, i as int));
                assert(i + 9 <= v.len());
            }
            let rest = slice_chars(&v, i + 9, v.len());
            assert(rest@ =~= text@.skip(i + 9));
            let e = stop_exec(&rest);
            let head = slice_chars(&rest, 0, e);
            assert(head@ =~= rest@.take(e as int));
            Some(trim_chars(&head))
        },
    }
}

/// The picker's preview of a session: the mission named by the first of
/// its first four event payloads that names one (`None` for a payload
/// that could not be read), escapes flattened, `(no mission)` when none
/// does, at most 60 characters.
pub fn mission_preview(payloads: &Vec<Option<String>>) -> (r: String)
    ensures
        r@ == mission_preview_spec(payloads@.map_values(|o: Option<String>| opt_view(o))),
{
    let ghost ps = payloads@.map_values(|o: Option<String>| opt_view(o));
    let mut found: Vec<char> = Vec::new();
    let mut i: usize = 0;
    let mut done = false;
    while i < payloads.len() && i < 4 && !done
        invariant
            i <= payloads.len(),
            ps == payloads@.map_values(|o: Option<String>| opt_view(o)),
            ps.len() == payloads.len(),
            done ==> preview_from(ps, 0) == found@,
            !done ==> preview_from(ps, 0) == preview_from(ps, i as int),
            !done ==> found@.len() == 0,
        decreases payloads.len() - i, (if done { 0int } else { 1int }),
    {
        assert(ps[i as int] == opt_view(payloads@[i as int]));
        match &payloads[i] {
            Some(t) => match preview_cut_exec(t.as_str()) {
                Some(p) => {
                    found = p;
                    done = true;
                },
                None => {
                    i += 1;
                },
            },
            None => {
                i += 1;
            },
        }
    }
    proof {
        reveal_strlit("\\n");
        reveal_strlit("\\t");
        reveal_strlit(" ");
    }
    let f1 = replace_exec(&found, "\\n", " ");
    let f2 = replace_exec(&f1, "\\t", " ");
    if f2.len() == 0 {
        truncate60("(no mission)")
    } else {
        let s = string_of(&f2);
        truncate60(s.as_str())
    }
}

pub open spec fn opt_view(o: Option<String>) -> Option<Seq<char>> {
    match o {
        Some(s) => Some(s@),
        None => None,
    }
}

// -------------------------------------------------------------- order ---

/// `a` lists no later than `b`: newer first, ties by ascending id.
pub open spec fn newer_or_same(a: (Seq<char>, u64, Seq<char>, u128), b: (Seq<char>, u64, Seq<char>, u128)) -> bool {
    a.3 > b.3 || (a.3 == b.3 && !str_lt(b.0, a.0))
}

/// The listing order holds throughout `s`.
pub open spec fn newest_first(s: Seq<(Seq<char>, u64, Seq<char>, u128)>) -> bool {
    forall|i: int, j: int| 0 <= i < j < s.len() ==> newer_or_same(#[trigger] s[i], #[trigger] s[j])
}

proof fn lemma_newer_trans(
    a: (Seq<char>, u64, Seq<char>, u128),
    b: (Seq<char>, u64, Seq<char>, u128),
    c: (Seq<char>, u64, Seq<char>, u128),
)
    requires
        newer_or_same(a, b),
        newer_or_same(b, c),
    ensures
        newer_or_same(a, c),
{
    if a.3 == b.3 && b.3 == c.3 {
        lemma_str_lt_total(a.0, b.0);
        lemma_str_lt_total(b.0, c.0);
        if str_lt(c.0, a.0) {
            if str_lt(a.0, b.0) {
                lemma_str_lt_trans(c.0, a.0, b.0);
                if str_lt(b.0, c.0) {
                    lemma_str_lt_asym(b.0, c.0);
                } else {
                    lemma_str_lt_irrefl(c.0);
                }
            } else {
                if str_lt(b.0, c.0) {
                    lemma_str_lt_asym(c.0, a.0);
                } else {
                    lemma_str_lt_irrefl(c.0);
                }
            }
        }
    }
}

proof fn lemma_newer_flip(a: (Seq<char>, u64, Seq<char>, u128), b: (Seq<char>, u64, Seq<char>, u128))
    requires
        !newer_or_same(b, a),
    ensures
        newer_or_same(a, b),
{
    if a.3 == b.3 {
        lemma_str_lt_asym(a.0, b.0);
    }
}

fn newer_or_same_exec(a: &SessionInfo, b: &SessionInfo) -> (r: bool)
    ensures
        r == newer_or_same(info_view(*a), info_view(*b)),
{
    if a.modified_nanos > b.modified_nanos {
        return true;
    }
    if a.modified_nanos < b.modified_nanos {
        return false;
    }
    let av = chars_of(a.id.as_str());
    let bv = chars_of(b.id.as_str());
    !str_lt_exec(&bv, &av)
}

// ------------------------------------------------------------ listing ---

/// One stream directory as the listing reads it: its stream id (`None`
/// when the name is not one), whether it opened and its events read,
/// whether it holds a feedback or goal-update event (an operator stream,
/// the only kind resume adopts), its event count, the payloads of its
/// first events (`None` for one that could not be read), and the newest
/// write time of its files (nanoseconds since the epoch).
pub struct StreamListing {
    pub id: Option<String>,
    pub readable: bool,
    pub operator: bool,
    pub events: u64,
    pub first_payloads: Vec<Option<String>>,
    pub modified_nanos: u128,
}

/// A listed stream that resume can adopt.
pub open spec fn adoptable(l: StreamListing) -> bool {
    l.id is Some && l.readable && l.operator
}

/// The picker entry of an adoptable stream.
pub open spec fn listing_info(l: StreamListing) -> (Seq<char>, u64, Seq<char>, u128) {
    (
        l.id->0@,
        l.events,
        mission_preview_spec(l.first_payloads@.map_values(|o: Option<String>| opt_view(o))),
        l.modified_nanos,
    )
}

/// The picker entries of the adoptable streams among `ls`, in order.
pub open spec fn adoptable_infos(ls: Seq<StreamListing>) -> Seq<(Seq<char>, u64, Seq<char>, u128)>
    decreases ls.len(),
{
    if ls.len() == 0 {
        Seq::empty()
    } else if adoptable(ls.last()) {
        adoptable_infos(ls.drop_last()).push(listing_info(ls.last()))
    } else {
        adoptable_infos(ls.drop_last())
    }
}

/// The resumable sessions of a log's stream directories: the operator
/// streams that open and read, each with its event count, mission preview
/// and last write, newest first (ties by id).
pub fn list_sessions(streams: &Vec<StreamListing>) -> (r: Vec<SessionInfo>)
    ensures
        infos_view(r@).to_multiset() == adoptable_infos(streams@).to_multiset(),
        newest_first(infos_view(r@)),
{
    let mut out: Vec<SessionInfo> = Vec::new();
    let mut i: usize = 0;
    while i < streams.len()
        invariant
            i <= streams.len(),
            infos_view(out@) == adoptable_infos(streams@.take(i as int)),
        decreases streams.len() - i,
    {
        let l = &streams[i];
        assert(streams@.take(i + 1).drop_last() =~= streams@.take(i as int));
        match &l.id {
            Some(id) => {
                if l.readable && l.operator {
                    let info = SessionInfo {
                        id: string_of(&chars_of(id.as_str())),
                        events: l.events,
                        preview: mission_preview(&l.first_payloads),
                        modified_nanos: l.modified_nanos,
                    };
                    let ghost before = out@;
                    out.push(info);
                    assert(infos_view(out@) =~= infos_view(before).push(info_view(info)));
                }
            },
            None => {},
        }
        i += 1;
    }
    assert(streams@.take(streams.len() as int) =~= streams@);
    sort_sessions(out)
}

/// The sessions in listing order: newest first, ties by ascending id.
pub fn sort_sessions(infos: Vec<SessionInfo>) -> (r: Vec<SessionInfo>)
    ensures
        infos_view(r@).to_multiset() == infos_view(infos@).to_multiset(),
        newest_first(infos_view(r@)),
{
    broadcast use vstd::seq_lib::group_to_multiset_ensures;

    let ghost orig = infos_view(infos@);
    let mut rest = infos;
    let mut out: Vec<SessionInfo> = Vec::new();
    assert(infos_view(out@) =~= Seq::<(Seq<char>, u64, Seq<char>, u128)>::empty());
    while rest.len() > 0
        invariant
            orig.to_multiset() == infos_view(out@).to_multiset().add(infos_view(rest@).to_multiset()),
            newest_first(infos_view(out@)),
        decreases rest.len(),
    {
        let ghost rv = infos_view(rest@);
        let x = rest.pop().unwrap();
        proof {
            assert(infos_view(rest@) =~= rv.drop_last());
            assert(rv =~= rv.drop_last().push(info_view(x)));
            vstd::seq_lib::to_multiset_build(rv.drop_last(), info_view(x));
        }
        let ghost ov = infos_view(out@);
        let mut pos: usize = 0;
        while pos < out.len() && newer_or_same_exec(&out[pos], &x)
            invariant
                pos <= out.len(),
                ov == infos_view(out@),
                forall|k: int| 0 <= k < pos ==> newer_or_same(#[trigger] ov[k], info_view(x)),
            decreases out.len() - pos,
        {
            pos += 1;
        }
        let ghost xv = info_view(x);
        out.insert(pos, x);
        proof {
            assert(infos_view(out@) =~= ov.insert(pos as int, xv));
            vstd::seq_lib::to_multiset_insert(ov, pos as int, xv);
            let nv = ov.insert(pos as int, xv);
            if pos < ov.len() {
                lemma_newer_flip(xv, ov[pos as int]);
            }
            assert forall|i: int, j: int| 0 <= i < j < nv.len() implies newer_or_same(
                #[trigger] nv[i],
                #[trigger] nv[j],
            ) by {
                if j < pos {
                    assert(nv[i] == ov[i] && nv[j] == ov[j]);
                } else if j == pos {
                    assert(nv[i] == ov[i]);
                } else if i < pos {
                    assert(nv[i] == ov[i] && nv[j] == ov[j - 1]);
                    assert(newer_or_same(ov[i], ov[j - 1]));
                } else if i == pos {
                    assert(nv[j] == ov[j - 1]);
                    if j - 1 > pos {
                        assert(newer_or_same(ov[pos as int], ov[j - 1]));
                        lemma_newer_trans(xv, ov[pos as int], ov[j - 1]);
                    }
                } else {
                    assert(nv[i] == ov[i - 1] && nv[j] == ov[j - 1]);
                }
            }
        }
    }
    assert(infos_view(rest@) =~= Seq::<(Seq<char>, u64, Seq<char>, u128)>::empty());
    out
}

// -------------------------------------------------------------- picks ---

fn copy_info(s: &SessionInfo) -> (r: SessionInfo)
    ensures
        info_view(r) == info_view(*s),
{
    SessionInfo {
        id: string_of(&chars_of(s.id.as_str())),
        events: s.events,
        preview: string_of(&chars_of(s.preview.as_str())),
        modified_nanos: s.modified_nanos,
    }
}

/// The listing without the session with id `current`.
pub open spec fn without_id(
    s: Seq<(Seq<char>, u64, Seq<char>, u128)>,
    current: Seq<char>,
) -> Seq<(Seq<char>, u64, Seq<char>, u128)>
    decreases s.len(),
{
    if s.len() == 0 {
        Seq::empty()
    } else {
        let rest = without_id(s.drop_last(), current);
        if s.last().0 == current {
            rest
        } else {
            rest.push(s.last())
        }
    }
}

/// The picker never offers the session already open: the listing, in
/// order, without the session with id `current` (a foreign id removes
/// nothing).
pub fn sessions_excluding(infos: &Vec<SessionInfo>, current: &str) -> (r: Vec<SessionInfo>)
    ensures
        infos_view(r@) == without_id(infos_view(infos@), current@),
{
    let ghost iv = infos_view(infos@);
    let mut out: Vec<SessionInfo> = Vec::new();
    let mut i: usize = 0;
    assert(iv.take(0) =~= Seq::<(Seq<char>, u64, Seq<char>, u128)>::empty());
    assert(infos_view(out@) =~= Seq::<(Seq<char>, u64, Seq<char>, u128)>::empty());
    while i < infos.len()
        invariant
            i <= infos.len(),
            iv == infos_view(infos@),
            infos_view(out@) == without_id(iv.take(i as int), current@),
        decreases infos.len() - i,
    {
        assert(iv.take(i + 1).drop_last() =~= iv.take(i as int));
        assert(iv[i as int] == info_view(infos@[i as int]));
        let ghost before = infos_view(out@);
        if !crate::text::str_eq(infos[i].id.as_str(), current) {
            let c = copy_info(&infos[i]);
            out.push(c);
            assert(infos_view(out@) =~= before.push(iv[i as int]));
        }
        i += 1;
    }
    assert(iv.take(infos.len() as int) =~= iv);
    out
}

/// What `str::parse::<usize>` gives for a text.
pub open spec fn parsed_usize(s: Seq<char>) -> Option<usize> {
    match crate::text::unsigned_text(s, usize::MAX as nat) {
        Some(n) => Some(n as usize),
        None => None,
    }
}

/// `str::parse::<usize>`, the error dropped.
fn parse_usize(s: &str) -> (r: Option<usize>)
    ensures
        r == parsed_usize(s@),
{
    match crate::text::parse_unsigned(s, usize::MAX as u64) {
        Some(n) => Some(n as usize),
        None => None,
    }
}

/// The session a 1-based pick selects: the trimmed input as a number
/// between 1 and the listing's length; anything else selects nothing.
pub open spec fn pick_spec(ids: Seq<Seq<char>>, n: Option<usize>) -> Option<Seq<char>> {
    match n {
        Some(k) => if k == 0 || k > ids.len() {
            None
        } else {
            Some(ids[k - 1])
        },
        None => None,
    }
}

/// Map a 1-based numeric pick to a session id.
pub fn pick_session(infos: &Vec<SessionInfo>, input: &str) -> (r: Option<String>)
    ensures
        match r {
            Some(id) => pick_spec(infos@.map_values(|s: SessionInfo| s.id@), parsed_usize(trim(input@)))
                == Some(id@),
            None => pick_spec(infos@.map_values(|s: SessionInfo| s.id@), parsed_usize(trim(input@))) is None,
        },
{
    let t = string_of(&trim_chars(&chars_of(input)));
    match parse_usize(t.as_str()) {
        Some(n) => {
            if n == 0 || n > infos.len() {
                None
            } else {
                Some(string_of(&chars_of(infos[n - 1].id.as_str())))
            }
        },
        None => None,
    }
}

/// One numbered picker line: the id's first eight characters, the event
/// count, the preview.
pub open spec fn session_line_spec(i: nat, s: (Seq<char>, u64, Seq<char>, u128)) -> Seq<char> {
    dec(i) + ") "@ + s.0.take(if s.0.len() < 8 {
        s.0.len() as int
    } else {
        8
    }) + "  "@ + dec(s.1 as nat) + " events  "@ + s.2
}

pub fn session_line(i: usize, info: &SessionInfo) -> (r: String)
    ensures
        r@ == session_line_spec(i as nat, info_view(*info)),
{
    let mut t: Vec<char> = Vec::new();
    push_dec(&mut t, i as u64);
    extend_str(&mut t, ") ");
    let idv = chars_of(info.id.as_str());
    let n = if idv.len() < 8 {
        idv.len()
    } else {
        8
    };
    let short = slice_chars(&idv, 0, n);
    assert(short@ =~= info.id@.take(n as int));
    extend_chars(&mut t, &short);
    extend_str(&mut t, "  ");
    push_dec(&mut t, info.events);
    extend_str(&mut t, " events  ");
    extend_str(&mut t, info.preview.as_str());
    string_of(&t)
}

/// The number part of a picker choice: the text before its first `)`
/// (the whole text when it has none).
pub open spec fn choice_number(choice: Seq<char>) -> Seq<char> {
    match crate::text::find_char_from(choice, ')', 0) {
        Some(i) => choice.take(i),
        None => choice,
    }
}

/// Resolve a resume-picker choice such as `2) fix the parser` to the
/// session it numbers in the list the picker showed.
pub fn resume_choice(infos: &Vec<SessionInfo>, choice: &str) -> (r: Option<String>)
    ensures
        match r {
            Some(id) => pick_spec(infos@.map_values(|s: SessionInfo| s.id@), parsed_usize(trim(choice_number(choice@))))
                == Some(id@),
            None => pick_spec(infos@.map_values(|s: SessionInfo| s.id@), parsed_usize(trim(choice_number(choice@))))
                is None,
        },
{
    let v = chars_of(choice);
    let num = match crate::text::find_char_from_exec(&v, ')', 0) {
        Some(i) => {
            proof {
                crate::text::lemma_find_char_from_some(v@, ')', 0);
            }
            slice_chars(&v, 0, i)
        },
        None => v,
    };
    assert(num@ =~= choice_number(choice@));
    pick_session(infos, string_of(&num).as_str())
}

} // verus!
