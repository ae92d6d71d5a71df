//! The token-budgeted transcript of a mission. Each recorded tool call of
//! the stream becomes one line `plugin(args) => result`. When every line
//! fits the budget they all stay verbatim; otherwise the newest lines that
//! fit 60% of the budget stay verbatim and the older ones are compacted
//! into one pointer at the ledger that names their event range, with the
//! compacted lines handed back for distillation.
use vstd::prelude::*;
use crate::critic::{
    json_as_str, json_bytes_document, json_get, json_member, json_str, json_text, json_to_text, parse_json_bytes,
};
use crate::text::{
    boundary, boundary_from, byte_len, chars_of, dec, extend_chars, extend_str, lemma_byte_len_take,
    push_dec, string_of, strings_view, truncate_bytes,
};

verus! {

broadcast use vstd::string::group_string_axioms;

/// A transcript line longer than this many bytes is cut to it.
pub const LINE_CAP: usize = 20_000;

/// One event of a mission's stream as the assembler reads it: its
/// sequence number and id, whether it records a tool call, and its
/// payload bytes when they could be read.
pub struct StreamEvent {
    pub seq: u64,
    pub id: String,
    pub tool_call: bool,
    pub payload: Option<Vec<u8>>,
}

/// The compacted older part of an over-budget transcript: how many calls,
/// the event range (oldest `lo`, newest `hi`), and the compacted lines,
/// newest first.
pub struct Compressed {
    pub count: usize,
    pub lo_seq: u64,
    pub hi_seq: u64,
    pub lo_id: String,
    pub hi_id: String,
    pub lines: Vec<String>,
}

/// The transcript block: its entries in stream order, and what was
/// compacted, if anything.
pub struct Assembly {
    pub entries: Vec<String>,
    pub compressed: Option<Compressed>,
}

/// The compact JSON of `p[key]`: `null` when there is no such member.
pub open spec fn member_text(p: serde_json::Value, key: Seq<char>) -> Seq<char> {
    match json_member(p, key) {
        Some(m) => json_text(m),
        None => "null"@,
    }
}

/// The uncut line of a tool-call payload: the plugin (`?` when it is not
/// a string), then the compact JSON of its args and of its result.
pub open spec fn raw_line(p: serde_json::Value) -> Seq<char> {
    let plugin = match json_member(p, "plugin"@) {
        Some(m) => match json_str(m) {
            Some(s) => s,
            None => "?"@,
        },
        None => "?"@,
    };
    plugin + "("@ + member_text(p, "args"@) + ") => "@ + member_text(p, "result"@)
}

/// An event's payload as a JSON document, when its bytes were read and
/// parse.
pub open spec fn payload_doc(e: StreamEvent) -> Option<serde_json::Value> {
    match e.payload {
        Some(b) => json_bytes_document(b@),
        None => None,
    }
}

/// Whether a line over the cap can be cut there without splitting a
/// character.
pub open spec fn cuttable(l: Seq<char>) -> bool {
    byte_len(l) > LINE_CAP ==> boundary(l, LINE_CAP as nat) is Some
}

/// A line cut to the cap, marked as cut.
pub open spec fn cap_line(l: Seq<char>) -> Seq<char> {
    if byte_len(l) > LINE_CAP {
        l.take(boundary(l, LINE_CAP as nat)->0) + "...[truncated]"@
    } else {
        l
    }
}

/// An event that enters the transcript: a tool call whose payload was
/// read and parses.
pub open spec fn qualifies(e: StreamEvent) -> bool {
    e.tool_call && payload_doc(e) is Some
}

/// Every transcript line of `evs` can be cut at the cap.
pub open spec fn events_cuttable(evs: Seq<StreamEvent>) -> bool {
    forall|i: int| 0 <= i < evs.len() && qualifies(#[trigger] evs[i]) ==> cuttable(raw_line(payload_doc(evs[i])->0))
}

/// The transcript lines of a stream, newest first: (seq, id, line).
pub open spec fn transcript(evs: Seq<StreamEvent>) -> Seq<(u64, Seq<char>, Seq<char>)>
    decreases evs.len(),
{
    if evs.len() == 0 {
        Seq::empty()
    } else {
        let rest = transcript(evs.drop_first());
        let e = evs[0];
        if qualifies(e) {
            rest.push((e.seq, e.id@, cap_line(raw_line(payload_doc(e)->0))))
        } else {
            rest
        }
    }
}

/// What a line costs of the budget: its bytes and eight more.
pub open spec fn cost(l: Seq<char>) -> int {
    byte_len(l) + 8int
}

pub open spec fn total(ls: Seq<(u64, Seq<char>, Seq<char>)>) -> int
    decreases ls.len(),
{
    if ls.len() == 0 {
        0
    } else {
        total(ls.drop_last()) + cost(ls.last().2)
    }
}

/// Where the run of lines from `i` that fits `budget` ends.
pub open spec fn fit_from(ls: Seq<(u64, Seq<char>, Seq<char>)>, budget: int, i: int) -> int
    decreases ls.len() - i,
{
    if i < 0 || i >= ls.len() || cost(ls[i].2) > budget {
        i
    } else {
        fit_from(ls, budget - cost(ls[i].2), i + 1)
    }
}

pub open spec fn texts(ls: Seq<(u64, Seq<char>, Seq<char>)>) -> Seq<Seq<char>> {
    ls.map_values(|t: (u64, Seq<char>, Seq<char>)| t.2)
}

/// The budget's share that the verbatim tail may take when the whole
/// transcript does not fit.
pub open spec fn tail_share(budget: int) -> int {
    budget * 60 / 100
}

/// How many of the newest lines stay verbatim over budget.
pub open spec fn kept_count(ls: Seq<(u64, Seq<char>, Seq<char>)>, budget: int) -> int {
    fit_from(ls, tail_share(budget), 0)
}

/// The pointer that stands for the compacted lines `c` (newest first).
pub open spec fn compacted_note(c: Seq<(u64, Seq<char>, Seq<char>)>) -> Seq<char> {
    "COMPACTED "@ + dec(c.len()) + " earlier tool calls (events seq "@ + dec(c.last().0 as nat) + ".."@
        + dec(c[0].0 as nat) + ", refs "@ + c.last().1 + ".."@ + c[0].1
        + "): distilled into the LEDGER block above - reads, edits, and test verdicts from that range are recorded there"@
}

/// The entries of the transcript block for lines `ls` (newest first).
pub open spec fn entries_spec(ls: Seq<(u64, Seq<char>, Seq<char>)>, budget: int) -> Seq<Seq<char>> {
    if total(ls) <= budget {
        texts(ls).reverse()
    } else {
        seq![compacted_note(ls.skip(kept_count(ls, budget)))] + texts(ls.take(kept_count(ls, budget))).reverse()
    }
}

/// `c` describes the compacted lines `comp` (newest first).
pub open spec fn compressed_matches(c: Compressed, comp: Seq<(u64, Seq<char>, Seq<char>)>) -> bool {
    &&& c.count == comp.len()
    &&& c.lo_seq == comp.last().0
    &&& c.hi_seq == comp[0].0
    &&& c.lo_id@ == comp.last().1
    &&& c.hi_id@ == comp[0].1
    &&& strings_view(c.lines@) == texts(comp)
}

// ------------------------------------------------------------ lemmas ---

proof fn lemma_total_take(ls: Seq<(u64, Seq<char>, Seq<char>)>, k: int)
    requires
        0 <= k < ls.len(),
    ensures
        total(ls.take(k + 1)) == total(ls.take(k)) + cost(ls[k].2),
{
    assert(ls.take(k + 1).drop_last() =~= ls.take(k));
}

proof fn lemma_total_take_le(ls: Seq<(u64, Seq<char>, Seq<char>)>, k: int)
    requires
        0 <= k <= ls.len(),
    ensures
        total(ls.take(k)) <= total(ls),
    decreases ls.len() - k,
{
    if k == ls.len() {
        assert(ls.take(k) =~= ls);
    } else {
        lemma_total_take_le(ls, k + 1);
        lemma_total_take(ls, k);
    }
}

proof fn lemma_fit_from_bounds(ls: Seq<(u64, Seq<char>, Seq<char>)>, budget: int, i: int)
    requires
        0 <= i <= ls.len(),
        budget >= 0,
    ensures
        i <= fit_from(ls, budget, i) <= ls.len(),
        total(ls.take(fit_from(ls, budget, i))) - total(ls.take(i)) <= budget,
    decreases ls.len() - i,
{
    if i < ls.len() && cost(ls[i].2) <= budget {
        lemma_fit_from_bounds(ls, budget - cost(ls[i].2), i + 1);
        lemma_total_take(ls, i);
    }
}

// -------------------------------------------------------------- exec ---

/// The compact JSON text of `p[key]`.
fn render_member(p: &serde_json::Value, key: &str) -> (r: Vec<char>)
    ensures
        r@ == member_text(*p, key@),
{
    match json_get(p, key) {
        Some(v) => chars_of(json_to_text(v).as_str()),
        None => {
            proof {
                reveal_strlit("null");
            }
            chars_of("null")
        },
    }
}

/// Whether byte `n` of `v` is a character boundary.
fn char_boundary(v: &Vec<char>, n: usize) -> (r: bool)
    ensures
        r == (boundary(v@, n as nat) is Some),
{
    let mut acc: usize = 0;
    let mut k: usize = 0;
    while acc < n && k < v.len()
        invariant
            k <= v.len(),
            acc == byte_len(v@.take(k as int)),
            acc <= n,
            boundary(v@, n as nat) == boundary_from(v@, n as nat, k as int),
        decreases v.len() - k,
    {
        proof {
            lemma_byte_len_take(v@, k as int);
        }
        let c = v[k];
        let w: usize = if (c as u32) < 0x80 { 1 } else if (c as u32) < 0x800 { 2 } else if (c as u32)
            < 0x10000 { 3 } else { 4 };
        if w > n - acc {
            proof {
                assert(boundary_from(v@, n as nat, k as int + 1) is None);
            }
            return false;
        }
        acc = acc + w;
        k += 1;
    }
    proof {
        if acc < n {
            assert(boundary_from(v@, n as nat, k as int + 1) is None);
        }
    }
    acc == n
}

/// The transcript line of a tool-call payload, cut at `LINE_CAP` bytes;
/// `None` when the cut would split a character.
pub fn tool_call_line(payload: &serde_json::Value) -> (r: Option<String>)
    ensures
        cuttable(raw_line(*payload)) ==> (r matches Some(l) && l@ == cap_line(raw_line(*payload))),
        !cuttable(raw_line(*payload)) ==> r is None,
{
    let plugin: Option<String> = match json_get(payload, "plugin") {
        Some(m) => json_as_str(m),
        None => None,
    };
    let mut line: Vec<char> = match plugin {
        Some(s) => chars_of(s.as_str()),
        None => {
            proof {
                reveal_strlit("?");
            }
            chars_of("?")
        },
    };
    extend_str(&mut line, "(");
    let args = render_member(payload, "args");
    extend_chars(&mut line, &args);
    extend_str(&mut line, ") => ");
    let result = render_member(payload, "result");
    extend_chars(&mut line, &result);
    assert(line@ =~= raw_line(*payload));
    if crate::text::byte_len_exceeds(&line, LINE_CAP) {
        if !char_boundary(&line, LINE_CAP) {
            return None;
        }
        let mut cut = truncate_bytes(&line, LINE_CAP);
        extend_str(&mut cut, "...[truncated]");
        Some(string_of(&cut))
    } else {
        Some(string_of(&line))
    }
}

/// The cost of `line` when it fits in `room`.
fn fits(line: &Vec<char>, room: usize) -> (r: Option<usize>)
    ensures
        match r {
            Some(c) => c == cost(line@) && c <= room,
            None => cost(line@) > room,
        },
{
    if room < 8 {
        return None;
    }
    let limit = room - 8;
    let mut acc: usize = 0;
    let mut k: usize = 0;
    while k < line.len()
        invariant
            k <= line.len(),
            acc == byte_len(line@.take(k as int)),
            acc <= limit,
            limit + 8 == room,
        decreases line.len() - k,
    {
        proof {
            lemma_byte_len_take(line@, k as int);
        }
        let c = line[k];
        let w: usize = if (c as u32) < 0x80 { 1 } else if (c as u32) < 0x800 { 2 } else if (c as u32)
            < 0x10000 { 3 } else { 4 };
        if w > limit - acc {
            proof {
                assert(w == crate::text::utf8_width(line@[k as int]));
                crate::text::lemma_byte_len_prefix_le(line@, k + 1);
                assert(byte_len(line@) >= acc + w);
            }
            return None;
        }
        acc = acc + w;
        k += 1;
    }
    assert(line@.take(line.len() as int) =~= line@);
    Some(acc + 8)
}

pub open spec fn lines_view(v: Seq<(u64, String, Vec<char>)>) -> Seq<(u64, Seq<char>, Seq<char>)> {
    v.map_values(|t: (u64, String, Vec<char>)| (t.0, t.1@, t.2@))
}

/// The transcript lines of `events`, newest first.
fn collect_lines(events: &Vec<StreamEvent>) -> (r: Vec<(u64, String, Vec<char>)>)
    requires
        events_cuttable(events@),
    ensures
        lines_view(r@) == transcript(events@),
{
    let mut lines: Vec<(u64, String, Vec<char>)> = Vec::new();
    let mut i = events.len();
    assert(events@.skip(events.len() as int) =~= Seq::<StreamEvent>::empty());
    while i > 0
        invariant
            i <= events.len(),
            events_cuttable(events@),
            lines_view(lines@) == transcript(events@.skip(i as int)),
        decreases i,
    {
        i -= 1;
        let e = &events[i];
        proof {
            assert(events@.skip(i as int).drop_first() =~= events@.skip(i + 1));
            assert(events@.skip(i as int)[0] == events@[i as int]);
        }
        if e.tool_call {
            let doc: Option<serde_json::Value> = match &e.payload {
                Some(b) => parse_json_bytes(b.as_slice()),
                None => None,
            };
            assert(doc == payload_doc(events@[i as int]));
            match doc {
                Some(p) => {
                    proof {
                        assert(qualifies(events@[i as int]));
                    }
                    let line = tool_call_line(&p);
                    let l = line.unwrap();
                    let lv = chars_of(l.as_str());
                    let ghost before = lines@;
                    lines.push((e.seq, e.id.clone(), lv));
                    assert(lines_view(lines@) =~= lines_view(before).push(
                        (e.seq, e.id@, cap_line(raw_line(p)))
                    ));
                },
                None => {},
            }
        }
    }
    assert(events@.skip(0) =~= events@);
    lines
}

/// Whether every transcript line of `events` can be cut at the cap
/// without splitting a character.
pub fn transcript_cuttable(events: &Vec<StreamEvent>) -> (r: bool)
    ensures
        r == events_cuttable(events@),
{
    let mut i: usize = 0;
    while i < events.len()
        invariant
            i <= events.len(),
            forall|j: int| 0 <= j < i && qualifies(#[trigger] events@[j]) ==> cuttable(raw_line(payload_doc(events@[j])->0)),
        decreases events.len() - i,
    {
        let e = &events[i];
        if e.tool_call {
            let doc: Option<serde_json::Value> = match &e.payload {
                Some(b) => parse_json_bytes(b.as_slice()),
                None => None,
            };
            assert(doc == payload_doc(events@[i as int]));
            match doc {
                Some(p) => {
                    if tool_call_line(&p).is_none() {
                        return false;
                    }
                },
                None => {},
            }
        }
        i += 1;
    }
    true
}

fn text_of(l: &(u64, String, Vec<char>)) -> (r: String)
    ensures
        r@ == l.2@,
{
    string_of(&l.2)
}

/// Build the transcript block from a mission's stream (events in stream
/// order) for a budget of `budget_chars` bytes: every line verbatim when
/// all fit; otherwise the newest lines within 60% of the budget verbatim
/// after one pointer that stands for the older ones.
pub fn assemble(events: &Vec<StreamEvent>, budget_chars: usize) -> (r: Assembly)
    requires
        events_cuttable(events@),
    ensures
        strings_view(r.entries@) == entries_spec(transcript(events@), budget_chars as int),
        total(transcript(events@)) <= budget_chars ==> r.compressed is None,
        total(transcript(events@)) > budget_chars ==> (r.compressed matches Some(c) && compressed_matches(
            c,
            transcript(events@).skip(kept_count(transcript(events@), budget_chars as int)),
        )),
{
    let lines = collect_lines(events);
    let ghost ls = transcript(events@);
    let n = lines.len();
    assert(lines_view(lines@).len() == n);
    // does everything fit?
    let mut room: usize = budget_chars;
    let mut j: usize = 0;
    let mut over = false;
    while j < n && !over
        invariant
            n == lines.len(),
            lines_view(lines@) == ls,
            j <= n,
            room == budget_chars - total(ls.take(j as int)),
            over ==> total(ls) > budget_chars,
        decreases n - j, (if over { 0int } else { 1int }),
    {
        assert(ls[j as int].2 == lines@[j as int].2@);
        proof {
            lemma_total_take(ls, j as int);
            lemma_total_take_le(ls, j + 1);
        }
        match fits(&lines[j].2, room) {
            Some(c) => {
                room = room - c;
                j += 1;
            },
            None => {
                over = true;
            },
        }
    }
    if !over {
        assert(ls.take(n as int) =~= ls);
        let mut entries: Vec<String> = Vec::new();
        let mut k: usize = n;
        while k > 0
            invariant
                n == lines.len(),
                lines_view(lines@) == ls,
                k <= n,
                strings_view(entries@) == texts(ls).reverse().take((n - k) as int),
            decreases k,
        {
            k -= 1;
            let t = text_of(&lines[k]);
            let ghost before = entries@;
            entries.push(t);
            proof {
                assert(strings_view(entries@) =~= strings_view(before).push(t@));
                assert(texts(ls).reverse().take((n - k) as int) =~= texts(ls).reverse().take(
                    (n - k - 1) as int,
                ).push(ls[k as int].2));
            }
        }
        assert(texts(ls).reverse().take(n as int) =~= texts(ls).reverse());
        return Assembly { entries, compressed: None };
    }
    // over budget: the newest lines within the tail's share stay verbatim
    let q: usize = budget_chars / 100;
    let rem: usize = budget_chars % 100;
    assert(q * 60 <= budget_chars && q * 60 + rem <= budget_chars) by (nonlinear_arith)
        requires
            q == budget_chars / 100,
            rem == budget_chars % 100,
    ;
    let share: usize = q * 60 + rem * 60 / 100;
    assert(share == budget_chars * 60 / 100 && share <= budget_chars) by (nonlinear_arith)
        requires
            q == budget_chars / 100,
            rem == budget_chars % 100,
            share == q * 60 + rem * 60 / 100,
            budget_chars == q * 100 + rem,
            rem < 100,
    ;
    let mut room: usize = share;
    let mut k: usize = 0;
    let mut stop = false;
    while k < n && !stop
        invariant
            n == lines.len(),
            lines_view(lines@) == ls,
            k <= n,
            room == share - total(ls.take(k as int)),
            !stop ==> fit_from(ls, share as int, 0) == fit_from(ls, room as int, k as int),
            stop ==> fit_from(ls, share as int, 0) == k,
        decreases n - k, (if stop { 0int } else { 1int }),
    {
        assert(ls[k as int].2 == lines@[k as int].2@);
        proof {
            lemma_total_take(ls, k as int);
        }
        match fits(&lines[k].2, room) {
            Some(c) => {
                room = room - c;
                k += 1;
            },
            None => {
                stop = true;
            },
        }
    }
    proof {
        if k == n {
            assert(ls.take(n as int) =~= ls);
        }
    }
    assert(k == kept_count(ls, budget_chars as int));
    assert(k < n);
    let ghost comp = ls.skip(k as int);
    // the compacted lines, newest first
    let mut comp_lines: Vec<String> = Vec::new();
    let mut m: usize = k;
    while m < n
        invariant
            n == lines.len(),
            lines_view(lines@) == ls,
            k <= m <= n,
            comp == ls.skip(k as int),
            strings_view(comp_lines@) == texts(comp).take((m - k) as int),
        decreases n - m,
    {
        let t = text_of(&lines[m]);
        let ghost before = comp_lines@;
        comp_lines.push(t);
        proof {
            assert(strings_view(comp_lines@) =~= strings_view(before).push(t@));
            assert(texts(comp).take((m + 1 - k) as int) =~= texts(comp).take((m - k) as int).push(
                ls[m as int].2,
            ));
        }
        m += 1;
    }
    assert(texts(comp).take((n - k) as int) =~= texts(comp));
    let lo = &lines[n - 1];
    let hi = &lines[k];
    let mut note = chars_of("COMPACTED ");
    push_dec(&mut note, (n - k) as u64);
    extend_str(&mut note, " earlier tool calls (events seq ");
    push_dec(&mut note, lo.0);
    extend_str(&mut note, "..");
    push_dec(&mut note, hi.0);
    extend_str(&mut note, ", refs ");
    extend_str(&mut note, lo.1.as_str());
    extend_str(&mut note, "..");
    extend_str(&mut note, hi.1.as_str());
    extend_str(
        &mut note,
        "): distilled into the LEDGER block above - reads, edits, and test verdicts from that range are recorded there",
    );
    assert(comp.last() == ls[n - 1]);
    assert(comp[0] == ls[k as int]);
    assert(note@ =~= compacted_note(comp));
    let mut entries: Vec<String> = Vec::new();
    entries.push(string_of(&note));
    let mut q: usize = k;
    let ghost kept = ls.take(k as int);
    while q > 0
        invariant
            n == lines.len(),
            lines_view(lines@) == ls,
            q <= k < n,
            kept == ls.take(k as int),
            strings_view(entries@) == seq![compacted_note(comp)] + texts(kept).reverse().take((k - q) as int),
        decreases q,
    {
        q -= 1;
        let t = text_of(&lines[q]);
        let ghost before = entries@;
        entries.push(t);
        proof {
            assert(strings_view(entries@) =~= strings_view(before).push(t@));
            assert(texts(kept).reverse().take((k - q) as int) =~= texts(kept).reverse().take(
                (k - q - 1) as int,
            ).push(ls[q as int].2));
        }
    }
    assert(texts(kept).reverse().take(k as int) =~= texts(kept).reverse());
    let compressed = Compressed {
        count: n - k,
        lo_seq: lo.0,
        hi_seq: hi.0,
        lo_id: lo.1.clone(),
        hi_id: hi.1.clone(),
        lines: comp_lines,
    };
    Assembly { entries, compressed: Some(compressed) }
}

// -------------------------------------------------------------- laws ---

/// Over budget, compaction loses no line: the verbatim tail and the
/// compacted lines together are the whole transcript (newest first), the
/// tail is the newest lines and costs at most 60% of the budget, and at
/// least one line is compacted.
pub proof fn law_compaction_partitions(ls: Seq<(u64, Seq<char>, Seq<char>)>, budget: int)
    requires
        budget >= 0,
        total(ls) > budget,
    ensures
        0 <= kept_count(ls, budget) < ls.len(),
        texts(ls.take(kept_count(ls, budget))) + texts(ls.skip(kept_count(ls, budget))) == texts(ls),
        total(ls.take(kept_count(ls, budget))) <= tail_share(budget),
{
    assert(0 <= tail_share(budget) <= budget) by (nonlinear_arith)
        requires
            budget >= 0,
    ;
    lemma_fit_from_bounds(ls, tail_share(budget), 0);
    assert(ls.take(0) =~= Seq::<(u64, Seq<char>, Seq<char>)>::empty());
    let k = kept_count(ls, budget);
    if k == ls.len() {
        assert(ls.take(k) =~= ls);
    }
    assert(texts(ls.take(k)) + texts(ls.skip(k)) =~= texts(ls));
}

/// Within budget, nothing is compacted and the transcript is every line
/// verbatim, oldest first.
pub proof fn law_within_budget_is_verbatim(ls: Seq<(u64, Seq<char>, Seq<char>)>, budget: int)
    requires
        total(ls) <= budget,
    ensures
        entries_spec(ls, budget).len() == ls.len(),
        forall|i: int| 0 <= i < ls.len() ==> #[trigger] entries_spec(ls, budget)[i] == ls[ls.len() - 1 - i].2,
{
}

} // verus!
