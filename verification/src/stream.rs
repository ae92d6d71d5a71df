//! A streamed chat completion, read line by line. Each `data:` line of
//! the event stream carries one JSON chunk; `[DONE]` ends the stream, and
//! a line that is no JSON (a keep-alive, a partial frame) is skipped. The
//! chunks accumulate the reply's text, its reasoning, its tool calls
//! (assembled per index), its finish reason and its usage; the assembled
//! reply is then read like an unstreamed one. The HTTP request and the
//! line reader run outside and hand each line in.
use vstd::prelude::*;
use crate::critic::{
    json_array, json_as_array, json_as_str, json_as_u64, json_clone, json_document, json_get, json_is_object,
    json_member, json_object_check, json_str, json_u64, parse_json_document,
};
use crate::json::{as_str, Json};
use crate::text::{chars_of, extend_str, slice_chars, starts_with, starts_with_str, string_of, trim, trim_chars};

verus! {

broadcast use vstd::string::group_string_axioms;

/// One tool call as it assembles: its index, id, name and arguments.
#[derive(Debug)]
pub struct StreamCall {
    pub index: u64,
    pub id: String,
    pub name: String,
    pub arguments: String,
}

/// What the stream has delivered so far. `calls` are in ascending index
/// order, one per index.
pub struct StreamAcc {
    pub content: String,
    pub reasoning: String,
    pub calls: Vec<StreamCall>,
    pub usage: Option<serde_json::Value>,
    pub finish_reason: String,
    pub done: bool,
}

pub type CallView = (u64, Seq<char>, Seq<char>, Seq<char>);

pub struct StreamView {
    pub content: Seq<char>,
    pub reasoning: Seq<char>,
    pub calls: Seq<CallView>,
    pub usage: Option<serde_json::Value>,
    pub finish_reason: Seq<char>,
    pub done: bool,
}

pub open spec fn call_view(c: StreamCall) -> CallView {
    (c.index, c.id@, c.name@, c.arguments@)
}

impl View for StreamAcc {
    type V = StreamView;

    open spec fn view(&self) -> StreamView {
        StreamView {
            content: self.content@,
            reasoning: self.reasoning@,
            calls: self.calls@.map_values(|c: StreamCall| call_view(c)),
            usage: self.usage,
            finish_reason: self.finish_reason@,
            done: self.done,
        }
    }
}

/// The payload of a `data:` line, trimmed.
pub open spec fn data_of(line: Seq<char>) -> Option<Seq<char>> {
    let t = trim(line);
    if starts_with(t, "data:"@) {
        Some(trim(t.skip(5)))
    } else {
        None
    }
}

pub open spec fn member_of(v: Option<serde_json::Value>, key: Seq<char>) -> Option<serde_json::Value> {
    match v {
        Some(x) => json_member(x, key),
        None => None,
    }
}

pub open spec fn str_of(v: Option<serde_json::Value>) -> Option<Seq<char>> {
    match v {
        Some(x) => json_str(x),
        None => None,
    }
}

/// `chunk["choices"][0]`, when there is one.
pub open spec fn first_choice(chunk: serde_json::Value) -> Option<serde_json::Value> {
    match member_of(Some(chunk), "choices"@) {
        Some(c) => match json_array(c) {
            Some(a) => if a.len() > 0 {
                Some(a[0])
            } else {
                None
            },
            None => None,
        },
        None => None,
    }
}

/// The position of the call with index `idx`, from `i` on.
pub open spec fn call_pos(cs: Seq<CallView>, idx: u64, i: int) -> Option<int>
    decreases cs.len() - i,
{
    if i < 0 || i >= cs.len() {
        None
    } else if cs[i].0 == idx {
        Some(i)
    } else {
        call_pos(cs, idx, i + 1)
    }
}

/// Where a call with index `idx` goes to keep the order: before the
/// first larger index, from `i` on.
pub open spec fn insert_pos(cs: Seq<CallView>, idx: u64, i: int) -> int
    decreases cs.len() - i,
{
    if i < 0 || i >= cs.len() {
        cs.len() as int
    } else if cs[i].0 > idx {
        i
    } else {
        insert_pos(cs, idx, i + 1)
    }
}

pub open spec fn or_empty(o: Option<Seq<char>>) -> Seq<char> {
    match o {
        Some(s) => s,
        None => Seq::empty(),
    }
}

/// One tool-call delta folded in: a new id replaces the old, the name
/// and the arguments are appended.
pub open spec fn merge_call(c: CallView, id: Option<Seq<char>>, name: Option<Seq<char>>, args: Option<Seq<char>>) -> CallView {
    (
        c.0,
        match id {
            Some(i) => i,
            None => c.1,
        },
        c.2 + or_empty(name),
        c.3 + or_empty(args),
    )
}

pub open spec fn tc_index(tc: serde_json::Value) -> u64 {
    match json_u64_of(member_of(Some(tc), "index"@)) {
        Some(n) => n,
        None => 0,
    }
}

pub open spec fn json_u64_of(v: Option<serde_json::Value>) -> Option<u64> {
    match v {
        Some(x) => json_u64(x),
        None => None,
    }
}

pub open spec fn tc_id(tc: serde_json::Value) -> Option<Seq<char>> {
    str_of(member_of(Some(tc), "id"@))
}

pub open spec fn tc_name(tc: serde_json::Value) -> Option<Seq<char>> {
    str_of(member_of(member_of(Some(tc), "function"@), "name"@))
}

pub open spec fn tc_args(tc: serde_json::Value) -> Option<Seq<char>> {
    str_of(member_of(member_of(Some(tc), "function"@), "arguments"@))
}

/// The calls after one tool-call delta.
pub open spec fn put_call(cs: Seq<CallView>, tc: serde_json::Value) -> Seq<CallView> {
    let idx = tc_index(tc);
    match call_pos(cs, idx, 0) {
        Some(i) => cs.update(i, merge_call(cs[i], tc_id(tc), tc_name(tc), tc_args(tc))),
        None => cs.insert(
            insert_pos(cs, idx, 0),
            merge_call((idx, Seq::empty(), Seq::empty(), Seq::empty()), tc_id(tc), tc_name(tc), tc_args(tc)),
        ),
    }
}

/// The calls after the first `n` tool-call deltas of a chunk.
pub open spec fn fold_calls(cs: Seq<CallView>, tcs: Seq<serde_json::Value>, n: int) -> Seq<CallView>
    decreases n,
{
    if n <= 0 || n > tcs.len() {
        cs
    } else {
        put_call(fold_calls(cs, tcs, n - 1), tcs[n - 1])
    }
}

/// The argument fragments of the first `n` tool-call deltas, in order.
pub open spec fn args_deltas(tcs: Seq<serde_json::Value>, n: int) -> Seq<Seq<char>>
    decreases n,
{
    if n <= 0 || n > tcs.len() {
        Seq::empty()
    } else {
        let p = args_deltas(tcs, n - 1);
        match tc_args(tcs[n - 1]) {
            Some(a) => p.push(a),
            None => p,
        }
    }
}

/// The tool-call deltas of a chunk's choice.
pub open spec fn chunk_tool_calls(delta: Option<serde_json::Value>) -> Option<Seq<serde_json::Value>> {
    match member_of(delta, "tool_calls"@) {
        Some(t) => json_array(t),
        None => None,
    }
}

/// One parsed chunk folded in: the books after it and the fragments to
/// echo (a non-empty content piece, then each tool call's argument
/// piece).
pub open spec fn chunk_spec(acc: StreamView, chunk: serde_json::Value) -> (StreamView, Seq<Seq<char>>) {
    let usage = match json_member(chunk, "usage"@) {
        Some(u) => if json_is_object(u) {
            Some(u)
        } else {
            acc.usage
        },
        None => acc.usage,
    };
    let choice = first_choice(chunk);
    let fr = match str_of(member_of(choice, "finish_reason"@)) {
        Some(f) => f,
        None => acc.finish_reason,
    };
    let delta = member_of(choice, "delta"@);
    let c = str_of(member_of(delta, "content"@));
    let said = match c {
        Some(x) => x.len() > 0,
        None => false,
    };
    let tcs = chunk_tool_calls(delta);
    (
        StreamView {
            content: if said {
                acc.content + c->0
            } else {
                acc.content
            },
            reasoning: acc.reasoning + or_empty(str_of(member_of(delta, "reasoning_content"@))),
            calls: match tcs {
                Some(a) => fold_calls(acc.calls, a, a.len() as int),
                None => acc.calls,
            },
            usage,
            finish_reason: fr,
            done: acc.done,
        },
        (if said {
            seq![c->0]
        } else {
            Seq::empty()
        }) + match tcs {
            Some(a) => args_deltas(a, a.len() as int),
            None => Seq::empty(),
        },
    )
}

/// One line of the stream: skipped once the stream is done, when it is
/// no `data:` line, or when its payload is no JSON document; `[DONE]`
/// ends the stream; any other payload is a chunk.
pub open spec fn stream_line_spec(acc: StreamView, line: Seq<char>) -> (StreamView, Seq<Seq<char>>) {
    if acc.done {
        (acc, Seq::empty())
    } else {
        match data_of(line) {
            None => (acc, Seq::empty()),
            Some(d) => if d == "[DONE]"@ {
                (StreamView { done: true, ..acc }, Seq::empty())
            } else {
                match json_document(d) {
                    Err(_) => (acc, Seq::empty()),
                    Ok(chunk) => chunk_spec(acc, chunk),
                }
            },
        }
    }
}

impl StreamAcc {
    /// Nothing delivered yet.
    pub fn new() -> (r: StreamAcc)
        ensures
            r@ == (StreamView {
                content: Seq::empty(),
                reasoning: Seq::empty(),
                calls: Seq::empty(),
                usage: None,
                finish_reason: Seq::empty(),
                done: false,
            }),
    {
        let r = StreamAcc {
            content: String::new(),
            reasoning: String::new(),
            calls: Vec::new(),
            usage: None,
            finish_reason: String::new(),
            done: false,
        };
        assert(r@.calls =~= Seq::<CallView>::empty());
        r
    }
}

fn member_exec<'a>(v: Option<&'a serde_json::Value>, key: &str) -> (r: Option<&'a serde_json::Value>)
    ensures
        match r {
            Some(m) => member_of(
                match v {
                    Some(x) => Some(*x),
                    None => None,
                },
                key@,
            ) == Some(*m),
            None => member_of(
                match v {
                    Some(x) => Some(*x),
                    None => None,
                },
                key@,
            ) is None,
        },
{
    match v {
        Some(x) => json_get(x, key),
        None => None,
    }
}

fn str_exec(v: Option<&serde_json::Value>) -> (r: Option<String>)
    ensures
        match r {
            Some(s) => str_of(
                match v {
                    Some(x) => Some(*x),
                    None => None,
                },
            ) == Some(s@),
            None => str_of(
                match v {
                    Some(x) => Some(*x),
                    None => None,
                },
            ) is None,
        },
{
    match v {
        Some(x) => json_as_str(x),
        None => None,
    }
}

fn copy_string(s: &String) -> (r: String)
    ensures
        r@ == s@,
{
    string_of(&chars_of(s.as_str()))
}

/// Fold one tool-call delta into the calls.
fn put_call_exec(calls: &mut Vec<StreamCall>, tc: &serde_json::Value)
    ensures
        final(calls)@.map_values(|c: StreamCall| call_view(c)) == put_call(
            old(calls)@.map_values(|c: StreamCall| call_view(c)),
            *tc,
        ),
{
    let ghost cs = calls@.map_values(|c: StreamCall| call_view(c));
    let idx: u64 = match json_as_u64_opt(member_exec(Some(tc), "index")) {
        Some(n) => n,
        None => 0,
    };
    let id = str_exec(member_exec(Some(tc), "id"));
    let f = member_exec(Some(tc), "function");
    let name = str_exec(member_exec(f, "name"));
    let args = str_exec(member_exec(f, "arguments"));
    assert(idx == tc_index(*tc));
    // the call's position
    let mut i: usize = 0;
    let mut found = false;
    while i < calls.len()
        invariant_except_break
            i <= calls.len(),
            !found,
            cs == calls@.map_values(|c: StreamCall| call_view(c)),
            call_pos(cs, idx, 0) == call_pos(cs, idx, i as int),
        ensures
            i <= calls.len(),
            cs == calls@.map_values(|c: StreamCall| call_view(c)),
            found ==> i < calls.len() && call_pos(cs, idx, 0) == Some(i as int) && cs[i as int].0 == idx,
            !found ==> call_pos(cs, idx, 0) is None,
        decreases calls.len() - i,
    {
        assert(cs[i as int] == call_view(calls@[i as int]));
        if calls[i].index == idx {
            found = true;
            break;
        }
        i += 1;
    }
    if !found {
        // where a new call goes: before the first larger index
        i = 0;
        while i < calls.len()
            invariant_except_break
                i <= calls.len(),
                cs == calls@.map_values(|c: StreamCall| call_view(c)),
                insert_pos(cs, idx, 0) == insert_pos(cs, idx, i as int),
            ensures
                i <= calls.len(),
                cs == calls@.map_values(|c: StreamCall| call_view(c)),
                insert_pos(cs, idx, 0) == i,
            decreases calls.len() - i,
        {
            assert(cs[i as int] == call_view(calls@[i as int]));
            if calls[i].index > idx {
                break;
            }
            i += 1;
        }
    }
    if found {
        let old_c = &calls[i];
        let new_id = match id {
            Some(x) => x,
            None => copy_string(&old_c.id),
        };
        let mut nm = chars_of(old_c.name.as_str());
        match &name {
            Some(x) => extend_str(&mut nm, x.as_str()),
            None => {},
        }
        let mut ar = chars_of(old_c.arguments.as_str());
        match &args {
            Some(x) => extend_str(&mut ar, x.as_str()),
            None => {},
        }
        let c = StreamCall { index: idx, id: new_id, name: string_of(&nm), arguments: string_of(&ar) };
        proof {
            assert(cs[i as int] == call_view(calls@[i as int]));
            assert(new_id@ == match tc_id(*tc) {
                Some(x) => x,
                None => cs[i as int].1,
            });
            assert(name matches Some(x) ==> nm@ =~= cs[i as int].2 + x@);
            assert(name is None ==> nm@ =~= cs[i as int].2 + Seq::<char>::empty());
            assert(args matches Some(x) ==> ar@ =~= cs[i as int].3 + x@);
            assert(args is None ==> ar@ =~= cs[i as int].3 + Seq::<char>::empty());
            assert(call_view(c) == merge_call(cs[i as int], tc_id(*tc), tc_name(*tc), tc_args(*tc)));
        }
        calls.set(i, c);
        assert(calls@.map_values(|c: StreamCall| call_view(c)) =~= cs.update(
            i as int,
            merge_call(cs[i as int], tc_id(*tc), tc_name(*tc), tc_args(*tc)),
        ));
    } else {
        let c = StreamCall {
            index: idx,
            id: match id {
                Some(x) => x,
                None => String::new(),
            },
            name: match name {
                Some(x) => x,
                None => String::new(),
            },
            arguments: match args {
                Some(x) => x,
                None => String::new(),
            },
        };
        proof {
            let e: CallView = (idx, Seq::empty(), Seq::empty(), Seq::empty());
            assert(e.2 + or_empty(tc_name(*tc)) =~= or_empty(tc_name(*tc)));
            assert(e.3 + or_empty(tc_args(*tc)) =~= or_empty(tc_args(*tc)));
            assert(call_view(c) == merge_call(e, tc_id(*tc), tc_name(*tc), tc_args(*tc)));
        }
        calls.insert(i, c);
        assert(calls@.map_values(|c: StreamCall| call_view(c)) =~= cs.insert(
            i as int,
            merge_call((idx, Seq::empty(), Seq::empty(), Seq::empty()), tc_id(*tc), tc_name(*tc), tc_args(*tc)),
        ));
    }
}

fn json_as_u64_opt(v: Option<&serde_json::Value>) -> (r: Option<u64>)
    ensures
        r == json_u64_of(
            match v {
                Some(x) => Some(*x),
                None => None,
            },
        ),
{
    match v {
        Some(x) => json_as_u64(x),
        None => None,
    }
}

/// Read one line of the stream into the books; returns the fragments to
/// echo as they arrive.
pub fn stream_line(acc: &mut StreamAcc, line: &str) -> (deltas: Vec<String>)
    ensures
        (final(acc)@, crate::text::strings_view(deltas@)) == stream_line_spec(old(acc)@, line@),
{
    let mut out: Vec<String> = Vec::new();
    assert(crate::text::strings_view(out@) =~= Seq::<Seq<char>>::empty());
    if acc.done {
        return out;
    }
    let t = trim_chars(&chars_of(line));
    if !starts_with_str(&t, "data:") {
        return out;
    }
    proof {
        reveal_strlit("data:");
    }
    let rest = slice_chars(&t, 5, t.len());
    assert(rest@ =~= t@.skip(5));
    let d = trim_chars(&rest);
    if crate::text::eq_str(&d, "[DONE]") {
        acc.done = true;
        return out;
    }
    let ds = string_of(&d);
    let chunk = match parse_json_document(ds.as_str()) {
        Ok(c) => c,
        Err(_) => {
            return out;
        },
    };
    let ghost a0 = acc@;
    match json_get(&chunk, "usage") {
        Some(u) => {
            if json_object_check(u) {
                acc.usage = Some(json_clone(u));
            }
        },
        None => {},
    }
    let choice: Option<&serde_json::Value> = match json_get(&chunk, "choices") {
        Some(c) => match json_as_array(c) {
            Some(a) => if a.len() > 0 {
                Some(&a[0])
            } else {
                None
            },
            None => None,
        },
        None => None,
    };
    assert(match choice {
        Some(x) => Some(*x),
        None => None,
    } == first_choice(chunk));
    match str_exec(member_exec(choice, "finish_reason")) {
        Some(f) => {
            acc.finish_reason = f;
        },
        None => {},
    }
    let delta = member_exec(choice, "delta");
    match str_exec(member_exec(delta, "content")) {
        Some(c) => {
            if chars_of(c.as_str()).len() > 0 {
                let mut cv = chars_of(acc.content.as_str());
                extend_str(&mut cv, c.as_str());
                acc.content = string_of(&cv);
                out.push(c);
                assert(crate::text::strings_view(out@) =~= seq![out@[0]@]);
            }
        },
        None => {},
    }
    match str_exec(member_exec(delta, "reasoning_content")) {
        Some(r) => {
            let mut rv = chars_of(acc.reasoning.as_str());
            extend_str(&mut rv, r.as_str());
            acc.reasoning = string_of(&rv);
        },
        None => {
            assert(acc.reasoning@ =~= acc.reasoning@ + Seq::<char>::empty());
        },
    }
    let ghost said = crate::text::strings_view(out@);
    let ghost pre = acc@;
    match member_exec(delta, "tool_calls") {
        Some(tv) => match json_as_array(tv) {
            Some(a) => {
                let ghost cs0 = acc@.calls;
                let mut k: usize = 0;
                while k < a.len()
                    invariant
                        k <= a.len(),
                        acc@.calls == fold_calls(cs0, a@, k as int),
                        cs0 == pre.calls,
                        crate::text::strings_view(out@) == said + args_deltas(a@, k as int),
                        acc@ == (StreamView { calls: acc@.calls, ..pre }),
                    decreases a.len() - k,
                {
                    put_call_exec(&mut acc.calls, &a[k]);
                    assert(fold_calls(cs0, a@, k + 1) == put_call(fold_calls(cs0, a@, k as int), a@[k as int]));
                    let f = member_exec(Some(&a[k]), "function");
                    match str_exec(member_exec(f, "arguments")) {
                        Some(x) => {
                            let ghost before = crate::text::strings_view(out@);
                            out.push(x);
                            assert(crate::text::strings_view(out@) =~= before.push(out@[out.len() - 1]@));
                        },
                        None => {},
                    }
                    proof {
                        assert(said + args_deltas(a@, k + 1) =~= (said + args_deltas(a@, k as int)) + (
                        args_deltas(a@, k + 1).skip(args_deltas(a@, k as int).len() as int)));
                    }
                    k += 1;
                }
            },
            None => {
                assert(said + Seq::<Seq<char>>::empty() =~= said);
            },
        },
        None => {
            assert(said + Seq::<Seq<char>>::empty() =~= said);
        },
    }
    proof {
        assert(data_of(line@) == Some(d@));
        assert(d@ != "[DONE]"@);
        assert(json_document(d@) == Ok::<serde_json::Value, Seq<char>>(chunk));
    }
    out
}

pub open spec fn keys_of(j: Json) -> Seq<Seq<char>> {
    j->Object_0@.map_values(|m: (String, Json)| m.0@)
}

pub open spec fn member_at(j: Json, i: int) -> Json {
    j->Object_0@[i].1
}

/// A tool call as the assembled reply holds it:
/// `{"function": {"arguments", "name"}, "id", "type": "function"}`.
pub open spec fn tool_call_json(j: Json, c: CallView) -> bool {
    &&& j is Object
    &&& keys_of(j) == seq!["function"@, "id"@, "type"@]
    &&& member_at(j, 0) is Object
    &&& keys_of(member_at(j, 0)) == seq!["arguments"@, "name"@]
    &&& as_str(member_at(member_at(j, 0), 0)) == Some(c.3)
    &&& as_str(member_at(member_at(j, 0), 1)) == Some(c.2)
    &&& as_str(member_at(j, 1)) == Some(c.1)
    &&& as_str(member_at(j, 2)) == Some("function"@)
}

/// The reply the stream assembles, shaped like an unstreamed one:
/// `{"choices": [{"finish_reason", "message": {"content",
/// "reasoning_content", "role": "assistant", "tool_calls": [...]}}]}`,
/// the tool calls in the order the books hold them. (The usage stays in
/// the books.)
pub open spec fn assembled(r: Json, acc: StreamView) -> bool {
    &&& r is Object
    &&& keys_of(r) == seq!["choices"@]
    &&& member_at(r, 0) is Array
    &&& member_at(r, 0)->Array_0@.len() == 1
    &&& ({
        let ch = member_at(r, 0)->Array_0@[0];
        &&& ch is Object
        &&& keys_of(ch) == seq!["finish_reason"@, "message"@]
        &&& as_str(member_at(ch, 0)) == Some(acc.finish_reason)
        &&& ({
            let m = member_at(ch, 1);
            &&& m is Object
            &&& keys_of(m) == seq!["content"@, "reasoning_content"@, "role"@, "tool_calls"@]
            &&& as_str(member_at(m, 0)) == Some(acc.content)
            &&& as_str(member_at(m, 1)) == Some(acc.reasoning)
            &&& as_str(member_at(m, 2)) == Some("assistant"@)
            &&& member_at(m, 3) is Array
            &&& member_at(m, 3)->Array_0@.len() == acc.calls.len()
            &&& forall|i: int|
                0 <= i < acc.calls.len() ==> tool_call_json(#[trigger] member_at(m, 3)->Array_0@[i], acc.calls[i])
        })
    })
}

fn text_json(s: &String) -> (r: Json)
    ensures
        as_str(r) == Some(s@),
{
    Json::Str(copy_string(s))
}

fn call_json(c: &StreamCall) -> (r: Json)
    ensures
        tool_call_json(r, call_view(*c)),
{
    let mut f: Vec<(String, Json)> = Vec::new();
    f.push((String::from_str("arguments"), text_json(&c.arguments)));
    f.push((String::from_str("name"), text_json(&c.name)));
    assert(f@.map_values(|m: (String, Json)| m.0@) =~= seq!["arguments"@, "name"@]);
    let mut m: Vec<(String, Json)> = Vec::new();
    m.push((String::from_str("function"), Json::Object(f)));
    m.push((String::from_str("id"), text_json(&c.id)));
    m.push((String::from_str("type"), Json::Str(String::from_str("function"))));
    assert(m@.map_values(|x: (String, Json)| x.0@) =~= seq!["function"@, "id"@, "type"@]);
    Json::Object(m)
}

/// Assemble the streamed reply.
pub fn assemble_stream(acc: &StreamAcc) -> (r: Json)
    ensures
        assembled(r, acc@),
{
    let mut tcs: Vec<Json> = Vec::new();
    let mut i: usize = 0;
    while i < acc.calls.len()
        invariant
            i <= acc.calls.len(),
            tcs.len() == i,
            forall|k: int| 0 <= k < i ==> tool_call_json(#[trigger] tcs@[k], call_view(acc.calls@[k])),
        decreases acc.calls.len() - i,
    {
        tcs.push(call_json(&acc.calls[i]));
        i += 1;
    }
    let mut msg: Vec<(String, Json)> = Vec::new();
    msg.push((String::from_str("content"), text_json(&acc.content)));
    msg.push((String::from_str("reasoning_content"), text_json(&acc.reasoning)));
    msg.push((String::from_str("role"), Json::Str(String::from_str("assistant"))));
    msg.push((String::from_str("tool_calls"), Json::Array(tcs)));
    assert(msg@.map_values(|x: (String, Json)| x.0@) =~= seq![
        "content"@,
        "reasoning_content"@,
        "role"@,
        "tool_calls"@,
    ]);
    let mut ch: Vec<(String, Json)> = Vec::new();
    ch.push((String::from_str("finish_reason"), text_json(&acc.finish_reason)));
    ch.push((String::from_str("message"), Json::Object(msg)));
    assert(ch@.map_values(|x: (String, Json)| x.0@) =~= seq!["finish_reason"@, "message"@]);
    let mut choices: Vec<Json> = Vec::new();
    choices.push(Json::Object(ch));
    let mut top: Vec<(String, Json)> = Vec::new();
    top.push((String::from_str("choices"), Json::Array(choices)));
    assert(top@.map_values(|x: (String, Json)| x.0@) =~= seq!["choices"@]);
    let r = Json::Object(top);
    proof {
        let m = member_at(member_at(r, 0)->Array_0@[0], 1);
        assert forall|k: int| 0 <= k < acc@.calls.len() implies tool_call_json(
            #[trigger] member_at(m, 3)->Array_0@[k],
            acc@.calls[k],
        ) by {
            assert(acc@.calls[k] == call_view(acc.calls@[k]));
        }
    }
    r
}

} // verus!
