//! A JSON value as the loop's read models see it, with its two renderings:
//! the compact serialization (the exact-duplicate key of a tool call) and
//! the whitespace-insensitive normal form (the doom-loop / stuck-call key).
use vstd::prelude::*;
use crate::text::{
    chars_eq, chars_of, dec, dec_i64, dec_int, dec_u64, digit, extend_chars, extend_str, join, join_exec,
    words, words_exec,
};

verus! {

/// A JSON number: an unsigned or negative integer, or a float held as
/// its JSON text.
#[derive(Clone, Debug)]
pub enum JsonNumber {
    PosInt(u64),
    NegInt(i64),
    Float(String),
}

/// A JSON value. Object members are held in ascending key order (the
/// order of a `serde_json` map).
#[derive(Debug)]
pub enum Json {
    Null,
    Bool(bool),
    Number(JsonNumber),
    Str(String),
    Array(Vec<Json>),
    Object(Vec<(String, Json)>),
}

/// The JSON text of a number.
pub open spec fn num_text(n: JsonNumber) -> Seq<char> {
    match n {
        JsonNumber::PosInt(u) => dec(u as nat),
        JsonNumber::NegInt(i) => dec_int(i as int),
        JsonNumber::Float(t) => t@,
    }
}

/// Code-point lexicographic order on strings (`String`'s `Ord`).
pub open spec fn str_lt(a: Seq<char>, b: Seq<char>) -> bool
    decreases a.len(),
{
    if a.len() == 0 {
        b.len() > 0
    } else if b.len() == 0 {
        false
    } else if a[0] < b[0] {
        true
    } else if a[0] == b[0] {
        str_lt(a.drop_first(), b.drop_first())
    } else {
        false
    }
}

/// `str_lt` on character vectors.
pub fn str_lt_exec(a: &Vec<char>, b: &Vec<char>) -> (r: bool)
    ensures
        r == str_lt(a@, b@),
{
    let mut i: usize = 0;
    assert(a@.skip(0) =~= a@);
    assert(b@.skip(0) =~= b@);
    while i < a.len() && i < b.len()
        invariant
            i <= a.len(),
            i <= b.len(),
            str_lt(a@, b@) == str_lt(a@.skip(i as int), b@.skip(i as int)),
        decreases a.len() - i,
    {
        proof {
            let x = a@.skip(i as int);
            let y = b@.skip(i as int);
            assert(x[0] == a@[i as int]);
            assert(y[0] == b@[i as int]);
            assert(x.drop_first() =~= a@.skip(i + 1));
            assert(y.drop_first() =~= b@.skip(i + 1));
        }
        if a[i] < b[i] {
            return true;
        }
        if a[i] > b[i] {
            return false;
        }
        i += 1;
    }
    proof {
        assert(a@.skip(i as int).len() == a.len() - i);
        assert(b@.skip(i as int).len() == b.len() - i);
    }
    i == a.len() && i < b.len()
}

pub proof fn lemma_str_lt_irrefl(a: Seq<char>)
    ensures
        !str_lt(a, a),
    decreases a.len(),
{
    if a.len() > 0 {
        lemma_str_lt_irrefl(a.drop_first());
    }
}

pub proof fn lemma_str_lt_total(a: Seq<char>, b: Seq<char>)
    ensures
        a == b || str_lt(a, b) || str_lt(b, a),
    decreases a.len(),
{
    if a.len() > 0 && b.len() > 0 && a[0] == b[0] {
        lemma_str_lt_total(a.drop_first(), b.drop_first());
        if a.drop_first() == b.drop_first() {
            assert(a =~= seq![a[0]] + a.drop_first());
            assert(b =~= seq![b[0]] + b.drop_first());
        }
    }
    if a.len() == 0 && b.len() == 0 {
        assert(a =~= b);
    }
}

pub proof fn lemma_str_lt_trans(a: Seq<char>, b: Seq<char>, c: Seq<char>)
    requires
        str_lt(a, b),
        str_lt(b, c),
    ensures
        str_lt(a, c),
    decreases a.len(),
{
    if a.len() > 0 && b.len() > 0 && c.len() > 0 && a[0] == b[0] && b[0] == c[0] {
        lemma_str_lt_trans(a.drop_first(), b.drop_first(), c.drop_first());
    }
}

pub proof fn lemma_str_lt_asym(a: Seq<char>, b: Seq<char>)
    requires
        str_lt(a, b),
    ensures
        !str_lt(b, a),
        a != b,
    decreases a.len(),
{
    if a.len() > 0 && b.len() > 0 && a[0] == b[0] {
        lemma_str_lt_asym(a.drop_first(), b.drop_first());
    }
    if a == b {
        lemma_str_lt_irrefl(a);
    }
}

/// Object keys strictly ascending, at every level.
pub open spec fn json_wf(j: Json) -> bool
    decreases j, 0nat,
{
    match j {
        Json::Array(a) => items_wf(a@, a@.len()),
        Json::Object(m) => members_wf(m@, m@.len()),
        _ => true,
    }
}

pub open spec fn items_wf(s: Seq<Json>, n: nat) -> bool
    decreases s, n,
{
    if n == 0 || n > s.len() {
        true
    } else {
        items_wf(s, (n - 1) as nat) && json_wf(s[n - 1])
    }
}

pub open spec fn members_wf(m: Seq<(String, Json)>, n: nat) -> bool
    decreases m, n,
{
    if n == 0 || n > m.len() {
        true
    } else {
        &&& members_wf(m, (n - 1) as nat)
        &&& json_wf(m[n - 1].1)
        &&& (n >= 2 ==> str_lt(m[n - 2].0@, m[n - 1].0@))
    }
}

/// The whitespace-insensitive normal form: string contents have their
/// whitespace runs collapsed to one space, containers lose separators,
/// scalars keep their JSON text.
pub open spec fn norm(j: Json) -> Seq<char>
    decreases j, 0nat,
{
    match j {
        Json::Null => seq!['n', 'u', 'l', 'l'],
        Json::Bool(b) => if b { seq!['t', 'r', 'u', 'e'] } else { seq!['f', 'a', 'l', 's', 'e'] },
        Json::Number(n) => num_text(n),
        Json::Str(s) => seq!['"'] + join(words(s@), seq![' ']) + seq!['"'],
        Json::Array(a) => seq!['['] + norm_items(a@, a@.len()) + seq![']'],
        Json::Object(m) => seq!['{'] + norm_members(m@, m@.len()) + seq!['}'],
    }
}

pub open spec fn norm_items(s: Seq<Json>, n: nat) -> Seq<char>
    decreases s, n,
{
    if n == 0 || n > s.len() {
        Seq::empty()
    } else {
        norm_items(s, (n - 1) as nat) + norm(s[n - 1])
    }
}

pub open spec fn norm_members(m: Seq<(String, Json)>, n: nat) -> Seq<char>
    decreases m, n,
{
    if n == 0 || n > m.len() {
        Seq::empty()
    } else {
        norm_members(m, (n - 1) as nat) + m[n - 1].0@ + seq![':'] + norm(m[n - 1].1)
    }
}

/// Lowercase hexadecimal digit for `d < 16`.
pub open spec fn hex_digit(d: nat) -> char {
    if d < 10 { digit(d) }
    else if d == 10 { 'a' }
    else if d == 11 { 'b' }
    else if d == 12 { 'c' }
    else if d == 13 { 'd' }
    else if d == 14 { 'e' }
    else { 'f' }
}

/// JSON string escaping of one character (the `serde_json` writer's table).
pub open spec fn esc_char(c: char) -> Seq<char> {
    if c == '"' { seq!['\\', '"'] }
    else if c == '\\' { seq!['\\', '\\'] }
    else if c == '\u{8}' { seq!['\\', 'b'] }
    else if c == '\u{c}' { seq!['\\', 'f'] }
    else if c == '\n' { seq!['\\', 'n'] }
    else if c == '\r' { seq!['\\', 'r'] }
    else if c == '\t' { seq!['\\', 't'] }
    else if (c as u32) < 0x20 {
        seq!['\\', 'u', '0', '0', hex_digit(((c as u32) / 16) as nat), hex_digit(((c as u32) % 16) as nat)]
    } else {
        seq![c]
    }
}

pub open spec fn escape(s: Seq<char>) -> Seq<char>
    decreases s.len(),
{
    if s.len() == 0 {
        Seq::empty()
    } else {
        escape(s.drop_last()) + esc_char(s.last())
    }
}

/// Compact JSON text of a value (`Value::to_string`).
pub open spec fn render(j: Json) -> Seq<char>
    decreases j, 0nat,
{
    match j {
        Json::Null => seq!['n', 'u', 'l', 'l'],
        Json::Bool(b) => if b { seq!['t', 'r', 'u', 'e'] } else { seq!['f', 'a', 'l', 's', 'e'] },
        Json::Number(n) => num_text(n),
        Json::Str(s) => seq!['"'] + escape(s@) + seq!['"'],
        Json::Array(a) => seq!['['] + render_items(a@, a@.len()) + seq![']'],
        Json::Object(m) => seq!['{'] + render_members(m@, m@.len()) + seq!['}'],
    }
}

pub open spec fn render_items(s: Seq<Json>, n: nat) -> Seq<char>
    decreases s, n,
{
    if n == 0 || n > s.len() {
        Seq::empty()
    } else if n == 1 {
        render(s[0])
    } else {
        render_items(s, (n - 1) as nat) + seq![','] + render(s[n - 1])
    }
}

pub open spec fn render_members(m: Seq<(String, Json)>, n: nat) -> Seq<char>
    decreases m, n,
{
    if n == 0 || n > m.len() {
        Seq::empty()
    } else if n == 1 {
        seq!['"'] + escape(m[0].0@) + seq!['"', ':'] + render(m[0].1)
    } else {
        render_members(m, (n - 1) as nat) + seq![','] + (seq!['"'] + escape(m[n - 1].0@) + seq!['"', ':']
            + render(m[n - 1].1))
    }
}

/// Appends the JSON text of a number.
fn push_number(out: &mut Vec<char>, n: &JsonNumber)
    ensures
        final(out)@ == old(out)@ + num_text(*n),
{
    match n {
        JsonNumber::PosInt(u) => {
            let d = dec_u64(*u);
            extend_chars(out, &d);
        },
        JsonNumber::NegInt(i) => {
            let d = dec_i64(*i);
            extend_chars(out, &d);
        },
        JsonNumber::Float(t) => {
            extend_str(out, t.as_str());
        },
    }
}

/// Appends the literal `null`/`true`/`false` text.
fn push_scalar(out: &mut Vec<char>, j: &Json)
    requires
        j is Null || j is Bool,
    ensures
        final(out)@ == old(out)@ + norm(*j),
        norm(*j) == render(*j),
{
    match j {
        Json::Null => {
            out.push('n');
            out.push('u');
            out.push('l');
            out.push('l');
        },
        Json::Bool(true) => {
            out.push('t');
            out.push('r');
            out.push('u');
            out.push('e');
        },
        _ => {
            out.push('f');
            out.push('a');
            out.push('l');
            out.push('s');
            out.push('e');
        },
    }
    proof {
        let o = old(out)@;
        match *j {
            Json::Null => { assert(out@ =~= o + seq!['n', 'u', 'l', 'l']); },
            Json::Bool(b) => {
                if b {
                    assert(out@ =~= o + seq!['t', 'r', 'u', 'e']);
                } else {
                    assert(out@ =~= o + seq!['f', 'a', 'l', 's', 'e']);
                }
            },
            _ => {},
        }
    }
}

/// Appends the normal form of `v` (whitespace runs in strings collapse to
/// one space; containers lose their separators).
pub fn normalize_strings(v: &Json, out: &mut Vec<char>)
    ensures
        final(out)@ == old(out)@ + norm(*v),
    decreases v,
{
    let ghost o = out@;
    match v {
        Json::Str(s) => {
            out.push('"');
            let cs = chars_of(s.as_str());
            let ws = words_exec(&cs);
            let mut sp: Vec<char> = Vec::new();
            sp.push(' ');
            let joined = join_exec(&ws, &sp);
            proof {
                assert(sp@ =~= seq![' ']);
            }
            extend_chars(out, &joined);
            out.push('"');
            proof {
                assert(out@ =~= o + (seq!['"'] + join(words(s@), seq![' ']) + seq!['"']));
            }
        },
        Json::Number(n) => {
            push_number(out, n);
        },
        Json::Array(a) => {
            out.push('[');
            let mut i: usize = 0;
            while i < a.len()
                invariant
                    i <= a.len(),
                    *v is Array,
                    (*v)->Array_0 == *a,
                    out@ == o + seq!['['] + norm_items(a@, i as nat),
                decreases a.len() - i,
            {
                proof {
                    assert(*a == (*v)->Array_0);
                    assert(decreases_to!(*v => (*v)->Array_0));
                    assert(decreases_to!(*a => a@));
                    assert(decreases_to!(a@ => a@[i as int]));
                    assert(decreases_to!(*v => a@[i as int]));
                }
                normalize_strings(&a[i], out);
                i += 1;
            }
            out.push(']');
        },
        Json::Object(m) => {
            out.push('{');
            let mut i: usize = 0;
            while i < m.len()
                invariant
                    i <= m.len(),
                    *v is Object,
                    (*v)->Object_0 == *m,
                    out@ == o + seq!['{'] + norm_members(m@, i as nat),
                decreases m.len() - i,
            {
                extend_str(out, m[i].0.as_str());
                out.push(':');
                proof {
                    assert(*m == (*v)->Object_0);
                    assert(decreases_to!(*v => (*v)->Object_0));
                    assert(decreases_to!(*m => m@));
                    assert(decreases_to!(m@ => m@[i as int]));
                    assert(decreases_to!(m@[i as int] => m@[i as int].1));
                    assert(decreases_to!(*v => m@[i as int].1));
                }
                normalize_strings(&m[i].1, out);
                i += 1;
            }
            out.push('}');
        },
        _ => {
            push_scalar(out, v);
        },
    }
}

fn hex_char(d: u32) -> (c: char)
    requires
        d < 16,
    ensures
        c == hex_digit(d as nat),
{
    if d == 0 { '0' } else if d == 1 { '1' } else if d == 2 { '2' } else if d == 3 { '3' }
    else if d == 4 { '4' } else if d == 5 { '5' } else if d == 6 { '6' } else if d == 7 { '7' }
    else if d == 8 { '8' } else if d == 9 { '9' } else if d == 10 { 'a' } else if d == 11 { 'b' }
    else if d == 12 { 'c' } else if d == 13 { 'd' } else if d == 14 { 'e' } else { 'f' }
}

/// Appends the JSON escaping of `s`.
pub fn push_escaped(out: &mut Vec<char>, s: &str)
    ensures
        final(out)@ == old(out)@ + escape(s@),
{
    let ghost o = out@;
    let cs = chars_of(s);
    let mut i: usize = 0;
    while i < cs.len()
        invariant
            i <= cs.len(),
            cs@ == s@,
            out@ == o + escape(cs@.take(i as int)),
        decreases cs.len() - i,
    {
        let c = cs[i];
        let ghost before = out@;
        if c == '"' {
            out.push('\\');
            out.push('"');
        } else if c == '\\' {
            out.push('\\');
            out.push('\\');
        } else if c == '\u{8}' {
            out.push('\\');
            out.push('b');
        } else if c == '\u{c}' {
            out.push('\\');
            out.push('f');
        } else if c == '\n' {
            out.push('\\');
            out.push('n');
        } else if c == '\r' {
            out.push('\\');
            out.push('r');
        } else if c == '\t' {
            out.push('\\');
            out.push('t');
        } else if (c as u32) < 0x20 {
            out.push('\\');
            out.push('u');
            out.push('0');
            out.push('0');
            out.push(hex_char((c as u32) / 16));
            out.push(hex_char((c as u32) % 16));
        } else {
            out.push(c);
        }
        proof {
            assert(out@ =~= before + esc_char(c));
            assert(cs@.take(i + 1).drop_last() =~= cs@.take(i as int));
            assert(cs@.take(i + 1).last() == c);
        }
        i += 1;
    }
    assert(cs@.take(cs.len() as int) =~= cs@);
}

/// Appends the compact JSON text of `v`.
pub fn render_json(v: &Json, out: &mut Vec<char>)
    ensures
        final(out)@ == old(out)@ + render(*v),
    decreases v,
{
    let ghost o = out@;
    match v {
        Json::Str(s) => {
            out.push('"');
            push_escaped(out, s.as_str());
            out.push('"');
        },
        Json::Number(n) => {
            push_number(out, n);
        },
        Json::Array(a) => {
            out.push('[');
            let mut i: usize = 0;
            while i < a.len()
                invariant
                    i <= a.len(),
                    *v is Array,
                    (*v)->Array_0 == *a,
                    out@ == o + seq!['['] + render_items(a@, i as nat),
                decreases a.len() - i,
            {
                if i > 0 {
                    out.push(',');
                }
                proof {
                    assert(*a == (*v)->Array_0);
                    assert(decreases_to!(*v => (*v)->Array_0));
                    assert(decreases_to!(*a => a@));
                    assert(decreases_to!(a@ => a@[i as int]));
                    assert(decreases_to!(*v => a@[i as int]));
                }
                render_json(&a[i], out);
                i += 1;
            }
            out.push(']');
        },
        Json::Object(m) => {
            out.push('{');
            let mut i: usize = 0;
            while i < m.len()
                invariant
                    i <= m.len(),
                    *v is Object,
                    (*v)->Object_0 == *m,
                    out@ == o + seq!['{'] + render_members(m@, i as nat),
                decreases m.len() - i,
            {
                if i > 0 {
                    out.push(',');
                }
                out.push('"');
                push_escaped(out, m[i].0.as_str());
                out.push('"');
                out.push(':');
                proof {
                    assert(*m == (*v)->Object_0);
                    assert(decreases_to!(*v => (*v)->Object_0));
                    assert(decreases_to!(*m => m@));
                    assert(decreases_to!(m@ => m@[i as int]));
                    assert(decreases_to!(m@[i as int] => m@[i as int].1));
                    assert(decreases_to!(*v => m@[i as int].1));
                }
                render_json(&m[i].1, out);
                i += 1;
            }
            out.push('}');
        },
        _ => {
            push_scalar(out, v);
        },
    }
}

/// The normal form of `v` as a fresh string of characters.
pub fn normalized(v: &Json) -> (r: Vec<char>)
    ensures
        r@ == norm(*v),
{
    let mut out: Vec<char> = Vec::new();
    normalize_strings(v, &mut out);
    assert(out@ =~= norm(*v));
    out
}

/// The compact JSON text of `v`.
pub fn rendered(v: &Json) -> (r: Vec<char>)
    ensures
        r@ == render(*v),
{
    let mut out: Vec<char> = Vec::new();
    render_json(v, &mut out);
    assert(out@ =~= render(*v));
    out
}

// --------------------------------------------------------- accessors ---

/// `value[key]`: the member's value, or `Null` when absent or when the
/// value is not an object.
pub open spec fn get(j: Json, key: Seq<char>) -> Json {
    match j {
        Json::Object(m) => member_lookup(m@, key, 0),
        _ => Json::Null,
    }
}

pub open spec fn member_lookup(m: Seq<(String, Json)>, key: Seq<char>, i: int) -> Json
    decreases m.len() - i,
{
    if i < 0 || i >= m.len() {
        Json::Null
    } else if m[i].0@ == key {
        m[i].1
    } else {
        member_lookup(m, key, i + 1)
    }
}

/// `value.get(key)`: the member when `value` is an object that has `key`.
pub open spec fn lookup(j: Json, key: Seq<char>) -> Option<Json> {
    match j {
        Json::Object(m) => member_find(m@, key, 0),
        _ => None,
    }
}

pub open spec fn member_find(m: Seq<(String, Json)>, key: Seq<char>, i: int) -> Option<Json>
    decreases m.len() - i,
{
    if i < 0 || i >= m.len() {
        None
    } else if m[i].0@ == key {
        Some(m[i].1)
    } else {
        member_find(m, key, i + 1)
    }
}

pub open spec fn as_str(j: Json) -> Option<Seq<char>> {
    match j {
        Json::Str(s) => Some(s@),
        _ => None,
    }
}

pub open spec fn as_bool(j: Json) -> Option<bool> {
    match j {
        Json::Bool(b) => Some(b),
        _ => None,
    }
}

pub open spec fn as_u64(j: Json) -> Option<u64> {
    match j {
        Json::Number(JsonNumber::PosInt(u)) => Some(u),
        _ => None,
    }
}

pub open spec fn as_i64(j: Json) -> Option<i64> {
    match j {
        Json::Number(JsonNumber::PosInt(u)) => if u <= i64::MAX { Some(u as i64) } else { None },
        Json::Number(JsonNumber::NegInt(i)) => Some(i),
        _ => None,
    }
}

pub open spec fn as_array(j: Json) -> Option<Seq<Json>> {
    match j {
        Json::Array(a) => Some(a@),
        _ => None,
    }
}

/// `value[key]` (a borrowed member, or `None` for the `Null` answer).
pub fn get_exec<'a>(j: &'a Json, key: &str) -> (r: Option<&'a Json>)
    ensures
        r matches Some(v) ==> *v == get(*j, key@) && lookup(*j, key@) == Some(*v),
        r is None ==> get(*j, key@) == Json::Null && lookup(*j, key@) is None,
{
    match j {
        Json::Object(m) => {
            let k = chars_of(key);
            let mut i: usize = 0;
            while i < m.len()
                invariant
                    i <= m.len(),
                    k@ == key@,
                    *j is Object,
                    (*j)->Object_0 == *m,
                    member_lookup(m@, key@, 0) == member_lookup(m@, key@, i as int),
                    member_find(m@, key@, 0) == member_find(m@, key@, i as int),
                decreases m.len() - i,
            {
                let mk = chars_of(m[i].0.as_str());
                if chars_eq(&mk, &k) {
                    return Some(&m[i].1);
                }
                i += 1;
            }
            None
        },
        _ => None,
    }
}

/// `value[key].as_str()`.
pub fn get_str<'a>(j: &'a Json, key: &str) -> (r: Option<&'a String>)
    ensures
        r matches Some(s) ==> as_str(get(*j, key@)) == Some(s@),
        r is None ==> as_str(get(*j, key@)) is None,
{
    match get_exec(j, key) {
        Some(Json::Str(s)) => Some(s),
        _ => None,
    }
}

/// `value[key].as_bool()`.
pub fn get_bool(j: &Json, key: &str) -> (r: Option<bool>)
    ensures
        r == as_bool(get(*j, key@)),
{
    match get_exec(j, key) {
        Some(Json::Bool(b)) => Some(*b),
        _ => None,
    }
}

/// `value[key].as_u64()`.
pub fn get_u64(j: &Json, key: &str) -> (r: Option<u64>)
    ensures
        r == as_u64(get(*j, key@)),
{
    match get_exec(j, key) {
        Some(Json::Number(JsonNumber::PosInt(u))) => Some(*u),
        _ => None,
    }
}

/// `value[key].as_i64()`.
pub fn get_i64(j: &Json, key: &str) -> (r: Option<i64>)
    ensures
        r == as_i64(get(*j, key@)),
{
    match get_exec(j, key) {
        Some(Json::Number(JsonNumber::PosInt(u))) => {
            if *u <= 9_223_372_036_854_775_807u64 {
                Some(*u as i64)
            } else {
                None
            }
        },
        Some(Json::Number(JsonNumber::NegInt(i))) => Some(*i),
        _ => None,
    }
}

/// `value[key].as_array()`.
pub fn get_array<'a>(j: &'a Json, key: &str) -> (r: Option<&'a Vec<Json>>)
    ensures
        r matches Some(a) ==> as_array(get(*j, key@)) == Some(a@),
        r is None ==> as_array(get(*j, key@)) is None,
{
    match get_exec(j, key) {
        Some(Json::Array(a)) => Some(a),
        _ => None,
    }
}

/// `value[i]`: the array's item, or `Null` when absent or when the value
/// is not an array.
pub open spec fn item(j: Json, i: int) -> Json {
    match j {
        Json::Array(a) => if 0 <= i < a@.len() {
            a@[i]
        } else {
            Json::Null
        },
        _ => Json::Null,
    }
}

/// A value that may be absent, absence read as `Null`.
pub open spec fn null_or(o: Option<&Json>) -> Json {
    match o {
        Some(v) => *v,
        None => Json::Null,
    }
}

/// `value[key]` on a value that may be absent: `None` stands for `Null`.
pub fn member<'a>(j: Option<&'a Json>, key: &str) -> (r: Option<&'a Json>)
    ensures
        null_or(r) == get(null_or(j), key@),
{
    match j {
        Some(v) => get_exec(v, key),
        None => None,
    }
}

/// `value[0]` on a value that may be absent: `None` stands for `Null`.
pub fn first_item<'a>(j: Option<&'a Json>) -> (r: Option<&'a Json>)
    ensures
        null_or(r) == item(null_or(j), 0),
{
    match j {
        Some(Json::Array(a)) => if a.len() > 0 {
            Some(&a[0])
        } else {
            None
        },
        _ => None,
    }
}

} // verus!
