//! Character-level text model shared by every parser of the crate.
//!
//! Strings are viewed as `Seq<char>`; executable helpers work on `Vec<char>`
//! and are specified against the spec functions below (whitespace, trimming,
//! substring search, line splitting, decimal rendering).
use vstd::prelude::*;
use vstd::string::*;

verus! {

broadcast use vstd::string::group_string_axioms;

// ---------------------------------------------------------------- specs ---

/// Unicode `White_Space` (the set `char::is_whitespace` tests).
pub open spec fn is_ws(c: char) -> bool {
    ||| c == ' '
    ||| ('\t' <= c && c <= '\r')
    ||| c == '\u{85}'
    ||| c == '\u{a0}'
    ||| c == '\u{1680}'
    ||| ('\u{2000}' <= c && c <= '\u{200a}')
    ||| c == '\u{2028}'
    ||| c == '\u{2029}'
    ||| c == '\u{202f}'
    ||| c == '\u{205f}'
    ||| c == '\u{3000}'
}

pub open spec fn is_ascii_digit(c: char) -> bool {
    '0' <= c && c <= '9'
}

pub open spec fn is_ascii_alnum(c: char) -> bool {
    ||| ('0' <= c && c <= '9')
    ||| ('a' <= c && c <= 'z')
    ||| ('A' <= c && c <= 'Z')
}

/// `s` without its leading whitespace.
pub open spec fn trim_start(s: Seq<char>) -> Seq<char>
    decreases s.len(),
{
    if s.len() > 0 && is_ws(s[0]) {
        trim_start(s.drop_first())
    } else {
        s
    }
}

/// `s` without its trailing whitespace.
pub open spec fn trim_end(s: Seq<char>) -> Seq<char>
    decreases s.len(),
{
    if s.len() > 0 && is_ws(s.last()) {
        trim_end(s.drop_last())
    } else {
        s
    }
}

/// `s` without leading and trailing whitespace (`str::trim`).
pub open spec fn trim(s: Seq<char>) -> Seq<char> {
    trim_end(trim_start(s))
}

/// `s` without its trailing run of the character `c`.
pub open spec fn trim_end_char(s: Seq<char>, c: char) -> Seq<char>
    decreases s.len(),
{
    if s.len() > 0 && s.last() == c {
        trim_end_char(s.drop_last(), c)
    } else {
        s
    }
}

/// An optional string slice as an optional sequence.
pub open spec fn opt_str(o: Option<&str>) -> Option<Seq<char>> {
    match o {
        Some(s) => Some(s@),
        None => None,
    }
}

/// `s` without its leading run of the character `c`.
pub open spec fn trim_start_char(s: Seq<char>, c: char) -> Seq<char>
    decreases s.len(),
{
    if s.len() > 0 && s[0] == c {
        trim_start_char(s.drop_first(), c)
    } else {
        s
    }
}

/// `p` occurs in `s` at index `i`.
pub open spec fn match_at(s: Seq<char>, p: Seq<char>, i: int) -> bool {
    0 <= i && i + p.len() <= s.len() && s.subrange(i, i + p.len()) == p
}

/// First index `>= i` where `p` occurs in `s` (`str::find` from `i`).
pub open spec fn find_from(s: Seq<char>, p: Seq<char>, i: int) -> Option<int>
    decreases s.len() + 1 - i,
{
    if i < 0 || i + p.len() > s.len() {
        None
    } else if match_at(s, p, i) {
        Some(i)
    } else {
        find_from(s, p, i + 1)
    }
}

/// First index where `p` occurs in `s` (`str::find`).
pub open spec fn find(s: Seq<char>, p: Seq<char>) -> Option<int> {
    find_from(s, p, 0)
}

pub open spec fn contains(s: Seq<char>, p: Seq<char>) -> bool {
    find(s, p) is Some
}

pub open spec fn starts_with(s: Seq<char>, p: Seq<char>) -> bool {
    p.len() <= s.len() && s.subrange(0, p.len() as int) == p
}

pub open spec fn ends_with(s: Seq<char>, p: Seq<char>) -> bool {
    p.len() <= s.len() && s.subrange(s.len() - p.len(), s.len() as int) == p
}

/// Index of the first `c` in `s` at or after `i`.
pub open spec fn find_char_from(s: Seq<char>, c: char, i: int) -> Option<int>
    decreases s.len() - i,
{
    if i < 0 || i >= s.len() {
        None
    } else if s[i] == c {
        Some(i)
    } else {
        find_char_from(s, c, i + 1)
    }
}

/// Index of the last `c` in `s`.
pub open spec fn rfind_char(s: Seq<char>, c: char) -> Option<int>
    decreases s.len(),
{
    if s.len() == 0 {
        None
    } else if s.last() == c {
        Some(s.len() - 1)
    } else {
        rfind_char(s.drop_last(), c)
    }
}

/// The longest suffix of `s` that fits in `n` bytes of UTF-8 (a byte tail
/// cut forward to a character boundary).
pub open spec fn tail_bytes(s: Seq<char>, n: nat) -> Seq<char>
    decreases s.len(),
{
    if byte_len(s) <= n || s.len() == 0 {
        s
    } else {
        tail_bytes(s.drop_first(), n)
    }
}

/// A line as `str::lines` yields it: a `\r` right before the `\n` goes.
pub open spec fn strip_cr(l: Seq<char>) -> Seq<char> {
    if l.len() > 0 && l.last() == '\r' {
        l.drop_last()
    } else {
        l
    }
}

/// `str::lines`: split at `\n` (and `\r\n`); no empty line after a final
/// line terminator.
pub open spec fn lines(s: Seq<char>) -> Seq<Seq<char>>
    decreases s.len(),
{
    if s.len() == 0 {
        Seq::empty()
    } else {
        match find_char_from(s, '\n', 0) {
            None => seq![s],
            Some(i) => {
                proof {
                    lemma_find_char_from_some(s, '\n', 0);
                }
                seq![strip_cr(s.subrange(0, i))] + lines(s.subrange(i + 1, s.len() as int))
            },
        }
    }
}

/// Decimal digit for `d < 10`.
pub open spec fn digit(d: nat) -> char {
    if d == 0 { '0' }
    else if d == 1 { '1' }
    else if d == 2 { '2' }
    else if d == 3 { '3' }
    else if d == 4 { '4' }
    else if d == 5 { '5' }
    else if d == 6 { '6' }
    else if d == 7 { '7' }
    else if d == 8 { '8' }
    else { '9' }
}

/// Decimal rendering of a natural number (`format!("{n}")`).
pub open spec fn dec(n: nat) -> Seq<char>
    decreases n,
{
    if n < 10 {
        seq![digit(n)]
    } else {
        dec(n / 10).push(digit(n % 10))
    }
}

/// Decimal rendering of an integer, with a leading `-` when negative.
pub open spec fn dec_int(n: int) -> Seq<char> {
    if n < 0 {
        seq!['-'] + dec((-n) as nat)
    } else {
        dec(n as nat)
    }
}

/// Join `parts` with `sep` between consecutive items.
pub open spec fn join(parts: Seq<Seq<char>>, sep: Seq<char>) -> Seq<char>
    decreases parts.len(),
{
    if parts.len() == 0 {
        Seq::empty()
    } else if parts.len() == 1 {
        parts[0]
    } else {
        join(parts.drop_last(), sep) + sep + parts.last()
    }
}

/// `s` with every occurrence of `from` replaced by `to`.
pub open spec fn replace_char(s: Seq<char>, from: char, to: Seq<char>) -> Seq<char>
    decreases s.len(),
{
    if s.len() == 0 {
        Seq::empty()
    } else {
        (if s[0] == from { to } else { seq![s[0]] }) + replace_char(s.drop_first(), from, to)
    }
}

/// The first `n` characters of `s` (or all of them).
pub open spec fn take_chars(s: Seq<char>, n: nat) -> Seq<char> {
    if s.len() <= n {
        s
    } else {
        s.take(n as int)
    }
}

/// The last `n` characters of `s` (or all of them).
pub open spec fn last_chars(s: Seq<char>, n: nat) -> Seq<char> {
    if s.len() <= n {
        s
    } else {
        s.skip(s.len() - n)
    }
}

/// Whitespace-separated tokens (`str::split_whitespace`).
pub open spec fn words(s: Seq<char>) -> Seq<Seq<char>>
    decreases s.len(),
{
    let t = trim_start(s);
    if t.len() == 0 {
        Seq::empty()
    } else {
        let w = word_len(t, 0);
        proof {
            lemma_trim_start_len(s);
            lemma_word_len_bounds(t, 0);
        }
        seq![t.take(w)] + words(t.skip(w))
    }
}

/// Length of the leading non-whitespace run of `s[i..]`, plus `i`.
pub open spec fn word_len(s: Seq<char>, i: int) -> int
    decreases s.len() - i,
{
    if i < 0 || i >= s.len() || is_ws(s[i]) {
        i
    } else {
        word_len(s, i + 1)
    }
}

/// Bytes of `c` in UTF-8.
pub open spec fn utf8_width(c: char) -> nat {
    if (c as u32) < 0x80 {
        1
    } else if (c as u32) < 0x800 {
        2
    } else if (c as u32) < 0x10000 {
        3
    } else {
        4
    }
}

/// Bytes of `s` in UTF-8 (`str::len`).
pub open spec fn byte_len(s: Seq<char>) -> nat
    decreases s.len(),
{
    if s.len() == 0 {
        0
    } else {
        byte_len(s.drop_last()) + utf8_width(s.last())
    }
}

/// The number of leading characters of `s` that make exactly `n` bytes,
/// searched from `k` (`None` when byte `n` is not a character boundary).
pub open spec fn boundary_from(s: Seq<char>, n: nat, k: int) -> Option<int>
    decreases s.len() + 1 - k,
{
    if k < 0 || k > s.len() {
        None
    } else if byte_len(s.take(k)) == n {
        Some(k)
    } else if byte_len(s.take(k)) > n {
        None
    } else {
        boundary_from(s, n, k + 1)
    }
}

/// The characters that make the first `n` bytes of `s`, when byte `n` is a
/// character boundary.
pub open spec fn boundary(s: Seq<char>, n: nat) -> Option<int> {
    boundary_from(s, n, 0)
}

/// How many leading characters of `s`, from the `k`-th on, still fit in
/// `n` bytes: the character boundary at or before byte `n`.
pub open spec fn floor_boundary_from(s: Seq<char>, n: nat, k: int) -> int
    decreases s.len() - k,
{
    if k < 0 || k >= s.len() || byte_len(s.take(k + 1)) > n {
        k
    } else {
        floor_boundary_from(s, n, k + 1)
    }
}

/// The last character boundary of `s` at or before byte `n`.
pub open spec fn floor_boundary(s: Seq<char>, n: nat) -> int {
    floor_boundary_from(s, n, 0)
}

/// The views of a sequence of strings.
pub open spec fn strings_view(v: Seq<String>) -> Seq<Seq<char>> {
    v.map_values(|s: String| s@)
}

/// `root` joined with a relative path (a separator added when needed).
pub open spec fn join_path(root: Seq<char>, rel: Seq<char>) -> Seq<char> {
    if root.len() == 0 {
        rel
    } else if root.last() == '/' {
        root + rel
    } else {
        root + "/"@ + rel
    }
}

/// The value of a string of ASCII digits.
pub open spec fn digits_value(s: Seq<char>) -> nat
    decreases s.len(),
{
    if s.len() == 0 {
        0
    } else {
        digits_value(s.drop_last()) * 10 + ((s.last() as int) - 48) as nat
    }
}

pub open spec fn all_ascii_digits(s: Seq<char>) -> bool {
    forall|i: int| 0 <= i < s.len() ==> is_ascii_digit(#[trigger] s[i])
}

/// `str::parse` for an unsigned integer type whose maximum is `max`: an
/// optional `+`, then one or more ASCII digits (nothing else, no
/// whitespace), of a value within range.
pub open spec fn unsigned_text(s: Seq<char>, max: nat) -> Option<nat> {
    let d = if s.len() > 0 && s[0] == '+' {
        s.drop_first()
    } else {
        s
    };
    if d.len() > 0 && all_ascii_digits(d) && digits_value(d) <= max {
        Some(digits_value(d))
    } else {
        None
    }
}

// ------------------------------------------------------------ lemmas ---

pub proof fn lemma_byte_len_concat(a: Seq<char>, b: Seq<char>)
    ensures
        byte_len(a + b) == byte_len(a) + byte_len(b),
    decreases b.len(),
{
    if b.len() == 0 {
        assert(a + b =~= a);
    } else {
        assert((a + b).drop_last() =~= a + b.drop_last());
        lemma_byte_len_concat(a, b.drop_last());
    }
}

pub proof fn lemma_byte_len_take(s: Seq<char>, k: int)
    requires
        0 <= k < s.len(),
    ensures
        byte_len(s.take(k + 1)) == byte_len(s.take(k)) + utf8_width(s[k]),
{
    assert(s.take(k + 1).drop_last() =~= s.take(k));
}

pub proof fn lemma_trim_start_len(s: Seq<char>)
    ensures
        trim_start(s).len() <= s.len(),
        trim_start(s) == s.skip(s.len() - trim_start(s).len()),
        trim_start(s).len() > 0 ==> !is_ws(trim_start(s)[0]),
    decreases s.len(),
{
    if s.len() > 0 && is_ws(s[0]) {
        lemma_trim_start_len(s.drop_first());
        assert(s.drop_first().skip(s.drop_first().len() - trim_start(s.drop_first()).len())
            =~= s.skip(s.len() - trim_start(s.drop_first()).len()));
    } else {
        assert(s.skip(0) =~= s);
    }
}

pub proof fn lemma_trim_start_skip(s: Seq<char>, i: int)
    requires
        0 <= i <= s.len(),
        forall|j: int| 0 <= j < i ==> is_ws(#[trigger] s[j]),
    ensures
        trim_start(s) == trim_start(s.skip(i)),
    decreases i,
{
    if i > 0 {
        assert(s.drop_first().skip(i - 1) =~= s.skip(i));
        lemma_trim_start_skip(s.drop_first(), i - 1);
    } else {
        assert(s.skip(0) =~= s);
    }
}

pub proof fn lemma_trim_end_take(s: Seq<char>, i: int)
    requires
        0 <= i <= s.len(),
        forall|j: int| i <= j < s.len() ==> is_ws(#[trigger] s[j]),
    ensures
        trim_end(s) == trim_end(s.take(i)),
    decreases s.len() - i,
{
    if i < s.len() {
        assert(s.drop_last().take(i) =~= s.take(i));
        lemma_trim_end_take(s.drop_last(), i);
    } else {
        assert(s.take(i) =~= s);
    }
}

pub proof fn lemma_trim_end_char_take(s: Seq<char>, c: char, i: int)
    requires
        0 <= i <= s.len(),
        forall|j: int| i <= j < s.len() ==> #[trigger] s[j] == c,
    ensures
        trim_end_char(s, c) == trim_end_char(s.take(i), c),
    decreases s.len() - i,
{
    if i < s.len() {
        assert(s.drop_last().take(i) =~= s.take(i));
        lemma_trim_end_char_take(s.drop_last(), c, i);
    } else {
        assert(s.take(i) =~= s);
    }
}

pub proof fn lemma_find_from_none(s: Seq<char>, p: Seq<char>, i: int)
    requires
        0 <= i,
        find_from(s, p, i) is None,
    ensures
        forall|j: int| i <= j ==> !match_at(s, p, j),
    decreases s.len() + 1 - i,
{
    if i + p.len() <= s.len() {
        lemma_find_from_none(s, p, i + 1);
    }
}

pub proof fn lemma_find_from_some(s: Seq<char>, p: Seq<char>, i: int)
    requires
        0 <= i,
        find_from(s, p, i) is Some,
    ensures
        match_at(s, p, find_from(s, p, i)->0),
        i <= find_from(s, p, i)->0,
        forall|j: int| i <= j < find_from(s, p, i)->0 ==> !match_at(s, p, j),
    decreases s.len() + 1 - i,
{
    if !match_at(s, p, i) {
        lemma_find_from_some(s, p, i + 1);
    }
}

pub proof fn lemma_find_char_from_some(s: Seq<char>, c: char, i: int)
    requires
        0 <= i,
        find_char_from(s, c, i) is Some,
    ensures
        i <= find_char_from(s, c, i)->0 < s.len(),
        s[find_char_from(s, c, i)->0] == c,
        forall|j: int| i <= j < find_char_from(s, c, i)->0 ==> s[j] != c,
    decreases s.len() - i,
{
    if s[i] != c {
        lemma_find_char_from_some(s, c, i + 1);
    }
}

pub proof fn lemma_find_char_from_none(s: Seq<char>, c: char, i: int)
    requires
        0 <= i,
        find_char_from(s, c, i) is None,
    ensures
        forall|j: int| i <= j < s.len() ==> s[j] != c,
    decreases s.len() - i,
{
    if i < s.len() {
        lemma_find_char_from_none(s, c, i + 1);
    }
}

pub proof fn lemma_dec_len(n: nat)
    ensures
        dec(n).len() >= 1,
    decreases n,
{
    if n >= 10 {
        lemma_dec_len(n / 10);
    }
}

proof fn lemma_digit_injective(x: nat, y: nat)
    requires
        x < 10,
        y < 10,
        digit(x) == digit(y),
    ensures
        x == y,
{
}

/// A longer run of digits is worth at least as much.
pub proof fn lemma_digits_value_prefix(s: Seq<char>, k: int)
    requires
        0 <= k <= s.len(),
        all_ascii_digits(s),
    ensures
        digits_value(s.take(k)) <= digits_value(s),
    decreases s.len() - k,
{
    if k < s.len() {
        lemma_digits_value_prefix(s, k + 1);
        assert(s.take(k + 1).drop_last() =~= s.take(k));
        assert(is_ascii_digit(s[k]));
    } else {
        assert(s.take(k) =~= s);
    }
}

/// Distinct numbers have distinct decimal renderings.
pub proof fn lemma_dec_injective(a: nat, b: nat)
    requires
        dec(a) == dec(b),
    ensures
        a == b,
    decreases a,
{
    if a >= 10 {
        lemma_dec_len(a / 10);
    }
    if b >= 10 {
        lemma_dec_len(b / 10);
    }
    if a < 10 && b < 10 {
        assert(dec(a)[0] == digit(a));
        assert(dec(b)[0] == digit(b));
        lemma_digit_injective(a, b);
    } else if a >= 10 && b >= 10 {
        assert(dec(a).drop_last() =~= dec(a / 10));
        assert(dec(b).drop_last() =~= dec(b / 10));
        lemma_dec_injective(a / 10, b / 10);
        assert(dec(a).last() == digit(a % 10));
        assert(dec(b).last() == digit(b % 10));
        lemma_digit_injective(a % 10, b % 10);
    } else if a < 10 {
        assert(dec(a).len() == 1);
        assert(dec(b).len() == dec(b / 10).len() + 1);
    } else {
        assert(dec(b).len() == 1);
        assert(dec(a).len() == dec(a / 10).len() + 1);
    }
}

// ------------------------------------------------------------- exec ---

/// The characters of `s`, in order.
pub fn chars_of(s: &str) -> (r: Vec<char>)
    ensures
        r@ == s@,
{
    let mut v: Vec<char> = Vec::new();
    for c in it: s.chars()
        invariant
            v@ == it.seq().take(it.index() as int),
    {
        v.push(c);
    }
    v
}

/// Appends one character to a string (`String::push`).
#[verifier::external_body]
pub(crate) fn push_char(s: &mut String, c: char)
    ensures
        final(s)@ == old(s)@.push(c),
{
    s.push(c);
}

/// Appends characters to a string.
pub fn push_chars(s: &mut String, v: &Vec<char>)
    ensures
        final(s)@ == old(s)@ + v@,
{
    let ghost s0 = s@;
    let mut i: usize = 0;
    while i < v.len()
        invariant
            i <= v.len(),
            s@ == s0 + v@.take(i as int),
        decreases v.len() - i,
    {
        push_char(s, v[i]);
        assert(v@.take(i + 1) =~= v@.take(i as int).push(v@[i as int]));
        i += 1;
    }
    assert(v@.take(v.len() as int) =~= v@);
}

/// A fresh string holding `v`.
pub fn string_of(v: &Vec<char>) -> (r: String)
    ensures
        r@ == v@,
{
    let mut s = String::new();
    push_chars(&mut s, v);
    assert(Seq::<char>::empty() + v@ =~= v@);
    s
}

/// Appends the characters of `v` to `acc`.
pub fn extend_chars(acc: &mut Vec<char>, v: &Vec<char>)
    ensures
        final(acc)@ == old(acc)@ + v@,
{
    let ghost a0 = acc@;
    let mut i: usize = 0;
    while i < v.len()
        invariant
            i <= v.len(),
            acc@ == a0 + v@.take(i as int),
        decreases v.len() - i,
    {
        acc.push(v[i]);
        assert(v@.take(i + 1) =~= v@.take(i as int).push(v@[i as int]));
        i += 1;
    }
    assert(v@.take(v.len() as int) =~= v@);
}

/// Appends the characters of a string slice to `acc`.
pub fn extend_str(acc: &mut Vec<char>, t: &str)
    ensures
        final(acc)@ == old(acc)@ + t@,
{
    let v = chars_of(t);
    extend_chars(acc, &v);
}

/// `v[a..b]` as a fresh vector.
pub fn slice_chars(v: &Vec<char>, a: usize, b: usize) -> (r: Vec<char>)
    requires
        a <= b <= v.len(),
    ensures
        r@ == v@.subrange(a as int, b as int),
{
    let mut r: Vec<char> = Vec::new();
    let mut i = a;
    while i < b
        invariant
            a <= i <= b <= v.len(),
            r@ == v@.subrange(a as int, i as int),
        decreases b - i,
    {
        r.push(v[i]);
        assert(v@.subrange(a as int, i + 1) =~= v@.subrange(a as int, i as int).push(v@[i as int]));
        i += 1;
    }
    r
}

/// Equality of two character vectors.
pub fn chars_eq(a: &Vec<char>, b: &Vec<char>) -> (r: bool)
    ensures
        r == (a@ == b@),
{
    if a.len() != b.len() {
        return false;
    }
    let mut i: usize = 0;
    while i < a.len()
        invariant
            a.len() == b.len(),
            i <= a.len(),
            forall|j: int| 0 <= j < i ==> a@[j] == b@[j],
        decreases a.len() - i,
    {
        if a[i] != b[i] {
            return false;
        }
        i += 1;
    }
    assert(a@ =~= b@);
    true
}

/// Equality of a character vector with a string slice.
pub fn eq_str(a: &Vec<char>, t: &str) -> (r: bool)
    ensures
        r == (a@ == t@),
{
    let b = chars_of(t);
    chars_eq(a, &b)
}

/// Equality of two string slices.
pub fn str_eq(a: &str, b: &str) -> (r: bool)
    ensures
        r == (a@ == b@),
{
    let x = chars_of(a);
    let y = chars_of(b);
    chars_eq(&x, &y)
}

/// Unicode whitespace test (`char::is_whitespace`).
pub fn char_is_ws(c: char) -> (r: bool)
    ensures
        r == is_ws(c),
{
    c == ' ' || ('\t' <= c && c <= '\r') || c == '\u{85}' || c == '\u{a0}' || c == '\u{1680}'
        || ('\u{2000}' <= c && c <= '\u{200a}') || c == '\u{2028}' || c == '\u{2029}'
        || c == '\u{202f}' || c == '\u{205f}' || c == '\u{3000}'
}

pub fn char_is_ascii_alnum(c: char) -> (r: bool)
    ensures
        r == is_ascii_alnum(c),
{
    ('0' <= c && c <= '9') || ('a' <= c && c <= 'z') || ('A' <= c && c <= 'Z')
}

/// Index of the first non-whitespace character (or the length).
pub fn trim_start_index(v: &Vec<char>) -> (r: usize)
    ensures
        r <= v.len(),
        trim_start(v@) == v@.skip(r as int),
{
    let mut i: usize = 0;
    while i < v.len() && char_is_ws(v[i])
        invariant
            i <= v.len(),
            forall|j: int| 0 <= j < i ==> is_ws(#[trigger] v@[j]),
        decreases v.len() - i,
    {
        i += 1;
    }
    proof {
        lemma_trim_start_skip(v@, i as int);
        let t = v@.skip(i as int);
        if t.len() > 0 {
            assert(t[0] == v@[i as int]);
        }
    }
    i
}

/// Index one past the last non-whitespace character (or 0).
pub fn trim_end_index(v: &Vec<char>) -> (r: usize)
    ensures
        r <= v.len(),
        trim_end(v@) == v@.take(r as int),
{
    let mut i: usize = v.len();
    while i > 0 && char_is_ws(v[i - 1])
        invariant
            i <= v.len(),
            forall|j: int| i <= j < v.len() ==> is_ws(#[trigger] v@[j]),
        decreases i,
    {
        i -= 1;
    }
    proof {
        lemma_trim_end_take(v@, i as int);
        let t = v@.take(i as int);
        if t.len() > 0 {
            assert(t.last() == v@[i - 1]);
        }
    }
    i
}

/// `str::trim_start` on characters.
pub fn trim_start_chars(v: &Vec<char>) -> (r: Vec<char>)
    ensures
        r@ == trim_start(v@),
{
    let a = trim_start_index(v);
    let r = slice_chars(v, a, v.len());
    assert(v@.skip(a as int) =~= v@.subrange(a as int, v.len() as int));
    r
}

/// `str::trim_end` on characters.
pub fn trim_end_chars(v: &Vec<char>) -> (r: Vec<char>)
    ensures
        r@ == trim_end(v@),
{
    let b = trim_end_index(v);
    let r = slice_chars(v, 0, b);
    assert(v@.take(b as int) =~= v@.subrange(0, b as int));
    r
}

/// `str::trim` on characters.
pub fn trim_chars(v: &Vec<char>) -> (r: Vec<char>)
    ensures
        r@ == trim(v@),
{
    let t = trim_start_chars(v);
    trim_end_chars(&t)
}

/// `str::trim_end_matches(c)` for a single character.
pub fn trim_end_char_chars(v: &Vec<char>, c: char) -> (r: Vec<char>)
    ensures
        r@ == trim_end_char(v@, c),
{
    let mut i: usize = v.len();
    while i > 0 && v[i - 1] == c
        invariant
            i <= v.len(),
            forall|j: int| i <= j < v.len() ==> #[trigger] v@[j] == c,
        decreases i,
    {
        i -= 1;
    }
    proof {
        lemma_trim_end_char_take(v@, c, i as int);
        let t = v@.take(i as int);
        if t.len() > 0 {
            assert(t.last() == v@[i - 1]);
        }
        assert(v@.take(i as int) =~= v@.subrange(0, i as int));
    }
    slice_chars(v, 0, i)
}

proof fn lemma_trim_start_char_skip(s: Seq<char>, c: char, i: int)
    requires
        0 <= i <= s.len(),
        forall|j: int| 0 <= j < i ==> s[j] == c,
        i == s.len() || s[i] != c,
    ensures
        trim_start_char(s, c) == s.skip(i),
    decreases i,
{
    if i == 0 {
        assert(s.skip(0) =~= s);
    } else {
        assert(s.drop_first().skip(i - 1) =~= s.skip(i));
        lemma_trim_start_char_skip(s.drop_first(), c, i - 1);
    }
}

pub fn trim_start_char_chars(v: &Vec<char>, c: char) -> (r: Vec<char>)
    ensures
        r@ == trim_start_char(v@, c),
{
    let mut i: usize = 0;
    while i < v.len() && v[i] == c
        invariant
            i <= v.len(),
            forall|j: int| 0 <= j < i ==> #[trigger] v@[j] == c,
        decreases v.len() - i,
    {
        i += 1;
    }
    proof {
        lemma_trim_start_char_skip(v@, c, i as int);
    }
    let r = slice_chars(v, i, v.len());
    assert(r@ =~= v@.skip(i as int));
    r
}

/// Whether `p` occurs in `s` at `i`.
pub fn match_at_exec(s: &Vec<char>, p: &Vec<char>, i: usize) -> (r: bool)
    ensures
        r == match_at(s@, p@, i as int),
{
    if i > s.len() || p.len() > s.len() - i {
        return false;
    }
    let mut k: usize = 0;
    while k < p.len()
        invariant
            i + p.len() <= s.len(),
            k <= p.len(),
            forall|j: int| 0 <= j < k ==> s@[i + j] == p@[j],
        decreases p.len() - k,
    {
        if s[i + k] != p[k] {
            assert(s@.subrange(i as int, i + p.len())[k as int] != p@[k as int]);
            return false;
        }
        k += 1;
    }
    assert(s@.subrange(i as int, i + p.len()) =~= p@);
    true
}

/// `str::find` from index `i`.
pub fn find_from_exec(s: &Vec<char>, p: &Vec<char>, i: usize) -> (r: Option<usize>)
    ensures
        r matches Some(k) ==> find_from(s@, p@, i as int) == Some(k as int),
        r is None ==> find_from(s@, p@, i as int) is None,
{
    if i > s.len() {
        return None;
    }
    let mut k = i;
    while k <= s.len() && p.len() <= s.len() - k
        invariant
            i <= k <= s.len() + 1,
            find_from(s@, p@, i as int) == find_from(s@, p@, k as int),
        decreases s.len() + 1 - k,
    {
        if match_at_exec(s, p, k) {
            return Some(k);
        }
        proof {
            if k == s.len() {
                assert(s@.subrange(k as int, k as int) =~= p@);
            }
        }
        k += 1;
    }
    None
}

/// `str::find`.
pub fn find_exec(s: &Vec<char>, p: &Vec<char>) -> (r: Option<usize>)
    ensures
        r matches Some(k) ==> find(s@, p@) == Some(k as int),
        r is None ==> find(s@, p@) is None,
{
    find_from_exec(s, p, 0)
}

/// `str::contains`.
pub fn contains_exec(s: &Vec<char>, p: &Vec<char>) -> (r: bool)
    ensures
        r == contains(s@, p@),
{
    find_exec(s, p).is_some()
}

/// `str::contains` with a literal-like pattern.
pub fn contains_str(s: &Vec<char>, p: &str) -> (r: bool)
    ensures
        r == contains(s@, p@),
{
    let pv = chars_of(p);
    contains_exec(s, &pv)
}

/// `str::starts_with`.
pub fn starts_with_exec(s: &Vec<char>, p: &Vec<char>) -> (r: bool)
    ensures
        r == starts_with(s@, p@),
{
    let r = match_at_exec(s, p, 0);
    assert(r == starts_with(s@, p@));
    r
}

/// `str::starts_with` with a string slice pattern.
pub fn starts_with_str(s: &Vec<char>, p: &str) -> (r: bool)
    ensures
        r == starts_with(s@, p@),
{
    let pv = chars_of(p);
    starts_with_exec(s, &pv)
}

/// `str::ends_with`.
pub fn ends_with_exec(s: &Vec<char>, p: &Vec<char>) -> (r: bool)
    ensures
        r == ends_with(s@, p@),
{
    if p.len() > s.len() {
        return false;
    }
    match_at_exec(s, p, s.len() - p.len())
}

/// `str::ends_with` with a string slice pattern.
pub fn ends_with_str(s: &Vec<char>, p: &str) -> (r: bool)
    ensures
        r == ends_with(s@, p@),
{
    let pv = chars_of(p);
    ends_with_exec(s, &pv)
}

/// Index of the first `c` at or after `i`.
pub fn find_char_from_exec(s: &Vec<char>, c: char, i: usize) -> (r: Option<usize>)
    ensures
        r matches Some(k) ==> find_char_from(s@, c, i as int) == Some(k as int),
        r is None ==> find_char_from(s@, c, i as int) is None,
{
    let mut k = i;
    while k < s.len()
        invariant
            i <= k,
            find_char_from(s@, c, i as int) == find_char_from(s@, c, k as int),
        decreases s.len() - k,
    {
        if s[k] == c {
            return Some(k);
        }
        k += 1;
    }
    None
}

/// Index of the last `c` in `s`.
pub fn rfind_char_exec(s: &Vec<char>, c: char) -> (r: Option<usize>)
    ensures
        r matches Some(k) ==> rfind_char(s@, c) == Some(k as int),
        r is None ==> rfind_char(s@, c) is None,
{
    let mut k = s.len();
    assert(s@.take(s.len() as int) =~= s@);
    while k > 0
        invariant
            k <= s.len(),
            rfind_char(s@, c) == rfind_char(s@.take(k as int), c),
        decreases k,
    {
        assert(s@.take(k as int).drop_last() =~= s@.take(k - 1));
        if s[k - 1] == c {
            return Some(k - 1);
        }
        k -= 1;
    }
    None
}

pub proof fn lemma_rfind_char_some(s: Seq<char>, c: char)
    requires
        rfind_char(s, c) is Some,
    ensures
        0 <= rfind_char(s, c)->0 < s.len(),
        s[rfind_char(s, c)->0] == c,
    decreases s.len(),
{
    if s.last() != c {
        lemma_rfind_char_some(s.drop_last(), c);
    }
}

proof fn lemma_byte_len_skip(s: Seq<char>, k: int)
    requires
        0 <= k < s.len(),
    ensures
        byte_len(s.skip(k)) == utf8_width(s[k]) + byte_len(s.skip(k + 1)),
{
    assert(s.skip(k) =~= seq![s[k]] + s.skip(k + 1));
    lemma_byte_len_concat(seq![s[k]], s.skip(k + 1));
    assert(seq![s[k]].drop_last() =~= Seq::<char>::empty());
    assert(byte_len(Seq::<char>::empty()) == 0);
    assert(byte_len(seq![s[k]]) == byte_len(seq![s[k]].drop_last()) + utf8_width(s[k]));
}

proof fn lemma_tail_bytes_at(s: Seq<char>, n: nat, k: int)
    requires
        0 <= k <= s.len(),
        byte_len(s.skip(k)) <= n,
        k == 0 || byte_len(s.skip(k - 1)) > n,
    ensures
        tail_bytes(s, n) == s.skip(k),
    decreases k,
{
    if k == 0 {
        assert(s.skip(0) =~= s);
    } else {
        assert(s.skip(0) =~= s);
        assert(s =~= s.take(k - 1) + s.skip(k - 1));
        lemma_byte_len_concat(s.take(k - 1), s.skip(k - 1));
        let t = s.drop_first();
        assert(t.skip(k - 1) =~= s.skip(k));
        if k >= 2 {
            assert(t.skip(k - 2) =~= s.skip(k - 1));
        }
        lemma_tail_bytes_at(t, n, k - 1);
    }
}

/// The longest suffix of `s` within `n` bytes of UTF-8.
pub fn tail_bytes_safe(s: &str, n: usize) -> (r: String)
    ensures
        r@ == tail_bytes(s@, n as nat),
{
    let v = chars_of(s);
    let mut k = v.len();
    let mut acc: usize = 0;
    let mut done = false;
    assert(v@.skip(v.len() as int) =~= Seq::<char>::empty());
    while k > 0 && !done
        invariant
            k <= v.len(),
            acc == byte_len(v@.skip(k as int)),
            acc <= n,
            done ==> k > 0 && byte_len(v@.skip(k - 1)) > n,
        decreases k, (if done { 0int } else { 1int }),
    {
        proof {
            lemma_byte_len_skip(v@, k - 1);
        }
        let c = v[k - 1];
        let w: usize = if (c as u32) < 0x80 { 1 } else if (c as u32) < 0x800 { 2 } else if (c as u32)
            < 0x10000 { 3 } else { 4 };
        if w > n - acc {
            done = true;
        } else {
            acc = acc + w;
            k -= 1;
        }
    }
    proof {
        lemma_tail_bytes_at(v@, n as nat, k as int);
    }
    let t = slice_chars(&v, k, v.len());
    assert(t@ =~= v@.skip(k as int));
    string_of(&t)
}

/// `str::lines`.
pub fn lines_exec(s: &Vec<char>) -> (r: Vec<Vec<char>>)
    ensures
        r@.len() == lines(s@).len(),
        forall|i: int| 0 <= i < r@.len() ==> #[trigger] r@[i]@ == lines(s@)[i],
{
    let mut out: Vec<Vec<char>> = Vec::new();
    let mut start: usize = 0;
    assert(s@.skip(0) =~= s@);
    assert(out@.map_values(|l: Vec<char>| l@) + lines(s@) =~= lines(s@));
    while start < s.len()
        invariant
            start <= s.len(),
            lines(s@) == out@.map_values(|l: Vec<char>| l@) + lines(s@.skip(start as int)),
        decreases s.len() - start,
    {
        let ghost rest = s@.skip(start as int);
        match find_char_from_exec(s, '\n', start) {
            None => {
                proof {
                    lemma_find_char_from_none(s@, '\n', start as int);
                    if let Some(k) = find_char_from(rest, '\n', 0) {
                        lemma_find_char_from_some(rest, '\n', 0);
                        assert(rest[k] == s@[start + k]);
                    }
                }
                let l = slice_chars(s, start, s.len());
                proof {
                    assert(l@ =~= rest);
                    assert(s@.skip(s.len() as int) =~= Seq::<char>::empty());
                    assert(out@.push(l).map_values(|l: Vec<char>| l@) =~= out@.map_values(|l: Vec<char>| l@).push(l@));
                }
                out.push(l);
                start = s.len();
            },
            Some(k) => {
                proof {
                    lemma_find_char_from_some(s@, '\n', start as int);
                    let kk = (k - start) as int;
                    assert(rest[kk] == '\n');
                    assert forall|j: int| 0 <= j < kk implies rest[j] != '\n' by {
                        assert(rest[j] == s@[start + j]);
                    }
                    lemma_find_char_from_first(rest, '\n', kk);
                    assert(rest.subrange(0, kk) =~= s@.subrange(start as int, k as int));
                    assert(rest.subrange(kk + 1, rest.len() as int) =~= s@.skip(k + 1));
                }
                let mut l = slice_chars(s, start, k);
                if l.len() > 0 && l[l.len() - 1] == '\r' {
                    l.pop();
                }
                proof {
                    assert(out@.push(l).map_values(|l: Vec<char>| l@) =~= out@.map_values(|l: Vec<char>| l@).push(l@));
                }
                out.push(l);
                start = k + 1;
            },
        }
    }
    proof {
        assert(s@.skip(start as int).len() == 0);
        assert(lines(s@.skip(start as int)) =~= Seq::<Seq<char>>::empty());
        assert(lines(s@) =~= out@.map_values(|l: Vec<char>| l@));
    }
    out
}

pub proof fn lemma_find_char_from_first(s: Seq<char>, c: char, k: int)
    requires
        0 <= k < s.len(),
        s[k] == c,
        forall|j: int| 0 <= j < k ==> s[j] != c,
    ensures
        find_char_from(s, c, 0) == Some(k),
{
    lemma_find_char_from_first_at(s, c, 0, k);
}

proof fn lemma_find_char_from_first_at(s: Seq<char>, c: char, i: int, k: int)
    requires
        0 <= i <= k < s.len(),
        s[k] == c,
        forall|j: int| i <= j < k ==> s[j] != c,
    ensures
        find_char_from(s, c, i) == Some(k),
    decreases k - i,
{
    if i < k {
        lemma_find_char_from_first_at(s, c, i + 1, k);
    }
}

/// Whether `s` is longer than `limit` bytes.
pub fn byte_len_exceeds(v: &Vec<char>, limit: usize) -> (r: bool)
    ensures
        r == (byte_len(v@) > limit),
{
    let mut acc: usize = 0;
    let mut k: usize = 0;
    while k < v.len()
        invariant
            k <= v.len(),
            acc == byte_len(v@.take(k as int)),
            acc <= limit,
        decreases v.len() - k,
    {
        proof { lemma_byte_len_take(v@, k as int); }
        let c = v[k];
        let w: usize = if (c as u32) < 0x80 { 1 } else if (c as u32) < 0x800 { 2 } else if (c as u32)
            < 0x10000 { 3 } else { 4 };
        if w > limit - acc {
            proof { lemma_byte_len_prefix_le(v@, k + 1); }
            return true;
        }
        acc = acc + w;
        k += 1;
    }
    assert(v@.take(v.len() as int) =~= v@);
    false
}

pub proof fn lemma_byte_len_prefix_le(s: Seq<char>, k: int)
    requires
        0 <= k <= s.len(),
    ensures
        byte_len(s.take(k)) <= byte_len(s),
    decreases s.len() - k,
{
    if k == s.len() {
        assert(s.take(k) =~= s);
    } else {
        lemma_byte_len_prefix_le(s, k + 1);
        lemma_byte_len_take(s, k);
    }
}

/// The leading characters of `s` that make exactly `n` bytes.
pub fn truncate_bytes(v: &Vec<char>, n: usize) -> (r: Vec<char>)
    requires
        boundary(v@, n as nat) is Some,
    ensures
        r@ == v@.take(boundary(v@, n as nat)->0),
{
    let mut acc: usize = 0;
    let mut k: usize = 0;
    while acc < n
        invariant
            k <= v.len(),
            acc == byte_len(v@.take(k as int)),
            acc <= n,
            boundary(v@, n as nat) == boundary_from(v@, n as nat, k as int),
            boundary(v@, n as nat) is Some,
        decreases n - acc,
    {
        proof {
            if k == v.len() {
                assert(boundary_from(v@, n as nat, k as int + 1) is None);
            }
            lemma_byte_len_take(v@, k as int);
        }
        let c = v[k];
        let w: usize = if (c as u32) < 0x80 { 1 } else if (c as u32) < 0x800 { 2 } else if (c as u32)
            < 0x10000 { 3 } else { 4 };
        proof {
            if acc + w > n {
                assert(boundary_from(v@, n as nat, k as int + 1) is None);
            }
        }
        acc = acc + w;
        k += 1;
    }
    assert(v@.take(k as int) =~= v@.subrange(0, k as int));
    slice_chars(v, 0, k)
}

/// The longest prefix of `v` that fits in `n` bytes (cut at the last
/// character boundary at or before byte `n`).
pub fn truncate_floor(v: &Vec<char>, n: usize) -> (r: Vec<char>)
    ensures
        r@ == v@.take(floor_boundary(v@, n as nat)),
        byte_len(r@) <= n,
{
    let mut acc: usize = 0;
    let mut k: usize = 0;
    assert(v@.take(0) =~= Seq::<char>::empty());
    while k < v.len()
        invariant_except_break
            k <= v.len(),
            acc == byte_len(v@.take(k as int)),
            acc <= n,
            floor_boundary(v@, n as nat) == floor_boundary_from(v@, n as nat, k as int),
        ensures
            k <= v.len(),
            acc == byte_len(v@.take(k as int)),
            acc <= n,
            floor_boundary(v@, n as nat) == k,
        decreases v.len() - k,
    {
        proof {
            lemma_byte_len_take(v@, k as int);
        }
        let c = v[k];
        let w: usize = if (c as u32) < 0x80 { 1 } else if (c as u32) < 0x800 { 2 } else if (c as u32)
            < 0x10000 { 3 } else { 4 };
        if w > n - acc {
            break;
        }
        acc = acc + w;
        k += 1;
    }
    assert(v@.take(k as int) =~= v@.subrange(0, k as int));
    slice_chars(v, 0, k)
}

/// Decimal digits of `n`.
pub fn dec_u64(n: u64) -> (r: Vec<char>)
    ensures
        r@ == dec(n as nat),
    decreases n,
{
    let d = n % 10;
    let c = if d == 0 { '0' } else if d == 1 { '1' } else if d == 2 { '2' } else if d == 3 {
        '3'
    } else if d == 4 { '4' } else if d == 5 { '5' } else if d == 6 { '6' } else if d == 7 {
        '7'
    } else if d == 8 { '8' } else { '9' };
    if n < 10 {
        let mut v = Vec::new();
        v.push(c);
        proof { assert(v@ =~= seq![digit(n as nat)]); }
        v
    } else {
        let mut v = dec_u64(n / 10);
        v.push(c);
        v
    }
}

/// Decimal digits of a signed integer.
pub fn dec_i64(n: i64) -> (r: Vec<char>)
    ensures
        r@ == dec_int(n as int),
{
    if n < 0 {
        let m: u64 = if n == i64::MIN { 9_223_372_036_854_775_808u64 } else { (-n) as u64 };
        let d = dec_u64(m);
        let mut v = Vec::new();
        v.push('-');
        extend_chars(&mut v, &d);
        assert(v@ =~= seq!['-'] + dec(m as nat));
        v
    } else {
        dec_u64(n as u64)
    }
}

/// Appends the decimal rendering of `n`.
pub fn push_dec(acc: &mut Vec<char>, n: u64)
    ensures
        final(acc)@ == old(acc)@ + dec(n as nat),
{
    let d = dec_u64(n);
    extend_chars(acc, &d);
}

/// `parts` joined by `sep`.
pub fn join_exec(parts: &Vec<Vec<char>>, sep: &Vec<char>) -> (r: Vec<char>)
    ensures
        r@ == join(parts@.map_values(|p: Vec<char>| p@), sep@),
{
    let ghost ps = parts@.map_values(|p: Vec<char>| p@);
    let mut out: Vec<char> = Vec::new();
    let mut i: usize = 0;
    while i < parts.len()
        invariant
            i <= parts.len(),
            ps == parts@.map_values(|p: Vec<char>| p@),
            out@ == join(ps.take(i as int), sep@),
        decreases parts.len() - i,
    {
        proof {
            assert(ps.take(i + 1).drop_last() =~= ps.take(i as int));
            assert(ps.take(i + 1).last() == parts@[i as int]@);
        }
        if i > 0 {
            extend_chars(&mut out, sep);
        } else {
            assert(ps.take(0) =~= Seq::<Seq<char>>::empty());
            assert(out@ =~= Seq::<char>::empty());
        }
        extend_chars(&mut out, &parts[i]);
        proof {
            if i == 0 {
                assert(out@ =~= ps.take(1)[0]);
            }
        }
        i += 1;
    }
    assert(ps.take(parts.len() as int) =~= ps);
    out
}

/// Whitespace-separated tokens (`str::split_whitespace`).
pub fn words_exec(s: &Vec<char>) -> (r: Vec<Vec<char>>)
    ensures
        r@.map_values(|w: Vec<char>| w@) == words(s@),
{
    let mut out: Vec<Vec<char>> = Vec::new();
    let mut i: usize = 0;
    assert(s@.skip(0) =~= s@);
    assert(out@.map_values(|w: Vec<char>| w@) + words(s@) =~= words(s@));
    while i < s.len()
        invariant
            i <= s.len(),
            words(s@) == out@.map_values(|w: Vec<char>| w@) + words(s@.skip(i as int)),
        decreases s.len() - i,
    {
        let ghost rest = s@.skip(i as int);
        let mut a = i;
        while a < s.len() && char_is_ws(s[a])
            invariant
                i <= a <= s.len(),
                forall|j: int| i <= j < a ==> is_ws(#[trigger] s@[j]),
            decreases s.len() - a,
        {
            a += 1;
        }
        proof {
            assert forall|j: int| 0 <= j < a - i implies is_ws(#[trigger] rest[j]) by {
                assert(rest[j] == s@[i + j]);
            }
            lemma_trim_start_skip(rest, (a - i) as int);
            assert(rest.skip((a - i) as int) =~= s@.skip(a as int));
            if a < s.len() {
                assert(trim_start(s@.skip(a as int)) == s@.skip(a as int));
            } else {
                assert(s@.skip(a as int).len() == 0);
            }
        }
        if a == s.len() {
            proof {
                assert(trim_start(rest).len() == 0);
                assert(words(rest) =~= Seq::<Seq<char>>::empty());
                assert(s@.skip(s.len() as int).len() == 0);
                assert(words(s@.skip(s.len() as int)) =~= Seq::<Seq<char>>::empty());
            }
            i = a;
        } else {
            let mut b = a;
            while b < s.len() && !char_is_ws(s[b])
                invariant
                    a <= b <= s.len(),
                    forall|j: int| a <= j < b ==> !is_ws(#[trigger] s@[j]),
                decreases s.len() - b,
            {
                b += 1;
            }
            let w = slice_chars(s, a, b);
            proof {
                let t = s@.skip(a as int);
                lemma_word_len(t, 0, (b - a) as int);
                assert(t.take((b - a) as int) =~= w@);
                assert(t.skip((b - a) as int) =~= s@.skip(b as int));
                assert(out@.push(w).map_values(|w: Vec<char>| w@) =~= out@.map_values(|w: Vec<char>| w@).push(w@));
            }
            out.push(w);
            i = b;
        }
    }
    proof {
        assert(s@.skip(i as int).len() == 0);
        assert(trim_start(s@.skip(i as int)).len() == 0) by {
            lemma_trim_start_len(s@.skip(i as int));
        }
        assert(words(s@.skip(i as int)) =~= Seq::<Seq<char>>::empty());
        assert(words(s@) =~= out@.map_values(|w: Vec<char>| w@));
    }
    out
}

pub proof fn lemma_word_len_bounds(s: Seq<char>, i: int)
    requires
        0 <= i <= s.len(),
    ensures
        i <= word_len(s, i) <= s.len(),
        i < s.len() && !is_ws(s[i]) ==> word_len(s, i) > i,
    decreases s.len() - i,
{
    if i < s.len() && !is_ws(s[i]) {
        lemma_word_len_bounds(s, i + 1);
    }
}

pub proof fn lemma_word_len(s: Seq<char>, i: int, k: int)
    requires
        0 <= i <= k <= s.len(),
        forall|j: int| i <= j < k ==> !is_ws(#[trigger] s[j]),
        k == s.len() || is_ws(s[k]),
    ensures
        word_len(s, i) == k,
    decreases k - i,
{
    if i < k {
        lemma_word_len(s, i + 1, k);
    }
}

/// `root` joined with a relative path (`Path::join`).
pub fn join_path_exec(root: &str, rel: &str) -> (r: Vec<char>)
    ensures
        r@ == join_path(root@, rel@),
{
    let mut out = chars_of(root);
    if out.len() > 0 && out[out.len() - 1] != '/' {
        out.push('/');
    }
    extend_str(&mut out, rel);
    proof {
        reveal_strlit("/");
        if root@.len() > 0 && root@.last() != '/' {
            assert(out@ =~= root@ + seq!['/'] + rel@);
        } else if root@.len() > 0 {
            assert(out@ =~= root@ + rel@);
        } else {
            assert(out@ =~= rel@);
        }
    }
    out
}

/// `str::parse` for an unsigned integer type whose maximum is `max`.
pub fn parse_unsigned(s: &str, max: u64) -> (r: Option<u64>)
    ensures
        match unsigned_text(s@, max as nat) {
            Some(n) => r == Some(n as u64),
            None => r is None,
        },
{
    let v = chars_of(s);
    let start: usize = if v.len() > 0 && v[0] == '+' {
        1
    } else {
        0
    };
    let ghost d = if s@.len() > 0 && s@[0] == '+' {
        s@.drop_first()
    } else {
        s@
    };
    assert(d =~= v@.skip(start as int));
    if start == v.len() {
        return None;
    }
    let mut acc: u64 = 0;
    let mut i: usize = start;
    assert(d.take(0) =~= Seq::<char>::empty());
    while i < v.len()
        invariant
            start <= i <= v.len(),
            d == v@.skip(start as int),
            d == (if s@.len() > 0 && s@[0] == '+' {
                s@.drop_first()
            } else {
                s@
            }),
            v@ == s@,
            d.len() > 0,
            acc == digits_value(d.take(i - start)),
            all_ascii_digits(d.take(i - start)),
            acc <= max,
        decreases v.len() - i,
    {
        let c = v[i];
        assert(d[i - start] == c);
        assert(d.take(i - start + 1).drop_last() =~= d.take(i - start));
        if !('0' <= c && c <= '9') {
            proof {
                assert(!is_ascii_digit(d[i - start]));
            }
            return None;
        }
        let dv: u64 = (c as u32 - 48) as u64;
        if dv > max || acc > (max - dv) / 10 {
            proof {
                assert(acc * 10 + dv > max) by (nonlinear_arith)
                    requires
                        dv > max || acc > (max - dv) / 10,
                        dv <= 9,
                ;
                assert(digits_value(d.take(i - start + 1)) == acc * 10 + dv);
                if all_ascii_digits(d) {
                    lemma_digits_value_prefix(d, i - start + 1);
                }
            }
            return None;
        }
        assert(acc * 10 + dv <= max) by (nonlinear_arith)
            requires
                dv <= max,
                acc <= (max - dv) / 10,
        ;
        acc = acc * 10 + dv;
        assert(all_ascii_digits(d.take(i - start + 1))) by {
            assert forall|j: int| 0 <= j < d.take(i - start + 1).len() implies is_ascii_digit(
                #[trigger] d.take(i - start + 1)[j],
            ) by {
                if j < i - start {
                    assert(d.take(i - start + 1)[j] == d.take(i - start)[j]);
                }
            }
        }
        i += 1;
    }
    assert(d.take(v.len() - start) =~= d);
    Some(acc)
}

} // verus!
