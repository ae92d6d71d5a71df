//! The real-model client's logic: pulling the JSON object out of a prose
//! reply, classifying a failed provider attempt, and the retry policy
//! (which attempt to make next, how long to wait, when to give up). The
//! HTTP calls and the watchdog thread run outside.
use vstd::prelude::*;
use crate::json::{as_str, as_u64, first_item, get, item, member, null_or, Json, JsonNumber};
use crate::text::{chars_of, extend_str, find_char_from, find_char_from_exec, slice_chars, string_of};

verus! {

broadcast use vstd::string::group_string_axioms;

/// Completion returned when the provider holds a call past the watchdog.
/// It is deliberately not a JSON tool call: the loop feeds it back as a
/// malformed completion, so a hung provider costs a step, not the harness.
pub const WATCHDOG_SENTINEL: &'static str = "__provider_watchdog_timeout__";

/// Index of the `}` that closes the object whose scan is at `i` with
/// nesting `depth`, inside a string or not, after a backslash or not.
pub open spec fn object_end(s: Seq<char>, i: int, depth: int, in_str: bool, esc: bool) -> Option<int>
    decreases s.len() - i,
{
    if i < 0 || i >= s.len() {
        None
    } else if in_str {
        if esc {
            object_end(s, i + 1, depth, true, false)
        } else if s[i] == '\\' {
            object_end(s, i + 1, depth, true, true)
        } else if s[i] == '"' {
            object_end(s, i + 1, depth, false, false)
        } else {
            object_end(s, i + 1, depth, true, false)
        }
    } else if s[i] == '"' {
        object_end(s, i + 1, depth, true, false)
    } else if s[i] == '{' {
        object_end(s, i + 1, depth + 1, false, false)
    } else if s[i] == '}' {
        if depth - 1 == 0 {
            Some(i)
        } else {
            object_end(s, i + 1, depth - 1, false, false)
        }
    } else {
        object_end(s, i + 1, depth, false, false)
    }
}

/// The first balanced JSON object in `s`: from the first `{` to the `}`
/// that closes it, braces inside strings not counted.
pub open spec fn extract_json_object_spec(s: Seq<char>) -> Option<Seq<char>> {
    match find_char_from(s, '{', 0) {
        None => None,
        Some(start) => match object_end(s, start, 0, false, false) {
            Some(end) => Some(s.subrange(start, end + 1)),
            None => None,
        },
    }
}

/// Extract the first balanced JSON object from model output that may be
/// wrapped in markdown fences or prose.
pub fn extract_json_object(s: &str) -> (r: Option<String>)
    ensures
        match r {
            Some(t) => extract_json_object_spec(s@) == Some(t@),
            None => extract_json_object_spec(s@) is None,
        },
{
    let v = chars_of(s);
    let start = match find_char_from_exec(&v, '{', 0) {
        Some(st) => st,
        None => return None,
    };
    proof {
        crate::text::lemma_find_char_from_some(v@, '{', 0);
    }
    let mut depth: usize = 0;
    let mut in_str = false;
    let mut esc = false;
    let mut i = start;
    while i < v.len()
        invariant
            start <= i <= v.len(),
            start < v.len(),
            v@[start as int] == '{',
            depth <= i - start,
            i > start ==> depth >= 1,
            i == start ==> depth == 0 && !in_str && !esc,
            !in_str ==> !esc,
            v@ == s@,
            find_char_from(v@, '{', 0) == Some(start as int),
            object_end(v@, start as int, 0, false, false) == object_end(
                v@,
                i as int,
                depth as int,
                in_str,
                esc,
            ),
        decreases v.len() - i,
    {
        let c = v[i];
        let ghost d0 = depth as int;
        let ghost s0 = in_str;
        let ghost e0 = esc;
        assert(c == v@[i as int]);
        if in_str {
            if esc {
                esc = false;
            } else if c == '\\' {
                esc = true;
            } else if c == '"' {
                in_str = false;
            }
        } else if c == '"' {
            in_str = true;
        } else if c == '{' {
            depth = depth + 1;
        } else if c == '}' {
            depth = depth - 1;
            if depth == 0 {
                assert(object_end(v@, i as int, d0, s0, e0) == Some(i as int));
                let t = slice_chars(&v, start, i + 1);
                assert(object_end(s@, start as int, 0, false, false) == Some(i as int));
                assert(extract_json_object_spec(s@) == Some(s@.subrange(start as int, i + 1)));
                return Some(string_of(&t));
            }
        }
        assert(object_end(v@, i as int, d0, s0, e0) == object_end(v@, i + 1, depth as int, in_str, esc));
        i += 1;
    }
    None
}

// ------------------------------------------------------- attempt errors ---

/// One failed provider attempt, classified for the retry policy.
pub enum AttemptError {
    /// Non-2xx from the provider; Retry-After seconds when the header came
    /// along.
    Status { code: u16, retry_after_secs: Option<u64>, msg: String },
    /// Transport or parse failure with no HTTP status.
    Other(String),
}

/// The longest wait a provider's Retry-After can impose.
pub const RETRY_AFTER_CAP_SECS: u64 = 300;

/// The longest exponential backoff.
pub const BACKOFF_CAP_SECS: u64 = 120;

pub open spec fn attempt_msg(e: AttemptError) -> Seq<char> {
    match e {
        AttemptError::Status { msg, .. } => msg@,
        AttemptError::Other(m) => m@,
    }
}

/// 429 and 5xx are retryable, as is any failure without a status; other
/// statuses are contract bugs that no retry changes.
pub open spec fn retryable_spec(e: AttemptError) -> bool {
    match e {
        AttemptError::Status { code, .. } => code == 429 || (500 <= code && code <= 599),
        AttemptError::Other(_) => true,
    }
}

/// `2^n`.
pub open spec fn two_pow(n: nat) -> nat
    decreases n,
{
    if n == 0 {
        1
    } else {
        2 * two_pow((n - 1) as nat)
    }
}

/// `base * 2^(attempt_no - 1)` seconds with the exponent capped at 5 and
/// the result at 120.
pub open spec fn backoff_secs(attempt_no: u64, base: u64) -> u64 {
    let shift: nat = if attempt_no <= 1 {
        0
    } else if attempt_no - 1 >= 5 {
        5
    } else {
        (attempt_no - 1) as nat
    };
    let m = base * two_pow(shift);
    if m >= 120 {
        120
    } else {
        m as u64
    }
}

/// The wait before the next attempt: the provider's Retry-After wins
/// (capped at 300 s); otherwise the exponential backoff.
pub open spec fn sleep_spec(e: AttemptError, attempt_no: u64, base: u64) -> u64 {
    match e {
        AttemptError::Status { retry_after_secs: Some(s), .. } => if s >= 300 {
            300
        } else {
            s
        },
        _ => backoff_secs(attempt_no, base),
    }
}

impl AttemptError {
    /// The message, whichever the kind.
    pub fn msg(&self) -> (r: String)
        ensures
            r@ == attempt_msg(*self),
    {
        match self {
            AttemptError::Status { msg, .. } => msg.clone(),
            AttemptError::Other(m) => m.clone(),
        }
    }

    /// Whether another attempt can change the outcome.
    pub fn retryable(&self) -> (r: bool)
        ensures
            r == retryable_spec(*self),
    {
        match self {
            AttemptError::Status { code, .. } => *code == 429 || (500 <= *code && *code <= 599),
            AttemptError::Other(_) => true,
        }
    }

    /// Seconds to sleep before attempt `attempt_no + 1`.
    pub fn sleep_for(&self, attempt_no: u64, base: u64) -> (r: u64)
        ensures
            r == sleep_spec(*self, attempt_no, base),
    {
        if let AttemptError::Status { retry_after_secs: Some(s), .. } = self {
            return if *s < 300 {
                *s
            } else {
                300
            };
        }
        let shift: u64 = if attempt_no <= 1 {
            0
        } else if attempt_no - 1 >= 5 {
            5
        } else {
            attempt_no - 1
        };
        let mut m: u64 = base;
        let mut k: u64 = 0;
        let mut over = false;
        assert(two_pow(0) == 1);
        while k < shift
            invariant
                k <= shift <= 5,
                !over ==> m == base * two_pow(k as nat),
                over ==> base * two_pow(k as nat) >= 120,
            decreases shift - k,
        {
            proof {
                assert(two_pow((k + 1) as nat) == 2 * two_pow(k as nat));
                assert(base * two_pow((k + 1) as nat) == 2 * (base * two_pow(k as nat))) by (nonlinear_arith)
                    requires
                        two_pow((k + 1) as nat) == 2 * two_pow(k as nat),
                ;
            }
            if !over {
                if m >= 120 {
                    over = true;
                } else {
                    m = m * 2;
                }
            }
            k += 1;
        }
        if over || m >= 120 {
            120
        } else {
            m
        }
    }
}

// ----------------------------------------------------------- retries ---

/// The retry loop's state: attempts made, the last failure, the wait
/// before the next attempt.
pub struct RetryState {
    pub attempt_no: u64,
    pub last_err: String,
    pub pending_sleep_secs: u64,
}

/// What the retry loop does after a failed attempt.
pub enum RetryDecision {
    /// Give up with this message.
    Fail(String),
    /// Try again (after `pending_sleep_secs`) if attempts remain.
    Retry,
}

impl RetryState {
    /// Before the first attempt.
    pub fn new() -> (r: Self)
        ensures
            r.attempt_no == 0,
            r.last_err@ == Seq::<char>::empty(),
            r.pending_sleep_secs == 0,
    {
        RetryState { attempt_no: 0, last_err: String::new(), pending_sleep_secs: 0 }
    }

    /// Start the next attempt if the budget allows: `Some(wait)` - sleep
    /// `wait` seconds, then attempt number `attempt_no` (now counted) -
    /// or `None` when all `attempts` are spent (the caller fails with
    /// `last_err`).
    pub fn begin_attempt(&mut self, attempts: u64) -> (r: Option<u64>)
        ensures
            old(self).attempt_no < attempts ==> r == Some(old(self).pending_sleep_secs)
                && final(self).attempt_no == old(self).attempt_no + 1,
            old(self).attempt_no >= attempts ==> r is None && final(self).attempt_no == old(
                self).attempt_no,
            final(self).last_err == old(self).last_err,
            final(self).pending_sleep_secs == old(self).pending_sleep_secs,
    {
        if self.attempt_no < attempts {
            self.attempt_no = self.attempt_no + 1;
            Some(self.pending_sleep_secs)
        } else {
            None
        }
    }

    /// After a failed attempt: a failure no retry changes ends the call
    /// at once; otherwise remember it and wait as `sleep_for` says.
    pub fn on_error(&mut self, e: &AttemptError, base: u64) -> (r: RetryDecision)
        ensures
            !retryable_spec(*e) ==> (r matches RetryDecision::Fail(m) && m@ == attempt_msg(*e)),
            !retryable_spec(*e) ==> final(self).last_err == old(self).last_err
                && final(self).pending_sleep_secs == old(self).pending_sleep_secs,
            retryable_spec(*e) ==> r is Retry && final(self).last_err@ == attempt_msg(*e)
                && final(self).pending_sleep_secs == sleep_spec(*e, old(self).attempt_no, base),
            final(self).attempt_no == old(self).attempt_no,
    {
        if !e.retryable() {
            return RetryDecision::Fail(e.msg());
        }
        self.pending_sleep_secs = e.sleep_for(self.attempt_no, base);
        self.last_err = e.msg();
        RetryDecision::Retry
    }

    /// After the worker thread died without an answer: retry after `base`
    /// seconds.
    pub fn on_worker_lost(&mut self, provider: &str, base: u64)
        ensures
            final(self).last_err@ == provider@ + ": worker thread died"@,
            final(self).pending_sleep_secs == base,
            final(self).attempt_no == old(self).attempt_no,
    {
        let mut t = chars_of(provider);
        extend_str(&mut t, ": worker thread died");
        self.last_err = string_of(&t);
        self.pending_sleep_secs = base;
    }
}

/// The result of one completed model call.
pub struct CallResult {
    pub completion: String,
    pub input_tokens: u64,
    pub output_tokens: u64,
    pub cached_tokens: u64,
    pub cost_usd_micros: i64,
    /// Conservative list-rate cost: every input token at the full in-rate,
    /// every output token at the full out-rate, no cache credit. Budget
    /// guards bind this figure.
    pub conservative_cost_usd_micros: i64,
}

/// One parsed provider response.
pub struct ParsedCall {
    pub completion: String,
    pub input_tokens: u64,
    pub output_tokens: u64,
    pub cached_tokens: u64,
    pub reasoning_tokens: u64,
    /// The reasoning text itself (empty when the provider sends none).
    pub reasoning_content: String,
    pub cost_usd_micros: i64,
    /// The conservative list-rate counterpart (no cache credit).
    pub conservative_cost_usd_micros: i64,
}

/// The waits are bounded: a provider's Retry-After is honoured up to
/// 300 s, and the exponential backoff never exceeds 120 s.
pub proof fn law_waits_are_capped(e: AttemptError, attempt_no: u64, base: u64)
    ensures
        sleep_spec(e, attempt_no, base) <= 300,
        backoff_secs(attempt_no, base) <= 120,
        (e matches AttemptError::Status { retry_after_secs: Some(_), .. }) || sleep_spec(e, attempt_no, base) <= 120,
{
}

/// 429 and 5xx are retried; every other status fails at once; a failure
/// without a status is retried.
pub proof fn law_retry_classes(code: u16, msg: String)
    ensures
        retryable_spec(AttemptError::Status { code, retry_after_secs: None, msg }) <==> (code == 429 || (500
            <= code && code <= 599)),
        retryable_spec(AttemptError::Other(msg)),
{
}

/// Token counts of a reply's `usage` block.
pub struct UsageTokens {
    pub input: u64,
    pub output: u64,
    /// Input tokens served from the provider's cache (never more than
    /// the input).
    pub cached: u64,
    pub reasoning: u64,
}

pub open spec fn u64_or_zero(j: Json) -> u64 {
    match as_u64(j) {
        Some(n) => n,
        None => 0,
    }
}

/// Cached input tokens: DeepSeek's `prompt_cache_hit_tokens`, else the
/// OpenAI-style `prompt_tokens_details.cached_tokens`, capped at the input.
pub open spec fn cached_tokens_spec(u: Json) -> u64 {
    let c = match as_u64(get(u, "prompt_cache_hit_tokens"@)) {
        Some(n) => n,
        None => u64_or_zero(get(get(u, "prompt_tokens_details"@), "cached_tokens"@)),
    };
    let input = u64_or_zero(get(u, "prompt_tokens"@));
    if c < input {
        c
    } else {
        input
    }
}

pub open spec fn usage_matches(t: UsageTokens, u: Json) -> bool {
    &&& t.input == u64_or_zero(get(u, "prompt_tokens"@))
    &&& t.output == u64_or_zero(get(u, "completion_tokens"@))
    &&& t.reasoning == u64_or_zero(get(get(u, "completion_tokens_details"@), "reasoning_tokens"@))
    &&& t.cached == cached_tokens_spec(u)
}

fn u64_member(j: Option<&Json>, key: &str) -> (r: u64)
    ensures
        r == u64_or_zero(get(null_or(j), key@)),
{
    match member(j, key) {
        Some(Json::Number(JsonNumber::PosInt(n))) => *n,
        _ => 0,
    }
}

/// The token counts of a `usage` block (absent counts read as zero).
pub fn usage_tokens(usage: &Json) -> (r: UsageTokens)
    ensures
        usage_matches(r, *usage),
{
    let u = Some(usage);
    let input = u64_member(u, "prompt_tokens");
    let output = u64_member(u, "completion_tokens");
    let reasoning = u64_member(member(u, "completion_tokens_details"), "reasoning_tokens");
    let hit = match member(u, "prompt_cache_hit_tokens") {
        Some(Json::Number(JsonNumber::PosInt(n))) => *n,
        _ => u64_member(member(u, "prompt_tokens_details"), "cached_tokens"),
    };
    let cached = if hit < input {
        hit
    } else {
        input
    };
    UsageTokens { input, output, cached, reasoning }
}

/// A free-form reply: its completion, reasoning text and token counts.
pub struct LegacyReply {
    pub completion: String,
    pub reasoning_content: String,
    pub tokens: UsageTokens,
}

pub open spec fn choice_message(v: Json) -> Json {
    get(item(get(v, "choices"@), 0), "message"@)
}

pub open spec fn finish_reason_spec(v: Json) -> Seq<char> {
    match as_str(get(item(get(v, "choices"@), 0), "finish_reason"@)) {
        Some(s) => s,
        None => "<none>"@,
    }
}

/// The completion of a free-form reply: the first JSON object in it, or
/// the whole content when it holds none.
pub open spec fn legacy_completion(raw: Seq<char>) -> Seq<char> {
    match extract_json_object_spec(raw) {
        Some(o) => o,
        None => raw,
    }
}

/// Parse a free-form (no tools) chat-completions reply of `provider`. Its
/// content is returned verbatim when it holds no JSON object; a reply
/// without content is an error naming the finish reason.
pub fn parse_legacy_reply(provider: &str, v: &Json) -> (r: Result<LegacyReply, String>)
    ensures
        match as_str(get(choice_message(*v), "content"@)) {
            None => r matches Err(e) && e@ == provider@ + ": no choices[0].message.content (finish_reason="@
                + finish_reason_spec(*v) + ")"@,
            Some(raw) => r matches Ok(p) && {
                &&& p.completion@ == legacy_completion(raw)
                &&& p.reasoning_content@ == match as_str(get(choice_message(*v), "reasoning_content"@)) {
                    Some(t) => t,
                    None => Seq::empty(),
                }
                &&& usage_matches(p.tokens, get(*v, "usage"@))
            },
        },
{
    let choice = first_item(member(Some(v), "choices"));
    let msg = member(choice, "message");
    let raw = match member(msg, "content") {
        Some(Json::Str(s)) => s,
        _ => {
            let mut e = chars_of(provider);
            extend_str(&mut e, ": no choices[0].message.content (finish_reason=");
            match member(choice, "finish_reason") {
                Some(Json::Str(f)) => extend_str(&mut e, f.as_str()),
                _ => {
                    proof {
                        reveal_strlit("<none>");
                    }
                    extend_str(&mut e, "<none>")
                },
            }
            extend_str(&mut e, ")");
            return Err(string_of(&e));
        },
    };
    let completion = match extract_json_object(raw.as_str()) {
        Some(o) => o,
        None => string_of(&chars_of(raw.as_str())),
    };
    let reasoning_content = match member(msg, "reasoning_content") {
        Some(Json::Str(t)) => string_of(&chars_of(t.as_str())),
        _ => String::new(),
    };
    let tokens = match member(Some(v), "usage") {
        Some(u) => usage_tokens(u),
        None => {
            let n = Json::Null;
            usage_tokens(&n)
        },
    };
    Ok(LegacyReply { completion, reasoning_content, tokens })
}

/// The error of a non-2xx provider response: its status, the Retry-After
/// header's whole seconds when it reads as one (surrounding whitespace
/// ignored), and the message naming the provider and status.
pub fn status_error(provider: &str, code: u16, retry_after: Option<&str>) -> (r: AttemptError)
    ensures
        r matches AttemptError::Status { code: c, retry_after_secs, msg } && c == code && msg@ == provider@
            + ": HTTP "@ + crate::text::dec(code as nat) + " from provider"@ && retry_after_secs == match retry_after {
            Some(h) => crate::cli::parsed_u64(crate::text::trim(h@)),
            None => None,
        },
{
    let secs = match retry_after {
        Some(h) => {
            let t = string_of(&crate::text::trim_chars(&chars_of(h)));
            crate::text::parse_unsigned(t.as_str(), 18_446_744_073_709_551_615u64)
        },
        None => None,
    };
    let mut m = chars_of(provider);
    extend_str(&mut m, ": HTTP ");
    crate::text::push_dec(&mut m, code as u64);
    extend_str(&mut m, " from provider");
    AttemptError::Status { code, retry_after_secs: secs, msg: string_of(&m) }
}

} // verus!
