//! What a session reads from its run configuration text (a TOML
//! document, parsed by the toml crate): the persisted step and wall caps,
//! the critic's caps, and the label and context window of the default
//! model; and how a `/caps` change edits that text. Reading and writing
//! the file happen outside.
use vstd::prelude::*;
use crate::cli::parsed_u64;
use crate::repl::{toml_upsert, toml_upsert_spec, usd_literal, usd_literal_spec};
use crate::text::{chars_of, dec, extend_str, string_of};

verus! {

broadcast use vstd::string::group_string_axioms;

// ------------------------------------------------------------ parsing ---

#[verifier::external_type_specification]
#[verifier::external_body]
pub struct ExTomlValue(toml::Value);

/// What `toml::from_str::<toml::Value>` makes of a text: the document, or
/// `None` when the text is not a TOML document.
pub uninterp spec fn toml_document(text: Seq<char>) -> Option<toml::Value>;

/// What `toml::Value::get` gives for a string key (a table's entry).
pub uninterp spec fn toml_member(v: toml::Value, key: Seq<char>) -> Option<toml::Value>;

/// What `toml::Value::as_integer` gives.
pub uninterp spec fn toml_integer(v: toml::Value) -> Option<i64>;

/// What `toml::Value::is_table` gives.
pub uninterp spec fn toml_is_table(v: toml::Value) -> bool;

/// What `toml::Value::as_array` gives: the array's items.
pub uninterp spec fn toml_array(v: toml::Value) -> Option<Seq<toml::Value>>;

/// What `toml::Value::as_bool` gives.
pub uninterp spec fn toml_bool(v: toml::Value) -> Option<bool>;

/// What `toml::Value::as_str` gives.
pub uninterp spec fn toml_str(v: toml::Value) -> Option<Seq<char>>;

/// `toml::from_str::<toml::Value>`, a parse error as `None`.
#[verifier::external_body]
fn parse_toml(text: &str) -> (r: Option<toml::Value>)
    ensures
        r == toml_document(text@),
{
    toml::from_str::<toml::Value>(text).ok()
}

/// `toml::Value::get` with a string key.
#[verifier::external_body]
fn toml_get<'a>(v: &'a toml::Value, key: &str) -> (r: Option<&'a toml::Value>)
    ensures
        match r {
            Some(m) => toml_member(*v, key@) == Some(*m),
            None => toml_member(*v, key@) is None,
        },
{
    v.get(key)
}

/// `toml::Value::as_integer`.
#[verifier::external_body]
fn toml_as_integer(v: &toml::Value) -> (r: Option<i64>)
    ensures
        r == toml_integer(*v),
{
    v.as_integer()
}

/// `toml::Value::is_table`.
#[verifier::external_body]
fn toml_table_check(v: &toml::Value) -> (r: bool)
    ensures
        r == toml_is_table(*v),
{
    v.is_table()
}

/// `toml::Value::as_array`.
#[verifier::external_body]
fn toml_as_array<'a>(v: &'a toml::Value) -> (r: Option<&'a Vec<toml::Value>>)
    ensures
        match r {
            Some(a) => toml_array(*v) == Some(a@),
            None => toml_array(*v) is None,
        },
{
    v.as_array()
}

/// `toml::Value::as_bool`.
#[verifier::external_body]
fn toml_as_bool(v: &toml::Value) -> (r: Option<bool>)
    ensures
        r == toml_bool(*v),
{
    v.as_bool()
}

/// `toml::Value::as_str`, the text copied out.
#[verifier::external_body]
fn toml_as_str(v: &toml::Value) -> (r: Option<String>)
    ensures
        match r {
            Some(s) => toml_str(*v) == Some(s@),
            None => toml_str(*v) is None,
        },
{
    v.as_str().map(|s| s.to_string())
}

// ------------------------------------------------------------ readers ---

/// `doc[section][key]` as an integer, when `section` is a table holding
/// an integer `key`.
pub open spec fn table_int(doc: toml::Value, section: Seq<char>, key: Seq<char>) -> Option<i64> {
    match toml_member(doc, section) {
        Some(t) => if toml_is_table(t) {
            match toml_member(t, key) {
                Some(v) => toml_integer(v),
                None => None,
            }
        } else {
            None
        },
        None => None,
    }
}

fn table_int_exec(doc: &toml::Value, section: &str, key: &str) -> (r: Option<i64>)
    ensures
        r == table_int(*doc, section@, key@),
{
    match toml_get(doc, section) {
        Some(t) => if toml_table_check(t) {
            match toml_get(t, key) {
                Some(v) => toml_as_integer(v),
                None => None,
            }
        } else {
            None
        },
        None => None,
    }
}

/// A step count as `[run] max_steps` holds it: at least one step; a
/// count past `u32` is no cap.
pub open spec fn step_count(n: i64) -> Option<u32> {
    let m = if n < 1 {
        1
    } else {
        n
    };
    if m <= u32::MAX {
        Some(m as u32)
    } else {
        None
    }
}

/// `[run] max_steps` of a configuration document.
pub open spec fn max_steps_spec(doc: toml::Value) -> Option<u32> {
    match table_int(doc, "run"@, "max_steps"@) {
        Some(n) => step_count(n),
        None => None,
    }
}

/// `[run] max_steps` of a configuration text (`None` when the text is
/// not TOML).
pub open spec fn max_steps_of_text(text: Seq<char>) -> Option<u32> {
    match toml_document(text) {
        Some(doc) => max_steps_spec(doc),
        None => None,
    }
}

/// `[run] max_steps` of a parsed configuration.
pub fn max_steps_of(doc: &toml::Value) -> (r: Option<u32>)
    ensures
        r == max_steps_spec(*doc),
{
    match table_int_exec(doc, "run", "max_steps") {
        Some(n) => {
            let m: i64 = if n < 1 {
                1
            } else {
                n
            };
            if m <= 4_294_967_295i64 {
                Some(m as u32)
            } else {
                None
            }
        },
        None => None,
    }
}

/// `[run] max_steps` of the configuration text: the step cap a restarted
/// session arms.
pub fn configured_max_steps(text: &str) -> (r: Option<u32>)
    ensures
        r == max_steps_of_text(text@),
{
    match parse_toml(text) {
        Some(doc) => max_steps_of(&doc),
        None => None,
    }
}

/// A non-negative integer setting (negative values read as zero).
pub open spec fn nonneg_setting(doc: toml::Value, section: Seq<char>, key: Seq<char>) -> Option<u64> {
    match table_int(doc, section, key) {
        Some(n) => Some(
            if n < 0 {
                0
            } else {
                n as u64
            },
        ),
        None => None,
    }
}

/// A non-negative integer setting of a configuration text.
pub open spec fn nonneg_of_text(text: Seq<char>, section: Seq<char>, key: Seq<char>) -> Option<u64> {
    match toml_document(text) {
        Some(doc) => nonneg_setting(doc, section, key),
        None => None,
    }
}

fn nonneg_exec(doc: &toml::Value, section: &str, key: &str) -> (r: Option<u64>)
    ensures
        r == nonneg_setting(*doc, section@, key@),
{
    match table_int_exec(doc, section, key) {
        Some(n) => Some(
            if n < 0 {
                0
            } else {
                n as u64
            },
        ),
        None => None,
    }
}

/// `[run] wall_secs` of the configuration text (absent: no wall cap).
pub fn configured_wall_secs(text: &str) -> (r: Option<u64>)
    ensures
        r == nonneg_of_text(text@, "run"@, "wall_secs"@),
{
    match parse_toml(text) {
        Some(doc) => nonneg_exec(&doc, "run", "wall_secs"),
        None => None,
    }
}

/// `[critic] max_steps / wall_secs / budget_micros` of the configuration
/// text: the persisted critic caps.
pub fn configured_critic_caps(text: &str) -> (r: (Option<u64>, Option<u64>, Option<u64>))
    ensures
        r.0 == nonneg_of_text(text@, "critic"@, "max_steps"@),
        r.1 == nonneg_of_text(text@, "critic"@, "wall_secs"@),
        r.2 == nonneg_of_text(text@, "critic"@, "budget_micros"@),
{
    match parse_toml(text) {
        Some(doc) => (
            nonneg_exec(&doc, "critic", "max_steps"),
            nonneg_exec(&doc, "critic", "wall_secs"),
            nonneg_exec(&doc, "critic", "budget_micros"),
        ),
        None => (None, None, None),
    }
}

/// The first model block marked `default = true`, from `i`.
pub open spec fn default_block(ms: Seq<toml::Value>, i: int) -> Option<toml::Value>
    decreases ms.len() - i,
{
    if i < 0 || i >= ms.len() {
        None
    } else if (match toml_member(ms[i], "default"@) {
        Some(d) => toml_bool(d) == Some(true),
        None => false,
    }) {
        Some(ms[i])
    } else {
        default_block(ms, i + 1)
    }
}

/// The default model's block: the first `[[models]]` block marked
/// default, or else the first block.
pub open spec fn chosen_model(doc: toml::Value) -> Option<toml::Value> {
    match toml_member(doc, "models"@) {
        Some(m) => match toml_array(m) {
            Some(ms) => match default_block(ms, 0) {
                Some(b) => Some(b),
                None => if ms.len() > 0 {
                    Some(ms[0])
                } else {
                    None
                },
            },
            None => None,
        },
        None => None,
    }
}

fn chosen_model_exec(doc: &toml::Value) -> (r: Option<&toml::Value>)
    ensures
        match r {
            Some(b) => chosen_model(*doc) == Some(*b),
            None => chosen_model(*doc) is None,
        },
{
    let ms = match toml_get(doc, "models") {
        Some(m) => match toml_as_array(m) {
            Some(a) => a,
            None => return None,
        },
        None => return None,
    };
    let ghost m = toml_member(*doc, "models"@)->0;
    let mut i: usize = 0;
    while i < ms.len()
        invariant
            i <= ms.len(),
            toml_member(*doc, "models"@) == Some(m),
            toml_array(m) == Some(ms@),
            default_block(ms@, 0) == default_block(ms@, i as int),
        decreases ms.len() - i,
    {
        let is_default = match toml_get(&ms[i], "default") {
            Some(d) => match toml_as_bool(d) {
                Some(b) => b,
                None => false,
            },
            None => false,
        };
        if is_default {
            return Some(&ms[i]);
        }
        i += 1;
    }
    if ms.len() > 0 {
        Some(&ms[0])
    } else {
        None
    }
}

/// The label of the default model: the `name` of its block.
pub open spec fn model_label_spec(doc: toml::Value) -> Option<Seq<char>> {
    match chosen_model(doc) {
        Some(b) => match toml_member(b, "name"@) {
            Some(n) => toml_str(n),
            None => None,
        },
        None => None,
    }
}

/// The default model's label of a configuration text.
pub open spec fn model_label_of_text(text: Seq<char>) -> Option<Seq<char>> {
    match toml_document(text) {
        Some(doc) => model_label_spec(doc),
        None => None,
    }
}

/// The configured default model's name, for the status bar.
pub fn configured_model_label(text: &str) -> (r: Option<String>)
    ensures
        match r {
            Some(n) => model_label_of_text(text@) == Some(n@),
            None => model_label_of_text(text@) is None,
        },
{
    let doc = match parse_toml(text) {
        Some(d) => d,
        None => return None,
    };
    match chosen_model_exec(&doc) {
        Some(b) => match toml_get(b, "name") {
            Some(n) => toml_as_str(n),
            None => None,
        },
        None => None,
    }
}

/// The default model's context window in tokens: its block's
/// `context_tokens` integer, taken as a `usize`.
pub open spec fn context_tokens_spec(doc: toml::Value) -> Option<usize> {
    match chosen_model(doc) {
        Some(b) => match toml_member(b, "context_tokens"@) {
            Some(v) => match toml_integer(v) {
                Some(n) => Some(n as usize),
                None => None,
            },
            None => None,
        },
        None => None,
    }
}

/// The default model's context window of a configuration text.
pub open spec fn context_tokens_of_text(text: Seq<char>) -> Option<usize> {
    match toml_document(text) {
        Some(doc) => context_tokens_spec(doc),
        None => None,
    }
}

/// The configured default model's context window in tokens.
pub fn configured_context_tokens(text: &str) -> (r: Option<usize>)
    ensures
        r == context_tokens_of_text(text@),
{
    let doc = match parse_toml(text) {
        Some(d) => d,
        None => return None,
    };
    match chosen_model_exec(&doc) {
        Some(b) => match toml_get(b, "context_tokens") {
            Some(v) => match toml_as_integer(v) {
                Some(n) => Some(n as usize),
                None => None,
            },
            None => None,
        },
        None => None,
    }
}

// ------------------------------------------------------- cap edits ---

/// Chain a second edit after a first that succeeded.
pub open spec fn then_upsert(first: Result<Seq<char>, Seq<char>>, section: Seq<char>, key: Seq<char>, value: Option<Seq<char>>) -> Result<Seq<char>, Seq<char>> {
    match first {
        Ok(t) => toml_upsert_spec(t, section, key, value),
        Err(e) => Err(e),
    }
}

pub open spec fn quoted(value: Seq<char>) -> Seq<char> {
    "'"@ + value + "'"@
}

/// A whole number of steps or seconds written into `[section] key`, or
/// `off` removing it when `off_removes`.
pub open spec fn number_edit(text: Seq<char>, value: Seq<char>, section: Seq<char>, key: Seq<char>, off_removes: bool, err: Seq<char>) -> Result<Seq<char>, Seq<char>> {
    if off_removes && value == "off"@ {
        toml_upsert_spec(text, section, key, None)
    } else {
        match parsed_u64(value) {
            Some(n) => toml_upsert_spec(text, section, key, Some(dec(n as nat))),
            None => Err(err + quoted(value)),
        }
    }
}

/// How a `/caps` change edits the configuration text. `dollars` is the
/// value read as dollars, in micro-dollars (`None` when it is no number).
/// The run budget is always written as a float literal and replaces any
/// micro-dollar budget; `off` removes a run cap.
pub open spec fn cap_edit_spec(text: Seq<char>, key: Seq<char>, value: Seq<char>, dollars: Option<u64>) -> Result<Seq<char>, Seq<char>> {
    if key == "steps"@ {
        number_edit(text, value, "run"@, "max_steps"@, true, "steps needs a number (or off), got "@)
    } else if key == "wall"@ {
        number_edit(text, value, "run"@, "wall_secs"@, true, "wall needs seconds, got "@)
    } else if key == "budget"@ {
        if value == "off"@ {
            then_upsert(toml_upsert_spec(text, "run"@, "budget_usd"@, None), "run"@, "budget_micros"@, None)
        } else {
            match dollars {
                Some(m) => then_upsert(
                    toml_upsert_spec(text, "run"@, "budget_usd"@, Some(usd_literal_spec(m))),
                    "run"@,
                    "budget_micros"@,
                    None,
                ),
                None => Err("budget needs dollars (or off), got "@ + quoted(value)),
            }
        }
    } else if key == "critic-steps"@ {
        number_edit(text, value, "critic"@, "max_steps"@, false, "critic-steps needs a number, got "@)
    } else if key == "critic-wall"@ {
        number_edit(text, value, "critic"@, "wall_secs"@, false, "critic-wall needs seconds, got "@)
    } else if key == "critic-budget"@ {
        match dollars {
            Some(m) => toml_upsert_spec(text, "critic"@, "budget_micros"@, Some(dec(m as nat))),
            None => Err("critic-budget needs dollars, got "@ + quoted(value)),
        }
    } else {
        Err("unknown cap "@ + quoted(key))
    }
}

fn upsert(text: &str, section: &str, key: &str, value: Option<&str>) -> (r: Result<String, String>)
    ensures
        match r {
            Ok(t) => toml_upsert_spec(text@, section@, key@, crate::text::opt_str(value)) == Ok::<Seq<char>, Seq<char>>(t@),
            Err(e) => toml_upsert_spec(text@, section@, key@, crate::text::opt_str(value)) == Err::<Seq<char>, Seq<char>>(e@),
        },
{
    toml_upsert(text, section, key, value)
}

fn number_edit_exec(text: &str, value: &str, section: &str, key: &str, off_removes: bool, err: &str) -> (r: Result<String, String>)
    ensures
        match r {
            Ok(t) => number_edit(text@, value@, section@, key@, off_removes, err@) == Ok::<Seq<char>, Seq<char>>(t@),
            Err(e) => number_edit(text@, value@, section@, key@, off_removes, err@) == Err::<Seq<char>, Seq<char>>(e@),
        },
{
    if off_removes && crate::text::str_eq(value, "off") {
        return upsert(text, section, key, None);
    }
    match crate::cli::parse_u64(value) {
        Some(n) => {
            let d = string_of(&crate::text::dec_u64(n));
            let ds = d.as_str();
            assert(crate::text::opt_str(Some(ds)) == Some(dec(n as nat)));
            upsert(text, section, key, Some(ds))
        },
        None => Err(quoted_error(err, value)),
    }
}

fn quoted_error(head: &str, value: &str) -> (r: String)
    ensures
        r@ == head@ + quoted(value@),
{
    let mut e = chars_of(head);
    extend_str(&mut e, "'");
    extend_str(&mut e, value);
    extend_str(&mut e, "'");
    assert(e@ =~= head@ + quoted(value@));
    string_of(&e)
}

/// The configuration text after a `/caps` change of `key` to `value`.
pub fn cap_edit(text: &str, key: &str, value: &str, dollars: Option<u64>) -> (r: Result<String, String>)
    ensures
        match r {
            Ok(t) => cap_edit_spec(text@, key@, value@, dollars) == Ok::<Seq<char>, Seq<char>>(t@),
            Err(e) => cap_edit_spec(text@, key@, value@, dollars) == Err::<Seq<char>, Seq<char>>(e@),
        },
{
    if crate::text::str_eq(key, "steps") {
        number_edit_exec(text, value, "run", "max_steps", true, "steps needs a number (or off), got ")
    } else if crate::text::str_eq(key, "wall") {
        number_edit_exec(text, value, "run", "wall_secs", true, "wall needs seconds, got ")
    } else if crate::text::str_eq(key, "budget") {
        let first = if crate::text::str_eq(value, "off") {
            upsert(text, "run", "budget_usd", None)
        } else {
            match dollars {
                Some(m) => {
                    let lit = usd_literal(m);
                    upsert(text, "run", "budget_usd", Some(lit.as_str()))
                },
                None => return Err(quoted_error("budget needs dollars (or off), got ", value)),
            }
        };
        match first {
            Ok(t) => upsert(t.as_str(), "run", "budget_micros", None),
            Err(e) => Err(e),
        }
    } else if crate::text::str_eq(key, "critic-steps") {
        number_edit_exec(text, value, "critic", "max_steps", false, "critic-steps needs a number, got ")
    } else if crate::text::str_eq(key, "critic-wall") {
        number_edit_exec(text, value, "critic", "wall_secs", false, "critic-wall needs seconds, got ")
    } else if crate::text::str_eq(key, "critic-budget") {
        match dollars {
            Some(m) => {
                let d = string_of(&crate::text::dec_u64(m));
                upsert(text, "critic", "budget_micros", Some(d.as_str()))
            },
            None => Err(quoted_error("critic-budget needs dollars, got ", value)),
        }
    } else {
        Err(quoted_error("unknown cap ", key))
    }
}


/// Each `/caps` key edits its own key of its own section, exactly as a
/// single upsert would: `steps` and `wall` the run's `max_steps` and
/// `wall_secs` (`off` removing them), `critic-steps` and `critic-wall` the
/// critic's, `critic-budget` the critic's `budget_micros`; a critic value
/// that is no number is refused.
pub proof fn law_cap_keys_write_their_own_setting(text: Seq<char>, value: Seq<char>, dollars: Option<u64>)
    ensures
        parsed_u64(value) matches Some(n) ==> cap_edit_spec(text, "critic-steps"@, value, dollars)
            == toml_upsert_spec(text, "critic"@, "max_steps"@, Some(dec(n as nat))),
        parsed_u64(value) matches Some(n) ==> cap_edit_spec(text, "critic-wall"@, value, dollars)
            == toml_upsert_spec(text, "critic"@, "wall_secs"@, Some(dec(n as nat))),
        parsed_u64(value) is None ==> cap_edit_spec(text, "critic-steps"@, value, dollars) is Err,
        parsed_u64(value) is None ==> cap_edit_spec(text, "critic-wall"@, value, dollars) is Err,
        value != "off"@ ==> (parsed_u64(value) matches Some(n) ==> cap_edit_spec(text, "steps"@, value, dollars)
            == toml_upsert_spec(text, "run"@, "max_steps"@, Some(dec(n as nat)))),
        value != "off"@ ==> (parsed_u64(value) matches Some(n) ==> cap_edit_spec(text, "wall"@, value, dollars)
            == toml_upsert_spec(text, "run"@, "wall_secs"@, Some(dec(n as nat)))),
        cap_edit_spec(text, "steps"@, "off"@, dollars) == toml_upsert_spec(text, "run"@, "max_steps"@, None),
        cap_edit_spec(text, "wall"@, "off"@, dollars) == toml_upsert_spec(text, "run"@, "wall_secs"@, None),
        dollars matches Some(m) ==> cap_edit_spec(text, "critic-budget"@, value, dollars) == toml_upsert_spec(
            text,
            "critic"@,
            "budget_micros"@,
            Some(dec(m as nat)),
        ),
{
    reveal_strlit("steps");
    reveal_strlit("wall");
    reveal_strlit("budget");
    reveal_strlit("critic-steps");
    reveal_strlit("critic-wall");
    reveal_strlit("critic-budget");
    assert("steps"@.len() == 5 && "wall"@.len() == 4 && "budget"@.len() == 6 && "critic-steps"@.len() == 12
        && "critic-wall"@.len() == 11 && "critic-budget"@.len() == 13);
}

/// The run budget is written in dollars and replaces any micro-dollar
/// budget (`off` removes both); a key that names no cap is refused, the
/// text untouched.
pub proof fn law_budget_and_unknown_caps(text: Seq<char>, key: Seq<char>, value: Seq<char>, dollars: Option<u64>)
    ensures
        value != "off"@ ==> (dollars matches Some(m) ==> cap_edit_spec(text, "budget"@, value, dollars) == (
        match toml_upsert_spec(text, "run"@, "budget_usd"@, Some(usd_literal_spec(m))) {
            Ok(t) => toml_upsert_spec(t, "run"@, "budget_micros"@, None),
            Err(e) => Err(e),
        })),
        value != "off"@ ==> (dollars is None ==> cap_edit_spec(text, "budget"@, value, dollars) is Err),
        cap_edit_spec(text, "budget"@, "off"@, dollars) == (match toml_upsert_spec(text, "run"@, "budget_usd"@, None) {
            Ok(t) => toml_upsert_spec(t, "run"@, "budget_micros"@, None),
            Err(e) => Err(e),
        }),
        (key != "steps"@ && key != "wall"@ && key != "budget"@ && key != "critic-steps"@ && key != "critic-wall"@
            && key != "critic-budget"@) ==> cap_edit_spec(text, key, value, dollars) == Err::<Seq<char>, Seq<char>>(
            "unknown cap '"@ + key + "'"@,
        ),
{
    reveal_strlit("steps");
    reveal_strlit("wall");
    reveal_strlit("budget");
    reveal_strlit("critic-steps");
    reveal_strlit("critic-wall");
    reveal_strlit("critic-budget");
    reveal_strlit("unknown cap ");
    reveal_strlit("'");
    reveal_strlit("unknown cap '");
    assert("steps"@.len() == 5 && "wall"@.len() == 4 && "budget"@.len() == 6 && "critic-steps"@.len() == 12
        && "critic-wall"@.len() == 11 && "critic-budget"@.len() == 13);
    assert("unknown cap "@ + quoted(key) =~= "unknown cap '"@ + key + "'"@);
}
} // verus!
