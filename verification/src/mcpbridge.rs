//! The client-side MCP bridge's rules: tool namespacing and the
//! allowed-roots path check, also applied to a call's path arguments
//! before its server is spawned. Server configuration is read from TOML
//! outside; the server lifecycle runs outside too.
use vstd::prelude::*;
use crate::repexec::{char_pred, split_char, split_where};
use crate::json::{as_str, get, get_str, Json};
use crate::text::{
    trim, trim_chars, chars_eq, chars_of, eq_str, extend_chars, extend_str, join, join_exec, starts_with,
    starts_with_exec, string_of, trim_end_char, trim_end_char_chars,
};

verus! {

broadcast use vstd::string::group_string_axioms;

/// One configured MCP server: its name, the command that starts it, and
/// the roots its path arguments must stay under.
#[derive(Clone, Debug)]
pub struct McpServerConfig {
    pub name: String,
    pub command: Vec<String>,
    pub allowed_roots: Vec<String>,
}

/// The model-facing name of a server's tool.
pub open spec fn namespaced_tool_spec(server: Seq<char>, tool: Seq<char>) -> Seq<char> {
    "mcp."@ + server + "."@ + tool
}

/// Every MCP tool reaches the model namespaced by server:
/// `mcp.<server>.<tool>`. No bare names - a server cannot shadow a builtin.
pub fn namespaced_tool(server: &str, tool: &str) -> (r: String)
    ensures
        r@ == namespaced_tool_spec(server@, tool@),
{
    let mut t = chars_of("mcp.");
    extend_str(&mut t, server);
    extend_str(&mut t, ".");
    extend_str(&mut t, tool);
    string_of(&t)
}

/// The path components that survive lexical normalization: empty and `.`
/// components vanish, `..` drops the component before it (none above the
/// root), every other component stays.
pub open spec fn norm_components(segs: Seq<Seq<char>>) -> Seq<Seq<char>>
    decreases segs.len(),
{
    if segs.len() == 0 {
        Seq::empty()
    } else {
        let acc = norm_components(segs.drop_last());
        let s = segs.last();
        if s.len() == 0 || s == "."@ {
            acc
        } else if s == ".."@ {
            if acc.len() > 0 {
                acc.drop_last()
            } else {
                acc
            }
        } else {
            acc.push(s)
        }
    }
}

/// The absolute, lexically normalized form of a path (no filesystem
/// access: the path may not exist yet).
pub open spec fn normalize_path(path: Seq<char>) -> Seq<char> {
    "/"@ + join(norm_components(split_where(path, char_pred('/'))), "/"@)
}

/// A root admits a normalized path equal to it or under it (the root's
/// trailing slashes ignored).
pub open spec fn root_admits(normalized: Seq<char>, root: Seq<char>) -> bool {
    let r = trim_end_char(root, '/');
    normalized == r || starts_with(normalized, r + "/"@)
}

/// What `format!("{:?}", v)` writes for a list of strings.
pub uninterp spec fn debug_string_list(v: Seq<Seq<char>>) -> Seq<char>;

/// The Debug rendering of a list of strings (`format!("{:?}", v)`).
#[verifier::external_body]
fn debug_list(v: &Vec<String>) -> (r: String)
    ensures
        r@ == debug_string_list(v@.map_values(|s: String| s@)),
{
    format!("{:?}", v)
}

pub open spec fn roots_of(cfg: McpServerConfig) -> Seq<Seq<char>> {
    cfg.allowed_roots@.map_values(|s: String| s@)
}

/// The refusal of a path outside every allowed root.
pub open spec fn outside_roots_error(cfg: McpServerConfig, path: Seq<char>) -> Seq<char> {
    "mcp."@ + cfg.name@ + ": path "@ + path + " outside allowed_roots "@ + debug_string_list(
        roots_of(cfg),
    ) + " (deny by default)"@
}

/// Lexically normalized `path` (from its components).
pub fn normalize_path_exec(path: &str) -> (r: Vec<char>)
    ensures
        r@ == normalize_path(path@),
{
    let pv = chars_of(path);
    let segs = split_char(&pv, '/');
    let ghost sg = segs@.map_values(|x: Vec<char>| x@);
    let mut norm: Vec<Vec<char>> = Vec::new();
    let mut i: usize = 0;
    let dot = chars_of(".");
    let dotdot = chars_of("..");
    proof {
        reveal_strlit(".");
        reveal_strlit("..");
        assert(sg.take(0) =~= Seq::<Seq<char>>::empty());
    }
    while i < segs.len()
        invariant
            i <= segs.len(),
            sg == segs@.map_values(|x: Vec<char>| x@),
            dot@ == "."@,
            dotdot@ == ".."@,
            norm@.map_values(|x: Vec<char>| x@) == norm_components(sg.take(i as int)),
        decreases segs.len() - i,
    {
        let s = &segs[i];
        proof {
            assert(sg.take(i + 1).drop_last() =~= sg.take(i as int));
            assert(sg.take(i + 1).last() == s@);
        }
        if s.len() == 0 || chars_eq(s, &dot) {
        } else if chars_eq(s, &dotdot) {
            if norm.len() > 0 {
                norm.pop();
                proof {
                    assert(norm@.map_values(|x: Vec<char>| x@) =~= norm_components(
                        sg.take(i as int),
                    ).drop_last());
                }
            }
        } else {
            let c = slice_all(s);
            proof {
                assert(norm@.push(c).map_values(|x: Vec<char>| x@) =~= norm@.map_values(
                    |x: Vec<char>| x@,
                ).push(c@));
            }
            norm.push(c);
        }
        i += 1;
    }
    proof {
        assert(sg.take(segs.len() as int) =~= sg);
    }
    let sep = chars_of("/");
    let body = join_exec(&norm, &sep);
    let mut r = chars_of("/");
    extend_chars(&mut r, &body);
    r
}

/// A copy of `v`.
fn slice_all(v: &Vec<char>) -> (r: Vec<char>)
    ensures
        r@ == v@,
{
    let r = crate::text::slice_chars(v, 0, v.len());
    assert(r@ =~= v@);
    r
}

/// Whether one allowed root admits the normalized path.
fn root_admits_exec(normalized: &Vec<char>, root: &str) -> (r: bool)
    ensures
        r == root_admits(normalized@, root@),
{
    let rv = chars_of(root);
    let rt = trim_end_char_chars(&rv, '/');
    if chars_eq(normalized, &rt) {
        return true;
    }
    let mut under = rt;
    under.push('/');
    proof {
        reveal_strlit("/");
        assert(under@ =~= trim_end_char(root@, '/') + "/"@);
    }
    starts_with_exec(normalized, &under)
}

/// Deny by default: a path argument is allowed only when its lexical
/// normalization lies at or under one of the server's allowed roots (so
/// empty `allowed_roots` rejects everything).
pub fn check_path_allowed(cfg: &McpServerConfig, path: &str) -> (r: Result<(), String>)
    ensures
        r is Ok <==> exists|i: int|
            0 <= i < cfg.allowed_roots.len() && #[trigger] root_admits(
                normalize_path(path@),
                roots_of(*cfg)[i],
            ),
        r matches Err(e) ==> e@ == outside_roots_error(*cfg, path@),
{
    let normalized = normalize_path_exec(path);
    let mut i: usize = 0;
    while i < cfg.allowed_roots.len()
        invariant
            i <= cfg.allowed_roots.len(),
            normalized@ == normalize_path(path@),
            forall|k: int| 0 <= k < i ==> !#[trigger] root_admits(normalize_path(path@), roots_of(*cfg)[k]),
        decreases cfg.allowed_roots.len() - i,
    {
        let root = &cfg.allowed_roots[i];
        assert(roots_of(*cfg)[i as int] == root@);
        if root_admits_exec(&normalized, root.as_str()) {
            return Ok(());
        }
        i += 1;
    }
    let mut t = chars_of("mcp.");
    extend_str(&mut t, cfg.name.as_str());
    extend_str(&mut t, ": path ");
    extend_str(&mut t, path);
    extend_str(&mut t, " outside allowed_roots ");
    let d = debug_list(&cfg.allowed_roots);
    extend_str(&mut t, d.as_str());
    extend_str(&mut t, " (deny by default)");
    Err(string_of(&t))
}

/// The fixture server's one tool argument: the text to echo back.
#[derive(Debug)]
pub struct EchoRequest {
    pub text: String,
}

/// The fixture tool `fixture.echo`: the text back, unchanged.
pub fn echo(req: EchoRequest) -> (r: String)
    ensures
        r@ == req.text@,
{
    req.text
}

/// Lexical normalization leaves no `.`, `..` or empty component, so a
/// normalized path cannot climb out of the root it is checked against.
pub proof fn law_normalized_components_are_plain(segs: Seq<Seq<char>>)
    ensures
        forall|i: int| 0 <= i < norm_components(segs).len() ==> {
            let c = #[trigger] norm_components(segs)[i];
            c.len() > 0 && c != "."@ && c != ".."@
        },
    decreases segs.len(),
{
    if segs.len() > 0 {
        law_normalized_components_are_plain(segs.drop_last());
        let acc = norm_components(segs.drop_last());
        let s = segs.last();
        if !(s.len() == 0 || s == "."@) {
            if s == ".."@ {
                if acc.len() > 0 {
                    assert forall|i: int| 0 <= i < acc.drop_last().len() implies acc.drop_last()[i] == acc[i] by {}
                }
            } else {
                assert forall|i: int| 0 <= i < acc.push(s).len() implies ({
                    let c = #[trigger] acc.push(s)[i];
                    c.len() > 0 && c != "."@ && c != ".."@
                }) by {
                    if i < acc.len() {
                        assert(acc.push(s)[i] == acc[i]);
                    }
                }
            }
        }
    }
}

/// Deny by default: with no allowed roots no path is admitted.
pub proof fn law_no_roots_admit_nothing(cfg: McpServerConfig, path: Seq<char>)
    requires
        cfg.allowed_roots@.len() == 0,
    ensures
        !exists|i: int| 0 <= i < cfg.allowed_roots.len() && #[trigger] root_admits(normalize_path(path), roots_of(cfg)[i]),
{
}

// --------------------------------------------------------- path args ---

/// `path` is under one of the server's allowed roots.
pub open spec fn path_allowed(cfg: McpServerConfig, path: Seq<char>) -> bool {
    exists|i: int| 0 <= i < cfg.allowed_roots.len() && #[trigger] root_admits(normalize_path(path), roots_of(cfg)[i])
}

/// The refusal of the first path argument, from the `i`-th name of the
/// comma-separated list on: names are trimmed and empty ones skipped; a
/// named argument holding a string must be an allowed path.
pub open spec fn path_args_error(cfg: McpServerConfig, args: Json, names: Seq<Seq<char>>, i: int) -> Option<Seq<char>>
    decreases names.len() - i,
{
    if i < 0 || i >= names.len() {
        None
    } else {
        let key = trim(names[i]);
        if key.len() > 0 && as_str(get(args, key)) is Some && !path_allowed(cfg, as_str(get(args, key))->0) {
            Some(outside_roots_error(cfg, as_str(get(args, key))->0))
        } else {
            path_args_error(cfg, args, names, i + 1)
        }
    }
}

/// Check a call's path arguments before the server is spawned: every
/// argument named in `path_args` (comma-separated) that holds a string
/// must lie under an allowed root; the first that does not is refused.
pub fn check_path_args(cfg: &McpServerConfig, args: &Json, path_args: &str) -> (r: Result<(), String>)
    ensures
        match path_args_error(*cfg, *args, split_where(path_args@, char_pred(',')), 0) {
            None => r is Ok,
            Some(e) => r matches Err(m) && m@ == e,
        },
{
    let names = split_char(&chars_of(path_args), ',');
    let ghost nv = names@.map_values(|x: Vec<char>| x@);
    let mut i: usize = 0;
    while i < names.len()
        invariant
            i <= names.len(),
            nv == names@.map_values(|x: Vec<char>| x@),
            nv == split_where(path_args@, char_pred(',')),
            path_args_error(*cfg, *args, nv, 0) == path_args_error(*cfg, *args, nv, i as int),
        decreases names.len() - i,
    {
        assert(nv[i as int] == names@[i as int]@);
        let key = trim_chars(&names[i]);
        if key.len() > 0 {
            let ks = string_of(&key);
            match get_str(args, ks.as_str()) {
                Some(v) => {
                    let c = check_path_allowed(cfg, v.as_str());
                    if c.is_err() {
                        return c;
                    }
                },
                None => {},
            }
        }
        i += 1;
    }
    Ok(())
}

} // verus!
