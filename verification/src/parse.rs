//! Parsing of the JSON configuration document: a specification-level
//! recursive-descent parser over a sequence of characters, and the
//! executable parser proved to return exactly what it returns.
//!
//! Each specification parser takes the text and a position and returns
//! the parsed value with the position after it, or nothing when the
//! text does not match its production. Whitespace is accepted between
//! tokens. String escapes cover quote, backslash, slash and the common
//! control characters; the writer in [`crate::ser`] only ever emits the
//! first two.

use vstd::prelude::*;
use vstd::string::StrSliceExecFns;
use crate::config::{Config, ConfigV, Workspace, WorkspaceV};
use crate::strutil::{push_char, str_eq};

verus! {

/// JSON whitespace.
pub open spec fn is_ws(c: char) -> bool {
    c == ' ' || c == '\n' || c == '\t' || c == '\r'
}

/// The first position at or after `i` holding no whitespace.
pub open spec fn skip_ws(t: Seq<char>, i: int) -> int
    decreases t.len() - i,
{
    if 0 <= i < t.len() && is_ws(t[i]) {
        skip_ws(t, i + 1)
    } else {
        i
    }
}

/// The character an escape sequence stands for.
pub open spec fn unesc_char(c: char) -> Option<char> {
    if c == '"' {
        Some('"')
    } else if c == '\\' {
        Some('\\')
    } else if c == '/' {
        Some('/')
    } else if c == 'n' {
        Some('\n')
    } else if c == 't' {
        Some('\t')
    } else if c == 'r' {
        Some('\r')
    } else {
        None
    }
}

/// The body of a JSON string, after its opening quote, up to and over
/// its closing quote.
pub open spec fn p_string_body(t: Seq<char>, i: int) -> Option<(Seq<char>, int)>
    decreases t.len() - i,
{
    if !(0 <= i < t.len()) {
        None
    } else if t[i] == '"' {
        Some((Seq::empty(), i + 1))
    } else if t[i] == '\\' {
        if i + 1 < t.len() {
            match unesc_char(t[i + 1]) {
                Some(c) => match p_string_body(t, i + 2) {
                    Some(r) => Some((seq![c] + r.0, r.1)),
                    None => None,
                },
                None => None,
            }
        } else {
            None
        }
    } else {
        match p_string_body(t, i + 1) {
            Some(r) => Some((seq![t[i]] + r.0, r.1)),
            None => None,
        }
    }
}

/// A JSON string token.
pub open spec fn p_string(t: Seq<char>, i: int) -> Option<(Seq<char>, int)> {
    let j = skip_ws(t, i);
    if 0 <= j < t.len() && t[j] == '"' {
        p_string_body(t, j + 1)
    } else {
        None
    }
}

/// A JSON boolean token.
pub open spec fn p_bool(t: Seq<char>, i: int) -> Option<(bool, int)> {
    let j = skip_ws(t, i);
    if 0 <= j && j + 4 <= t.len() && t[j] == 't' && t[j + 1] == 'r' && t[j + 2] == 'u' && t[j + 3]
        == 'e' {
        Some((true, j + 4))
    } else if 0 <= j && j + 5 <= t.len() && t[j] == 'f' && t[j + 1] == 'a' && t[j + 2] == 'l' && t[j
        + 3] == 's' && t[j + 4] == 'e' {
        Some((false, j + 5))
    } else {
        None
    }
}

/// The rest of a link array after its first element: repeated comma
/// and element, then the closing bracket.
pub open spec fn p_links_tail(t: Seq<char>, i: int) -> Option<(Seq<Seq<char>>, int)>
    decreases t.len() - i,
{
    let j = skip_ws(t, i);
    if !(0 <= j < t.len()) {
        None
    } else if t[j] == ']' {
        Some((Seq::empty(), j + 1))
    } else if t[j] == ',' {
        match p_string(t, j + 1) {
            Some(r) => {
                if i < r.1 && r.1 <= t.len() {
                    match p_links_tail(t, r.1) {
                        Some(r2) => Some((seq![r.0] + r2.0, r2.1)),
                        None => None,
                    }
                } else {
                    None
                }
            },
            None => None,
        }
    } else {
        None
    }
}

/// A JSON array of strings.
pub open spec fn p_links(t: Seq<char>, i: int) -> Option<(Seq<Seq<char>>, int)> {
    let j = skip_ws(t, i);
    if 0 <= j < t.len() && t[j] == '[' {
        let k = skip_ws(t, j + 1);
        if 0 <= k < t.len() && t[k] == ']' {
            Some((Seq::empty(), k + 1))
        } else {
            match p_string(t, j + 1) {
                Some(r) => {
                    if r.1 <= t.len() {
                        match p_links_tail(t, r.1) {
                            Some(r2) => Some((seq![r.0] + r2.0, r2.1)),
                            None => None,
                        }
                    } else {
                        None
                    }
                },
                None => None,
            }
        }
    } else {
        None
    }
}

/// One task entry: description, colon, completion flag.
pub open spec fn p_task(t: Seq<char>, i: int) -> Option<((Seq<char>, bool), int)> {
    match p_string(t, i) {
        Some(r) => {
            let j = skip_ws(t, r.1);
            if 0 <= j < t.len() && t[j] == ':' {
                match p_bool(t, j + 1) {
                    Some(rb) => Some(((r.0, rb.0), rb.1)),
                    None => None,
                }
            } else {
                None
            }
        },
        None => None,
    }
}

/// The rest of a task object after its first entry.
pub open spec fn p_tasks_tail(t: Seq<char>, i: int) -> Option<(Seq<(Seq<char>, bool)>, int)>
    decreases t.len() - i,
{
    let j = skip_ws(t, i);
    if !(0 <= j < t.len()) {
        None
    } else if t[j] == '}' {
        Some((Seq::empty(), j + 1))
    } else if t[j] == ',' {
        match p_task(t, j + 1) {
            Some(r) => {
                if i < r.1 && r.1 <= t.len() {
                    match p_tasks_tail(t, r.1) {
                        Some(r2) => Some((seq![r.0] + r2.0, r2.1)),
                        None => None,
                    }
                } else {
                    None
                }
            },
            None => None,
        }
    } else {
        None
    }
}

/// A JSON object of task entries.
pub open spec fn p_tasks(t: Seq<char>, i: int) -> Option<(Seq<(Seq<char>, bool)>, int)> {
    let j = skip_ws(t, i);
    if 0 <= j < t.len() && t[j] == '{' {
        let k = skip_ws(t, j + 1);
        if 0 <= k < t.len() && t[k] == '}' {
            Some((Seq::empty(), k + 1))
        } else {
            match p_task(t, j + 1) {
                Some(r) => {
                    if r.1 <= t.len() {
                        match p_tasks_tail(t, r.1) {
                            Some(r2) => Some((seq![r.0] + r2.0, r2.1)),
                            None => None,
                        }
                    } else {
                        None
                    }
                },
                None => None,
            }
        }
    } else {
        None
    }
}

/// One workspace record: its links array then its task object, under
/// their fixed keys in that order.
pub open spec fn p_workspace(t: Seq<char>, i: int) -> Option<(WorkspaceV, int)> {
    let j = skip_ws(t, i);
    if 0 <= j < t.len() && t[j] == '{' {
        match p_string(t, j + 1) {
            Some(k1) => {
                if k1.0 == "links"@ {
                    let j1 = skip_ws(t, k1.1);
                    if 0 <= j1 < t.len() && t[j1] == ':' {
                        match p_links(t, j1 + 1) {
                            Some(ls) => {
                                let j2 = skip_ws(t, ls.1);
                                if 0 <= j2 < t.len() && t[j2] == ',' {
                                    match p_string(t, j2 + 1) {
                                        Some(k2) => {
                                            if k2.0 == "tasks"@ {
                                                let j3 = skip_ws(t, k2.1);
                                                if 0 <= j3 < t.len() && t[j3] == ':' {
                                                    match p_tasks(t, j3 + 1) {
                                                        Some(ts) => {
                                                            let j4 = skip_ws(t, ts.1);
                                                            if 0 <= j4 < t.len() && t[j4] == '}' {
                                                                Some(
                                                                    (
                                                                        WorkspaceV {
                                                                            links: ls.0,
                                                                            tasks: ts.0,
                                                                        },
                                                                        j4 + 1,
                                                                    ),
                                                                )
                                                            } else {
                                                                None
                                                            }
                                                        },
                                                        None => None,
                                                    }
                                                } else {
                                                    None
                                                }
                                            } else {
                                                None
                                            }
                                        },
                                        None => None,
                                    }
                                } else {
                                    None
                                }
                            },
                            None => None,
                        }
                    } else {
                        None
                    }
                } else {
                    None
                }
            },
            None => None,
        }
    } else {
        None
    }
}

/// One workspace-path entry: name, colon, path.
pub open spec fn p_path_entry(t: Seq<char>, i: int) -> Option<((Seq<char>, Seq<char>), int)> {
    match p_string(t, i) {
        Some(r) => {
            let j = skip_ws(t, r.1);
            if 0 <= j < t.len() && t[j] == ':' {
                match p_string(t, j + 1) {
                    Some(rv) => Some(((r.0, rv.0), rv.1)),
                    None => None,
                }
            } else {
                None
            }
        },
        None => None,
    }
}

/// The rest of the path object after its first entry.
pub open spec fn p_paths_tail(t: Seq<char>, i: int) -> Option<(Seq<(Seq<char>, Seq<char>)>, int)>
    decreases t.len() - i,
{
    let j = skip_ws(t, i);
    if !(0 <= j < t.len()) {
        None
    } else if t[j] == '}' {
        Some((Seq::empty(), j + 1))
    } else if t[j] == ',' {
        match p_path_entry(t, j + 1) {
            Some(r) => {
                if i < r.1 && r.1 <= t.len() {
                    match p_paths_tail(t, r.1) {
                        Some(r2) => Some((seq![r.0] + r2.0, r2.1)),
                        None => None,
                    }
                } else {
                    None
                }
            },
            None => None,
        }
    } else {
        None
    }
}

/// The JSON object mapping workspace names to paths.
pub open spec fn p_paths(t: Seq<char>, i: int) -> Option<(Seq<(Seq<char>, Seq<char>)>, int)> {
    let j = skip_ws(t, i);
    if 0 <= j < t.len() && t[j] == '{' {
        let k = skip_ws(t, j + 1);
        if 0 <= k < t.len() && t[k] == '}' {
            Some((Seq::empty(), k + 1))
        } else {
            match p_path_entry(t, j + 1) {
                Some(r) => {
                    if r.1 <= t.len() {
                        match p_paths_tail(t, r.1) {
                            Some(r2) => Some((seq![r.0] + r2.0, r2.1)),
                            None => None,
                        }
                    } else {
                        None
                    }
                },
                None => None,
            }
        }
    } else {
        None
    }
}

/// One workspace-map entry: name, colon, workspace record.
pub open spec fn p_ws_entry(t: Seq<char>, i: int) -> Option<((Seq<char>, WorkspaceV), int)> {
    match p_string(t, i) {
        Some(r) => {
            let j = skip_ws(t, r.1);
            if 0 <= j < t.len() && t[j] == ':' {
                match p_workspace(t, j + 1) {
                    Some(rw) => Some(((r.0, rw.0), rw.1)),
                    None => None,
                }
            } else {
                None
            }
        },
        None => None,
    }
}

/// The rest of the workspace object after its first entry.
pub open spec fn p_workspaces_tail(t: Seq<char>, i: int) -> Option<
    (Seq<(Seq<char>, WorkspaceV)>, int),
>
    decreases t.len() - i,
{
    let j = skip_ws(t, i);
    if !(0 <= j < t.len()) {
        None
    } else if t[j] == '}' {
        Some((Seq::empty(), j + 1))
    } else if t[j] == ',' {
        match p_ws_entry(t, j + 1) {
            Some(r) => {
                if i < r.1 && r.1 <= t.len() {
                    match p_workspaces_tail(t, r.1) {
                        Some(r2) => Some((seq![r.0] + r2.0, r2.1)),
                        None => None,
                    }
                } else {
                    None
                }
            },
            None => None,
        }
    } else {
        None
    }
}

/// The JSON object mapping workspace names to workspace records.
pub open spec fn p_workspaces(t: Seq<char>, i: int) -> Option<(Seq<(Seq<char>, WorkspaceV)>, int)> {
    let j = skip_ws(t, i);
    if 0 <= j < t.len() && t[j] == '{' {
        let k = skip_ws(t, j + 1);
        if 0 <= k < t.len() && t[k] == '}' {
            Some((Seq::empty(), k + 1))
        } else {
            match p_ws_entry(t, j + 1) {
                Some(r) => {
                    if r.1 <= t.len() {
                        match p_workspaces_tail(t, r.1) {
                            Some(r2) => Some((seq![r.0] + r2.0, r2.1)),
                            None => None,
                        }
                    } else {
                        None
                    }
                },
                None => None,
            }
        }
    } else {
        None
    }
}

/// The whole configuration document: the path map, then the workspace
/// map, under their fixed keys, with nothing but whitespace after the
/// closing brace.
pub open spec fn p_config(t: Seq<char>) -> Option<ConfigV> {
    let j = skip_ws(t, 0);
    if 0 <= j < t.len() && t[j] == '{' {
        match p_string(t, j + 1) {
            Some(k1) => {
                if k1.0 == "workspace_paths"@ {
                    let j1 = skip_ws(t, k1.1);
                    if 0 <= j1 < t.len() && t[j1] == ':' {
                        match p_paths(t, j1 + 1) {
                            Some(ps) => {
                                let j2 = skip_ws(t, ps.1);
                                if 0 <= j2 < t.len() && t[j2] == ',' {
                                    match p_string(t, j2 + 1) {
                                        Some(k2) => {
                                            if k2.0 == "workspaces"@ {
                                                let j3 = skip_ws(t, k2.1);
                                                if 0 <= j3 < t.len() && t[j3] == ':' {
                                                    match p_workspaces(t, j3 + 1) {
                                                        Some(ws) => {
                                                            let j4 = skip_ws(t, ws.1);
                                                            if 0 <= j4 < t.len() && t[j4] == '}'
                                                                && skip_ws(t, j4 + 1) == t.len() {
                                                                Some(
                                                                    ConfigV {
                                                                        workspace_paths: ps.0,
                                                                        workspaces: ws.0,
                                                                    },
                                                                )
                                                            } else {
                                                                None
                                                            }
                                                        },
                                                        None => None,
                                                    }
                                                } else {
                                                    None
                                                }
                                            } else {
                                                None
                                            }
                                        },
                                        None => None,
                                    }
                                } else {
                                    None
                                }
                            },
                            None => None,
                        }
                    } else {
                        None
                    }
                } else {
                    None
                }
            },
            None => None,
        }
    } else {
        None
    }
}

/// Failure to parse the configuration document.
#[derive(Debug, Clone, Copy, PartialEq, Eq)]
pub struct ParseError;

pub(crate) fn e_skip_ws(s: &str, i: usize) -> (r: usize)
    requires
        i <= s@.len(),
    ensures
        r as int == skip_ws(s@, i as int),
        i <= r <= s@.len(),
{
    let n: usize = s.unicode_len();
    let mut j: usize = i;
    while j < n
        invariant_except_break
            i <= j <= n,
            n == s@.len(),
            skip_ws(s@, i as int) == skip_ws(s@, j as int),
        ensures
            i <= j <= n,
            n == s@.len(),
            skip_ws(s@, i as int) == skip_ws(s@, j as int),
            j == n || !is_ws(s@[j as int]),
        decreases n - j,
    {
        let c = s.get_char(j);
        if !(c == ' ' || c == '\n' || c == '\t' || c == '\r') {
            break ;
        }
        j = j + 1;
    }
    proof {
        assert(skip_ws(s@, j as int) == j as int);
    }
    j
}

fn e_unesc(c: char) -> (r: Option<char>)
    ensures
        r == unesc_char(c),
{
    if c == '"' {
        Some('"')
    } else if c == '\\' {
        Some('\\')
    } else if c == '/' {
        Some('/')
    } else if c == 'n' {
        Some('\n')
    } else if c == 't' {
        Some('\t')
    } else if c == 'r' {
        Some('\r')
    } else {
        None
    }
}

fn e_string_body(s: &str, i: usize) -> (r: Option<(String, usize)>)
    requires
        i <= s@.len(),
    ensures
        match r {
            Some(v) => p_string_body(s@, i as int) == Some((v.0@, v.1 as int)) && i < v.1
                <= s@.len(),
            None => p_string_body(s@, i as int) is None,
        },
{
    let n: usize = s.unicode_len();
    let mut acc = String::new();
    let mut j: usize = i;
    proof {
        match p_string_body(s@, i as int) {
            Some(r) => {
                assert(Seq::<char>::empty() + r.0 =~= r.0);
            },
            None => {},
        }
    }
    loop
        invariant
            i <= j <= n,
            n == s@.len(),
            (match p_string_body(s@, j as int) {
                Some(r) => p_string_body(s@, i as int) == Some((acc@ + r.0, r.1)),
                None => p_string_body(s@, i as int) is None,
            }),
        decreases n - j,
    {
        if j == n {
            return None;
        }
        let c = s.get_char(j);
        if c == '"' {
            proof {
                assert(p_string_body(s@, j as int) == Some((Seq::<char>::empty(), j as int + 1)));
                assert(acc@ + Seq::<char>::empty() =~= acc@);
            }
            return Some((acc, j + 1));
        }
        if c == '\\' {
            if j + 1 == n {
                return None;
            }
            let c2 = s.get_char(j + 1);
            match e_unesc(c2) {
                Some(cu) => {
                    let ghost jo = j as int;
                    let ghost acc0 = acc@;
                    push_char(&mut acc, cu);
                    j = j + 2;
                    proof {
                        match p_string_body(s@, jo + 2) {
                            Some(r2) => {
                                assert(p_string_body(s@, jo) == Some((seq![cu] + r2.0, r2.1)));
                                assert(acc@ + r2.0 =~= acc0 + (seq![cu] + r2.0));
                            },
                            None => {
                                assert(p_string_body(s@, jo) is None);
                            },
                        }
                    }
                },
                None => {
                    return None;
                },
            }
        } else {
            let ghost jo = j as int;
            let ghost acc0 = acc@;
            push_char(&mut acc, c);
            j = j + 1;
            proof {
                match p_string_body(s@, jo + 1) {
                    Some(r2) => {
                        assert(p_string_body(s@, jo) == Some((seq![c] + r2.0, r2.1)));
                        assert(acc@ + r2.0 =~= acc0 + (seq![c] + r2.0));
                    },
                    None => {
                        assert(p_string_body(s@, jo) is None);
                    },
                }
            }
        }
    }
}

fn e_string(s: &str, i: usize) -> (r: Option<(String, usize)>)
    requires
        i <= s@.len(),
    ensures
        match r {
            Some(v) => p_string(s@, i as int) == Some((v.0@, v.1 as int)) && i < v.1 <= s@.len(),
            None => p_string(s@, i as int) is None,
        },
{
    let n: usize = s.unicode_len();
    let j = e_skip_ws(s, i);
    if j < n {
        let c = s.get_char(j);
        if c == '"' {
            e_string_body(s, j + 1)
        } else {
            None
        }
    } else {
        None
    }
}

fn e_bool(s: &str, i: usize) -> (r: Option<(bool, usize)>)
    requires
        i <= s@.len(),
    ensures
        match r {
            Some(v) => p_bool(s@, i as int) == Some((v.0, v.1 as int)) && i < v.1 <= s@.len(),
            None => p_bool(s@, i as int) is None,
        },
{
    let n: usize = s.unicode_len();
    let j = e_skip_ws(s, i);
    if n - j >= 4 && s.get_char(j) == 't' && s.get_char(j + 1) == 'r' && s.get_char(j + 2) == 'u'
        && s.get_char(j + 3) == 'e' {
        return Some((true, j + 4));
    }
    if n - j >= 5 && s.get_char(j) == 'f' && s.get_char(j + 1) == 'a' && s.get_char(j + 2) == 'l'
        && s.get_char(j + 3) == 's' && s.get_char(j + 4) == 'e' {
        return Some((false, j + 5));
    }
    None
}

fn e_links_tail(s: &str, i: usize) -> (r: Option<(Vec<String>, usize)>)
    requires
        i <= s@.len(),
    ensures
        match r {
            Some(v) => p_links_tail(s@, i as int) == Some((v.0.deep_view(), v.1 as int)) && i < v.1
                <= s@.len(),
            None => p_links_tail(s@, i as int) is None,
        },
    decreases s@.len() - i,
{
    let n: usize = s.unicode_len();
    let j = e_skip_ws(s, i);
    if j == n {
        return None;
    }
    let c = s.get_char(j);
    if c == ']' {
        let v: Vec<String> = Vec::new();
        proof {
            assert(v.deep_view() =~= Seq::<Seq<char>>::empty());
        }
        return Some((v, j + 1));
    }
    if c == ',' {
        match e_string(s, j + 1) {
            Some(sv) => {
                let (s0, k) = sv;
                match e_links_tail(s, k) {
                    Some(rv) => {
                        let (mut rest, m) = rv;
                        let ghost dv0 = rest.deep_view();
                        rest.insert(0, s0);
                        proof {
                            assert(rest.deep_view() =~= seq![s0@] + dv0);
                        }
                        Some((rest, m))
                    },
                    None => None,
                }
            },
            None => None,
        }
    } else {
        None
    }
}

fn e_links(s: &str, i: usize) -> (r: Option<(Vec<String>, usize)>)
    requires
        i <= s@.len(),
    ensures
        match r {
            Some(v) => p_links(s@, i as int) == Some((v.0.deep_view(), v.1 as int)) && i < v.1
                <= s@.len(),
            None => p_links(s@, i as int) is None,
        },
{
    let n: usize = s.unicode_len();
    let j = e_skip_ws(s, i);
    if j == n {
        return None;
    }
    if s.get_char(j) != '[' {
        return None;
    }
    let k = e_skip_ws(s, j + 1);
    if k < n && s.get_char(k) == ']' {
        let v: Vec<String> = Vec::new();
        proof {
            assert(v.deep_view() =~= Seq::<Seq<char>>::empty());
        }
        return Some((v, k + 1));
    }
    match e_string(s, j + 1) {
        Some(sv) => {
            let (s0, m) = sv;
            match e_links_tail(s, m) {
                Some(rv) => {
                    let (mut rest, e) = rv;
                    let ghost dv0 = rest.deep_view();
                    rest.insert(0, s0);
                    proof {
                        assert(rest.deep_view() =~= seq![s0@] + dv0);
                    }
                    Some((rest, e))
                },
                None => None,
            }
        },
        None => None,
    }
}

fn e_task(s: &str, i: usize) -> (r: Option<((String, bool), usize)>)
    requires
        i <= s@.len(),
    ensures
        match r {
            Some(v) => p_task(s@, i as int) == Some(((v.0.0@, v.0.1), v.1 as int)) && i < v.1
                <= s@.len(),
            None => p_task(s@, i as int) is None,
        },
{
    let n: usize = s.unicode_len();
    match e_string(s, i) {
        Some(sv) => {
            let (k, m) = sv;
            let j = e_skip_ws(s, m);
            if j < n && s.get_char(j) == ':' {
                match e_bool(s, j + 1) {
                    Some(bv) => Some(((k, bv.0), bv.1)),
                    None => None,
                }
            } else {
                None
            }
        },
        None => None,
    }
}

fn e_tasks_tail(s: &str, i: usize) -> (r: Option<(Vec<(String, bool)>, usize)>)
    requires
        i <= s@.len(),
    ensures
        match r {
            Some(v) => p_tasks_tail(s@, i as int) == Some((v.0.deep_view(), v.1 as int)) && i < v.1
                <= s@.len(),
            None => p_tasks_tail(s@, i as int) is None,
        },
    decreases s@.len() - i,
{
    let n: usize = s.unicode_len();
    let j = e_skip_ws(s, i);
    if j == n {
        return None;
    }
    let c = s.get_char(j);
    if c == '}' {
        let v: Vec<(String, bool)> = Vec::new();
        proof {
            assert(v.deep_view() =~= Seq::<(Seq<char>, bool)>::empty());
        }
        return Some((v, j + 1));
    }
    if c == ',' {
        match e_task(s, j + 1) {
            Some(tv) => {
                let (t0, k) = tv;
                match e_tasks_tail(s, k) {
                    Some(rv) => {
                        let (mut rest, m) = rv;
                        let ghost dv0 = rest.deep_view();
                        proof {
                            assert(t0.deep_view() == (t0.0@, t0.1));
                        }
                        rest.insert(0, t0);
                        proof {
                            assert(rest.deep_view() =~= seq![(rest@[0].0@, rest@[0].1)] + dv0);
                        }
                        Some((rest, m))
                    },
                    None => None,
                }
            },
            None => None,
        }
    } else {
        None
    }
}

fn e_tasks(s: &str, i: usize) -> (r: Option<(Vec<(String, bool)>, usize)>)
    requires
        i <= s@.len(),
    ensures
        match r {
            Some(v) => p_tasks(s@, i as int) == Some((v.0.deep_view(), v.1 as int)) && i < v.1
                <= s@.len(),
            None => p_tasks(s@, i as int) is None,
        },
{
    let n: usize = s.unicode_len();
    let j = e_skip_ws(s, i);
    if j == n {
        return None;
    }
    if s.get_char(j) != '{' {
        return None;
    }
    let k = e_skip_ws(s, j + 1);
    if k < n && s.get_char(k) == '}' {
        let v: Vec<(String, bool)> = Vec::new();
        proof {
            assert(v.deep_view() =~= Seq::<(Seq<char>, bool)>::empty());
        }
        return Some((v, k + 1));
    }
    match e_task(s, j + 1) {
        Some(tv) => {
            let (t0, m) = tv;
            match e_tasks_tail(s, m) {
                Some(rv) => {
                    let (mut rest, e) = rv;
                    let ghost dv0 = rest.deep_view();
                    proof {
                        assert(t0.deep_view() == (t0.0@, t0.1));
                    }
                    rest.insert(0, t0);
                    proof {
                        assert(rest.deep_view() =~= seq![(rest@[0].0@, rest@[0].1)] + dv0);
                    }
                    Some((rest, e))
                },
                None => None,
            }
        },
        None => None,
    }
}

fn e_workspace(s: &str, i: usize) -> (r: Option<(Workspace, usize)>)
    requires
        i <= s@.len(),
    ensures
        match r {
            Some(v) => p_workspace(s@, i as int) == Some((v.0@, v.1 as int)) && i < v.1
                <= s@.len(),
            None => p_workspace(s@, i as int) is None,
        },
{
    let n: usize = s.unicode_len();
    let j = e_skip_ws(s, i);
    if j == n {
        return None;
    }
    if s.get_char(j) != '{' {
        return None;
    }
    match e_string(s, j + 1) {
        Some(kv) => {
            let (k1, m1) = kv;
            if !str_eq(k1.as_str(), "links") {
                return None;
            }
            let j1 = e_skip_ws(s, m1);
            if !(j1 < n) {
                return None;
            }
            if s.get_char(j1) != ':' {
                return None;
            }
            match e_links(s, j1 + 1) {
                Some(lv) => {
                    let (links, m2) = lv;
                    let j2 = e_skip_ws(s, m2);
                    if !(j2 < n) {
                        return None;
                    }
                    if s.get_char(j2) != ',' {
                        return None;
                    }
                    match e_string(s, j2 + 1) {
                        Some(kv2) => {
                            let (k2, m3) = kv2;
                            if !str_eq(k2.as_str(), "tasks") {
                                return None;
                            }
                            let j3 = e_skip_ws(s, m3);
                            if !(j3 < n) {
                                return None;
                            }
                            if s.get_char(j3) != ':' {
                                return None;
                            }
                            match e_tasks(s, j3 + 1) {
                                Some(tv) => {
                                    let (tasks, m4) = tv;
                                    let j4 = e_skip_ws(s, m4);
                                    if !(j4 < n) {
                                        return None;
                                    }
                                    if s.get_char(j4) != '}' {
                                        return None;
                                    }
                                    let w = Workspace { links, tasks };
                                    proof {
                                        assert(w@ =~~= p_workspace(s@, i as int)->Some_0.0);
                                    }
                                    Some((w, j4 + 1))
                                },
                                None => None,
                            }
                        },
                        None => None,
                    }
                },
                None => None,
            }
        },
        None => None,
    }
}

fn e_path_entry(s: &str, i: usize) -> (r: Option<((String, String), usize)>)
    requires
        i <= s@.len(),
    ensures
        match r {
            Some(v) => p_path_entry(s@, i as int) == Some(((v.0.0@, v.0.1@), v.1 as int)) && i < v.1
                <= s@.len(),
            None => p_path_entry(s@, i as int) is None,
        },
{
    let n: usize = s.unicode_len();
    match e_string(s, i) {
        Some(sv) => {
            let (k, m) = sv;
            let j = e_skip_ws(s, m);
            if j < n && s.get_char(j) == ':' {
                match e_string(s, j + 1) {
                    Some(vv) => Some(((k, vv.0), vv.1)),
                    None => None,
                }
            } else {
                None
            }
        },
        None => None,
    }
}

fn e_paths_tail(s: &str, i: usize) -> (r: Option<(Vec<(String, String)>, usize)>)
    requires
        i <= s@.len(),
    ensures
        match r {
            Some(v) => p_paths_tail(s@, i as int) == Some((v.0.deep_view(), v.1 as int)) && i < v.1
                <= s@.len(),
            None => p_paths_tail(s@, i as int) is None,
        },
    decreases s@.len() - i,
{
    let n: usize = s.unicode_len();
    let j = e_skip_ws(s, i);
    if j == n {
        return None;
    }
    let c = s.get_char(j);
    if c == '}' {
        let v: Vec<(String, String)> = Vec::new();
        proof {
            assert(v.deep_view() =~= Seq::<(Seq<char>, Seq<char>)>::empty());
        }
        return Some((v, j + 1));
    }
    if c == ',' {
        match e_path_entry(s, j + 1) {
            Some(ev) => {
                let (e0, k) = ev;
                match e_paths_tail(s, k) {
                    Some(rv) => {
                        let (mut rest, m) = rv;
                        let ghost dv0 = rest.deep_view();
                        proof {
                            assert(e0.deep_view() == (e0.0@, e0.1@));
                        }
                        rest.insert(0, e0);
                        proof {
                            assert(rest.deep_view() =~= seq![(rest@[0].0@, rest@[0].1@)] + dv0);
                        }
                        Some((rest, m))
                    },
                    None => None,
                }
            },
            None => None,
        }
    } else {
        None
    }
}

fn e_paths(s: &str, i: usize) -> (r: Option<(Vec<(String, String)>, usize)>)
    requires
        i <= s@.len(),
    ensures
        match r {
            Some(v) => p_paths(s@, i as int) == Some((v.0.deep_view(), v.1 as int)) && i < v.1
                <= s@.len(),
            None => p_paths(s@, i as int) is None,
        },
{
    let n: usize = s.unicode_len();
    let j = e_skip_ws(s, i);
    if j == n {
        return None;
    }
    if s.get_char(j) != '{' {
        return None;
    }
    let k = e_skip_ws(s, j + 1);
    if k < n && s.get_char(k) == '}' {
        let v: Vec<(String, String)> = Vec::new();
        proof {
            assert(v.deep_view() =~= Seq::<(Seq<char>, Seq<char>)>::empty());
        }
        return Some((v, k + 1));
    }
    match e_path_entry(s, j + 1) {
        Some(ev) => {
            let (e0, m) = ev;
            match e_paths_tail(s, m) {
                Some(rv) => {
                    let (mut rest, e) = rv;
                    let ghost dv0 = rest.deep_view();
                    proof {
                        assert(e0.deep_view() == (e0.0@, e0.1@));
                    }
                    rest.insert(0, e0);
                    proof {
                        assert(rest.deep_view() =~= seq![(rest@[0].0@, rest@[0].1@)] + dv0);
                    }
                    Some((rest, e))
                },
                None => None,
            }
        },
        None => None,
    }
}

fn e_ws_entry(s: &str, i: usize) -> (r: Option<((String, Workspace), usize)>)
    requires
        i <= s@.len(),
    ensures
        match r {
            Some(v) => p_ws_entry(s@, i as int) == Some(((v.0.0@, v.0.1@), v.1 as int)) && i < v.1
                <= s@.len(),
            None => p_ws_entry(s@, i as int) is None,
        },
{
    let n: usize = s.unicode_len();
    match e_string(s, i) {
        Some(sv) => {
            let (k, m) = sv;
            let j = e_skip_ws(s, m);
            if j < n && s.get_char(j) == ':' {
                match e_workspace(s, j + 1) {
                    Some(wv) => Some(((k, wv.0), wv.1)),
                    None => None,
                }
            } else {
                None
            }
        },
        None => None,
    }
}

fn e_workspaces_tail(s: &str, i: usize) -> (r: Option<(Vec<(String, Workspace)>, usize)>)
    requires
        i <= s@.len(),
    ensures
        match r {
            Some(v) => p_workspaces_tail(s@, i as int) == Some((v.0.deep_view(), v.1 as int)) && i
                < v.1 <= s@.len(),
            None => p_workspaces_tail(s@, i as int) is None,
        },
    decreases s@.len() - i,
{
    let n: usize = s.unicode_len();
    let j = e_skip_ws(s, i);
    if j == n {
        return None;
    }
    let c = s.get_char(j);
    if c == '}' {
        let v: Vec<(String, Workspace)> = Vec::new();
        proof {
            assert(v.deep_view() =~= Seq::<(Seq<char>, WorkspaceV)>::empty());
        }
        return Some((v, j + 1));
    }
    if c == ',' {
        match e_ws_entry(s, j + 1) {
            Some(ev) => {
                let (e0, k) = ev;
                match e_workspaces_tail(s, k) {
                    Some(rv) => {
                        let (mut rest, m) = rv;
                        let ghost dv0 = rest.deep_view();
                        proof {
                            assert(e0.deep_view() == (e0.0@, e0.1@));
                        }
                        rest.insert(0, e0);
                        proof {
                            assert(rest.deep_view() =~= seq![(rest@[0].0@, rest@[0].1@)] + dv0);
                        }
                        Some((rest, m))
                    },
                    None => None,
                }
            },
            None => None,
        }
    } else {
        None
    }
}

fn e_workspaces(s: &str, i: usize) -> (r: Option<(Vec<(String, Workspace)>, usize)>)
    requires
        i <= s@.len(),
    ensures
        match r {
            Some(v) => p_workspaces(s@, i as int) == Some((v.0.deep_view(), v.1 as int)) && i < v.1
                <= s@.len(),
            None => p_workspaces(s@, i as int) is None,
        },
{
    let n: usize = s.unicode_len();
    let j = e_skip_ws(s, i);
    if j == n {
        return None;
    }
    if s.get_char(j) != '{' {
        return None;
    }
    let k = e_skip_ws(s, j + 1);
    if k < n && s.get_char(k) == '}' {
        let v: Vec<(String, Workspace)> = Vec::new();
        proof {
            assert(v.deep_view() =~= Seq::<(Seq<char>, WorkspaceV)>::empty());
        }
        return Some((v, k + 1));
    }
    match e_ws_entry(s, j + 1) {
        Some(ev) => {
            let (e0, m) = ev;
            match e_workspaces_tail(s, m) {
                Some(rv) => {
                    let (mut rest, e) = rv;
                    let ghost dv0 = rest.deep_view();
                    proof {
                        assert(e0.deep_view() == (e0.0@, e0.1@));
                    }
                    rest.insert(0, e0);
                    proof {
                        assert(rest.deep_view() =~= seq![(rest@[0].0@, rest@[0].1@)] + dv0);
                    }
                    Some((rest, e))
                },
                None => None,
            }
        },
        None => None,
    }
}

impl Config {
    /// Parses a configuration from the text of its JSON document; fails
    /// exactly on text the document grammar does not accept.
    pub fn from_json(s: &str) -> (r: Result<Config, ParseError>)
        ensures
            match r {
                Ok(c) => p_config(s@) == Some(c@),
                Err(_) => p_config(s@) is None,
            },
            p_config(s@) is Some <==> r is Ok,
    {
        let n: usize = s.unicode_len();
        let j = e_skip_ws(s, 0);
        if j == n {
            return Err(ParseError);
        }
        if s.get_char(j) != '{' {
            return Err(ParseError);
        }
        match e_string(s, j + 1) {
            Some(kv) => {
                let (k1, m1) = kv;
                if !str_eq(k1.as_str(), "workspace_paths") {
                    return Err(ParseError);
                }
                let j1 = e_skip_ws(s, m1);
                if !(j1 < n) {
                    return Err(ParseError);
                }
                if s.get_char(j1) != ':' {
                    return Err(ParseError);
                }
                match e_paths(s, j1 + 1) {
                    Some(pv) => {
                        let (paths, m2) = pv;
                        let j2 = e_skip_ws(s, m2);
                        if !(j2 < n) {
                            return Err(ParseError);
                        }
                        if s.get_char(j2) != ',' {
                            return Err(ParseError);
                        }
                        match e_string(s, j2 + 1) {
                            Some(kv2) => {
                                let (k2, m3) = kv2;
                                if !str_eq(k2.as_str(), "workspaces") {
                                    return Err(ParseError);
                                }
                                let j3 = e_skip_ws(s, m3);
                                if !(j3 < n) {
                                    return Err(ParseError);
                                }
                                if s.get_char(j3) != ':' {
                                    return Err(ParseError);
                                }
                                match e_workspaces(s, j3 + 1) {
                                    Some(wv) => {
                                        let (workspaces, m4) = wv;
                                        let j4 = e_skip_ws(s, m4);
                                        if !(j4 < n) {
                                            return Err(ParseError);
                                        }
                                        if s.get_char(j4) != '}' {
                                            return Err(ParseError);
                                        }
                                        if e_skip_ws(s, j4 + 1) != n {
                                            return Err(ParseError);
                                        }
                                        let c = Config { workspace_paths: paths, workspaces };
                                        proof {
                                            assert(c@ =~~= p_config(s@)->Some_0);
                                        }
                                        Ok(c)
                                    },
                                    None => Err(ParseError),
                                }
                            },
                            None => Err(ParseError),
                        }
                    },
                    None => Err(ParseError),
                }
            },
            None => Err(ParseError),
        }
    }
}

} // verus!
