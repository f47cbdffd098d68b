//! Serialization of a configuration into its JSON document: the
//! specification-level text of each production, and the executable
//! writer proved to produce exactly that text.

use vstd::prelude::*;
use vstd::string::StrSliceExecFns;
use crate::config::{Config, ConfigV, WorkspaceV};
use crate::strutil::push_char;

verus! {

/// The escape of one character inside a JSON string: quote and
/// backslash get a leading backslash, every other character stands for
/// itself.
pub open spec fn esc_char(c: char) -> Seq<char> {
    if c == '"' {
        seq!['\\', '"']
    } else if c == '\\' {
        seq!['\\', '\\']
    } else {
        seq![c]
    }
}

/// The escaped body of a JSON string.
pub open spec fn esc_seq(s: Seq<char>) -> Seq<char>
    decreases s.len(),
{
    if s.len() == 0 {
        Seq::empty()
    } else {
        esc_char(s[0]) + esc_seq(s.skip(1))
    }
}

/// A JSON string: the escaped body between double quotes.
pub open spec fn ser_string(s: Seq<char>) -> Seq<char> {
    seq!['"'] + esc_seq(s) + seq!['"']
}

/// A JSON boolean literal.
pub open spec fn ser_bool(b: bool) -> Seq<char> {
    if b {
        seq!['t', 'r', 'u', 'e']
    } else {
        seq!['f', 'a', 'l', 's', 'e']
    }
}

/// The rest of a link array after its first element: `,` and an
/// element, repeated, then the closing bracket.
pub open spec fn ser_links_tail(ls: Seq<Seq<char>>) -> Seq<char>
    decreases ls.len(),
{
    if ls.len() == 0 {
        seq![']']
    } else {
        seq![','] + ser_string(ls[0]) + ser_links_tail(ls.skip(1))
    }
}

/// A JSON array of strings.
pub open spec fn ser_links(ls: Seq<Seq<char>>) -> Seq<char> {
    if ls.len() == 0 {
        seq!['[', ']']
    } else {
        seq!['['] + ser_string(ls[0]) + ser_links_tail(ls.skip(1))
    }
}

/// One task entry: description, colon, completion flag.
pub open spec fn ser_task(t: (Seq<char>, bool)) -> Seq<char> {
    ser_string(t.0) + seq![':'] + ser_bool(t.1)
}

/// The rest of a task object after its first entry.
pub open spec fn ser_tasks_tail(ts: Seq<(Seq<char>, bool)>) -> Seq<char>
    decreases ts.len(),
{
    if ts.len() == 0 {
        seq!['}']
    } else {
        seq![','] + ser_task(ts[0]) + ser_tasks_tail(ts.skip(1))
    }
}

/// A JSON object of task entries.
pub open spec fn ser_tasks(ts: Seq<(Seq<char>, bool)>) -> Seq<char> {
    if ts.len() == 0 {
        seq!['{', '}']
    } else {
        seq!['{'] + ser_task(ts[0]) + ser_tasks_tail(ts.skip(1))
    }
}

/// One workspace record: its links array, then its task object, under
/// their fixed keys.
pub open spec fn ser_workspace(w: WorkspaceV) -> Seq<char> {
    seq!['{'] + ser_string("links"@) + seq![':'] + ser_links(w.links) + seq![','] + ser_string(
        "tasks"@,
    ) + seq![':'] + ser_tasks(w.tasks) + seq!['}']
}

/// One workspace-path entry: name, colon, path.
pub open spec fn ser_path_entry(e: (Seq<char>, Seq<char>)) -> Seq<char> {
    ser_string(e.0) + seq![':'] + ser_string(e.1)
}

/// The rest of the path object after its first entry.
pub open spec fn ser_paths_tail(es: Seq<(Seq<char>, Seq<char>)>) -> Seq<char>
    decreases es.len(),
{
    if es.len() == 0 {
        seq!['}']
    } else {
        seq![','] + ser_path_entry(es[0]) + ser_paths_tail(es.skip(1))
    }
}

/// The JSON object mapping workspace names to paths.
pub open spec fn ser_paths(es: Seq<(Seq<char>, Seq<char>)>) -> Seq<char> {
    if es.len() == 0 {
        seq!['{', '}']
    } else {
        seq!['{'] + ser_path_entry(es[0]) + ser_paths_tail(es.skip(1))
    }
}

/// One workspace-map entry: name, colon, workspace record.
pub open spec fn ser_ws_entry(e: (Seq<char>, WorkspaceV)) -> Seq<char> {
    ser_string(e.0) + seq![':'] + ser_workspace(e.1)
}

/// The rest of the workspace object after its first entry.
pub open spec fn ser_workspaces_tail(es: Seq<(Seq<char>, WorkspaceV)>) -> Seq<char>
    decreases es.len(),
{
    if es.len() == 0 {
        seq!['}']
    } else {
        seq![','] + ser_ws_entry(es[0]) + ser_workspaces_tail(es.skip(1))
    }
}

/// The JSON object mapping workspace names to workspace records.
pub open spec fn ser_workspaces(es: Seq<(Seq<char>, WorkspaceV)>) -> Seq<char> {
    if es.len() == 0 {
        seq!['{', '}']
    } else {
        seq!['{'] + ser_ws_entry(es[0]) + ser_workspaces_tail(es.skip(1))
    }
}

/// The whole configuration document: the path map, then the workspace
/// map, under their fixed keys.
pub open spec fn ser_config(c: ConfigV) -> Seq<char> {
    seq!['{'] + ser_string("workspace_paths"@) + seq![':'] + ser_paths(c.workspace_paths) + seq![
        ','
    ] + ser_string("workspaces"@) + seq![':'] + ser_workspaces(c.workspaces) + seq!['}']
}

/// Escaping distributes over appending one character.
pub proof fn lemma_esc_push(a: Seq<char>, x: char)
    ensures
        esc_seq(a.push(x)) == esc_seq(a) + esc_char(x),
    decreases a.len(),
{
    if a.len() == 0 {
        assert(a.push(x)[0] == x);
        assert(a.push(x).skip(1) =~= Seq::<char>::empty());
        assert(esc_seq(a.push(x)) == esc_char(x) + esc_seq(Seq::<char>::empty()));
        assert(esc_seq(Seq::<char>::empty()) == Seq::<char>::empty());
        assert(esc_seq(a) == Seq::<char>::empty());
        assert(esc_seq(a.push(x)) =~= esc_seq(a) + esc_char(x));
    } else {
        lemma_esc_push(a.skip(1), x);
        assert(a.push(x).skip(1) =~= a.skip(1).push(x));
        assert(a.push(x)[0] == a[0]);
        assert(esc_seq(a.push(x)) =~= esc_seq(a) + esc_char(x));
    }
}

fn write_escaped(out: &mut String, s: &str)
    ensures
        final(out)@ == old(out)@ + esc_seq(s@),
{
    let n = s.unicode_len();
    let mut i: usize = 0;
    while i < n
        invariant
            n == s@.len(),
            i <= n,
            out@ == old(out)@ + esc_seq(s@.take(i as int)),
        decreases n - i,
    {
        let c = s.get_char(i);
        if c == '"' {
            push_char(out, '\\');
            push_char(out, '"');
        } else if c == '\\' {
            push_char(out, '\\');
            push_char(out, '\\');
        } else {
            push_char(out, c);
        }
        proof {
            lemma_esc_push(s@.take(i as int), s@[i as int]);
            assert(s@.take(i as int).push(s@[i as int]) =~= s@.take(i as int + 1));
            assert(out@ =~= old(out)@ + esc_seq(s@.take(i as int + 1)));
        }
        i = i + 1;
    }
    proof {
        assert(s@.take(n as int) =~= s@);
    }
}

fn write_string(out: &mut String, s: &str)
    ensures
        final(out)@ == old(out)@ + ser_string(s@),
{
    push_char(out, '"');
    write_escaped(out, s);
    push_char(out, '"');
    proof {
        assert(out@ =~= old(out)@ + ser_string(s@));
    }
}

fn write_bool(out: &mut String, b: bool)
    ensures
        final(out)@ == old(out)@ + ser_bool(b),
{
    if b {
        push_char(out, 't');
        push_char(out, 'r');
        push_char(out, 'u');
        push_char(out, 'e');
    } else {
        push_char(out, 'f');
        push_char(out, 'a');
        push_char(out, 'l');
        push_char(out, 's');
        push_char(out, 'e');
    }
    proof {
        assert(out@ =~= old(out)@ + ser_bool(b));
    }
}

fn write_links_tail(out: &mut String, links: &Vec<String>, from: usize)
    requires
        from <= links@.len(),
    ensures
        final(out)@ == old(out)@ + ser_links_tail(links.deep_view().skip(from as int)),
    decreases links@.len() - from,
{
    let ghost dv = links.deep_view();
    if from == links.len() {
        push_char(out, ']');
        proof {
            assert(dv.skip(from as int) =~= Seq::<Seq<char>>::empty());
            assert(out@ =~= old(out)@ + ser_links_tail(dv.skip(from as int)));
        }
    } else {
        push_char(out, ',');
        write_string(out, links[from].as_str());
        write_links_tail(out, links, from + 1);
        proof {
            assert(dv.skip(from as int)[0] == dv[from as int]);
            assert(dv.skip(from as int).skip(1) =~= dv.skip(from as int + 1));
            assert(dv[from as int] == links@[from as int]@);
            assert(out@ =~= old(out)@ + ser_links_tail(dv.skip(from as int)));
        }
    }
}

fn write_links(out: &mut String, links: &Vec<String>)
    ensures
        final(out)@ == old(out)@ + ser_links(links.deep_view()),
{
    let ghost dv = links.deep_view();
    push_char(out, '[');
    if links.len() == 0 {
        push_char(out, ']');
        proof {
            assert(out@ =~= old(out)@ + ser_links(dv));
        }
    } else {
        write_string(out, links[0].as_str());
        write_links_tail(out, links, 1);
        proof {
            assert(dv[0] == links@[0]@);
            assert(out@ =~= old(out)@ + ser_links(dv));
        }
    }
}

fn write_tasks_tail(out: &mut String, tasks: &Vec<(String, bool)>, from: usize)
    requires
        from <= tasks@.len(),
    ensures
        final(out)@ == old(out)@ + ser_tasks_tail(tasks.deep_view().skip(from as int)),
    decreases tasks@.len() - from,
{
    let ghost dv = tasks.deep_view();
    if from == tasks.len() {
        push_char(out, '}');
        proof {
            assert(dv.skip(from as int) =~= Seq::<(Seq<char>, bool)>::empty());
            assert(out@ =~= old(out)@ + ser_tasks_tail(dv.skip(from as int)));
        }
    } else {
        push_char(out, ',');
        write_string(out, tasks[from].0.as_str());
        push_char(out, ':');
        write_bool(out, tasks[from].1);
        write_tasks_tail(out, tasks, from + 1);
        proof {
            assert(dv.skip(from as int)[0] == dv[from as int]);
            assert(dv.skip(from as int).skip(1) =~= dv.skip(from as int + 1));
            assert(dv[from as int] == (tasks@[from as int].0@, tasks@[from as int].1));
            assert(out@ =~= old(out)@ + ser_tasks_tail(dv.skip(from as int)));
        }
    }
}

fn write_tasks(out: &mut String, tasks: &Vec<(String, bool)>)
    ensures
        final(out)@ == old(out)@ + ser_tasks(tasks.deep_view()),
{
    let ghost dv = tasks.deep_view();
    push_char(out, '{');
    if tasks.len() == 0 {
        push_char(out, '}');
        proof {
            assert(out@ =~= old(out)@ + ser_tasks(dv));
        }
    } else {
        write_string(out, tasks[0].0.as_str());
        push_char(out, ':');
        write_bool(out, tasks[0].1);
        write_tasks_tail(out, tasks, 1);
        proof {
            assert(dv[0] == (tasks@[0].0@, tasks@[0].1));
            assert(out@ =~= old(out)@ + ser_tasks(dv));
        }
    }
}

fn write_workspace(out: &mut String, w: &crate::config::Workspace)
    ensures
        final(out)@ == old(out)@ + ser_workspace(w@),
{
    push_char(out, '{');
    write_string(out, "links");
    push_char(out, ':');
    write_links(out, &w.links);
    push_char(out, ',');
    write_string(out, "tasks");
    push_char(out, ':');
    write_tasks(out, &w.tasks);
    push_char(out, '}');
    proof {
        assert(out@ =~= old(out)@ + ser_workspace(w@));
    }
}

fn write_paths_tail(out: &mut String, paths: &Vec<(String, String)>, from: usize)
    requires
        from <= paths@.len(),
    ensures
        final(out)@ == old(out)@ + ser_paths_tail(paths.deep_view().skip(from as int)),
    decreases paths@.len() - from,
{
    let ghost dv = paths.deep_view();
    if from == paths.len() {
        push_char(out, '}');
        proof {
            assert(dv.skip(from as int) =~= Seq::<(Seq<char>, Seq<char>)>::empty());
            assert(out@ =~= old(out)@ + ser_paths_tail(dv.skip(from as int)));
        }
    } else {
        push_char(out, ',');
        write_string(out, paths[from].0.as_str());
        push_char(out, ':');
        write_string(out, paths[from].1.as_str());
        write_paths_tail(out, paths, from + 1);
        proof {
            assert(dv.skip(from as int)[0] == dv[from as int]);
            assert(dv.skip(from as int).skip(1) =~= dv.skip(from as int + 1));
            assert(dv[from as int] == (paths@[from as int].0@, paths@[from as int].1@));
            assert(out@ =~= old(out)@ + ser_paths_tail(dv.skip(from as int)));
        }
    }
}

fn write_paths(out: &mut String, paths: &Vec<(String, String)>)
    ensures
        final(out)@ == old(out)@ + ser_paths(paths.deep_view()),
{
    let ghost dv = paths.deep_view();
    push_char(out, '{');
    if paths.len() == 0 {
        push_char(out, '}');
        proof {
            assert(out@ =~= old(out)@ + ser_paths(dv));
        }
    } else {
        write_string(out, paths[0].0.as_str());
        push_char(out, ':');
        write_string(out, paths[0].1.as_str());
        write_paths_tail(out, paths, 1);
        proof {
            assert(dv[0] == (paths@[0].0@, paths@[0].1@));
            assert(out@ =~= old(out)@ + ser_paths(dv));
        }
    }
}

fn write_workspaces_tail(out: &mut String, ws: &Vec<(String, crate::config::Workspace)>, from: usize)
    requires
        from <= ws@.len(),
    ensures
        final(out)@ == old(out)@ + ser_workspaces_tail(ws.deep_view().skip(from as int)),
    decreases ws@.len() - from,
{
    let ghost dv = ws.deep_view();
    if from == ws.len() {
        push_char(out, '}');
        proof {
            assert(dv.skip(from as int) =~= Seq::<(Seq<char>, WorkspaceV)>::empty());
            assert(out@ =~= old(out)@ + ser_workspaces_tail(dv.skip(from as int)));
        }
    } else {
        push_char(out, ',');
        write_string(out, ws[from].0.as_str());
        push_char(out, ':');
        write_workspace(out, &ws[from].1);
        write_workspaces_tail(out, ws, from + 1);
        proof {
            assert(dv.skip(from as int)[0] == dv[from as int]);
            assert(dv.skip(from as int).skip(1) =~= dv.skip(from as int + 1));
            assert(dv[from as int] == (ws@[from as int].0@, ws@[from as int].1@));
            assert(out@ =~= old(out)@ + ser_workspaces_tail(dv.skip(from as int)));
        }
    }
}

fn write_workspaces(out: &mut String, ws: &Vec<(String, crate::config::Workspace)>)
    ensures
        final(out)@ == old(out)@ + ser_workspaces(ws.deep_view()),
{
    let ghost dv = ws.deep_view();
    push_char(out, '{');
    if ws.len() == 0 {
        push_char(out, '}');
        proof {
            assert(out@ =~= old(out)@ + ser_workspaces(dv));
        }
    } else {
        write_string(out, ws[0].0.as_str());
        push_char(out, ':');
        write_workspace(out, &ws[0].1);
        write_workspaces_tail(out, ws, 1);
        proof {
            assert(dv[0] == (ws@[0].0@, ws@[0].1@));
            assert(out@ =~= old(out)@ + ser_workspaces(dv));
        }
    }
}

impl Config {
    /// Serializes the configuration into its JSON document.
    pub fn to_json(&self) -> (r: String)
        ensures
            r@ == ser_config(self@),
    {
        let mut out = String::new();
        push_char(&mut out, '{');
        write_string(&mut out, "workspace_paths");
        push_char(&mut out, ':');
        write_paths(&mut out, &self.workspace_paths);
        push_char(&mut out, ',');
        write_string(&mut out, "workspaces");
        push_char(&mut out, ':');
        write_workspaces(&mut out, &self.workspaces);
        push_char(&mut out, '}');
        proof {
            assert(out@ =~= ser_config(self@));
        }
        out
    }
}

} // verus!
