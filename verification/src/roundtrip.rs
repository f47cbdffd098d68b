//! The round-trip law: parsing the serialized form of any configuration
//! value gives that value back, entry for entry.
//!
//! Each lemma says: wherever the serialized text of a production occurs
//! in a document, the parser for that production, started there, returns
//! exactly the serialized value and stops exactly after its text.

use vstd::prelude::*;
use crate::config::{ConfigV, WorkspaceV, empty_config};
use crate::ser::{
    esc_char, esc_seq, ser_bool, ser_config, ser_links, ser_links_tail, ser_path_entry, ser_paths,
    ser_paths_tail, ser_string, ser_task, ser_tasks, ser_tasks_tail, ser_workspace,
    ser_workspaces, ser_workspaces_tail, ser_ws_entry,
};
use crate::parse::{
    is_ws, p_bool, p_config, p_links, p_links_tail, p_path_entry, p_paths, p_paths_tail, p_string,
    p_string_body, p_task, p_tasks, p_tasks_tail, p_workspace, p_workspaces, p_workspaces_tail,
    p_ws_entry, skip_ws, unesc_char,
};

verus! {

/// The pattern `pat` stands character for character at position `i` of `t`.
pub open spec fn occurs_at(t: Seq<char>, i: int, pat: Seq<char>) -> bool {
    &&& 0 <= i
    &&& i + pat.len() <= t.len()
    &&& forall|k: int| 0 <= k < pat.len() ==> t[i + k] == pat[k]
}

proof fn lemma_occurs_split(t: Seq<char>, i: int, a: Seq<char>, b: Seq<char>)
    requires
        occurs_at(t, i, a + b),
    ensures
        occurs_at(t, i, a),
        occurs_at(t, i + a.len(), b),
{
    assert forall|k: int| 0 <= k < a.len() implies t[i + k] == a[k] by {
        assert(t[i + k] == (a + b)[k]);
    }
    assert forall|k: int| 0 <= k < b.len() implies t[i + a.len() + k] == b[k] by {
        assert(t[i + (a.len() + k)] == (a + b)[a.len() + k]);
    }
}

proof fn lemma_occurs_char(t: Seq<char>, i: int, c: char)
    requires
        occurs_at(t, i, seq![c]),
    ensures
        0 <= i < t.len(),
        t[i] == c,
{
    assert(t[i + 0] == seq![c][0]);
}

proof fn lemma_occurs_first(t: Seq<char>, i: int, pat: Seq<char>)
    requires
        occurs_at(t, i, pat),
        pat.len() > 0,
    ensures
        0 <= i < t.len(),
        t[i] == pat[0],
{
    assert(t[i + 0] == pat[0]);
}

proof fn lemma_skip_ws_stops(t: Seq<char>, i: int)
    requires
        !(0 <= i < t.len() && is_ws(t[i])),
    ensures
        skip_ws(t, i) == i,
{
}

proof fn lemma_rt_string_body(t: Seq<char>, i: int, v: Seq<char>)
    requires
        occurs_at(t, i, esc_seq(v).push('"')),
    ensures
        p_string_body(t, i) == Some((v, i + esc_seq(v).len() + 1)),
    decreases v.len(),
{
    if v.len() == 0 {
        assert(esc_seq(v) == Seq::<char>::empty());
        lemma_occurs_first(t, i, esc_seq(v).push('"'));
        assert(t[i] == '"');
        assert(v =~= Seq::<char>::empty());
    } else {
        let c = v[0];
        let v1 = v.skip(1);
        let pat1 = esc_seq(v1).push('"');
        assert(esc_seq(v) == esc_char(c) + esc_seq(v1));
        assert(esc_seq(v).push('"') =~= esc_char(c) + pat1);
        lemma_occurs_split(t, i, esc_char(c), pat1);
        if c == '"' || c == '\\' {
            assert(esc_char(c).len() == 2);
            assert(t[i] == '\\') by {
                assert(t[i + 0] == esc_char(c)[0]);
            }
            assert(t[i + 1] == c) by {
                assert(t[i + 1] == esc_char(c)[1]);
            }
            assert(unesc_char(t[i + 1]) == Some(c));
            lemma_rt_string_body(t, i + 2, v1);
            assert(seq![c] + v1 =~= v);
        } else {
            assert(esc_char(c).len() == 1);
            assert(t[i] == c) by {
                assert(t[i + 0] == esc_char(c)[0]);
            }
            lemma_rt_string_body(t, i + 1, v1);
            assert(seq![c] + v1 =~= v);
        }
    }
}

proof fn lemma_rt_string(t: Seq<char>, i: int, v: Seq<char>)
    requires
        occurs_at(t, i, ser_string(v)),
    ensures
        p_string(t, i) == Some((v, i + ser_string(v).len())),
{
    assert(ser_string(v) =~= seq!['"'] + esc_seq(v).push('"'));
    lemma_occurs_split(t, i, seq!['"'], esc_seq(v).push('"'));
    lemma_occurs_char(t, i, '"');
    lemma_skip_ws_stops(t, i);
    lemma_rt_string_body(t, i + 1, v);
}

proof fn lemma_rt_bool(t: Seq<char>, i: int, b: bool)
    requires
        occurs_at(t, i, ser_bool(b)),
    ensures
        p_bool(t, i) == Some((b, i + ser_bool(b).len())),
{
    if b {
        assert(t[i + 0] == ser_bool(b)[0]);
        assert(t[i + 1] == ser_bool(b)[1]);
        assert(t[i + 2] == ser_bool(b)[2]);
        assert(t[i + 3] == ser_bool(b)[3]);
        lemma_skip_ws_stops(t, i);
    } else {
        assert(t[i + 0] == ser_bool(b)[0]);
        assert(t[i + 1] == ser_bool(b)[1]);
        assert(t[i + 2] == ser_bool(b)[2]);
        assert(t[i + 3] == ser_bool(b)[3]);
        assert(t[i + 4] == ser_bool(b)[4]);
        lemma_skip_ws_stops(t, i);
    }
}

proof fn lemma_rt_links_tail(t: Seq<char>, i: int, ls: Seq<Seq<char>>)
    requires
        occurs_at(t, i, ser_links_tail(ls)),
    ensures
        p_links_tail(t, i) == Some((ls, i + ser_links_tail(ls).len())),
    decreases ls.len(),
{
    if ls.len() == 0 {
        lemma_occurs_char(t, i, ']');
        lemma_skip_ws_stops(t, i);
        assert(ls =~= Seq::<Seq<char>>::empty());
    } else {
        let x = ls[0];
        let rest = ls.skip(1);
        assert(ser_links_tail(ls) =~= seq![','] + (ser_string(x) + ser_links_tail(rest)));
        lemma_occurs_split(t, i, seq![','], ser_string(x) + ser_links_tail(rest));
        lemma_occurs_split(t, i + 1, ser_string(x), ser_links_tail(rest));
        lemma_occurs_char(t, i, ',');
        lemma_skip_ws_stops(t, i);
        lemma_rt_string(t, i + 1, x);
        let k = i + 1 + ser_string(x).len();
        lemma_rt_links_tail(t, k, rest);
        assert(seq![x] + rest =~= ls);
    }
}

proof fn lemma_rt_links(t: Seq<char>, i: int, ls: Seq<Seq<char>>)
    requires
        occurs_at(t, i, ser_links(ls)),
    ensures
        p_links(t, i) == Some((ls, i + ser_links(ls).len())),
{
    if ls.len() == 0 {
        assert(ser_links(ls) =~= seq!['['] + seq![']']);
        lemma_occurs_split(t, i, seq!['['], seq![']']);
        lemma_occurs_char(t, i, '[');
        lemma_occurs_char(t, i + 1, ']');
        lemma_skip_ws_stops(t, i);
        lemma_skip_ws_stops(t, i + 1);
        assert(ls =~= Seq::<Seq<char>>::empty());
    } else {
        let x = ls[0];
        let rest = ls.skip(1);
        assert(ser_links(ls) =~= seq!['['] + (ser_string(x) + ser_links_tail(rest)));
        lemma_occurs_split(t, i, seq!['['], ser_string(x) + ser_links_tail(rest));
        lemma_occurs_split(t, i + 1, ser_string(x), ser_links_tail(rest));
        lemma_occurs_char(t, i, '[');
        lemma_skip_ws_stops(t, i);
        lemma_occurs_first(t, i + 1, ser_string(x));
        assert(ser_string(x)[0] == '"');
        lemma_skip_ws_stops(t, i + 1);
        lemma_rt_string(t, i + 1, x);
        let k = i + 1 + ser_string(x).len();
        lemma_rt_links_tail(t, k, rest);
        assert(seq![x] + rest =~= ls);
    }
}

proof fn lemma_rt_task(t: Seq<char>, i: int, e: (Seq<char>, bool))
    requires
        occurs_at(t, i, ser_task(e)),
    ensures
        p_task(t, i) == Some((e, i + ser_task(e).len())),
{
    assert(ser_task(e) =~= ser_string(e.0) + (seq![':'] + ser_bool(e.1)));
    lemma_occurs_split(t, i, ser_string(e.0), seq![':'] + ser_bool(e.1));
    let m = i + ser_string(e.0).len();
    lemma_occurs_split(t, m, seq![':'], ser_bool(e.1));
    lemma_rt_string(t, i, e.0);
    lemma_occurs_char(t, m, ':');
    lemma_skip_ws_stops(t, m);
    lemma_rt_bool(t, m + 1, e.1);
}

proof fn lemma_rt_tasks_tail(t: Seq<char>, i: int, ts: Seq<(Seq<char>, bool)>)
    requires
        occurs_at(t, i, ser_tasks_tail(ts)),
    ensures
        p_tasks_tail(t, i) == Some((ts, i + ser_tasks_tail(ts).len())),
    decreases ts.len(),
{
    if ts.len() == 0 {
        lemma_occurs_char(t, i, '}');
        lemma_skip_ws_stops(t, i);
        assert(ts =~= Seq::<(Seq<char>, bool)>::empty());
    } else {
        let x = ts[0];
        let rest = ts.skip(1);
        assert(ser_tasks_tail(ts) =~= seq![','] + (ser_task(x) + ser_tasks_tail(rest)));
        lemma_occurs_split(t, i, seq![','], ser_task(x) + ser_tasks_tail(rest));
        lemma_occurs_split(t, i + 1, ser_task(x), ser_tasks_tail(rest));
        lemma_occurs_char(t, i, ',');
        lemma_skip_ws_stops(t, i);
        lemma_rt_task(t, i + 1, x);
        let k = i + 1 + ser_task(x).len();
        lemma_rt_tasks_tail(t, k, rest);
        assert(seq![x] + rest =~= ts);
    }
}

proof fn lemma_rt_tasks(t: Seq<char>, i: int, ts: Seq<(Seq<char>, bool)>)
    requires
        occurs_at(t, i, ser_tasks(ts)),
    ensures
        p_tasks(t, i) == Some((ts, i + ser_tasks(ts).len())),
{
    if ts.len() == 0 {
        assert(ser_tasks(ts) =~= seq!['{'] + seq!['}']);
        lemma_occurs_split(t, i, seq!['{'], seq!['}']);
        lemma_occurs_char(t, i, '{');
        lemma_occurs_char(t, i + 1, '}');
        lemma_skip_ws_stops(t, i);
        lemma_skip_ws_stops(t, i + 1);
        assert(ts =~= Seq::<(Seq<char>, bool)>::empty());
    } else {
        let x = ts[0];
        let rest = ts.skip(1);
        assert(ser_tasks(ts) =~= seq!['{'] + (ser_task(x) + ser_tasks_tail(rest)));
        lemma_occurs_split(t, i, seq!['{'], ser_task(x) + ser_tasks_tail(rest));
        lemma_occurs_split(t, i + 1, ser_task(x), ser_tasks_tail(rest));
        lemma_occurs_char(t, i, '{');
        lemma_skip_ws_stops(t, i);
        lemma_occurs_first(t, i + 1, ser_task(x));
        assert(ser_task(x)[0] == '"') by {
            assert(ser_task(x)[0] == ser_string(x.0)[0]);
        }
        lemma_skip_ws_stops(t, i + 1);
        lemma_rt_task(t, i + 1, x);
        let k = i + 1 + ser_task(x).len();
        lemma_rt_tasks_tail(t, k, rest);
        assert(seq![x] + rest =~= ts);
    }
}

proof fn lemma_rt_path_entry(t: Seq<char>, i: int, e: (Seq<char>, Seq<char>))
    requires
        occurs_at(t, i, ser_path_entry(e)),
    ensures
        p_path_entry(t, i) == Some((e, i + ser_path_entry(e).len())),
{
    assert(ser_path_entry(e) =~= ser_string(e.0) + (seq![':'] + ser_string(e.1)));
    lemma_occurs_split(t, i, ser_string(e.0), seq![':'] + ser_string(e.1));
    let m = i + ser_string(e.0).len();
    lemma_occurs_split(t, m, seq![':'], ser_string(e.1));
    lemma_rt_string(t, i, e.0);
    lemma_occurs_char(t, m, ':');
    lemma_skip_ws_stops(t, m);
    lemma_rt_string(t, m + 1, e.1);
}

proof fn lemma_rt_paths_tail(t: Seq<char>, i: int, es: Seq<(Seq<char>, Seq<char>)>)
    requires
        occurs_at(t, i, ser_paths_tail(es)),
    ensures
        p_paths_tail(t, i) == Some((es, i + ser_paths_tail(es).len())),
    decreases es.len(),
{
    if es.len() == 0 {
        lemma_occurs_char(t, i, '}');
        lemma_skip_ws_stops(t, i);
        assert(es =~= Seq::<(Seq<char>, Seq<char>)>::empty());
    } else {
        let x = es[0];
        let rest = es.skip(1);
        assert(ser_paths_tail(es) =~= seq![','] + (ser_path_entry(x) + ser_paths_tail(rest)));
        lemma_occurs_split(t, i, seq![','], ser_path_entry(x) + ser_paths_tail(rest));
        lemma_occurs_split(t, i + 1, ser_path_entry(x), ser_paths_tail(rest));
        lemma_occurs_char(t, i, ',');
        lemma_skip_ws_stops(t, i);
        lemma_rt_path_entry(t, i + 1, x);
        let k = i + 1 + ser_path_entry(x).len();
        lemma_rt_paths_tail(t, k, rest);
        assert(seq![x] + rest =~= es);
    }
}

proof fn lemma_rt_paths(t: Seq<char>, i: int, es: Seq<(Seq<char>, Seq<char>)>)
    requires
        occurs_at(t, i, ser_paths(es)),
    ensures
        p_paths(t, i) == Some((es, i + ser_paths(es).len())),
{
    if es.len() == 0 {
        assert(ser_paths(es) =~= seq!['{'] + seq!['}']);
        lemma_occurs_split(t, i, seq!['{'], seq!['}']);
        lemma_occurs_char(t, i, '{');
        lemma_occurs_char(t, i + 1, '}');
        lemma_skip_ws_stops(t, i);
        lemma_skip_ws_stops(t, i + 1);
        assert(es =~= Seq::<(Seq<char>, Seq<char>)>::empty());
    } else {
        let x = es[0];
        let rest = es.skip(1);
        assert(ser_paths(es) =~= seq!['{'] + (ser_path_entry(x) + ser_paths_tail(rest)));
        lemma_occurs_split(t, i, seq!['{'], ser_path_entry(x) + ser_paths_tail(rest));
        lemma_occurs_split(t, i + 1, ser_path_entry(x), ser_paths_tail(rest));
        lemma_occurs_char(t, i, '{');
        lemma_skip_ws_stops(t, i);
        lemma_occurs_first(t, i + 1, ser_path_entry(x));
        assert(ser_path_entry(x)[0] == '"') by {
            assert(ser_path_entry(x)[0] == ser_string(x.0)[0]);
        }
        lemma_skip_ws_stops(t, i + 1);
        lemma_rt_path_entry(t, i + 1, x);
        let k = i + 1 + ser_path_entry(x).len();
        lemma_rt_paths_tail(t, k, rest);
        assert(seq![x] + rest =~= es);
    }
}

proof fn lemma_rt_workspace(t: Seq<char>, i: int, w: WorkspaceV)
    requires
        occurs_at(t, i, ser_workspace(w)),
    ensures
        p_workspace(t, i) == Some((w, i + ser_workspace(w).len())),
{
    let kpat1 = ser_string("links"@);
    let vpat1 = ser_links(w.links);
    let kpat2 = ser_string("tasks"@);
    let vpat2 = ser_tasks(w.tasks);
    let r8 = vpat2 + seq!['}'];
    let r7 = seq![':'] + r8;
    let r6 = kpat2 + r7;
    let r5 = seq![','] + r6;
    let r4 = vpat1 + r5;
    let r3 = seq![':'] + r4;
    let r2 = kpat1 + r3;
    assert(ser_workspace(w) =~= seq!['{'] + r2);
    lemma_occurs_split(t, i, seq!['{'], r2);
    let i2 = i + 1;
    lemma_occurs_split(t, i2, kpat1, r3);
    let i3 = i2 + kpat1.len();
    lemma_occurs_split(t, i3, seq![':'], r4);
    let i4 = i3 + 1;
    lemma_occurs_split(t, i4, vpat1, r5);
    let i5 = i4 + vpat1.len();
    lemma_occurs_split(t, i5, seq![','], r6);
    let i6 = i5 + 1;
    lemma_occurs_split(t, i6, kpat2, r7);
    let i7 = i6 + kpat2.len();
    lemma_occurs_split(t, i7, seq![':'], r8);
    let i8 = i7 + 1;
    lemma_occurs_split(t, i8, vpat2, seq!['}']);
    let i9 = i8 + vpat2.len();
    lemma_occurs_char(t, i, '{');
    lemma_skip_ws_stops(t, i);
    lemma_rt_string(t, i2, "links"@);
    lemma_occurs_char(t, i3, ':');
    lemma_skip_ws_stops(t, i3);
    lemma_rt_links(t, i4, w.links);
    lemma_occurs_char(t, i5, ',');
    lemma_skip_ws_stops(t, i5);
    lemma_rt_string(t, i6, "tasks"@);
    lemma_occurs_char(t, i7, ':');
    lemma_skip_ws_stops(t, i7);
    lemma_rt_tasks(t, i8, w.tasks);
    lemma_occurs_char(t, i9, '}');
    lemma_skip_ws_stops(t, i9);
    assert(WorkspaceV { links: w.links, tasks: w.tasks } =~= w);
    assert(i9 + 1 == i + ser_workspace(w).len());
}

proof fn lemma_rt_ws_entry(t: Seq<char>, i: int, e: (Seq<char>, WorkspaceV))
    requires
        occurs_at(t, i, ser_ws_entry(e)),
    ensures
        p_ws_entry(t, i) == Some((e, i + ser_ws_entry(e).len())),
{
    assert(ser_ws_entry(e) =~= ser_string(e.0) + (seq![':'] + ser_workspace(e.1)));
    lemma_occurs_split(t, i, ser_string(e.0), seq![':'] + ser_workspace(e.1));
    let m = i + ser_string(e.0).len();
    lemma_occurs_split(t, m, seq![':'], ser_workspace(e.1));
    lemma_rt_string(t, i, e.0);
    lemma_occurs_char(t, m, ':');
    lemma_skip_ws_stops(t, m);
    lemma_rt_workspace(t, m + 1, e.1);
}

proof fn lemma_rt_workspaces_tail(t: Seq<char>, i: int, es: Seq<(Seq<char>, WorkspaceV)>)
    requires
        occurs_at(t, i, ser_workspaces_tail(es)),
    ensures
        p_workspaces_tail(t, i) == Some((es, i + ser_workspaces_tail(es).len())),
    decreases es.len(),
{
    if es.len() == 0 {
        lemma_occurs_char(t, i, '}');
        lemma_skip_ws_stops(t, i);
        assert(es =~= Seq::<(Seq<char>, WorkspaceV)>::empty());
    } else {
        let x = es[0];
        let rest = es.skip(1);
        assert(ser_workspaces_tail(es) =~= seq![','] + (ser_ws_entry(x) + ser_workspaces_tail(
            rest,
        )));
        lemma_occurs_split(t, i, seq![','], ser_ws_entry(x) + ser_workspaces_tail(rest));
        lemma_occurs_split(t, i + 1, ser_ws_entry(x), ser_workspaces_tail(rest));
        lemma_occurs_char(t, i, ',');
        lemma_skip_ws_stops(t, i);
        lemma_rt_ws_entry(t, i + 1, x);
        let k = i + 1 + ser_ws_entry(x).len();
        lemma_rt_workspaces_tail(t, k, rest);
        assert(seq![x] + rest =~= es);
    }
}

proof fn lemma_rt_workspaces(t: Seq<char>, i: int, es: Seq<(Seq<char>, WorkspaceV)>)
    requires
        occurs_at(t, i, ser_workspaces(es)),
    ensures
        p_workspaces(t, i) == Some((es, i + ser_workspaces(es).len())),
{
    if es.len() == 0 {
        assert(ser_workspaces(es) =~= seq!['{'] + seq!['}']);
        lemma_occurs_split(t, i, seq!['{'], seq!['}']);
        lemma_occurs_char(t, i, '{');
        lemma_occurs_char(t, i + 1, '}');
        lemma_skip_ws_stops(t, i);
        lemma_skip_ws_stops(t, i + 1);
        assert(es =~= Seq::<(Seq<char>, WorkspaceV)>::empty());
    } else {
        let x = es[0];
        let rest = es.skip(1);
        assert(ser_workspaces(es) =~= seq!['{'] + (ser_ws_entry(x) + ser_workspaces_tail(rest)));
        lemma_occurs_split(t, i, seq!['{'], ser_ws_entry(x) + ser_workspaces_tail(rest));
        lemma_occurs_split(t, i + 1, ser_ws_entry(x), ser_workspaces_tail(rest));
        lemma_occurs_char(t, i, '{');
        lemma_skip_ws_stops(t, i);
        lemma_occurs_first(t, i + 1, ser_ws_entry(x));
        assert(ser_ws_entry(x)[0] == '"') by {
            assert(ser_ws_entry(x)[0] == ser_string(x.0)[0]);
        }
        lemma_skip_ws_stops(t, i + 1);
        lemma_rt_ws_entry(t, i + 1, x);
        let k = i + 1 + ser_ws_entry(x).len();
        lemma_rt_workspaces_tail(t, k, rest);
        assert(seq![x] + rest =~= es);
    }
}

/// The round-trip law: for any configuration value, parsing its
/// serialized document gives exactly that value back, entry for entry
/// in both maps.
pub proof fn lemma_config_round_trip(c: ConfigV)
    ensures
        p_config(ser_config(c)) == Some(c),
{
    let t = ser_config(c);
    assert(occurs_at(t, 0, t));
    let kpat1 = ser_string("workspace_paths"@);
    let vpat1 = ser_paths(c.workspace_paths);
    let kpat2 = ser_string("workspaces"@);
    let vpat2 = ser_workspaces(c.workspaces);
    let r8 = vpat2 + seq!['}'];
    let r7 = seq![':'] + r8;
    let r6 = kpat2 + r7;
    let r5 = seq![','] + r6;
    let r4 = vpat1 + r5;
    let r3 = seq![':'] + r4;
    let r2 = kpat1 + r3;
    assert(t =~= seq!['{'] + r2);
    lemma_occurs_split(t, 0, seq!['{'], r2);
    let i2 = 1int;
    lemma_occurs_split(t, i2, kpat1, r3);
    let i3 = i2 + kpat1.len();
    lemma_occurs_split(t, i3, seq![':'], r4);
    let i4 = i3 + 1;
    lemma_occurs_split(t, i4, vpat1, r5);
    let i5 = i4 + vpat1.len();
    lemma_occurs_split(t, i5, seq![','], r6);
    let i6 = i5 + 1;
    lemma_occurs_split(t, i6, kpat2, r7);
    let i7 = i6 + kpat2.len();
    lemma_occurs_split(t, i7, seq![':'], r8);
    let i8 = i7 + 1;
    lemma_occurs_split(t, i8, vpat2, seq!['}']);
    let i9 = i8 + vpat2.len();
    lemma_occurs_char(t, 0, '{');
    lemma_skip_ws_stops(t, 0);
    lemma_rt_string(t, i2, "workspace_paths"@);
    lemma_occurs_char(t, i3, ':');
    lemma_skip_ws_stops(t, i3);
    lemma_rt_paths(t, i4, c.workspace_paths);
    lemma_occurs_char(t, i5, ',');
    lemma_skip_ws_stops(t, i5);
    lemma_rt_string(t, i6, "workspaces"@);
    lemma_occurs_char(t, i7, ':');
    lemma_skip_ws_stops(t, i7);
    lemma_rt_workspaces(t, i8, c.workspaces);
    lemma_occurs_char(t, i9, '}');
    lemma_skip_ws_stops(t, i9);
    assert(i9 + 1 == t.len());
    lemma_skip_ws_stops(t, i9 + 1);
    assert(ConfigV { workspace_paths: c.workspace_paths, workspaces: c.workspaces } =~= c);
}

/// The default scaffold document parses back to the empty
/// configuration: both maps empty.
pub proof fn lemma_default_doc_parses_empty()
    ensures
        p_config(ser_config(empty_config())) == Some(empty_config()),
{
    lemma_config_round_trip(empty_config());
}

} // verus!
