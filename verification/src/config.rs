//! The in-memory configuration model: workspaces bound to filesystem
//! paths, each workspace holding an ordered list of links and a list of
//! tasks, together with the mutation operations on a loaded configuration.

use vstd::prelude::*;
use crate::strutil::str_eq;
use vstd::string::StringExecFns;

verus! {

/// A workspace: an ordered list of links (launch order is insertion
/// order, duplicates permitted) and a list of tasks, each a description
/// paired with a completion flag.
#[derive(Debug, Clone, PartialEq, Eq)]
pub struct Workspace {
    pub links: Vec<String>,
    pub tasks: Vec<(String, bool)>,
}

/// The abstract value of a [`Workspace`].
#[verifier::ext_equal]
pub struct WorkspaceV {
    pub links: Seq<Seq<char>>,
    pub tasks: Seq<(Seq<char>, bool)>,
}

impl View for Workspace {
    type V = WorkspaceV;

    open spec fn view(&self) -> WorkspaceV {
        WorkspaceV { links: self.links.deep_view(), tasks: self.tasks.deep_view() }
    }
}

impl DeepView for Workspace {
    type V = WorkspaceV;

    open spec fn deep_view(&self) -> WorkspaceV {
        self.view()
    }
}

/// The configuration document: workspace names mapped to filesystem
/// paths, and workspace names mapped to their [`Workspace`] records.
/// Both maps are association lists in insertion order; the first entry
/// with a given name is the binding that counts.
#[derive(Debug, Clone, PartialEq, Eq)]
pub struct Config {
    pub workspace_paths: Vec<(String, String)>,
    pub workspaces: Vec<(String, Workspace)>,
}

/// The abstract value of a [`Config`].
#[verifier::ext_equal]
pub struct ConfigV {
    pub workspace_paths: Seq<(Seq<char>, Seq<char>)>,
    pub workspaces: Seq<(Seq<char>, WorkspaceV)>,
}

impl View for Config {
    type V = ConfigV;

    open spec fn view(&self) -> ConfigV {
        ConfigV {
            workspace_paths: self.workspace_paths.deep_view(),
            workspaces: self.workspaces.deep_view(),
        }
    }
}

/// The empty configuration value: both maps empty.
pub open spec fn empty_config() -> ConfigV {
    ConfigV { workspace_paths: Seq::empty(), workspaces: Seq::empty() }
}

/// Does the association list bind the name `k`?
pub open spec fn has_key<V>(m: Seq<(Seq<char>, V)>, k: Seq<char>) -> bool {
    exists|i: int| 0 <= i < m.len() && m[i].0 == k
}

/// Entry `i` is the first entry of `m` binding `k`.
pub open spec fn is_first_binding<V>(m: Seq<(Seq<char>, V)>, k: Seq<char>, i: int) -> bool {
    &&& 0 <= i < m.len()
    &&& m[i].0 == k
    &&& forall|j: int| 0 <= j < i ==> m[j].0 != k
}

/// The index of the first entry of `m` binding `k` (meaningful only
/// when `has_key(m, k)`).
pub open spec fn first_binding<V>(m: Seq<(Seq<char>, V)>, k: Seq<char>) -> int {
    choose|i: int| is_first_binding(m, k, i)
}

/// No name is bound twice.
pub open spec fn unique_keys<V>(m: Seq<(Seq<char>, V)>) -> bool {
    forall|i: int, j: int| 0 <= i < j < m.len() ==> m[i].0 != m[j].0
}

impl WorkspaceV {
    /// Task descriptions are unique within the workspace.
    pub open spec fn wf(self) -> bool {
        unique_keys(self.tasks)
    }
}

impl ConfigV {
    /// Each map binds every name at most once, and every workspace is
    /// itself well formed.
    pub open spec fn wf(self) -> bool {
        &&& unique_keys(self.workspace_paths)
        &&& unique_keys(self.workspaces)
        &&& forall|i: int| 0 <= i < self.workspaces.len() ==> (#[trigger] self.workspaces[i].1).wf()
    }
}

/// A bound name has a first binding.
pub proof fn lemma_first_binding_exists<V>(m: Seq<(Seq<char>, V)>, k: Seq<char>)
    requires
        has_key(m, k),
    ensures
        is_first_binding(m, k, first_binding(m, k)),
    decreases m.len(),
{
    let w = choose|i: int| 0 <= i < m.len() && m[i].0 == k;
    if m[0].0 == k {
        assert(is_first_binding(m, k, 0));
    } else {
        let tail = m.skip(1);
        assert(tail[w - 1].0 == k);
        assert(has_key(tail, k));
        lemma_first_binding_exists(tail, k);
        let i = first_binding(tail, k);
        assert(forall|j: int| 0 <= j < i + 1 ==> m[j].0 != k) by {
            assert(forall|j: int| 1 <= j < i + 1 ==> m[j].0 == tail[j - 1].0 && tail[j - 1].0 != k);
        }
        assert(is_first_binding(m, k, i + 1));
    }
    let f = first_binding(m, k);
    assert(is_first_binding(m, k, f));
}

/// The first binding is unique, so `first_binding` returns exactly it.
pub proof fn lemma_first_binding_is<V>(m: Seq<(Seq<char>, V)>, k: Seq<char>, i: int)
    requires
        is_first_binding(m, k, i),
    ensures
        has_key(m, k),
        first_binding(m, k) == i,
{
    assert(has_key(m, k));
    lemma_first_binding_exists(m, k);
    let f = first_binding(m, k);
    if f < i {
        assert(m[f].0 == k);
        assert(false);
    }
    if i < f {
        assert(m[i].0 == k);
        assert(false);
    }
}

/// Overwriting an entry in place, keeping its key, keeps the keys unique.
pub proof fn lemma_unique_after_update<V>(m: Seq<(Seq<char>, V)>, i: int, e: (Seq<char>, V))
    requires
        unique_keys(m),
        0 <= i < m.len(),
        e.0 == m[i].0,
    ensures
        unique_keys(m.update(i, e)),
{
    let m2 = m.update(i, e);
    assert(forall|p: int| 0 <= p < m.len() ==> m2[p].0 == m[p].0);
}

/// Appending an entry whose key is not yet bound keeps the keys unique.
pub proof fn lemma_unique_after_push<V>(m: Seq<(Seq<char>, V)>, e: (Seq<char>, V))
    requires
        unique_keys(m),
        !has_key(m, e.0),
    ensures
        unique_keys(m.push(e)),
{
    let m2 = m.push(e);
    assert(forall|p: int| 0 <= p < m.len() ==> m2[p].0 == m[p].0);
    assert(m2[m.len() as int].0 == e.0);
    assert(forall|p: int| 0 <= p < m.len() ==> m[p].0 != e.0);
}

/// What `add_link` does to a configuration value, when the workspace is
/// bound: the first binding of the name keeps its tasks and gets the
/// url appended to its links; everything else is unchanged.
pub open spec fn spec_add_link(c: ConfigV, w: Seq<char>, url: Seq<char>) -> ConfigV {
    let i = first_binding(c.workspaces, w);
    let entry = c.workspaces[i];
    ConfigV {
        workspace_paths: c.workspace_paths,
        workspaces: c.workspaces.update(
            i,
            (entry.0, WorkspaceV { links: entry.1.links.push(url), tasks: entry.1.tasks }),
        ),
    }
}

/// The links of the workspace named `w` (meaningful only when bound).
pub open spec fn links_of(c: ConfigV, w: Seq<char>) -> Seq<Seq<char>> {
    c.workspaces[first_binding(c.workspaces, w)].1.links
}

/// What `remove_link` does to a configuration value, when the
/// workspace is bound and the index is in range: the first binding of
/// the name keeps its tasks and loses the link at the index.
pub open spec fn spec_remove_link(c: ConfigV, w: Seq<char>, idx: int) -> ConfigV {
    let i = first_binding(c.workspaces, w);
    let entry = c.workspaces[i];
    ConfigV {
        workspace_paths: c.workspace_paths,
        workspaces: c.workspaces.update(
            i,
            (entry.0, WorkspaceV { links: entry.1.links.remove(idx), tasks: entry.1.tasks }),
        ),
    }
}

/// What `set_task_completed` does to a configuration value, when the
/// workspace is bound: in the first binding of the name, the first task
/// with the given description gets the new flag, or a new task is
/// appended when the description is not yet bound.
pub open spec fn spec_set_task(c: ConfigV, w: Seq<char>, d: Seq<char>, done: bool) -> ConfigV {
    let i = first_binding(c.workspaces, w);
    let entry = c.workspaces[i];
    let ts = entry.1.tasks;
    let new_tasks = if has_key(ts, d) {
        ts.update(first_binding(ts, d), (d, done))
    } else {
        ts.push((d, done))
    };
    ConfigV {
        workspace_paths: c.workspace_paths,
        workspaces: c.workspaces.update(
            i,
            (entry.0, WorkspaceV { links: entry.1.links, tasks: new_tasks }),
        ),
    }
}

/// Failure of an operation that looks items of a workspace up.
#[derive(Debug, Clone, Copy, PartialEq, Eq)]
pub enum LookupError {
    WorkspaceNotFound,
    LinkIndexOutOfRange,
}

impl Config {
    /// A configuration with no workspaces and no paths.
    pub fn empty() -> (c: Config)
        ensures
            c@ == empty_config(),
    {
        let c = Config { workspace_paths: Vec::new(), workspaces: Vec::new() };
        proof {
            assert(c@ =~~= empty_config());
        }
        c
    }

    /// Binds `workspace` to `path`: overwrites the first existing
    /// binding of that name, or appends a new one. The workspace map is
    /// untouched: registering a name does not create a `Workspace`
    /// record for it.
    pub fn add_workspace(&mut self, workspace: String, path: String)
        ensures
            final(self)@.workspaces == old(self)@.workspaces,
            has_key(old(self)@.workspace_paths, workspace@) ==> final(self)@.workspace_paths
                == old(self)@.workspace_paths.update(
                    first_binding(old(self)@.workspace_paths, workspace@),
                    (workspace@, path@),
                ),
            !has_key(old(self)@.workspace_paths, workspace@) ==> final(self)@.workspace_paths
                == old(self)@.workspace_paths.push((workspace@, path@)),
            old(self)@.wf() ==> final(self)@.wf(),
    {
        let ghost m0 = self@.workspace_paths;
        let n = self.workspace_paths.len();
        let mut i: usize = 0;
        while i < n
            invariant
                n == self.workspace_paths.len(),
                i <= n,
                self@ == old(self)@,
                m0 == self@.workspace_paths,
                forall|j: int| 0 <= j < i ==> m0[j].0 != workspace@,
            decreases n - i,
        {
            if str_eq(self.workspace_paths[i].0.as_str(), workspace.as_str()) {
                proof {
                    assert(m0[i as int].0 == workspace@);
                    lemma_first_binding_is(m0, workspace@, i as int);
                }
                self.workspace_paths[i] = (workspace, path);
                proof {
                    assert(self@.workspace_paths =~= m0.update(i as int, (workspace@, path@)));
                    if old(self)@.wf() {
                        lemma_unique_after_update(m0, i as int, (workspace@, path@));
                    }
                }
                return ;
            }
            i = i + 1;
        }
        proof {
            assert(!has_key(m0, workspace@));
        }
        self.workspace_paths.push((workspace, path));
        proof {
            assert(self@.workspace_paths =~= m0.push((workspace@, path@)));
            if old(self)@.wf() {
                lemma_unique_after_push(m0, (workspace@, path@));
            }
        }
    }

    /// Appends `url` to the links of the workspace named `workspace`,
    /// or fails without touching the configuration when no workspace of
    /// that name exists.
    pub fn add_link(&mut self, workspace: &str, url: String) -> (r: Result<(), LookupError>)
        ensures
            match r {
                Ok(_) => has_key(old(self)@.workspaces, workspace@) && final(self)@
                    == spec_add_link(old(self)@, workspace@, url@),
                Err(e) => {
                    &&& e == LookupError::WorkspaceNotFound
                    &&& !has_key(old(self)@.workspaces, workspace@)
                    &&& final(self)@ == old(self)@
                },
            },
            has_key(old(self)@.workspaces, workspace@) <==> r is Ok,
            old(self)@.wf() ==> final(self)@.wf(),
    {
        let ghost m0 = self@.workspaces;
        let n = self.workspaces.len();
        let mut i: usize = 0;
        while i < n
            invariant
                n == self.workspaces.len(),
                i <= n,
                m0 == self@.workspaces,
                self@ == old(self)@,
                forall|j: int| 0 <= j < i ==> m0[j].0 != workspace@,
            decreases n - i,
        {
            if str_eq(self.workspaces[i].0.as_str(), workspace) {
                proof {
                    assert(m0[i as int].0 == workspace@);
                    lemma_first_binding_is(m0, workspace@, i as int);
                }
                self.workspaces[i].1.links.push(url);
                proof {
                    let entry = m0[i as int];
                    let updated = (entry.0, WorkspaceV {
                        links: entry.1.links.push(url@),
                        tasks: entry.1.tasks,
                    });
                    assert(self@.workspaces[i as int].1 =~~= updated.1);
                    assert(self@.workspaces =~~= m0.update(i as int, updated));
                    assert(self@ =~~= spec_add_link(old(self)@, workspace@, url@));
                    if old(self)@.wf() {
                        lemma_unique_after_update(m0, i as int, updated);
                        assert(forall|p: int|
                            0 <= p < self@.workspaces.len() ==> (
                            #[trigger] self@.workspaces[p].1).wf()) by {
                            assert(forall|p: int|
                                0 <= p < m0.len() && p != i ==> self@.workspaces[p].1 == m0[p].1);
                            assert(self@.workspaces[i as int].1.tasks == m0[i as int].1.tasks);
                        }
                    }
                }
                return Ok(());
            }
            i = i + 1;
        }
        Err(LookupError::WorkspaceNotFound)
    }

    /// Removes the link at `index` from the workspace named
    /// `workspace`, or fails without touching the configuration when no
    /// workspace of that name exists or the index is out of range.
    pub fn remove_link(&mut self, workspace: &str, index: usize) -> (r: Result<(), LookupError>)
        ensures
            match r {
                Ok(_) => {
                    &&& has_key(old(self)@.workspaces, workspace@)
                    &&& (index as int) < links_of(old(self)@, workspace@).len()
                    &&& final(self)@ == spec_remove_link(old(self)@, workspace@, index as int)
                },
                Err(LookupError::WorkspaceNotFound) => {
                    &&& !has_key(old(self)@.workspaces, workspace@)
                    &&& final(self)@ == old(self)@
                },
                Err(LookupError::LinkIndexOutOfRange) => {
                    &&& has_key(old(self)@.workspaces, workspace@)
                    &&& (index as int) >= links_of(old(self)@, workspace@).len()
                    &&& final(self)@ == old(self)@
                },
            },
            old(self)@.wf() ==> final(self)@.wf(),
    {
        let ghost m0 = self@.workspaces;
        let n = self.workspaces.len();
        let mut i: usize = 0;
        while i < n
            invariant
                n == self.workspaces.len(),
                i <= n,
                self@ == old(self)@,
                m0 == self@.workspaces,
                forall|j: int| 0 <= j < i ==> m0[j].0 != workspace@,
            decreases n - i,
        {
            if str_eq(self.workspaces[i].0.as_str(), workspace) {
                proof {
                    assert(m0[i as int].0 == workspace@);
                    lemma_first_binding_is(m0, workspace@, i as int);
                }
                if index >= self.workspaces[i].1.links.len() {
                    return Err(LookupError::LinkIndexOutOfRange);
                }
                let _removed = self.workspaces[i].1.links.remove(index);
                proof {
                    let entry = m0[i as int];
                    let updated = (entry.0, WorkspaceV {
                        links: entry.1.links.remove(index as int),
                        tasks: entry.1.tasks,
                    });
                    assert(self@.workspaces[i as int].1.links =~~= updated.1.links);
                    assert(self@.workspaces[i as int].1 =~~= updated.1);
                    assert(self@.workspaces =~~= m0.update(i as int, updated));
                    assert(self@ =~~= spec_remove_link(old(self)@, workspace@, index as int));
                    if old(self)@.wf() {
                        lemma_unique_after_update(m0, i as int, updated);
                        assert(forall|p: int|
                            0 <= p < self@.workspaces.len() ==> (
                            #[trigger] self@.workspaces[p].1).wf()) by {
                            assert(forall|p: int|
                                0 <= p < m0.len() && p != i ==> self@.workspaces[p].1 == m0[p].1);
                            assert(self@.workspaces[i as int].1.tasks == m0[i as int].1.tasks);
                        }
                    }
                }
                return Ok(());
            }
            i = i + 1;
        }
        Err(LookupError::WorkspaceNotFound)
    }

    /// Sets the completion flag of the task named `description` in the
    /// workspace named `workspace`, appending the task when the
    /// description is not yet bound, or fails without touching the
    /// configuration when no workspace of that name exists.
    pub fn set_task_completed(&mut self, workspace: &str, description: &str, completed: bool) -> (r:
        Result<(), LookupError>)
        ensures
            match r {
                Ok(_) => has_key(old(self)@.workspaces, workspace@) && final(self)@
                    == spec_set_task(old(self)@, workspace@, description@, completed),
                Err(e) => {
                    &&& e == LookupError::WorkspaceNotFound
                    &&& !has_key(old(self)@.workspaces, workspace@)
                    &&& final(self)@ == old(self)@
                },
            },
            has_key(old(self)@.workspaces, workspace@) <==> r is Ok,
            old(self)@.wf() ==> final(self)@.wf(),
    {
        let ghost m0 = self@.workspaces;
        let n = self.workspaces.len();
        let mut i: usize = 0;
        while i < n
            invariant
                n == self.workspaces.len(),
                i <= n,
                self@ == old(self)@,
                m0 == self@.workspaces,
                forall|j: int| 0 <= j < i ==> m0[j].0 != workspace@,
            decreases n - i,
        {
            if str_eq(self.workspaces[i].0.as_str(), workspace) {
                proof {
                    assert(m0[i as int].0 == workspace@);
                    lemma_first_binding_is(m0, workspace@, i as int);
                }
                let ghost ts0 = m0[i as int].1.tasks;
                let tn = self.workspaces[i].1.tasks.len();
                let mut j: usize = 0;
                while j < tn
                    invariant
                        n == self.workspaces.len(),
                        i < n,
                        self@ == old(self)@,
                        m0 == self@.workspaces,
                        is_first_binding(m0, workspace@, i as int),
                        ts0 == m0[i as int].1.tasks,
                        tn as int == ts0.len(),
                        tn == self.workspaces@[i as int].1.tasks.len(),
                        j <= tn,
                        forall|q: int| 0 <= q < j ==> ts0[q].0 != description@,
                    decreases tn - j,
                {
                    if str_eq(self.workspaces[i].1.tasks[j].0.as_str(), description) {
                        proof {
                            assert(ts0[j as int].0 == description@);
                            lemma_first_binding_is(ts0, description@, j as int);
                        }
                        self.workspaces[i].1.tasks[j] = (String::from_str(description), completed);
                        proof {
                            let entry = m0[i as int];
                            let updated = (entry.0, WorkspaceV {
                                links: entry.1.links,
                                tasks: ts0.update(j as int, (description@, completed)),
                            });
                            assert(self@.workspaces[i as int].1.tasks =~~= updated.1.tasks);
                            assert(self@.workspaces[i as int].1 =~~= updated.1);
                            assert(self@.workspaces =~~= m0.update(i as int, updated));
                            assert(self@ =~~= spec_set_task(
                                old(self)@,
                                workspace@,
                                description@,
                                completed,
                            ));
                            if old(self)@.wf() {
                                lemma_unique_after_update(
                                    ts0,
                                    j as int,
                                    (description@, completed),
                                );
                                lemma_unique_after_update(m0, i as int, updated);
                                assert(forall|p: int|
                                    0 <= p < self@.workspaces.len() ==> (
                                    #[trigger] self@.workspaces[p].1).wf()) by {
                                    assert(forall|p: int|
                                        0 <= p < m0.len() && p != i ==> self@.workspaces[p].1
                                            == m0[p].1);
                                }
                            }
                        }
                        return Ok(());
                    }
                    j = j + 1;
                }
                proof {
                    assert(!has_key(ts0, description@));
                }
                self.workspaces[i].1.tasks.push((String::from_str(description), completed));
                proof {
                    let entry = m0[i as int];
                    let updated = (entry.0, WorkspaceV {
                        links: entry.1.links,
                        tasks: ts0.push((description@, completed)),
                    });
                    assert(self@.workspaces[i as int].1.tasks =~~= updated.1.tasks);
                    assert(self@.workspaces[i as int].1 =~~= updated.1);
                    assert(self@.workspaces =~~= m0.update(i as int, updated));
                    assert(self@ =~~= spec_set_task(old(self)@, workspace@, description@, completed));
                    if old(self)@.wf() {
                        lemma_unique_after_push(ts0, (description@, completed));
                        lemma_unique_after_update(m0, i as int, updated);
                        assert(forall|p: int|
                            0 <= p < self@.workspaces.len() ==> (
                            #[trigger] self@.workspaces[p].1).wf()) by {
                            assert(forall|p: int|
                                0 <= p < m0.len() && p != i ==> self@.workspaces[p].1 == m0[p].1);
                        }
                    }
                }
                return Ok(());
            }
            i = i + 1;
        }
        Err(LookupError::WorkspaceNotFound)
    }

    /// The links of the workspace named `workspace`, or a lookup
    /// failure when no workspace of that name exists.
    pub fn get_links(&self, workspace: &str) -> (r: Result<&Vec<String>, LookupError>)
        ensures
            match r {
                Ok(links) => has_key(self@.workspaces, workspace@) && links.deep_view()
                    == links_of(self@, workspace@),
                Err(e) => e == LookupError::WorkspaceNotFound && !has_key(
                    self@.workspaces,
                    workspace@,
                ),
            },
            has_key(self@.workspaces, workspace@) <==> r is Ok,
    {
        let ghost m0 = self@.workspaces;
        let n = self.workspaces.len();
        let mut i: usize = 0;
        while i < n
            invariant
                n == self.workspaces.len(),
                i <= n,
                m0 == self@.workspaces,
                forall|j: int| 0 <= j < i ==> m0[j].0 != workspace@,
            decreases n - i,
        {
            if str_eq(self.workspaces[i].0.as_str(), workspace) {
                proof {
                    assert(m0[i as int].0 == workspace@);
                    lemma_first_binding_is(m0, workspace@, i as int);
                }
                return Ok(&self.workspaces[i].1.links);
            }
            i = i + 1;
        }
        Err(LookupError::WorkspaceNotFound)
    }
}

/// Appending two links in a row appends them in that order: after
/// adding `a` and then `b` to the workspace named `w`, its links are
/// the original links followed by `a`, then `b`, and the name is still
/// bound.
pub proof fn lemma_add_link_ordering(c: ConfigV, w: Seq<char>, a: Seq<char>, b: Seq<char>)
    requires
        has_key(c.workspaces, w),
    ensures
        has_key(spec_add_link(c, w, a).workspaces, w),
        links_of(spec_add_link(spec_add_link(c, w, a), w, b), w) == links_of(c, w) + seq![a, b],
{
    lemma_first_binding_exists(c.workspaces, w);
    let i = first_binding(c.workspaces, w);
    let c1 = spec_add_link(c, w, a);
    assert(c1.workspaces[i].0 == w);
    assert(forall|j: int| 0 <= j < i ==> c1.workspaces[j].0 == c.workspaces[j].0);
    assert(is_first_binding(c1.workspaces, w, i));
    lemma_first_binding_is(c1.workspaces, w, i);
    let c2 = spec_add_link(c1, w, b);
    assert(c2.workspaces[i].0 == w);
    assert(forall|j: int| 0 <= j < i ==> c2.workspaces[j].0 == c1.workspaces[j].0);
    assert(is_first_binding(c2.workspaces, w, i));
    lemma_first_binding_is(c2.workspaces, w, i);
    assert(links_of(c2, w) =~= links_of(c, w) + seq![a, b]);
}

} // verus!
