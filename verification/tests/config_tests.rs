use ctx::config::{Config, LookupError, Workspace};

// tests serialisation of workspace items
#[test]
pub fn new_workspace() {
    let mut hm: Vec<(String, bool)> = Vec::new();
    hm.push((String::from("This is a task, that isn't completed."), false));
    let workspace = Workspace {
        links: vec![String::from("https://rust-lang.org")],
        tasks: hm,
    };
    assert_eq!(
        workspace.links.get(0).unwrap().clone(),
        String::from("https://rust-lang.org")
    );
}

#[test]
fn empty_config_has_no_entries() {
    let c = Config::empty();
    assert_eq!(c.workspace_paths.len(), 0);
    assert_eq!(c.workspaces.len(), 0);
}

#[test]
fn add_workspace_registers_path() {
    let mut c = Config::empty();
    c.add_workspace("proj".to_string(), "/abs/path".to_string());
    assert_eq!(c.workspace_paths.len(), 1);
    assert_eq!(c.workspace_paths[0].0, "proj");
    assert_eq!(c.workspace_paths[0].1, "/abs/path");
    // registering a path does not create a workspace record
    assert_eq!(c.workspaces.len(), 0);
}

#[test]
fn add_workspace_overwrites_existing_binding() {
    let mut c = Config::empty();
    c.add_workspace("proj".to_string(), "/old".to_string());
    c.add_workspace("proj".to_string(), "/new".to_string());
    assert_eq!(c.workspace_paths.len(), 1);
    assert_eq!(c.workspace_paths[0].1, "/new");
}

#[test]
fn add_link_to_missing_workspace_fails_unmodified() {
    let mut c = Config::empty();
    c.add_workspace("proj".to_string(), "/abs/path".to_string());
    let before = c.clone();
    let r = c.add_link("nope", "https://x".to_string());
    assert_eq!(r, Err(LookupError::WorkspaceNotFound));
    assert_eq!(c, before);
}

#[test]
fn add_link_preserves_insertion_order() {
    let mut c = Config::empty();
    c.workspaces.push((
        "w".to_string(),
        Workspace { links: Vec::new(), tasks: Vec::new() },
    ));
    c.add_link("w", "https://a".to_string()).unwrap();
    c.add_link("w", "https://b".to_string()).unwrap();
    let links = c.get_links("w").unwrap();
    assert_eq!(links.len(), 2);
    assert_eq!(links[0], "https://a");
    assert_eq!(links[1], "https://b");
}

#[test]
fn get_links_missing_workspace_fails() {
    let c = Config::empty();
    assert_eq!(c.get_links("w").unwrap_err(), LookupError::WorkspaceNotFound);
}

#[test]
fn remove_link_drops_exactly_the_indexed_link() {
    let mut c = Config::empty();
    c.workspaces.push((
        "w".to_string(),
        Workspace {
            links: vec![
                "https://a".to_string(),
                "https://b".to_string(),
                "https://c".to_string(),
            ],
            tasks: Vec::new(),
        },
    ));
    c.remove_link("w", 1).unwrap();
    let links = c.get_links("w").unwrap();
    assert_eq!(links, &vec!["https://a".to_string(), "https://c".to_string()]);
}

#[test]
fn remove_link_failures_leave_config_unmodified() {
    let mut c = Config::empty();
    c.workspaces.push((
        "w".to_string(),
        Workspace { links: vec!["https://a".to_string()], tasks: Vec::new() },
    ));
    let before = c.clone();
    assert_eq!(c.remove_link("nope", 0), Err(LookupError::WorkspaceNotFound));
    assert_eq!(c, before);
    assert_eq!(c.remove_link("w", 1), Err(LookupError::LinkIndexOutOfRange));
    assert_eq!(c, before);
}

#[test]
fn set_task_completed_updates_or_appends() {
    let mut c = Config::empty();
    c.workspaces.push((
        "w".to_string(),
        Workspace {
            links: Vec::new(),
            tasks: vec![("write docs".to_string(), false)],
        },
    ));
    c.set_task_completed("w", "write docs", true).unwrap();
    assert_eq!(c.workspaces[0].1.tasks, vec![("write docs".to_string(), true)]);
    c.set_task_completed("w", "ship it", false).unwrap();
    assert_eq!(
        c.workspaces[0].1.tasks,
        vec![("write docs".to_string(), true), ("ship it".to_string(), false)]
    );
}

#[test]
fn set_task_completed_missing_workspace_fails() {
    let mut c = Config::empty();
    let before = c.clone();
    assert_eq!(
        c.set_task_completed("nope", "t", true),
        Err(LookupError::WorkspaceNotFound)
    );
    assert_eq!(c, before);
}

// The two maps are correlated but independent: registering a workspace
// path does not make the name known to the workspace map, so adding a
// link right after registering fails.
#[test]
fn scenario_register_then_add_link_fails() {
    let mut c = Config::empty();
    assert_eq!(c.workspace_paths.len(), 0);
    assert_eq!(c.workspaces.len(), 0);
    c.add_workspace("docs".to_string(), "/home/u/docs".to_string());
    assert_eq!(c.workspace_paths[0].1, "/home/u/docs");
    let r = c.add_link("docs", "https://x".to_string());
    assert_eq!(r, Err(LookupError::WorkspaceNotFound));
}
