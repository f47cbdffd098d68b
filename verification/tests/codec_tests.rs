use ctx::config::{Config, Workspace};

fn sample_config() -> Config {
    let mut c = Config::empty();
    c.add_workspace("w".to_string(), "/home/u/w".to_string());
    c.add_workspace("other".to_string(), "/tmp/dir".to_string());
    c.workspaces.push((
        "w".to_string(),
        Workspace {
            links: vec!["https://a".to_string(), "https://b".to_string()],
            tasks: vec![
                ("write docs".to_string(), false),
                ("ship it".to_string(), true),
            ],
        },
    ));
    c
}

#[test]
fn to_json_exact_text() {
    let mut c = Config::empty();
    c.add_workspace("a".to_string(), "/p".to_string());
    assert_eq!(
        c.to_json(),
        "{\"workspace_paths\":{\"a\":\"/p\"},\"workspaces\":{}}".to_string()
    );
}

#[test]
fn to_json_exact_text_with_workspace() {
    let mut c = Config::empty();
    c.workspaces.push((
        "w".to_string(),
        Workspace {
            links: vec!["https://a".to_string()],
            tasks: vec![("t".to_string(), true)],
        },
    ));
    assert_eq!(
        c.to_json(),
        "{\"workspace_paths\":{},\"workspaces\":{\"w\":{\"links\":[\"https://a\"],\"tasks\":{\"t\":true}}}}"
            .to_string()
    );
}

#[test]
fn round_trip_sample() {
    let c = sample_config();
    let text = c.to_json();
    let back = Config::from_json(text.as_str()).unwrap();
    assert_eq!(back, c);
}

#[test]
fn round_trip_empty() {
    let c = Config::empty();
    let back = Config::from_json(c.to_json().as_str()).unwrap();
    assert_eq!(back, c);
}

#[test]
fn round_trip_escaped_characters() {
    let mut c = Config::empty();
    c.add_workspace(
        "quote \" and backslash \\".to_string(),
        "/pa\"th/\\here".to_string(),
    );
    let back = Config::from_json(c.to_json().as_str()).unwrap();
    assert_eq!(back, c);
}

// after registering and saving, a fresh load sees the registered path
#[test]
fn add_workspace_survives_save_and_load() {
    let mut c = Config::empty();
    c.add_workspace("proj".to_string(), "/abs/path".to_string());
    let text = c.to_json();
    let back = Config::from_json(text.as_str()).unwrap();
    let found = back
        .workspace_paths
        .iter()
        .find(|e| e.0 == "proj")
        .expect("registered workspace missing after reload");
    assert_eq!(found.1, "/abs/path");
}

#[test]
fn parse_accepts_whitespace_between_tokens() {
    let text = "{ \"workspace_paths\" : { \"a\" : \"/p\" } ,\n  \"workspaces\" : { } }";
    let c = Config::from_json(text).unwrap();
    assert_eq!(c.workspace_paths, vec![("a".to_string(), "/p".to_string())]);
    assert_eq!(c.workspaces.len(), 0);
}

#[test]
fn parse_full_document() {
    let text = "{\"workspace_paths\":{\"w\":\"/home/u\"},\"workspaces\":{\"w\":{\"links\":[\"https://a\",\"https://b\"],\"tasks\":{\"do \\\"it\\\"\":true,\"other\":false}}}}";
    let c = Config::from_json(text).unwrap();
    assert_eq!(c.workspace_paths, vec![("w".to_string(), "/home/u".to_string())]);
    assert_eq!(c.workspaces.len(), 1);
    assert_eq!(c.workspaces[0].0, "w");
    assert_eq!(
        c.workspaces[0].1.links,
        vec!["https://a".to_string(), "https://b".to_string()]
    );
    assert_eq!(
        c.workspaces[0].1.tasks,
        vec![("do \"it\"".to_string(), true), ("other".to_string(), false)]
    );
}

#[test]
fn parse_rejects_malformed_documents() {
    assert!(Config::from_json("").is_err());
    assert!(Config::from_json("{}").is_err());
    assert!(Config::from_json("not json at all").is_err());
    // truncated document
    assert!(Config::from_json("{\"workspace_paths\":{},\"workspaces\":{}").is_err());
    // trailing garbage after the document
    assert!(Config::from_json("{\"workspace_paths\":{},\"workspaces\":{}}x").is_err());
    // unknown escape in a string
    assert!(Config::from_json("{\"workspace_paths\":{\"a\":\"\\q\"},\"workspaces\":{}}").is_err());
    // wrong key
    assert!(Config::from_json("{\"paths\":{},\"workspaces\":{}}").is_err());
    // a task flag that is not a boolean
    assert!(
        Config::from_json(
            "{\"workspace_paths\":{},\"workspaces\":{\"w\":{\"links\":[],\"tasks\":{\"t\":1}}}}"
        )
        .is_err()
    );
}

// the emitted document is plain JSON: an independent JSON parser reads
// the same values back out of it
#[test]
fn emitted_document_is_valid_json() {
    let c = sample_config();
    let text = c.to_json();
    let v: serde_json::Value = serde_json::from_str(text.as_str()).unwrap();
    assert_eq!(
        v.get("workspace_paths").unwrap().get("w").unwrap().as_str().unwrap(),
        "/home/u/w"
    );
    assert_eq!(
        v.get("workspace_paths").unwrap().get("other").unwrap().as_str().unwrap(),
        "/tmp/dir"
    );
    let w = v.get("workspaces").unwrap().get("w").unwrap();
    assert_eq!(w.get("links").unwrap().get(0).unwrap().as_str().unwrap(), "https://a");
    assert_eq!(w.get("links").unwrap().get(1).unwrap().as_str().unwrap(), "https://b");
    assert_eq!(w.get("tasks").unwrap().get("write docs").unwrap().as_bool().unwrap(), false);
    assert_eq!(w.get("tasks").unwrap().get("ship it").unwrap().as_bool().unwrap(), true);
}
