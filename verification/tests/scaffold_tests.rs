use ctx::config::Config;
use ctx::scaffold::{default_document, scaffold_plan};

#[test]
fn fresh_scaffold_creates_directory_and_default_file() {
    let (create_dir, write) = scaffold_plan(false, false);
    assert!(create_dir);
    assert_eq!(
        write.unwrap(),
        "{\"workspace_paths\":{},\"workspaces\":{}}".to_string()
    );
}

#[test]
fn scaffold_never_overwrites_an_existing_file() {
    let (create_dir, write) = scaffold_plan(true, true);
    assert!(!create_dir);
    assert!(write.is_none());
    // directory existence and file existence are independent checks
    let (create_dir, write) = scaffold_plan(false, true);
    assert!(create_dir);
    assert!(write.is_none());
}

// running the scaffold twice leaves the same file contents as running
// it once: the second pass, seeing the file, writes nothing
#[test]
fn scaffold_twice_equals_scaffold_once() {
    let (_, first) = scaffold_plan(false, false);
    let contents_after_first = first.unwrap();
    let (create_dir, second) = scaffold_plan(true, true);
    assert!(!create_dir);
    assert!(second.is_none());
    assert_eq!(contents_after_first, default_document());
}

// on a fresh configuration directory, loading the scaffolded document
// gives a configuration with both maps empty
#[test]
fn default_document_loads_as_empty_config() {
    let doc = default_document();
    let c = Config::from_json(doc.as_str()).unwrap();
    assert_eq!(c.workspace_paths.len(), 0);
    assert_eq!(c.workspaces.len(), 0);
    assert_eq!(c, Config::empty());
}
