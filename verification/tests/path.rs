use rowforge::path::{join_name, path_extension, workspace_root_of};

#[test]
fn default_workspace_root_under_home() {
    let root = workspace_root_of("/home/alice");
    assert!(root.ends_with(".rowforge"), "got {:?}", root);
    assert_eq!(root, "/home/alice/.rowforge");
    assert_eq!(workspace_root_of("/home/alice/"), "/home/alice/.rowforge");
}

#[test]
fn joins_and_extensions() {
    assert_eq!(join_name("out", "handler_log.log"), "out/handler_log.log");
    assert_eq!(path_extension("dir.d/data.jsonl").as_deref(), Some("jsonl"));
    assert_eq!(path_extension("/tmp/data"), None);
}
