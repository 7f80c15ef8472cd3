use harnesssphere::workspace::{
    discover, graph_files, is_workspace_dir, join, session_dirs, workspace_subdirs, FoundUser, RootEntry,
    Workspace,
};

fn found(t: &str, s: &str, a: &str, u: &str) -> FoundUser {
    FoundUser { tenant: t.to_owned(), subscription: s.to_owned(), agent: a.to_owned(), user: u.to_owned() }
}

fn entry(name: &str, has_sessions_dir: bool) -> RootEntry {
    RootEntry { name: name.to_owned(), has_sessions_dir }
}

#[test]
fn discovers_the_full_tuple_from_the_path() {
    let found = discover("/tmp/root", vec![found("acme", "sub-1", "beta", "uuid-b"), found("acme", "sub-1", "alpha", "uuid-a")]);
    assert_eq!(found.len(), 2);
    assert_eq!(found[0].tenant, "acme");
    assert_eq!(found[0].subscription, "sub-1");
    assert_eq!(found[0].agent, "alpha");
    assert_eq!(found[0].user, "uuid-a");
    assert_eq!(found[0].source_name(), "session:acme/sub-1/alpha/uuid-a");
    assert_eq!(found[0].root, "/tmp/root/tenants/acme/subscriptions/sub-1/agents/alpha/users/uuid-a");
}

#[test]
fn two_scans_of_the_same_tree_agree_whatever_the_walk_order() {
    let one = discover("/r", vec![found("t", "s", "a", "u2"), found("t", "s", "a", "u1"), found("t", "r", "a", "u3")]);
    let two = discover("/r", vec![found("t", "r", "a", "u3"), found("t", "s", "a", "u1"), found("t", "s", "a", "u2"), found("t", "s", "a", "u1")]);
    let names = |ws: &Vec<Workspace>| ws.iter().map(|w| (w.source_name(), w.root.clone())).collect::<Vec<_>>();
    assert_eq!(names(&one), names(&two));
    assert_eq!(one[0].source_name(), "session:t/r/a/u3");
}

#[test]
fn a_missing_tree_is_empty_not_an_error() {
    assert!(discover("/tmp/root", Vec::new()).is_empty());
    assert!(discover("/nonexistent/xyz", Vec::new()).is_empty());
}

#[test]
fn discovery_order_is_the_walk_order_and_duplicates_collapse() {
    let ws = discover(
        "/d/",
        vec![found("b", "s", "a", "u"), found("a", "t", "a", "u"), found("a", "s", "b", "u"), found("a", "s", "a", "v"), found("a", "s", "a", "u"), found("a", "s", "a", "u")],
    );
    let names: Vec<String> = ws.iter().map(|w| w.source_name()).collect();
    assert_eq!(
        names,
        vec!["session:a/s/a/u", "session:a/s/a/v", "session:a/s/b/u", "session:a/t/a/u", "session:b/s/a/u"]
    );
    assert_eq!(ws[0].root, "/d/tenants/a/subscriptions/s/agents/a/users/u");
}

#[test]
fn finds_both_the_main_and_the_project_session_dirs() {
    let dirs = session_dirs(
        "/ws",
        vec![entry("workspace", true), entry("workspace-chat-ux", true), entry("notes", true)],
    );
    assert_eq!(dirs.len(), 2, "expected both session dirs, got {dirs:?}");
    assert!(dirs.iter().any(|d| d.ends_with("workspace/sessions")));
    assert!(dirs.iter().any(|d| d.ends_with("workspace-chat-ux/sessions")));
}

#[test]
fn a_workspace_dir_without_sessions_is_skipped() {
    assert!(session_dirs("/ws", vec![entry("workspace", false)]).is_empty());
}

#[test]
fn session_dirs_are_sorted_by_entry_name() {
    let dirs = session_dirs("/ws", vec![entry("workspace-b", true), entry("workspace", true), entry("workspace-a", true)]);
    assert_eq!(dirs, vec!["/ws/workspace/sessions", "/ws/workspace-a/sessions", "/ws/workspace-b/sessions"]);
}

#[test]
fn workspace_shapes() {
    assert!(is_workspace_dir("workspace"));
    assert!(is_workspace_dir("workspace-x"));
    assert!(is_workspace_dir("workspace-"));
    assert!(!is_workspace_dir("workspaces"));
    assert!(!is_workspace_dir("notes"));
}

#[test]
fn joins_like_path_join() {
    assert_eq!(join("a", "b"), "a/b");
    assert_eq!(join("a/", "b"), "a/b");
    assert_eq!(join("", "b"), "b");
}

#[test]
fn learning_paths_come_from_the_root_listing() {
    let names = vec!["workspace".to_owned(), "memory-graph-ops".to_owned(), "workspace-p".to_owned(), "other".to_owned()];
    assert_eq!(workspace_subdirs("/u", &names, "skills"), vec!["/u/workspace/skills", "/u/workspace-p/skills"]);
    assert_eq!(graph_files("/u", &names), vec!["/u/memory-graph-ops/memory.jsonl"]);
}

#[test]
fn source_name_is_the_tuple() {
    let w = Workspace {
        tenant: "t".into(),
        subscription: "s".into(),
        agent: "a".into(),
        user: "u".into(),
        root: "/r".into(),
    };
    assert_eq!(w.source_name(), "session:t/s/a/u");
    assert_eq!(w.copy().root, "/r");
}
