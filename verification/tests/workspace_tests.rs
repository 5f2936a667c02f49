use openbot::workspace::{detect_project_root, slug_from_path, WorkspaceEntry, WorkspaceRegistry};

#[test]
fn slug_from_typical_path() {
    assert_eq!(slug_from_path("/home/user/my-project"), "my-project");
    assert_eq!(slug_from_path("/home/user/MyApp"), "myapp");
    assert_eq!(slug_from_path("/home/user/backend_api"), "backend-api");
}

#[test]
fn register_returns_same_slug() {
    let mut reg = WorkspaceRegistry::new();
    let live: Vec<String> = Vec::new();
    let slug1 = reg.register("/home/user/project-a", 100, &live);
    let slug2 = reg.register("/home/user/project-a", 200, &live);
    assert_eq!(slug1, slug2);
}

#[test]
fn register_handles_collision() {
    // Eviction only runs during register and spares live paths, so a genuine
    // collision is exercised on unique_slug directly.
    let mut reg = WorkspaceRegistry::new();
    reg.workspaces.push((
        "/tmp/this-path-exists-for-test/myapp".to_string(),
        WorkspaceEntry {
            slug: "myapp".to_string(),
            first_seen: 0,
            last_used: 0,
        },
    ));
    let slug2 = reg.unique_slug("myapp", 0);
    assert_eq!(slug2, "myapp-2");
}

#[test]
fn register_evicts_stale_path() {
    let mut reg = WorkspaceRegistry::new();
    // Register a path that does not exist on disk (nothing is live).
    let live: Vec<String> = Vec::new();
    let slug1 = reg.register("/nonexistent/old-machine/myapp", 10, &live);
    assert_eq!(slug1, "myapp");

    // Register a new (also nonexistent) path with the same directory name.
    // The old entry is evicted so the new one inherits the slug.
    let slug2 = reg.register("/different/path/myapp", 20, &live);
    assert_eq!(slug2, "myapp");
    assert_eq!(reg.workspaces.len(), 1);
    assert_eq!(reg.workspaces[0].0, "/different/path/myapp");
}

#[test]
fn register_keeps_slug_of_live_path() {
    let mut reg = WorkspaceRegistry::new();
    let live = vec!["/alive/myapp".to_string()];
    let slug1 = reg.register("/alive/myapp", 1, &live);
    assert_eq!(slug1, "myapp");
    // The first path still exists, so the second gets a numbered slug.
    let slug2 = reg.register("/elsewhere/myapp", 2, &live);
    assert_eq!(slug2, "myapp-2");
    assert_eq!(reg.workspaces.len(), 2);
}

#[test]
fn find_by_slug_finds_entry() {
    let mut reg = WorkspaceRegistry::new();
    let live: Vec<String> = Vec::new();
    let slug = reg.register("/home/user/proj", 5, &live);
    let found = reg.find_by_slug(&slug);
    assert!(found.is_some());
    let (path, entry) = found.unwrap();
    assert_eq!(path, "/home/user/proj");
    assert_eq!(entry.slug, "proj");
    assert!(reg.find_by_slug("missing").is_none());
}

#[test]
fn project_root_detection() {
    assert_eq!(detect_project_root(Some("/repo"), "/repo/sub"), "/repo");
    assert_eq!(detect_project_root(None, "/somewhere"), "/somewhere");
}

#[test]
fn slug_edge_cases() {
    assert_eq!(slug_from_path("/a/b/--Weird--Name!!"), "weird-name");
    assert_eq!(slug_from_path("trailing/"), "trailing");
    assert_eq!(slug_from_path(""), "project");
}
