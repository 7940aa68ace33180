use vertex_store::error::StoreError;
use vertex_store::record::Project;
use vertex_store::workspace::{
    collect_projects, ensure_workspace_structure, note_path, project_create, project_dir,
    registry_path, workspace_init_if_missing, ws_path,
};

fn project(id: &str, updated_at: i64) -> Project {
    Project {
        id: String::from(id),
        title: String::from(id),
        created_at: 1,
        updated_at,
        tags: Vec::new(),
        status: String::from("active"),
    }
}

#[test]
fn ws_path_accepts_only_absolute_paths() {
    assert_eq!(ws_path("/tmp/w1"), Ok(String::from("/tmp/w1")));
    assert_eq!(ws_path("relative/w1"), Err(StoreError::InvalidPath));
    assert_eq!(ws_path(""), Err(StoreError::InvalidPath));
}

#[test]
fn project_dir_is_under_the_projects_folder() {
    assert_eq!(project_dir("/tmp/w1", "proj_x"), "/tmp/w1/projects/proj_x");
}

#[test]
fn registry_path_appends_the_fixed_file_name() {
    assert_eq!(registry_path("/home/u/.data"), "/home/u/.data/workspace_registry.json");
}

#[test]
fn bootstrap_plan_creates_what_is_missing() {
    let plan = ensure_workspace_structure(true, false, true, false, false, 99).unwrap();
    assert!(plan.make_projects);
    assert!(!plan.make_trash);
    assert!(plan.make_cache);
    let meta = plan.meta.unwrap();
    assert_eq!(meta.schema_version, 1);
    assert_eq!(meta.created_at, 99);
    assert_eq!(meta.name, "Story Master Workspace");
}

#[test]
fn bootstrap_fails_on_missing_root() {
    match ensure_workspace_structure(false, false, false, false, false, 1) {
        Err(e) => assert_eq!(e, StoreError::NotFound),
        Ok(_) => panic!("a missing root must be an error"),
    }
}

#[test]
fn bootstrap_is_idempotent() {
    let plan = ensure_workspace_structure(true, false, false, false, false, 1).unwrap();
    let again = ensure_workspace_structure(
        true,
        plan.make_projects,
        plan.make_trash,
        plan.make_cache,
        plan.meta.is_some(),
        2,
    )
    .unwrap();
    assert!(!again.make_projects);
    assert!(!again.make_trash);
    assert!(!again.make_cache);
    assert!(again.meta.is_none());
}

#[test]
fn init_rejects_relative_paths_before_touching_disk() {
    match workspace_init_if_missing("w1", true, true, true, true, true, 1) {
        Err(e) => assert_eq!(e, StoreError::InvalidPath),
        Ok(_) => panic!("a relative path must be rejected"),
    }
    assert!(workspace_init_if_missing("/w1", true, true, true, true, true, 1).is_ok());
}

#[test]
fn listing_skips_unreadable_records_and_sorts_newest_first() {
    let parsed = vec![
        Some(project("p5", 5)),
        None,
        Some(project("p9", 9)),
        Some(project("p1", 1)),
    ];
    let listed = collect_projects(parsed);
    let ids: Vec<&str> = listed.iter().map(|p| p.id.as_str()).collect();
    assert_eq!(ids, vec!["p9", "p5", "p1"]);
}

#[test]
fn listing_keeps_equal_update_times_together() {
    let parsed = vec![Some(project("a", 3)), Some(project("b", 3))];
    let listed = collect_projects(parsed);
    assert_eq!(listed.len(), 2);
    assert_eq!(listed[0].updated_at, 3);
    assert_eq!(listed[1].updated_at, 3);
}

#[test]
fn project_create_builds_record_and_scaffold() {
    let (p, s) = project_create("/tmp/w1", String::from("My Story")).unwrap();
    assert_eq!(p.id.len(), 37);
    assert_eq!(&p.id[0..5], "proj_");
    assert_eq!(p.title, "My Story");
    assert_eq!(p.created_at, p.updated_at);
    assert!(p.tags.is_empty());
    assert_eq!(p.status, "active");
    assert_eq!(s.dir, format!("/tmp/w1/projects/{}", p.id));
    assert_eq!(s.dirs.len(), 3);
    assert_eq!(s.dirs[0], format!("{}/notes", s.dir));
    assert_eq!(s.dirs[1], format!("{}/assets", s.dir));
    assert_eq!(s.dirs[2], format!("{}/attachments", s.dir));
    assert_eq!(s.seed_files.len(), 2);
    assert_eq!(s.seed_files[0].0, format!("{}/notes/overview.md", s.dir));
    assert_eq!(s.seed_files[0].1, "# Overview\n\n");
    assert_eq!(s.seed_files[1].0, format!("{}/notes/ideas.md", s.dir));
    assert_eq!(s.seed_files[1].1, "# Ideas\n\n");
}

#[test]
fn project_create_rejects_relative_workspace() {
    assert!(matches!(
        project_create("w1", String::from("t")),
        Err(StoreError::InvalidPath)
    ));
}

#[test]
fn note_path_rejects_separators_in_names() {
    assert_eq!(
        note_path("/w", "p1", "a/b.md"),
        Err(StoreError::InvalidNoteName)
    );
    assert_eq!(
        note_path("/w", "p1", "a\\b.md"),
        Err(StoreError::InvalidNoteName)
    );
    assert_eq!(
        note_path("w", "p1", "ok.md"),
        Err(StoreError::InvalidPath)
    );
    assert_eq!(
        note_path("/w", "p1", "ok.md"),
        Ok(String::from("/w/projects/p1/notes/ok.md"))
    );
}

#[test]
fn error_messages_name_the_failure() {
    assert_eq!(StoreError::NotFound.message(), "not found");
    assert_eq!(StoreError::InvalidPath.message(), "path must be absolute");
    assert_eq!(StoreError::CorruptRegistry.message(), "registry file is malformed");
}
