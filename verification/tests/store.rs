use vertex_store::error::StoreError;
use vertex_store::record::{AssetSource, Reference, VertexRecord, Workspace};
use vertex_store::registry::Registry;
use vertex_store::tree::{get_across, remove_across, WorkspaceTree};

fn bare_vertex(id: &str, parent: Option<&str>) -> VertexRecord {
    VertexRecord {
        id: String::from(id),
        title: format!("title of {}", id),
        parent_id: parent.map(String::from),
        workspace_id: Some(String::from("W1")),
        created_at: 0,
        updated_at: 0,
        tags: Vec::new(),
        references: Vec::new(),
        layout: None,
        default_tab: None,
        is_leaf: None,
        thumbnail_path: None,
        thumbnail_alt: None,
    }
}

fn workspace(id: &str, path: &str) -> Workspace {
    Workspace {
        id: String::from(id),
        name: format!("workspace {}", id),
        path: String::from(path),
        purpose: None,
        created_at: 1,
        updated_at: 1,
        tags: Vec::new(),
    }
}

fn no_assets(rec: &VertexRecord) -> Vec<AssetSource> {
    rec.references.iter().map(|_| AssetSource::Missing).collect()
}

#[test]
fn register_then_resolve_returns_the_stored_path() {
    let mut reg = Registry::new();
    assert!(reg.create(&workspace("W1", "/tmp/w1")).is_ok());
    assert_eq!(reg.resolve("W1"), Some(String::from("/tmp/w1")));
}

#[test]
fn register_duplicate_id_is_refused() {
    let mut reg = Registry::new();
    assert!(reg.create(&workspace("W1", "/tmp/w1")).is_ok());
    assert_eq!(
        reg.create(&workspace("W1", "/tmp/other")),
        Err(StoreError::AlreadyExists)
    );
    assert_eq!(reg.resolve("W1"), Some(String::from("/tmp/w1")));
}

#[test]
fn update_moves_a_workspace_root() {
    let mut reg = Registry::new();
    assert_eq!(
        reg.update(&workspace("W1", "/tmp/w2")),
        Err(StoreError::NotFound)
    );
    reg.create(&workspace("W1", "/tmp/w1")).unwrap();
    assert!(reg.update(&workspace("W1", "/tmp/w2")).is_ok());
    assert_eq!(reg.resolve("W1"), Some(String::from("/tmp/w2")));
}

#[test]
fn remove_unregisters_a_workspace() {
    let mut reg = Registry::new();
    assert_eq!(reg.remove("W1"), Err(StoreError::NotFound));
    reg.create(&workspace("W1", "/tmp/w1")).unwrap();
    assert!(reg.remove("W1").is_ok());
    assert_eq!(reg.resolve("W1"), None);
}

#[test]
fn corrupt_registry_on_duplicate_file_entries() {
    let entries = vec![
        (String::from("W1"), String::from("/a")),
        (String::from("W2"), String::from("/b")),
        (String::from("W1"), String::from("/c")),
    ];
    match Registry::from_entries(entries) {
        Err(e) => assert_eq!(e, StoreError::CorruptRegistry),
        Ok(_) => panic!("duplicate ids must be malformed content"),
    }
}

#[test]
fn vertex_owner_resolution_errors() {
    let reg = Registry::new();
    assert_eq!(
        reg.resolve_root_for_vertex_owner(&None),
        Err(StoreError::MissingWorkspaceId)
    );
    assert_eq!(
        reg.resolve_root_for_vertex_owner(&Some(String::from("W9"))),
        Err(StoreError::UnregisteredWorkspace)
    );
}

#[test]
fn create_under_missing_parent_fails() {
    let mut tree = WorkspaceTree::new(String::from("/tmp/w1"));
    let rec = bare_vertex("V2", Some("nope"));
    let assets = no_assets(&rec);
    assert_eq!(tree.create(rec, &assets, 1), Err(StoreError::ParentNotFound));
}

#[test]
fn create_duplicate_id_at_target_fails() {
    let mut tree = WorkspaceTree::new(String::from("/tmp/w1"));
    let r1 = bare_vertex("V1", None);
    let a1 = no_assets(&r1);
    assert!(tree.create(r1, &a1, 1).is_ok());
    let r1b = bare_vertex("V1", None);
    let a1b = no_assets(&r1b);
    assert_eq!(tree.create(r1b, &a1b, 2), Err(StoreError::AlreadyExists));
    let c = bare_vertex("V2", Some("V1"));
    let ac = no_assets(&c);
    assert!(tree.create(c, &ac, 3).is_ok());
    let c2 = bare_vertex("V2", Some("V1"));
    let ac2 = no_assets(&c2);
    assert_eq!(tree.create(c2, &ac2, 4), Err(StoreError::AlreadyExists));
}

#[test]
fn create_stamps_blank_timestamps() {
    let mut tree = WorkspaceTree::new(String::from("/tmp/w1"));
    let rec = bare_vertex("V1", None);
    let assets = no_assets(&rec);
    tree.create(rec, &assets, 42).unwrap();
    let got = tree.get("V1").unwrap();
    assert_eq!(got.created_at, 42);
    assert_eq!(got.updated_at, 42);
}

#[test]
fn get_hydrates_references_from_disk_model() {
    let mut tree = WorkspaceTree::new(String::from("/tmp/w1"));
    let mut rec = bare_vertex("V1", None);
    rec.references = vec![
        Reference::Note { text: String::from("body"), created_at: None },
        Reference::Image { path: String::from("/srv/pic.png"), alt: None, description: None },
    ];
    let assets = vec![AssetSource::Missing, AssetSource::Bytes(vec![9])];
    tree.create(rec, &assets, 1).unwrap();
    let got = tree.get("V1").unwrap();
    assert_eq!(got.references.len(), 2);
    match &got.references[0] {
        Reference::Note { text, .. } => assert_eq!(text, "body"),
        _ => panic!("note came back as another kind"),
    }
    match &got.references[1] {
        Reference::Image { path, .. } => {
            assert_eq!(path, "/tmp/w1/V1/references/image_1.png");
        },
        _ => panic!("image came back as another kind"),
    }
}

#[test]
fn get_absent_id_is_none_not_an_error() {
    let tree = WorkspaceTree::new(String::from("/tmp/w1"));
    assert!(tree.get("V1").is_none());
}

#[test]
fn children_listing_and_cascading_removal() {
    // Create workspace W1 at /tmp/w1; root vertex V1; child V2 under V1;
    // the children of V1 are exactly [V2]; removing V1 then loses V2.
    let mut reg = Registry::new();
    reg.create(&workspace("W1", "/tmp/w1")).unwrap();
    let root = reg.resolve("W1").unwrap();
    let mut tree = WorkspaceTree::new(root);
    let v1 = bare_vertex("V1", None);
    let a1 = no_assets(&v1);
    tree.create(v1, &a1, 1).unwrap();
    let v2 = bare_vertex("V2", Some("V1"));
    let a2 = no_assets(&v2);
    tree.create(v2, &a2, 2).unwrap();
    let kids = tree.get_children("V1").unwrap();
    assert_eq!(kids.len(), 1);
    assert_eq!(kids[0].id, "V2");
    assert!(tree.remove("V1").is_ok());
    assert!(tree.get("V2").is_none());
    assert!(tree.get("V1").is_none());
}

#[test]
fn removal_reaches_grandchildren() {
    let mut tree = WorkspaceTree::new(String::from("/tmp/w1"));
    for (id, parent) in [("V1", None), ("V2", Some("V1")), ("V3", Some("V2"))] {
        let rec = bare_vertex(id, parent);
        let assets = no_assets(&rec);
        tree.create(rec, &assets, 1).unwrap();
    }
    assert!(tree.remove("V1").is_ok());
    assert!(tree.get("V3").is_none());
    assert_eq!(tree.remove("V3"), Err(StoreError::NotFound));
}

#[test]
fn children_of_missing_parent_is_an_error() {
    let tree = WorkspaceTree::new(String::from("/tmp/w1"));
    match tree.get_children("V1") {
        Err(e) => assert_eq!(e, StoreError::NotFound),
        Ok(_) => panic!("an absent parent must be an error"),
    }
}

#[test]
fn root_vertices_are_the_parentless_roots() {
    let mut tree = WorkspaceTree::new(String::from("/tmp/w1"));
    let v1 = bare_vertex("V1", None);
    let a1 = no_assets(&v1);
    tree.create(v1, &a1, 1).unwrap();
    let v2 = bare_vertex("V2", Some("V1"));
    let a2 = no_assets(&v2);
    tree.create(v2, &a2, 1).unwrap();
    let v3 = bare_vertex("V3", None);
    let a3 = no_assets(&v3);
    tree.create(v3, &a3, 1).unwrap();
    let roots = tree.get_root_vertices();
    assert_eq!(roots.len(), 2);
    assert_eq!(roots[0].id, "V1");
    assert_eq!(roots[1].id, "V3");
}

#[test]
fn update_replaces_the_reference_directory_wholesale() {
    let mut tree = WorkspaceTree::new(String::from("/tmp/w1"));
    let mut rec = bare_vertex("V1", None);
    rec.references = vec![
        Reference::Note { text: String::from("a"), created_at: None },
        Reference::Note { text: String::from("b"), created_at: None },
        Reference::Note { text: String::from("c"), created_at: None },
    ];
    let assets = no_assets(&rec);
    tree.create(rec, &assets, 1).unwrap();
    assert_eq!(tree.roots[0].ref_files.len(), 6);

    let mut newer = bare_vertex("V1", None);
    newer.references = vec![Reference::Note { text: String::from("z"), created_at: None }];
    let new_assets = no_assets(&newer);
    assert!(tree.update(newer, &new_assets, 9).is_ok());
    let names: Vec<&str> = tree.roots[0].ref_files.iter().map(|f| f.name.as_str()).collect();
    assert_eq!(names, vec!["reference_0.json", "note_0.md"]);
    assert!(!names.contains(&"reference_2.json"));
}

#[test]
fn update_missing_vertex_fails() {
    let mut tree = WorkspaceTree::new(String::from("/tmp/w1"));
    let rec = bare_vertex("V1", None);
    let assets = no_assets(&rec);
    assert_eq!(tree.update(rec, &assets, 1), Err(StoreError::NotFound));
}

#[test]
fn update_keeps_children_and_stamps_update_time() {
    let mut tree = WorkspaceTree::new(String::from("/tmp/w1"));
    let v1 = bare_vertex("V1", None);
    let a1 = no_assets(&v1);
    tree.create(v1, &a1, 1).unwrap();
    let v2 = bare_vertex("V2", Some("V1"));
    let a2 = no_assets(&v2);
    tree.create(v2, &a2, 2).unwrap();
    let mut newer = bare_vertex("V1", None);
    newer.title = String::from("renamed");
    let na = no_assets(&newer);
    tree.update(newer, &na, 77).unwrap();
    let got = tree.get("V1").unwrap();
    assert_eq!(got.title, "renamed");
    assert_eq!(got.updated_at, 77);
    let kids = tree.get_children("V1").unwrap();
    assert_eq!(kids.len(), 1);
    assert_eq!(kids[0].id, "V2");
}

#[test]
fn lookup_scans_workspaces_in_registry_order() {
    let mut w1 = WorkspaceTree::new(String::from("/tmp/w1"));
    let mut w2 = WorkspaceTree::new(String::from("/tmp/w2"));
    let a = bare_vertex("A", None);
    let aa = no_assets(&a);
    w1.create(a, &aa, 1).unwrap();
    let mut shadow = bare_vertex("A", None);
    shadow.title = String::from("in the second workspace");
    let ash = no_assets(&shadow);
    w2.create(shadow, &ash, 1).unwrap();
    let b = bare_vertex("B", None);
    let ab = no_assets(&b);
    w2.create(b, &ab, 1).unwrap();

    let mut trees = vec![w1, w2];
    let got = get_across(&trees, "A").unwrap();
    assert_eq!(got.title, "title of A");
    let got_b = get_across(&trees, "B").unwrap();
    assert_eq!(got_b.id, "B");
    assert!(get_across(&trees, "C").is_none());

    assert!(remove_across(&mut trees, "A").is_ok());
    let still = get_across(&trees, "A").unwrap();
    assert_eq!(still.title, "in the second workspace");
    assert_eq!(remove_across(&mut trees, "C"), Err(StoreError::NotFound));
}

#[test]
fn first_match_wins_on_duplicate_ids() {
    // A duplicate id in another subtree is tolerated; a lookup returns the
    // first match of the depth-first walk.
    let mut tree = WorkspaceTree::new(String::from("/tmp/w1"));
    let mut a = bare_vertex("A", None);
    a.title = String::from("first");
    let aa = no_assets(&a);
    tree.create(a, &aa, 1).unwrap();
    let mut b = bare_vertex("B", None);
    b.title = String::from("second root");
    let ab = no_assets(&b);
    tree.create(b, &ab, 1).unwrap();
    let mut dup = bare_vertex("A", Some("B"));
    dup.title = String::from("shadowed");
    let ad = no_assets(&dup);
    tree.create(dup, &ad, 1).unwrap();
    let got = tree.get("A").unwrap();
    assert_eq!(got.title, "first");
}
