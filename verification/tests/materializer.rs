use vertex_store::record::{AssetSource, FileBody, RefFile, Reference};
use vertex_store::refs::{hydrate, materialize};
use vertex_store::text::{dec_string, ext_of, trim};

fn every_kind_refs() -> (Vec<Reference>, Vec<AssetSource>) {
    let refs = vec![
        Reference::Note { text: String::from("hello world"), created_at: Some(5) },
        Reference::Url { url: String::from("https://example.com"), title: Some(String::from("Ex")) },
        Reference::Image { path: String::from("/srv/pic.png"), alt: None, description: None },
        Reference::File {
            path: String::from("/srv/doc"),
            alt: None,
            extension: None,
            icon_path: None,
        },
        Reference::VertexLink { target_id: String::from("V9"), description: None },
    ];
    let assets = vec![
        AssetSource::Missing,
        AssetSource::Missing,
        AssetSource::Bytes(vec![1, 2, 3]),
        AssetSource::Missing,
        AssetSource::Missing,
    ];
    (refs, assets)
}

fn names_of(files: &Vec<RefFile>) -> Vec<String> {
    files.iter().map(|f| f.name.clone()).collect()
}

#[test]
fn materialize_names_every_file_by_index() {
    let (refs, assets) = every_kind_refs();
    let files = materialize(&refs, &assets);
    let names = names_of(&files);
    assert_eq!(
        names,
        vec![
            "reference_0.json",
            "note_0.md",
            "reference_1.json",
            "url_1.txt",
            "reference_2.json",
            "image_2.png",
            "reference_3.json",
            "file_3.txt",
            "reference_4.json",
        ]
    );
}

#[test]
fn materialize_copies_asset_bytes() {
    let (refs, assets) = every_kind_refs();
    let files = materialize(&refs, &assets);
    let copy = files.iter().find(|f| f.name == "image_2.png").unwrap();
    match &copy.body {
        FileBody::Bytes(b) => assert_eq!(b, &vec![1, 2, 3]),
        _ => panic!("asset payload must hold the copied bytes"),
    }
}

#[test]
fn materialize_missing_asset_writes_path_placeholder() {
    let (refs, assets) = every_kind_refs();
    let files = materialize(&refs, &assets);
    let fallback = files.iter().find(|f| f.name == "file_3.txt").unwrap();
    match &fallback.body {
        FileBody::Text(t) => assert_eq!(t, "/srv/doc"),
        _ => panic!("missing asset must leave its path as a text placeholder"),
    }
}

#[test]
fn round_trip_every_kind() {
    let (refs, assets) = every_kind_refs();
    let files = materialize(&refs, &assets);
    let back = hydrate(&refs, &files, "/tmp/w1/V1");
    assert_eq!(back.len(), 5);
    match &back[0] {
        Reference::Note { text, created_at } => {
            assert_eq!(text, "hello world");
            assert_eq!(*created_at, Some(5));
        },
        _ => panic!("note came back as another kind"),
    }
    match &back[1] {
        Reference::Url { url, title } => {
            assert_eq!(url, "https://example.com");
            assert_eq!(title.as_deref(), Some("Ex"));
        },
        _ => panic!("url came back as another kind"),
    }
    match &back[2] {
        Reference::Image { path, .. } => {
            assert_eq!(path, "/tmp/w1/V1/references/image_2.png");
        },
        _ => panic!("image came back as another kind"),
    }
    match &back[3] {
        Reference::File { path, .. } => {
            assert_eq!(path, "/tmp/w1/V1/references/file_3.txt");
        },
        _ => panic!("file came back as another kind"),
    }
    match &back[4] {
        Reference::VertexLink { target_id, .. } => assert_eq!(target_id, "V9"),
        _ => panic!("vertex link came back as another kind"),
    }
}

#[test]
fn hydrate_trims_url_payload() {
    let refs = vec![Reference::Url { url: String::from("x"), title: None }];
    let files = vec![RefFile {
        name: String::from("url_0.txt"),
        body: FileBody::Text(String::from("  https://a.example \n")),
    }];
    let back = hydrate(&refs, &files, "/w");
    match &back[0] {
        Reference::Url { url, .. } => assert_eq!(url, "https://a.example"),
        _ => panic!("url came back as another kind"),
    }
}

#[test]
fn hydrate_twice_gives_the_same_result() {
    let (refs, assets) = every_kind_refs();
    let files = materialize(&refs, &assets);
    let once = hydrate(&refs, &files, "/tmp/w1/V1");
    let twice = hydrate(&once, &files, "/tmp/w1/V1");
    assert_eq!(once.len(), twice.len());
    for (a, b) in once.iter().zip(twice.iter()) {
        match (a, b) {
            (
                Reference::Note { text: t1, created_at: c1 },
                Reference::Note { text: t2, created_at: c2 },
            ) => {
                assert_eq!(t1, t2);
                assert_eq!(c1, c2);
            },
            (Reference::Url { url: u1, title: x1 }, Reference::Url { url: u2, title: x2 }) => {
                assert_eq!(u1, u2);
                assert_eq!(x1, x2);
            },
            (Reference::Image { path: p1, .. }, Reference::Image { path: p2, .. }) => {
                assert_eq!(p1, p2);
            },
            (Reference::File { path: p1, .. }, Reference::File { path: p2, .. }) => {
                assert_eq!(p1, p2);
            },
            (
                Reference::VertexLink { target_id: t1, .. },
                Reference::VertexLink { target_id: t2, .. },
            ) => {
                assert_eq!(t1, t2);
            },
            _ => panic!("hydration changed a reference's kind"),
        }
    }
}

#[test]
fn hydrate_with_no_files_changes_nothing() {
    let (refs, _) = every_kind_refs();
    let files: Vec<RefFile> = Vec::new();
    let back = hydrate(&refs, &files, "/w");
    match &back[2] {
        Reference::Image { path, .. } => assert_eq!(path, "/srv/pic.png"),
        _ => panic!("image came back as another kind"),
    }
}

#[test]
fn rewrite_drops_stale_high_indices() {
    let three = vec![
        Reference::Note { text: String::from("a"), created_at: None },
        Reference::Note { text: String::from("b"), created_at: None },
        Reference::Note { text: String::from("c"), created_at: None },
    ];
    let assets3 = vec![AssetSource::Missing, AssetSource::Missing, AssetSource::Missing];
    let first = materialize(&three, &assets3);
    assert_eq!(first.len(), 6);
    let one = vec![Reference::Note { text: String::from("z"), created_at: None }];
    let assets1 = vec![AssetSource::Missing];
    let second = materialize(&one, &assets1);
    assert_eq!(second.len(), 2);
    let names = names_of(&second);
    assert!(!names.contains(&String::from("reference_1.json")));
    assert!(!names.contains(&String::from("reference_2.json")));
    assert!(!names.contains(&String::from("note_1.md")));
    assert!(!names.contains(&String::from("note_2.md")));
    assert_eq!(names, vec!["reference_0.json", "note_0.md"]);
}

#[test]
fn empty_reference_list_materializes_to_nothing() {
    let refs: Vec<Reference> = Vec::new();
    let assets: Vec<AssetSource> = Vec::new();
    let files = materialize(&refs, &assets);
    assert!(files.is_empty());
    let back = hydrate(&refs, &files, "/w");
    assert!(back.is_empty());
}

#[test]
fn decimal_rendering_is_plain() {
    assert_eq!(dec_string(0), "0");
    assert_eq!(dec_string(7), "7");
    assert_eq!(dec_string(10), "10");
    assert_eq!(dec_string(1234), "1234");
    assert_eq!(dec_string(u64::MAX), "18446744073709551615");
}

#[test]
fn trim_strips_surrounding_whitespace_only() {
    assert_eq!(trim("  a b \t\n"), "a b");
    assert_eq!(trim(""), "");
    assert_eq!(trim(" \t "), "");
    assert_eq!(trim("x"), "x");
}

#[test]
fn extension_of_last_component() {
    assert_eq!(ext_of("/srv/pic.png"), "png");
    assert_eq!(ext_of("archive.tar.gz"), "gz");
    assert_eq!(ext_of("/srv/noext"), "bin");
    assert_eq!(ext_of("dir.v2/file"), "bin");
    assert_eq!(ext_of(""), "bin");
    assert_eq!(ext_of("trailing."), "bin");
}
