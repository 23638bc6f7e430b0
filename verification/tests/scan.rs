use unitypacker::paths::asset_path_of;
use unitypacker::paths::is_descriptor_path;
use unitypacker::paths::strip_bom;
use unitypacker::paths::strip_root;
use unitypacker::scan::find_unity_meta;
use unitypacker::scan::parse_guid;
use unitypacker::scan::DescriptorSource;
use unitypacker::scan::ScanError;

fn source(path: &str, content: &str, asset_is_file: bool) -> DescriptorSource {
    DescriptorSource {
        path: path.to_string(),
        content: content.to_string(),
        asset_is_file,
    }
}

#[test]
fn scan_test() {
    let files = vec![
        source(
            "tests/Assets/cube.fbx.meta",
            "fileFormatVersion: 2\nguid: 37d6e1e5ec83e454eb86b47f81fe116a\n",
            true,
        ),
        source(
            "tests/Assets/stone.mat.meta",
            "fileFormatVersion: 2\nguid: 80b54747fd9534ef3bf4f5dec0cb319a\n",
            true,
        ),
    ];
    let metas = find_unity_meta(&files, None).unwrap();
    assert_eq!(metas[0].guid, "37d6e1e5ec83e454eb86b47f81fe116a");
    assert_eq!(metas[1].guid, "80b54747fd9534ef3bf4f5dec0cb319a");
}

#[test]
fn one_entry_per_descriptor() {
    let files = vec![
        source("Assets/a.png.meta", "guid: aaa\n", true),
        source("Assets/b.txt.meta", "guid: bbb\n", false),
        source("Assets/dir.meta", "guid: ccc\n", false),
    ];
    let metas = find_unity_meta(&files, None).unwrap();
    assert_eq!(metas.len(), 3);
    assert_eq!(metas[0].guid, "aaa");
    assert_eq!(metas[1].guid, "bbb");
    assert_eq!(metas[2].guid, "ccc");
    assert_eq!(metas[0].meta_file, "Assets/a.png.meta");
    assert_eq!(metas[0].path, "Assets/a.png");
    assert_eq!(metas[2].path, "Assets/dir");
}

#[test]
fn asset_file_presence() {
    let files = vec![
        source("Assets/a.png.meta", "guid: aaa\n", true),
        source("Assets/dir.meta", "guid: bbb\n", false),
    ];
    let metas = find_unity_meta(&files, None).unwrap();
    assert_eq!(metas[0].asset_file.as_deref(), Some("Assets/a.png"));
    assert!(metas[1].asset_file.is_none());
}

#[test]
fn project_root_is_stripped() {
    let files = vec![source("proj/Assets/a.png.meta", "guid: aaa\n", true)];
    let metas = find_unity_meta(&files, Some("proj")).unwrap();
    assert_eq!(metas[0].path, "Assets/a.png");
    // The asset and descriptor paths keep the full path.
    assert_eq!(metas[0].asset_file.as_deref(), Some("proj/Assets/a.png"));
    assert_eq!(metas[0].meta_file, "proj/Assets/a.png.meta");
}

#[test]
fn foreign_root_is_a_path_error() {
    let files = vec![source("proj/Assets/a.png.meta", "guid: aaa\n", true)];
    let err = find_unity_meta(&files, Some("elsewhere")).unwrap_err();
    match err {
        ScanError::Path { path, root } => {
            assert_eq!(path, "proj/Assets/a.png");
            assert_eq!(root, "elsewhere");
        }
        other => panic!("expected a path error, got {:?}", other),
    }
}

#[test]
fn missing_guid_fails_the_scan() {
    let files = vec![
        source("Assets/a.png.meta", "guid: aaa\n", true),
        source("Assets/b.png.meta", "fileFormatVersion: 2\n", true),
    ];
    let err = find_unity_meta(&files, None).unwrap_err();
    match err {
        ScanError::Parse { file } => assert_eq!(file, "Assets/b.png.meta"),
        other => panic!("expected a parse error, got {:?}", other),
    }
}

#[test]
fn malformed_document_fails_the_scan() {
    let files = vec![source("Assets/a.png.meta", "guid: [unclosed\n", true)];
    assert!(find_unity_meta(&files, None).is_err());
}

#[test]
fn non_scalar_guid_fails_the_scan() {
    let files = vec![source("Assets/a.png.meta", "guid:\n  nested: x\n", true)];
    match find_unity_meta(&files, None).unwrap_err() {
        ScanError::Parse { file } => assert_eq!(file, "Assets/a.png.meta"),
        other => panic!("expected a parse error, got {:?}", other),
    }
}

#[test]
fn byte_order_mark_is_ignored() {
    let files = vec![source(
        "Assets/a.png.meta",
        "\u{feff}guid: aaa\n",
        true,
    )];
    let metas = find_unity_meta(&files, None).unwrap();
    assert_eq!(metas[0].guid, "aaa");
}

#[test]
fn parse_guid_reads_the_field() {
    assert_eq!(parse_guid("guid: abc\n").as_deref(), Some("abc"));
    assert_eq!(parse_guid("other: abc\n"), None);
    assert_eq!(parse_guid(""), None);
}

#[test]
fn strip_bom_removes_leading_mark() {
    assert_eq!(strip_bom("\u{feff}abc"), "abc");
    assert_eq!(strip_bom("abc"), "abc");
    assert_eq!(strip_bom(""), "");
}

#[test]
fn descriptor_suffix_recognition() {
    assert!(is_descriptor_path("a.meta"));
    assert!(is_descriptor_path("dir/file.png.meta"));
    assert!(!is_descriptor_path(".meta"));
    assert!(!is_descriptor_path("dir/.meta"));
    assert!(!is_descriptor_path("dir/file.metadata"));
    assert!(!is_descriptor_path("dir/filemeta"));
}

#[test]
fn asset_path_drops_the_suffix() {
    assert_eq!(asset_path_of("dir/file.png.meta"), "dir/file.png");
    assert_eq!(asset_path_of("a.meta"), "a");
}

#[test]
fn strip_root_cases() {
    assert_eq!(strip_root("proj/Assets/a", "proj").as_deref(), Some("Assets/a"));
    assert_eq!(strip_root("proj", "proj").as_deref(), Some(""));
    assert_eq!(strip_root("proj/Assets/a", "proj/").as_deref(), Some("Assets/a"));
    assert_eq!(strip_root("proj//Assets", "proj").as_deref(), Some("Assets"));
    assert_eq!(strip_root("projX/a", "proj"), None);
    assert_eq!(strip_root("other/a", "proj"), None);
    assert_eq!(strip_root("a/b", "").as_deref(), Some("a/b"));
}
