use pushkind_files::domain::{FileName, HubId, HubStorage, RelativePath, UploadRoot};

#[test]
fn hub_storage_resolves_paths() {
    let storage = HubStorage::new(UploadRoot::new("upload".to_string()), HubId::new(7));

    let relative = RelativePath::try_new("nested/path".to_string()).unwrap();
    let file_name = FileName::try_new("file.txt".to_string()).unwrap();
    let dir = storage.resolve_dir(&relative);
    let file = storage.resolve_file(&relative, &file_name);

    assert_eq!(dir, "upload/7/nested/path");
    assert_eq!(file, "upload/7/nested/path/file.txt");
}

#[test]
fn relative_path_join_appends_segments() {
    let base = RelativePath::try_new("alpha".to_string()).unwrap();
    let child = RelativePath::try_new("beta".to_string()).unwrap();

    let combined = base.join(&child);
    assert_eq!(combined.as_path(), "alpha/beta");
}

#[test]
fn file_name_detects_images() {
    let png = FileName::try_new("photo.PNG".to_string()).unwrap();
    let txt = FileName::try_new("notes.txt".to_string()).unwrap();

    assert!(png.is_image());
    assert!(!txt.is_image());
}

#[test]
fn file_name_rejects_nested() {
    assert!(FileName::try_new("foo/bar.txt".to_string()).is_err());
    assert!(FileName::try_new("../evil.txt".to_string()).is_err());
}

#[test]
fn relative_path_rejects_parent() {
    assert!(RelativePath::try_new("../foo".to_string()).is_err());
}

#[test]
fn file_name_image_extension_set() {
    assert!(FileName::try_new("x.jpeg".to_string()).unwrap().is_image());
    assert!(FileName::try_new("x.svg".to_string()).unwrap().is_image());
    assert!(FileName::try_new("x.webp".to_string()).unwrap().is_image());
    assert!(!FileName::try_new("noext".to_string()).unwrap().is_image());
    assert!(!FileName::try_new("trailing.".to_string()).unwrap().is_image());
    assert!(!FileName::try_new(".png".to_string()).unwrap().is_image());
}

#[test]
fn relative_path_rejects_nested_parent() {
    assert!(RelativePath::try_new("a/../../b".to_string()).is_err());
    assert!(RelativePath::try_from_str("../x").is_err());
    assert!(FileName::try_new("a/../../b".to_string()).is_err());
}

#[test]
fn relative_path_root_is_join_identity() {
    let a = RelativePath::try_new("alpha/beta".to_string()).unwrap();
    let root = RelativePath::root();
    assert_eq!(root.join(&a).as_path(), "alpha/beta");
    assert_eq!(a.join(&root).as_path(), "alpha/beta");
    assert_eq!(root.as_path(), "");
}

#[test]
fn join_resolution_stays_within_base() {
    let storage = HubStorage::new(UploadRoot::new("upload".to_string()), HubId::new(3));
    let a = RelativePath::try_new("docs".to_string()).unwrap();
    let b = RelativePath::try_new("img/raw".to_string()).unwrap();
    let base = storage.resolve_dir(&a);
    let joined = storage.resolve_dir(&a.join(&b));
    assert!(joined.starts_with(&base));
    assert_eq!(joined.as_bytes()[base.len()], b'/');
    assert_eq!(joined, "upload/3/docs/img/raw");
}

#[test]
fn distinct_hubs_never_overlap() {
    let root = UploadRoot::new("upload".to_string());
    let s7 = HubStorage::new(root.clone(), HubId::new(7));
    let s71 = HubStorage::new(root, HubId::new(71));
    let rel = RelativePath::try_new("x".to_string()).unwrap();
    let d7 = s7.resolve_dir(&rel);
    let d71 = s71.resolve_dir(&rel);
    assert_eq!(d7, "upload/7/x");
    assert_eq!(d71, "upload/71/x");
    assert!(!d71.starts_with("upload/7/x"));
    assert!(!d7.starts_with("upload/71"));
    let h7 = s7.hub_root();
    let h71 = s71.hub_root();
    assert!(!d71.starts_with(&format!("{}/", h7)));
    assert!(!d7.starts_with(&format!("{}/", h71)));
}

#[test]
fn relative_path_canonicalizes() {
    let p = RelativePath::try_new("a//b/./c/".to_string()).unwrap();
    assert_eq!(p.as_path(), "a/b/c");
    let q = RelativePath::try_from_str("/lead/in").unwrap();
    assert_eq!(q.as_path(), "lead/in");
}

#[test]
fn file_name_accessors_round_trip() {
    let f = FileName::try_from_str("note.txt").unwrap();
    assert_eq!(f.as_str(), "note.txt");
    assert_eq!(f.to_path_buf(), "note.txt");
    assert_eq!(f.clone().into_string(), "note.txt");
    assert!(FileName::try_from_str(".").is_err());
    assert!(FileName::try_from_str("").is_err());
    assert!(FileName::try_from_str("/abs").is_err());
}

#[test]
fn hub_id_and_upload_root_accessors() {
    let id = HubId::new(-12);
    assert_eq!(id.value(), -12);
    let storage = HubStorage::new(UploadRoot::new("up".to_string()), id);
    assert_eq!(storage.hub_root(), "up/-12");
    let root = UploadRoot::new("./upload".to_string());
    assert_eq!(root.as_path(), "./upload");
}

#[test]
fn hub_id_extremes_render_exactly() {
    let low = HubStorage::new(UploadRoot::new("up".to_string()), HubId::new(i32::MIN));
    assert_eq!(low.hub_root(), "up/-2147483648");
    let high = HubStorage::new(UploadRoot::new("up".to_string()), HubId::new(i32::MAX));
    assert_eq!(high.hub_root(), "up/2147483647");
    let zero = HubStorage::new(UploadRoot::new(String::new()), HubId::new(0));
    assert_eq!(zero.hub_root(), "0");
}
