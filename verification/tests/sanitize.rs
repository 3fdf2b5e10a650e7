use pushkind_files::{is_image_file, sanitize_file_name, sanitize_path};

#[test]
fn sanitize_path_valid() {
    let path = sanitize_path("folder/sub").expect("valid path");
    assert_eq!(path, "folder/sub");
}

#[test]
fn sanitize_path_invalid_parent() {
    assert!(sanitize_path("../secret").is_none());
    assert!(sanitize_path("folder/../secret").is_none());
}

#[test]
fn sanitize_path_leading_slash() {
    let path = sanitize_path("/leading/path").expect("valid path");
    assert_eq!(path, "leading/path");
}

#[test]
fn sanitize_file_name_single_component() {
    let path = sanitize_file_name("image.png").expect("valid file name");
    assert_eq!(path, "image.png");
}

#[test]
fn sanitize_file_name_reject_nested() {
    assert!(sanitize_file_name("../secret.txt").is_none());
    assert!(sanitize_file_name("foo/bar.txt").is_none());
}

#[test]
fn sanitize_file_name_reject_dot() {
    assert!(sanitize_file_name(".").is_none());
}

#[test]
fn is_image_file_positive() {
    assert!(is_image_file("photo.JPG"));
    assert!(is_image_file("image.png"));
}

#[test]
fn is_image_file_negative() {
    assert!(!is_image_file("document.txt"));
    assert!(!is_image_file("noextension"));
}

#[test]
fn is_image_file_more_extensions() {
    assert!(is_image_file("x.jpeg"));
    assert!(is_image_file("x.GIF"));
    assert!(is_image_file("x.bmp"));
    assert!(is_image_file("dir/photo.png"));
    assert!(!is_image_file("archive.png.zip"));
    assert!(!is_image_file(".png"));
}

#[test]
fn sanitize_path_accepts_empty_as_root() {
    assert_eq!(sanitize_path("").expect("root"), "");
    assert_eq!(sanitize_path("a//b/.").expect("valid"), "a/b");
}
