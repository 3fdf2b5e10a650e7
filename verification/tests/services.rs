use pushkind_files::SERVICE_ACCESS_ROLE;
use pushkind_files::domain::{HubId, UploadRoot};
use pushkind_files::forms::main::CreateFolderForm;
use pushkind_files::models::auth::AuthenticatedUser;
use pushkind_files::services::ServiceError;
use pushkind_files::services::files::{ChildRecord, DirScan, FileService};

fn build_service(root: &str) -> FileService {
    FileService::new(UploadRoot::new(root.to_string()))
}

fn build_user(hub_id: i32, roles: Vec<String>) -> AuthenticatedUser {
    AuthenticatedUser {
        sub: "user".into(),
        email: "user@example.com".into(),
        hub_id,
        name: "User".into(),
        roles,
        exp: 0,
    }
}

fn member(hub_id: i32) -> AuthenticatedUser {
    build_user(hub_id, vec![SERVICE_ACCESS_ROLE.to_string()])
}

#[test]
fn list_entries_sorted_and_typed() {
    let children = vec![
        ChildRecord { name: "b_folder".to_string(), is_directory: true },
        ChildRecord { name: "a_file.txt".to_string(), is_directory: false },
        ChildRecord { name: "c_image.png".to_string(), is_directory: false },
    ];
    let entries = FileService::finish_listing(DirScan::Children(children)).unwrap();

    let names: Vec<String> = entries.iter().map(|e| e.name.clone()).collect();
    assert_eq!(
        names,
        vec![
            "b_folder".to_string(),
            "a_file.txt".to_string(),
            "c_image.png".to_string()
        ]
    );
    assert!(entries[0].is_directory);
    assert!(!entries[1].is_directory);
    assert!(entries[2].is_image);
    assert!(!entries[0].is_image);
    assert!(!entries[1].is_image);
}

#[test]
fn list_entries_missing_dir_returns_empty() {
    let service = build_service("base");
    let user = member(99);

    let plan = service.prepare_listing(&user, Some("nope")).unwrap();
    assert_eq!(plan.hub_root, "base/99");
    assert_eq!(plan.directory, "base/99/nope");

    let entries = FileService::finish_listing(DirScan::Missing).unwrap();
    assert!(entries.is_empty());
}

#[test]
fn list_entries_rejects_parent_paths() {
    let service = build_service("base");
    let user = member(1);

    let err = service.prepare_listing(&user, Some("../etc")).unwrap_err();
    assert!(matches!(err, ServiceError::InvalidPath));
}

#[test]
fn create_folder_builds_nested_structure() {
    let service = build_service("base");
    let user = member(5);
    let form = CreateFolderForm { name: "beta".to_string() };

    let plan = service
        .prepare_folder_creation(&user, Some("alpha"), &form)
        .unwrap();
    assert_eq!(plan.hub_root, "base/5");
    assert_eq!(plan.directory, "base/5/alpha/beta");

    let again = service
        .prepare_folder_creation(&user, Some("alpha"), &form)
        .unwrap();
    assert_eq!(again.directory, "base/5/alpha/beta");
}

#[test]
fn persist_upload_writes_file() {
    let service = build_service("base");
    let user = member(9);

    let plan = service
        .prepare_upload(&user, Some("uploads"), Some("note.txt".to_string()))
        .unwrap();
    assert_eq!(plan.hub_root, "base/9");
    assert_eq!(plan.directory, "base/9/uploads");
    assert_eq!(plan.file_name.as_str(), "note.txt");
    assert_eq!(plan.file_path, "base/9/uploads/note.txt");

    let again = service
        .prepare_upload(&user, Some("uploads"), Some("note.txt".to_string()))
        .unwrap();
    assert_eq!(again.file_path, "base/9/uploads/note.txt");
}

#[test]
fn unauthorized_without_role() {
    let service = build_service("base");
    let user = build_user(1, vec![]);

    let err = service.prepare_listing(&user, None).unwrap_err();
    assert!(matches!(err, ServiceError::Unauthorized));

    let form = CreateFolderForm { name: "".to_string() };
    let err = service
        .prepare_folder_creation(&user, None, &form)
        .unwrap_err();
    assert!(matches!(err, ServiceError::Validation(_)));
}

#[test]
fn create_folder_rejects_invalid_current_path() {
    let service = build_service("base");
    let user = member(2);
    let form = CreateFolderForm { name: "safe".to_string() };

    let err = service
        .prepare_folder_creation(&user, Some("../outside"), &form)
        .unwrap_err();
    assert!(matches!(err, ServiceError::InvalidPath));
}

#[test]
fn create_folder_rejects_traversal_in_name() {
    let service = build_service("base");
    let user = member(2);
    let form = CreateFolderForm { name: "../evil".to_string() };

    let err = service
        .prepare_folder_creation(&user, Some("safe"), &form)
        .unwrap_err();
    assert!(matches!(err, ServiceError::Validation(_)));
}

#[test]
fn create_folder_accepts_nested_name() {
    let service = build_service("base");
    let user = member(2);
    let form = CreateFolderForm { name: "a/b".to_string() };

    let plan = service.prepare_folder_creation(&user, None, &form).unwrap();
    assert_eq!(plan.directory, "base/2/a/b");
}

#[test]
fn upload_rejects_invalid_file_name() {
    let service = build_service("base");
    let user = member(4);

    let err = service
        .prepare_upload(&user, None, Some("../x".to_string()))
        .unwrap_err();
    assert!(matches!(err, ServiceError::InvalidFileName));

    let err = service
        .prepare_upload(&user, Some("../up"), Some("ok.txt".to_string()))
        .unwrap_err();
    assert!(matches!(err, ServiceError::InvalidPath));

    assert!(service
        .prepare_upload(&user, None, Some("ok.txt".to_string()))
        .is_ok());
}

#[test]
fn upload_generates_name_when_absent() {
    let service = build_service("base");
    let user = member(4);

    let plan = service.prepare_upload(&user, None, None).unwrap();
    let name = plan.file_name.as_str().to_string();
    assert!(name.starts_with("upload-"));
    assert_eq!(name.len(), "upload-".len() + 36);
    assert!(!name.contains('/'));
    assert_eq!(plan.file_path, format!("base/4/{}", name));

    let other = service.prepare_upload(&user, None, None).unwrap();
    assert_ne!(other.file_name.as_str(), name.as_str());
}

#[test]
fn upload_without_role_is_unauthorized() {
    let service = build_service("base");
    let user = build_user(4, vec!["other".to_string()]);

    let err = service.prepare_upload(&user, None, None).unwrap_err();
    assert!(matches!(err, ServiceError::Unauthorized));
}

#[test]
fn listing_sorts_case_insensitively() {
    let children = vec![
        ChildRecord { name: "B.txt".to_string(), is_directory: false },
        ChildRecord { name: "a.txt".to_string(), is_directory: false },
        ChildRecord { name: "Zeta".to_string(), is_directory: true },
        ChildRecord { name: "alpha".to_string(), is_directory: true },
    ];
    let entries = FileService::finish_listing(DirScan::Children(children)).unwrap();
    let names: Vec<&str> = entries.iter().map(|e| e.name.as_str()).collect();
    assert_eq!(names, vec!["alpha", "Zeta", "a.txt", "B.txt"]);
}

#[test]
fn listing_skips_invalid_child_names() {
    let children = vec![
        ChildRecord { name: "ok.txt".to_string(), is_directory: false },
        ChildRecord { name: "..".to_string(), is_directory: true },
        ChildRecord { name: "".to_string(), is_directory: false },
    ];
    let entries = FileService::finish_listing(DirScan::Children(children)).unwrap();
    assert_eq!(entries.len(), 1);
    assert_eq!(entries[0].name, "ok.txt");
}

#[test]
fn listing_of_non_directory_is_invalid_path() {
    let err = FileService::finish_listing(DirScan::NotDirectory).unwrap_err();
    assert!(matches!(err, ServiceError::InvalidPath));
}

#[test]
fn storage_for_hub_scopes_by_id() {
    let service = build_service("upload");
    let storage = service.storage_for_hub(HubId::new(42));
    assert_eq!(storage.hub_root(), "upload/42");
}
