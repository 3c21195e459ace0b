use agentos_web::file_store::{
    sanitize_display_name, sanitize_storage_name, FileStore, NewFile, MAX_STORAGE_NAME,
};
use agentos_web::handlers::files::{
    check_file_id, check_file_name, check_search, clean_tags, deleted, disposition,
    download_place, download_record, file_item, is_inside, is_plain_mime, is_scope,
    safe_download_mime, size_kb, upload_failed, UploadFault, UploadForm, MAX_INLINE_IMAGE_BYTES, MAX_UPLOAD_BYTES,
};
use agentos_web::ids::is_uuid;
use agentos_web::reply::Lookup;

const OWNER_A: &str = "owner_a_hash_value________________";
const OWNER_B: &str = "owner_b_hash_value________________";

fn new_file<'a>(id: &'a str, name: &'a str, owner: &'a str, now: &'a str) -> NewFile<'a> {
    NewFile {
        id,
        original_name: name,
        mime: "text/plain",
        size: 1,
        path: "/uploads/x",
        tags: " a , b,,",
        owner_principal: owner,
        scope: "global",
        now,
    }
}

#[test]
fn get_files_by_ids_scopes_to_owner_principal() {
    let mut store = FileStore::new();
    let id = "11111111-1111-1111-1111-111111111111";
    let path = format!("/uploads/{id}_t.txt");
    let file = NewFile {
        id,
        original_name: "t.txt",
        mime: "text/plain",
        size: 1,
        path: &path,
        tags: "",
        owner_principal: OWNER_A,
        scope: "global",
        now: "2026-01-01T00:00:00Z",
    };
    assert!(store.register_file(&file).is_ok());
    let ids = vec![id.to_string()];
    assert_eq!(store.get_files_by_ids(&ids, OWNER_A).len(), 1);
    assert!(
        store.get_files_by_ids(&ids, OWNER_B).is_empty(),
        "other principal must not see non-legacy uploads"
    );
}

#[test]
fn a_registered_file_is_read_back() {
    let mut store = FileStore::new();
    assert!(store.register_file(&new_file("1", "my file.txt", OWNER_A, "t1")).is_ok());
    assert!(store.register_file(&new_file("1", "again.txt", OWNER_B, "t2")).is_err());
    let f = store.get_file("1", OWNER_A).unwrap();
    assert_eq!(f.original_name, "my file.txt");
    assert_eq!(f.name, "my_file.txt");
    assert_eq!(f.tags, vec!["a".to_string(), "b".to_string()]);
    assert_eq!(f.uploaded_at, "t1");
    assert!(store.get_file("1", OWNER_B).is_none());
    let found = store.find_by_name("my_file.txt", OWNER_A).unwrap();
    assert_eq!(found.id, "1");
    assert!(store.find_by_name("other", OWNER_A).is_none());
}

#[test]
fn files_are_listed_newest_first() {
    let mut store = FileStore::new();
    assert!(store.register_file(&new_file("1", "a", OWNER_A, "2026-01-01")).is_ok());
    assert!(store.register_file(&new_file("2", "b", OWNER_A, "2026-01-03")).is_ok());
    assert!(store.register_file(&new_file("3", "c", OWNER_B, "2026-01-02")).is_ok());
    let ids: Vec<&str> = store
        .list_files(OWNER_A, None)
        .iter()
        .map(|f| f.id.as_str())
        .collect();
    assert_eq!(ids, vec!["2", "1"]);
    assert!(store.list_files(OWNER_A, Some("session-x")).is_empty());
}

#[test]
fn only_the_owner_deletes_a_file() {
    let mut store = FileStore::new();
    assert!(store.register_file(&new_file("1", "a", OWNER_A, "t")).is_ok());
    assert!(store.delete_file("1", OWNER_B).is_none());
    assert_eq!(store.delete_file("1", OWNER_A).as_deref(), Some("/uploads/x"));
    assert!(store.get_file("1", OWNER_A).is_none());
    assert!(store.delete_file("1", OWNER_A).is_none());
}

#[test]
fn names_are_made_safe() {
    assert_eq!(sanitize_display_name("a b?c.txt"), "a_b_c.txt");
    assert_eq!(sanitize_display_name("  "), "upload");
    assert_eq!(sanitize_storage_name("../etc/passwd"), "_etc_passwd");
    assert_eq!(sanitize_storage_name("..."), "file");
    let long = "x".repeat(300);
    assert_eq!(sanitize_storage_name(&long).len(), MAX_STORAGE_NAME);
    let mut dotted = "x".repeat(127);
    dotted.push_str(".txt");
    assert_eq!(sanitize_storage_name(&dotted), "x".repeat(127));
    assert_eq!(sanitize_storage_name(&"é".repeat(128)), "é".repeat(100));
    assert_eq!(sanitize_storage_name(&"語".repeat(128)).len(), 198);
    let mut capped = "é".repeat(99);
    capped.push_str("x.é");
    assert_eq!(sanitize_storage_name(&capped).len(), 199);
}

#[test]
fn an_upload_is_planned() {
    let mut form = UploadForm::new("global");
    form.take_tags(" red, blue ");
    form.take_scope("nowhere");
    assert_eq!(form.scope, "global");
    assert!(form.take_file(Some("my notes.txt"), Some("text/plain")).is_none());
    assert!(form.take_chunk(b"hello ").is_none());
    assert!(form.take_chunk(b"world").is_none());
    let plan = match form.finish(false) {
        Ok(plan) => plan,
        Err(reply) => panic!("{}", reply.body),
    };
    assert!(is_uuid(&plan.id));
    assert_eq!(plan.stored_name, format!("{}_my_notes.txt", plan.id));
    assert_eq!(plan.name, "my_notes.txt");
    assert_eq!(plan.original_name, "my notes.txt");
    assert_eq!(plan.size, 11);
    assert_eq!(plan.bytes, b"hello world".to_vec());
    assert_eq!(plan.tag_list, vec!["red".to_string(), "blue".to_string()]);
}

#[test]
fn uploads_are_refused() {
    let broken = upload_failed(UploadFault::Unread);
    assert_eq!((broken.status, broken.body.as_str()), (400, "Failed to read uploaded data"));
    let broken = upload_failed(UploadFault::Unstored);
    assert_eq!((broken.status, broken.body.as_str()), (500, "Failed to store file"));
    let form = UploadForm::new("global");
    let reply = form.finish(false).err().unwrap();
    assert_eq!((reply.status, reply.body.as_str()), (400, "No file provided"));

    let mut form = UploadForm::new("global");
    let reply = form.take_file(Some("../x"), None).unwrap();
    assert_eq!(
        (reply.status, reply.body.as_str()),
        (400, "Filename contains invalid characters")
    );
    let long = "n".repeat(256);
    let reply = form.take_file(Some(&long), None).unwrap();
    assert_eq!(reply.body, "Filename too long (max 255 chars)");

    let mut form = UploadForm::new("global");
    assert!(form.take_file(Some("a.png"), Some("image/PNG")).is_none());
    assert!(form.take_chunk(&vec![0u8; MAX_INLINE_IMAGE_BYTES + 1]).is_none());
    let reply = form.finish(true).err().unwrap();
    assert_eq!(
        (reply.status, reply.body.as_str()),
        (413, "Image uploads are limited to 5 MiB")
    );

    let mut form = UploadForm::new("global");
    assert!(form.take_file(None, None).is_none());
    assert_eq!(form.file_mime, "application/octet-stream");
    let reply = form.take_chunk(&vec![0u8; MAX_UPLOAD_BYTES + 1]).unwrap();
    assert_eq!(
        (reply.status, reply.body.as_str()),
        (413, "File too large (max 100 MiB)")
    );
}

#[test]
fn sizes_are_shown_in_kilobytes() {
    assert_eq!(size_kb(0), 0);
    assert_eq!(size_kb(1), 1);
    assert_eq!(size_kb(1024), 1);
    assert_eq!(size_kb(1025), 2);
    let mut store = FileStore::new();
    assert!(store.register_file(&new_file("1", "a.txt", OWNER_A, "2026-01-01")).is_ok());
    let item = file_item(store.get_file("1", OWNER_A).unwrap(), true);
    assert_eq!(item.size_kb, 1);
    assert_eq!(item.tags, "a, b");
    assert!(item.is_text);
}

#[test]
fn active_types_are_downloaded_as_bytes() {
    assert_eq!(safe_download_mime("text/html"), "application/octet-stream");
    assert_eq!(safe_download_mime("application/javascript"), "application/octet-stream");
    assert_eq!(safe_download_mime("image/png"), "image/png");
    assert_eq!(safe_download_mime("image/svg+xml"), "application/octet-stream");
    assert_eq!(safe_download_mime("Image/SVG+XML; charset=utf-8"), "application/octet-stream");
    assert_eq!(safe_download_mime("text/plain"), "text/plain");
    assert!(!is_plain_mime("text/html"));
}

#[test]
fn header_names_hold_no_quotes() {
    let d = disposition("a\"b\n.txt");
    assert!(d.starts_with("attachment; filename=\""));
    assert_eq!(d.matches('"').count(), 2);
    assert!(!d.contains('\n'));
}

#[test]
fn downloads_stay_in_the_uploads_directory() {
    assert!(is_inside("/data/uploads/x", "/data/uploads"));
    assert!(!is_inside("/data/uploads2/x", "/data/uploads"));
    assert!(download_place(Some("/data/uploads/x"), Some("/data/uploads")).is_none());
    let reply = download_place(Some("/etc/passwd"), Some("/data/uploads")).unwrap();
    assert_eq!(reply.status, 403);
    assert!(download_place(None, Some("/data/uploads")).is_some());
    assert!(download_record(Lookup::Missing).err().map(|r| r.status) == Some(404));
    assert!(download_record(Lookup::Failed).err().map(|r| r.status) == Some(500));
}

#[test]
fn ids_tags_and_scopes_are_checked() {
    assert!(check_file_id("11111111-1111-1111-1111-111111111111").is_none());
    assert_eq!(check_file_id("x").map(|r| r.status), Some(400));
    assert_eq!(clean_tags("a, b"), "a, b");
    assert!(clean_tags(&"x".repeat(300)).len() <= 200);
    assert!(is_scope("global"));
    assert!(!is_scope("nowhere"));
    assert!(check_file_name("a.txt").is_none());
    assert!(check_file_name("a/b").is_some());
    assert!(check_search(None).is_none());
    assert!(check_search(Some("not-an-id")).is_some());
    assert!(deleted(&Lookup::Found("p".to_string())).is_none());
    assert!(deleted(&Lookup::Missing).is_none());
    assert_eq!(deleted(&Lookup::Failed).map(|r| r.status), Some(500));
}
