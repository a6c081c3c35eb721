use fshare::errors::AppError;
use fshare::links::is_link_valid;
use fshare::upload::{
    collect_entries, has_container_ext, resolve_entry_name, strip_container_ext, DirRecord,
    FileType, UploadManager,
};

fn manager(max_size: usize) -> UploadManager {
    UploadManager::new("/srv/files".to_string(), max_size)
}

#[test]
fn upload_within_budget_is_sealed_under_its_link() {
    let m = manager(100);
    let mut s = m.start_upload();
    let link = s.link().clone();
    assert!(link.len() >= 10 && link.len() <= 14 && is_link_valid(&link));
    assert_eq!(s.path(), &format!("/srv/files/{}.zip", link));
    assert_eq!(resolve_entry_name(Some("a.txt".to_string())), "a.txt");
    assert!(s.accept_chunk(3).is_ok());
    assert_eq!(resolve_entry_name(Some("b.txt".to_string())), "b.txt");
    assert!(s.accept_chunk(4).is_ok());
    assert_eq!(s.finish().unwrap(), link);
}

#[test]
fn upload_over_budget_is_rejected() {
    let m = manager(10);
    let mut s = m.start_upload();
    assert!(matches!(s.accept_chunk(50), Err(AppError::SizeLimitExceeded)));
    assert!(matches!(s.finish(), Err(AppError::SizeLimitExceeded)));
}

#[test]
fn budget_counts_across_entries() {
    let m = manager(10);
    let mut s = m.start_upload();
    assert!(s.accept_chunk(6).is_ok());
    assert!(s.accept_chunk(4).is_ok());
    assert!(matches!(s.accept_chunk(1), Err(AppError::SizeLimitExceeded)));
    assert!(matches!(s.accept_chunk(0), Err(AppError::SizeLimitExceeded)));
    assert!(matches!(s.finish(), Err(AppError::SizeLimitExceeded)));
}

#[test]
fn upload_exactly_at_budget_is_sealed() {
    let m = manager(7);
    let mut s = m.start_upload();
    assert!(s.accept_chunk(7).is_ok());
    assert!(s.finish().is_ok());
}

#[test]
fn upload_without_fields_is_empty() {
    let m = manager(10);
    let s = m.start_upload();
    assert!(matches!(s.finish(), Err(AppError::EmptyUpload)));
}

#[test]
fn upload_of_empty_fields_is_empty() {
    let m = manager(10);
    let mut s = m.start_upload();
    assert!(s.accept_chunk(0).is_ok());
    assert!(s.accept_chunk(0).is_ok());
    assert!(matches!(s.finish(), Err(AppError::EmptyUpload)));
}

#[test]
fn huge_chunk_does_not_overflow_the_counter() {
    let m = manager(usize::MAX - 1);
    let mut s = m.start_upload();
    assert!(s.accept_chunk(usize::MAX - 2).is_ok());
    assert!(matches!(s.accept_chunk(usize::MAX), Err(AppError::SizeLimitExceeded)));
}

#[test]
fn unnamed_entry_gets_a_link_as_name() {
    let name = resolve_entry_name(None);
    assert!(name.len() >= 10 && name.len() <= 14 && is_link_valid(&name));
}

#[test]
fn retrieval_path_and_not_found() {
    let m = manager(10);
    assert_eq!(m.get_file_from_link("AbCdEfGhIj").unwrap(), "/srv/files/AbCdEfGhIj.zip");
    assert!(matches!(m.get_file_from_link("../secret"), Err(AppError::NotFound)));
    assert!(matches!(m.get_file_from_link(""), Err(AppError::NotFound)));
    assert_eq!(m.container_path("x"), "/srv/files/x.zip");
}

#[test]
fn container_extension() {
    assert!(has_container_ext("AbcDefGhij.zip"));
    assert!(has_container_ext(".zip"));
    assert!(!has_container_ext("zip"));
    assert!(!has_container_ext("archive.zipx"));
    assert!(!has_container_ext("notes.txt"));
    assert_eq!(strip_container_ext("AbcDefGhij.zip"), "AbcDefGhij");
}

fn record(name: &str, size: u64, created: u64, contents: Option<Vec<&str>>) -> DirRecord {
    DirRecord {
        name: name.to_string(),
        size,
        created,
        contents: contents.map(|v| v.into_iter().map(|s| s.to_string()).collect()),
    }
}

#[test]
fn listing_of_a_two_entry_container() {
    let records = vec![record("LinkAbcdef.zip", 250, 1614816000, Some(vec!["a.txt", "b.txt"]))];
    let entries = collect_entries(&records);
    assert_eq!(entries.len(), 2);
    assert_eq!(entries[0].name, "a.txt");
    assert_eq!(entries[1].name, "b.txt");
    for e in &entries {
        assert!(matches!(&e.file_type, FileType::Archive(o) if o == "LinkAbcdef"));
        assert_eq!(e.size, 250);
        assert_eq!(e.created, 1614816000);
    }
}

#[test]
fn listing_of_a_regular_file() {
    let records = vec![record("notes", 12, 5, None)];
    let entries = collect_entries(&records);
    assert_eq!(entries.len(), 1);
    assert_eq!(entries[0].name, "notes");
    assert!(matches!(entries[0].file_type, FileType::Regular));
    assert_eq!(entries[0].size, 12);
    assert_eq!(entries[0].created, 5);
}

#[test]
fn listing_skips_a_broken_container() {
    let records = vec![
        record("garbage.zip", 9, 1, None),
        record("other.txt", 3, 2, Some(vec!["ignored"])),
    ];
    let entries = collect_entries(&records);
    assert_eq!(entries.len(), 1);
    assert_eq!(entries[0].name, "other.txt");
    assert!(matches!(entries[0].file_type, FileType::Regular));
}

#[test]
fn listing_keeps_scan_order() {
    let records = vec![
        record("b", 1, 1, None),
        record("Zz.zip", 2, 2, Some(vec!["y", "x"])),
        record("a", 3, 3, None),
    ];
    let names: Vec<String> = collect_entries(&records).into_iter().map(|e| e.name).collect();
    assert_eq!(names, vec!["b", "y", "x", "a"]);
}

#[test]
fn listing_of_nothing_is_empty() {
    assert!(collect_entries(&Vec::new()).is_empty());
}

#[test]
fn two_small_files_are_stored_and_listed_under_the_link() {
    let m = manager(100);
    let mut s = m.start_upload();
    let a = resolve_entry_name(Some("a.txt".to_string()));
    assert!(s.accept_chunk(3).is_ok());
    let b = resolve_entry_name(Some("b.txt".to_string()));
    assert!(s.accept_chunk(4).is_ok());
    let link = s.finish().unwrap();
    assert!(link.len() >= 10 && link.len() <= 14 && is_link_valid(&link));
    let path = m.get_file_from_link(&link).unwrap();
    assert_eq!(path, format!("/srv/files/{}.zip", link));

    let file_name = format!("{}.zip", link);
    let records = vec![DirRecord { name: file_name, size: 300, created: 7, contents: Some(vec![a, b]) }];
    let entries = collect_entries(&records);
    assert_eq!(entries.len(), 2);
    assert_eq!(entries[0].name, "a.txt");
    assert_eq!(entries[1].name, "b.txt");
    for e in &entries {
        assert!(matches!(&e.file_type, FileType::Archive(o) if *o == link));
    }
}

#[test]
fn fifty_bytes_over_a_ten_byte_ceiling() {
    let m = manager(10);
    let mut s = m.start_upload();
    let name = resolve_entry_name(None);
    assert!(!name.is_empty());
    assert!(matches!(s.accept_chunk(50), Err(AppError::SizeLimitExceeded)));
    assert!(matches!(s.finish(), Err(AppError::SizeLimitExceeded)));
}
