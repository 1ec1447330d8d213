use course_sync::entry::{decode_entry, DecodeError, FileTask, RawEntry, RemoteEntry};

fn raw(id: &str, ext: &str, can_download: &str, size: &str) -> RawEntry {
    RawEntry {
        id: String::from(id),
        title: String::from("Lecture 1"),
        ext: String::from(ext),
        can_download: String::from(can_download),
        size: String::from(size),
        path: String::from("https://files.example/a"),
    }
}

#[test]
fn decode_entry_types_every_field() {
    let e = decode_entry(raw("42", "pdf", "1", "2048")).unwrap();
    assert_eq!(
        e,
        RemoteEntry {
            id: 42,
            title: String::from("Lecture 1"),
            extension: String::from("pdf"),
            downloadable: true,
            declared_size: 2048,
            remote_path: String::from("https://files.example/a"),
        }
    );
}

#[test]
fn decode_entry_reads_the_download_flag() {
    assert!(!decode_entry(raw("1", "pdf", "0", "1")).unwrap().downloadable);
    assert!(decode_entry(raw("1", "pdf", "1", "1")).unwrap().downloadable);
    assert!(decode_entry(raw("1", "pdf", "", "1")).unwrap().downloadable);
    assert!(decode_entry(raw("1", "pdf", "00", "1")).unwrap().downloadable);
}

#[test]
fn decode_entry_refuses_a_bad_id() {
    assert_eq!(decode_entry(raw("", "pdf", "1", "1")), Err(DecodeError::BadId));
    assert_eq!(decode_entry(raw("x7", "pdf", "1", "1")), Err(DecodeError::BadId));
    assert_eq!(decode_entry(raw("-7", "pdf", "1", "1")), Err(DecodeError::BadId));
    assert_eq!(
        decode_entry(raw("18446744073709551616", "pdf", "1", "1")),
        Err(DecodeError::BadId)
    );
}

#[test]
fn decode_entry_refuses_a_bad_size() {
    assert_eq!(decode_entry(raw("7", "pdf", "1", "")), Err(DecodeError::BadSize));
    assert_eq!(decode_entry(raw("7", "pdf", "1", "2 KB")), Err(DecodeError::BadSize));
    assert_eq!(decode_entry(raw("7", "pdf", "1", "1.5")), Err(DecodeError::BadSize));
}

#[test]
fn decode_entry_judges_the_id_first() {
    assert_eq!(decode_entry(raw("seven", "pdf", "1", "big")), Err(DecodeError::BadId));
}

#[test]
fn is_directory_knows_the_sentinel_only() {
    assert!(decode_entry(raw("1", "dir", "1", "0")).unwrap().is_directory());
    assert!(!decode_entry(raw("1", "Dir", "1", "0")).unwrap().is_directory());
    assert!(!decode_entry(raw("1", "dirs", "1", "0")).unwrap().is_directory());
    assert!(!decode_entry(raw("1", "", "1", "0")).unwrap().is_directory());
    assert!(!decode_entry(raw("1", "pdf", "1", "0")).unwrap().is_directory());
}

#[test]
fn clones_are_equal() {
    let e = decode_entry(raw("42", "pdf", "0", "2048")).unwrap();
    assert_eq!(e.clone(), e);
    let t = FileTask { entry: e, local_relative_dir: String::from("./a") };
    assert_eq!(t.clone(), t);
}
