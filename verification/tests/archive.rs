use std::io::{Cursor, Write};
use win_widgets::archive::{EntryAction, PackArchive};
use zip::write::SimpleFileOptions;
use zip::ZipWriter;

fn archive_bytes() -> Vec<u8> {
    let mut writer = ZipWriter::new(Cursor::new(Vec::new()));
    let options = SimpleFileOptions::default();
    writer.add_directory("repo-main/", options).unwrap();
    writer.start_file("repo-main/clock/index.html", options).unwrap();
    writer.write_all(b"<html></html>").unwrap();
    writer.start_file("../outside.txt", options).unwrap();
    writer.write_all(b"x").unwrap();
    writer.start_file("repo-main/clock/widget.json", options).unwrap();
    writer.write_all(b"{}").unwrap();
    writer.finish().unwrap().into_inner()
}

#[test]
fn archive_unpacks_entry_by_entry_skipping_unsafe_names() {
    let mut archive = PackArchive::open(archive_bytes()).unwrap();
    match archive.next_entry().unwrap() {
        Some(EntryAction::CreateDir(p)) => assert!(p.starts_with("repo-main")),
        other => panic!("unexpected action {:?}", other),
    }
    match archive.next_entry().unwrap() {
        Some(EntryAction::CreateFile(p)) => assert!(p.ends_with("index.html")),
        other => panic!("unexpected action {:?}", other),
    }
    assert_eq!(archive.entry_data().unwrap(), b"<html></html>".to_vec());
    assert_eq!(archive.next_entry().unwrap(), Some(EntryAction::Skip));
    match archive.next_entry().unwrap() {
        Some(EntryAction::CreateFile(p)) => assert!(p.ends_with("widget.json")),
        other => panic!("unexpected action {:?}", other),
    }
    assert_eq!(archive.entry_data().unwrap(), b"{}".to_vec());
    assert_eq!(archive.next_entry().unwrap(), None);
    assert_eq!(archive.next_entry().unwrap(), None);
}

#[test]
fn broken_archive_is_reported() {
    let bytes = b"not a zip".to_vec();
    let expected = zip::ZipArchive::new(Cursor::new(bytes.clone())).unwrap_err().to_string();
    match PackArchive::open(bytes) {
        Err(e) => assert_eq!(e, expected),
        Ok(_) => panic!("a broken archive opened"),
    }
}
