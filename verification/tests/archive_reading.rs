use std::io::{Cursor, Write};
use zip::write::FileOptions;
use zip::{CompressionMethod, ZipWriter};
use zip_risk_auditor::archive::{
    read_entries, uninspectable_entry, unreadable_archive, ArchiveEntry, ReadFailure,
};
use zip_risk_auditor::path::Host;
use zip_risk_auditor::survey::{sizes_fit, survey_archive};

fn stored() -> FileOptions {
    FileOptions::default().compression_method(CompressionMethod::Stored)
}

fn archive_of(files: &[(&str, &[u8])]) -> Vec<u8> {
    let mut writer = ZipWriter::new(Cursor::new(Vec::new()));
    for (name, content) in files {
        writer.start_file(*name, stored()).unwrap();
        writer.write_all(content).unwrap();
    }
    writer.finish().unwrap().into_inner()
}

fn central_header(bytes: &[u8]) -> usize {
    bytes.windows(4).position(|window| window == b"PK\x01\x02").unwrap()
}

fn message(read: Result<Vec<ArchiveEntry>, ReadFailure>) -> String {
    match read {
        Err(ReadFailure::Message(message)) => message,
        _ => panic!("no message"),
    }
}

/// An archive with one stored entry `a` whose central header has an AES record.
fn aes_archive(flags: u8) -> Vec<u8> {
    let mut bytes: Vec<u8> = Vec::new();
    bytes.extend_from_slice(b"PK\x03\x04");
    bytes.extend_from_slice(&[20, 0, flags, 0, 99, 0, 0, 0, 0, 0]);
    bytes.extend_from_slice(&[0; 12]);
    bytes.extend_from_slice(&[1, 0, 0, 0]);
    bytes.extend_from_slice(b"a");
    let directory = bytes.len() as u8;
    bytes.extend_from_slice(b"PK\x01\x02");
    bytes.extend_from_slice(&[20, 0, 20, 0, flags, 0, 99, 0, 0, 0, 0, 0]);
    bytes.extend_from_slice(&[0; 12]);
    bytes.extend_from_slice(&[1, 0, 11, 0, 0, 0, 0, 0, 0, 0]);
    bytes.extend_from_slice(&[0; 8]);
    bytes.extend_from_slice(b"a");
    bytes.extend_from_slice(&[0x01, 0x99, 7, 0, 1, 0, b'A', b'E', 1, 0, 0]);
    let size = bytes.len() as u8 - directory;
    bytes.extend_from_slice(b"PK\x05\x06");
    bytes.extend_from_slice(&[0, 0, 0, 0, 1, 0, 1, 0]);
    bytes.extend_from_slice(&[size, 0, 0, 0, directory, 0, 0, 0, 0, 0]);
    bytes
}

#[test]
fn entries_come_in_order_with_their_sizes() {
    let mut writer = ZipWriter::new(Cursor::new(Vec::new()));
    writer.add_directory("docs", stored()).unwrap();
    writer.start_file("docs/a.txt", stored()).unwrap();
    writer.write_all(b"hello").unwrap();
    let squeezed = FileOptions::default().compression_method(CompressionMethod::Deflated);
    writer.start_file("docs/ü.bin", squeezed).unwrap();
    writer.write_all(&vec![0; 10000]).unwrap();
    let bytes = writer.finish().unwrap().into_inner();

    let entries = read_entries("x.zip", &bytes).unwrap();
    assert_eq!(entries.len(), 3);
    assert!(entries[0].is_dir);
    assert_eq!(entries[0].name, "docs/");
    assert!(!entries[1].is_dir);
    assert_eq!(entries[1].name, "docs/a.txt");
    assert_eq!(entries[1].compressed, 5);
    assert_eq!(entries[1].uncompressed, 5);
    assert_eq!(entries[2].name, "docs/ü.bin");
    assert_eq!(entries[2].uncompressed, 10000);
    assert!(entries[2].compressed < 100);
}

#[test]
fn an_empty_archive_has_no_entries() {
    let bytes = archive_of(&[]);
    assert!(read_entries("x.zip", &bytes).unwrap().is_empty());
    let survey = survey_archive("x.zip", None, &bytes, Host::Unix).unwrap().unwrap();
    assert_eq!(survey.entry_count, 0);
    assert_eq!((survey.archive_ratio.part, survey.archive_ratio.whole), (1, 1));
}

#[test]
fn what_is_no_archive_is_refused_by_name() {
    assert_eq!(
        message(read_entries("notes.zip", b"hello")),
        "Could not read notes.zip as a zip archive: invalid Zip archive: Invalid zip header"
    );
    assert_eq!(
        unreadable_archive("a", "b"),
        "Could not read a as a zip archive: b"
    );
}

#[test]
fn an_encrypted_entry_is_refused_by_index() {
    let mut bytes = archive_of(&[("plain", b"x"), ("secret", b"y")]);
    let first = central_header(&bytes);
    let second = first + 4 + central_header(&bytes[first + 4..]);
    bytes[second + 8] |= 1;
    assert_eq!(
        message(read_entries("x.zip", &bytes)),
        "Could not inspect entry 1 in x.zip: unsupported Zip archive: Password required to decrypt file"
    );
    assert_eq!(uninspectable_entry(12, "p", "e"), "Could not inspect entry 12 in p: e");
}

#[test]
fn an_entry_without_its_local_header_is_refused() {
    let mut bytes = archive_of(&[("a", b"x")]);
    bytes[0] = b'Q';
    assert_eq!(
        message(read_entries("x.zip", &bytes)),
        "Could not inspect entry 0 in x.zip: invalid Zip archive: Invalid local file header"
    );
    let at = central_header(&bytes);
    bytes[at + 8] |= 1;
    assert_eq!(
        message(read_entries("x.zip", &bytes)),
        "Could not inspect entry 0 in x.zip: unsupported Zip archive: Password required to decrypt file"
    );
}

#[test]
fn an_unsupported_compression_method_is_refused() {
    let mut bytes = archive_of(&[("a", b"x")]);
    let at = central_header(&bytes);
    bytes[at + 10] = 77;
    assert_eq!(
        message(read_entries("x.zip", &bytes)),
        "Could not inspect entry 0 in x.zip: unsupported Zip archive: Compression method not supported"
    );
}

#[test]
fn an_aes_record_without_encryption_is_told_apart() {
    match read_entries("x.zip", &aes_archive(0)) {
        Err(ReadFailure::Locked(index)) => assert_eq!(index, 0),
        _ => panic!("not locked"),
    }
    assert_eq!(
        message(read_entries("x.zip", &aes_archive(1))),
        "Could not inspect entry 0 in x.zip: unsupported Zip archive: Password required to decrypt file"
    );
}

#[test]
fn sizes_that_cannot_be_added_up_are_told() {
    let huge = |is_dir: bool| ArchiveEntry {
        is_dir,
        name: "a".to_string(),
        compressed: 1,
        uncompressed: u64::MAX,
    };
    assert!(sizes_fit(&[]));
    assert!(sizes_fit(&[huge(false)]));
    assert!(sizes_fit(&[huge(false), huge(true)]));
    assert!(!sizes_fit(&[huge(false), huge(false)]));
}

#[test]
fn an_archive_is_surveyed_from_its_bytes() {
    let bytes = archive_of(&[("..\\up.txt", b"1"), ("./up.exe", b"22"), ("up.exe", b"333")]);
    let survey = survey_archive("x.zip", None, &bytes, Host::Unix).unwrap().unwrap();
    assert_eq!(survey.traversal_entries, 1);
    assert_eq!(survey.executable_entries, 2);
    assert_eq!(survey.duplicate_paths, 1);
    assert_eq!(survey.entry_count, 2);
    assert_eq!(survey.total_uncompressed_bytes, 6);
    assert_eq!(survey.ratios.len(), 3);
}

#[test]
fn a_refused_file_is_not_surveyed() {
    let bytes = archive_of(&[("a", b"1")]);
    let refusal = "invalid Zip archive: Could not seek to start of central directory";
    match survey_archive("x.zip", Some(refusal), &bytes, Host::Unix) {
        Err(ReadFailure::Message(message)) => assert_eq!(
            message,
            "Could not read x.zip as a zip archive: invalid Zip archive: Could not seek to start of central directory"
        ),
        _ => panic!("not refused"),
    }
}
