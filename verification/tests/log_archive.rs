use std::io::{Cursor, Write};

use ci_manager::ci_provider::github::log_archive::{job_logs_from_log_archive, LogArchiveError};
use zip::write::{FileOptions, ZipWriter};
use zip::CompressionMethod;

fn archive_of(entries: &[(&str, &[u8])]) -> Vec<u8> {
    let mut writer = ZipWriter::new(Cursor::new(Vec::new()));
    for (name, contents) in entries {
        writer.start_file(*name, FileOptions::default()).unwrap();
        writer.write_all(contents).unwrap();
    }
    writer.finish().unwrap().into_inner()
}

#[test]
fn logs_come_sorted_by_their_first_timestamp() {
    let bytes = archive_of(&[
        ("build/2_Run tests.txt", b"2024-03-01T10:00:05.0000000Z second\n"),
        ("build/1_Set up job.txt", b"2024-03-01T10:00:01.0000000Z first\n"),
        ("build/3_Post.txt", b"2024-03-01T09:59:59.5000000Z earliest\nmore\n"),
    ]);
    let logs = job_logs_from_log_archive(bytes).unwrap();
    let names: Vec<&str> = logs.iter().map(|l| l.name.as_str()).collect();
    assert_eq!(
        names,
        vec!["build/3_Post.txt", "build/1_Set up job.txt", "build/2_Run tests.txt"]
    );
    assert_eq!(logs[0].content, "2024-03-01T09:59:59.5000000Z earliest\nmore\n");
    assert_eq!(logs[2].content, "2024-03-01T10:00:05.0000000Z second\n");
}

#[test]
fn empty_entries_give_no_log() {
    let bytes = archive_of(&[
        ("build/", b""),
        ("build/1_Set up job.txt", b"2024-03-01T10:00:01.0000000Z first\n"),
        ("build/empty.txt", b""),
    ]);
    let logs = job_logs_from_log_archive(bytes).unwrap();
    assert_eq!(logs.len(), 1);
    assert_eq!(logs[0].name, "build/1_Set up job.txt");
}

#[test]
fn an_archive_without_entries_gives_no_logs() {
    let bytes = archive_of(&[]);
    assert_eq!(job_logs_from_log_archive(bytes).unwrap().len(), 0);
}

#[test]
fn bytes_that_are_no_zip_archive_are_refused() {
    let result = job_logs_from_log_archive(b"this is not a zip archive".to_vec());
    assert!(matches!(result, Err(LogArchiveError::UnreadableArchive)));
    assert!(matches!(
        job_logs_from_log_archive(Vec::new()),
        Err(LogArchiveError::UnreadableArchive)
    ));
}

#[test]
fn an_entry_that_is_not_text_is_refused() {
    let bytes = archive_of(&[
        ("build/1_Set up job.txt", b"2024-03-01T10:00:01.0000000Z first\n"),
        ("build/binary.bin", &[0xff, 0xfe, 0x00, 0x80]),
    ]);
    assert!(matches!(
        job_logs_from_log_archive(bytes),
        Err(LogArchiveError::UnreadableEntry)
    ));
}

#[test]
fn a_log_without_timestamp_is_reported() {
    let bytes = archive_of(&[
        ("build/1_Set up job.txt", b"2024-03-01T10:00:01.0000000Z first\n"),
        ("build/2_Run tests.txt", b"no timestamp in here\n"),
    ]);
    assert!(matches!(
        job_logs_from_log_archive(bytes),
        Err(LogArchiveError::MissingTimestamp)
    ));
}

#[test]
fn an_entry_marked_as_aes_encrypted_without_the_encryption_flag_is_refused() {
    let mut writer = ZipWriter::new(Cursor::new(Vec::new()));
    let options = FileOptions::default().compression_method(CompressionMethod::Stored);
    writer.start_file_with_extra_data("build/1_Set up job.txt", options).unwrap();
    // An extra field of the AES field's size, under another ID: the AES field's data
    // (vendor version 1, vendor "AE", AES-128, stored).
    writer.write_all(&[0xef, 0xbe, 7, 0, 1, 0, 0x41, 0x45, 1, 0, 0]).unwrap();
    writer.end_extra_data().unwrap();
    writer.write_all(b"2024-03-01T10:00:01.0000000Z first\n").unwrap();
    let mut bytes = writer.finish().unwrap().into_inner();
    // Give the field the AES ID 0x9901, in the local and the central header.
    let mut patched = 0;
    for i in 0..bytes.len() - 3 {
        if bytes[i..i + 4] == [0xef, 0xbe, 7, 0] {
            bytes[i] = 0x01;
            bytes[i + 1] = 0x99;
            patched += 1;
        }
    }
    assert_eq!(patched, 2);
    assert!(matches!(
        job_logs_from_log_archive(bytes),
        Err(LogArchiveError::UnreadableEntry)
    ));
}

#[test]
fn a_single_log_without_timestamp_is_kept() {
    let bytes = archive_of(&[("build/1_Set up job.txt", b"no timestamp in here\n"), ("build/", b"")]);
    let logs = job_logs_from_log_archive(bytes).unwrap();
    assert_eq!(logs.len(), 1);
    assert_eq!(logs[0].content, "no timestamp in here\n");
}

/// Sets the encryption flag of every entry, in its local and its central header.
fn mark_encrypted(bytes: &mut [u8]) {
    for i in 0..bytes.len() - 10 {
        if bytes[i..i + 4] == [0x50, 0x4b, 0x03, 0x04] {
            bytes[i + 6] |= 1;
        } else if bytes[i..i + 4] == [0x50, 0x4b, 0x01, 0x02] {
            bytes[i + 8] |= 1;
        }
    }
}

#[test]
fn an_encrypted_entry_is_refused() {
    let options = FileOptions::default().compression_method(CompressionMethod::Stored);
    let mut writer = ZipWriter::new(Cursor::new(Vec::new()));
    writer.start_file("build/1_Set up job.txt", options).unwrap();
    writer.write_all(b"2024-03-01T10:00:01.0000000Z first\n").unwrap();
    let mut bytes = writer.finish().unwrap().into_inner();
    mark_encrypted(&mut bytes);
    assert!(matches!(
        job_logs_from_log_archive(bytes),
        Err(LogArchiveError::UnreadableEntry)
    ));
}

#[test]
fn an_empty_encrypted_entry_is_refused_too() {
    let mut bytes = archive_of(&[("build/empty.txt", b"")]);
    assert_eq!(job_logs_from_log_archive(bytes.clone()).unwrap().len(), 0);
    mark_encrypted(&mut bytes);
    assert!(matches!(
        job_logs_from_log_archive(bytes),
        Err(LogArchiveError::UnreadableEntry)
    ));
}
