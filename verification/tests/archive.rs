use chacha20poly1305::aead::{Aead, KeyInit};

use rpak::{ArchiveError, ArchiveHeader, Archiver, FileContents, FileEntry, PackProgress};

fn file(path: &str, data: &[u8]) -> FileContents {
    FileContents { path: path.to_string(), data: data.to_vec() }
}

fn sample_files() -> Vec<FileContents> {
    vec![
        file("/home/user/docs/a.txt", b"hello hello hello hello hello"),
        file("/home/user/docs/b.txt", &[7u8; 1000]),
        file("/home/user/docs/sub/c.bin", b""),
    ]
}


#[test]
fn pack_then_unpack_gives_the_files_back() {
    let files = sample_files();
    let packed = Archiver::pack(&files, None, &mut Vec::new()).unwrap();
    assert!(!packed.header.is_encrypted);
    assert_eq!(packed.header.entries.len(), 3);
    let out = Archiver::unpack(&packed.header, &packed.data, None, &mut Vec::new()).unwrap();
    assert_eq!(out.len(), 3);
    assert_eq!(out[0].path, "a.txt");
    assert_eq!(out[1].path, "b.txt");
    assert_eq!(out[2].path, "sub/c.bin");
    for i in 0..3 {
        assert_eq!(out[i].data, files[i].data);
    }
}

#[test]
fn pack_then_unpack_with_password() {
    let files = sample_files();
    let packed = Archiver::pack(&files, Some("secret"), &mut Vec::new()).unwrap();
    assert!(packed.header.is_encrypted);
    let out = Archiver::unpack(&packed.header, &packed.data, Some("secret"), &mut Vec::new()).unwrap();
    assert_eq!(out.len(), 3);
    for i in 0..3 {
        assert_eq!(out[i].data, files[i].data);
    }
}

#[test]
fn entries_lie_back_to_back() {
    let files = sample_files();
    let packed = Archiver::pack(&files, None, &mut Vec::new()).unwrap();
    let entries = &packed.header.entries;
    assert_eq!(entries[0].compressed_offset, 0);
    for i in 0..entries.len() - 1 {
        assert_eq!(
            entries[i].compressed_offset + entries[i].compressed_size,
            entries[i + 1].compressed_offset
        );
    }
    let last = &entries[entries.len() - 1];
    assert_eq!(last.compressed_offset + last.compressed_size, packed.data.len() as u64);
    assert_eq!(entries[0].original_size, 29);
    assert_eq!(entries[1].original_size, 1000);
    assert_eq!(entries[2].original_size, 0);
}

#[test]
fn compression_shrinks_repetitive_data() {
    let files = vec![file("/data/zeros.bin", &[0u8; 10000])];
    let packed = Archiver::pack(&files, None, &mut Vec::new()).unwrap();
    assert!(packed.header.entries[0].compressed_size < 1000);
    assert!(packed.data.len() < 1000);
    assert_eq!(zstd::decode_all(&packed.data[..]).unwrap(), vec![0u8; 10000]);
}

#[test]
fn data_hash_is_blake3_of_the_compressed_data() {
    let files = sample_files();
    let packed = Archiver::pack(&files, None, &mut Vec::new()).unwrap();
    assert_eq!(packed.header.data_hash.len(), 32);
    assert_eq!(packed.header.data_hash, blake3::hash(&packed.data).as_bytes().to_vec());
}

#[test]
fn encrypted_data_differs_from_the_plain_data() {
    let files = sample_files();
    let plain = Archiver::pack(&files, None, &mut Vec::new()).unwrap();
    let sealed = Archiver::pack(&files, Some("pw"), &mut Vec::new()).unwrap();
    assert_eq!(sealed.data.len(), plain.data.len() + 16);
    assert!(sealed.data[..plain.data.len()] != plain.data[..]);
    assert_eq!(sealed.header.data_hash, plain.header.data_hash);
}

#[test]
fn packing_nothing_is_an_error() {
    let files: Vec<FileContents> = Vec::new();
    let err = Archiver::pack(&files, None, &mut Vec::new()).err().unwrap();
    assert!(matches!(err, ArchiveError::NoFilesToPack));
    assert_eq!(err.message(), "No files to pack");
}

#[test]
fn encrypted_archive_needs_a_password() {
    let packed = Archiver::pack(&sample_files(), Some("secret"), &mut Vec::new()).unwrap();
    let err = Archiver::unpack(&packed.header, &packed.data, None, &mut Vec::new()).err().unwrap().error;
    assert!(matches!(err, ArchiveError::MissingPassword));
    assert_eq!(err.message(), "Archive is encrypted but no password provided");
}

#[test]
fn wrong_password_fails_to_decrypt() {
    let packed = Archiver::pack(&sample_files(), Some("secret"), &mut Vec::new()).unwrap();
    let err = Archiver::unpack(&packed.header, &packed.data, Some("guess"), &mut Vec::new()).err().unwrap().error;
    assert!(matches!(err, ArchiveError::DecryptionFailed));
    assert_eq!(err.message(), "Decryption failed - wrong password?");
}

#[test]
fn password_is_ignored_for_a_plain_archive() {
    let files = sample_files();
    let packed = Archiver::pack(&files, None, &mut Vec::new()).unwrap();
    let out = Archiver::unpack(&packed.header, &packed.data, Some("any"), &mut Vec::new()).unwrap();
    assert_eq!(out[1].data, files[1].data);
}

#[test]
fn corrupted_data_fails_the_integrity_check() {
    let packed = Archiver::pack(&sample_files(), None, &mut Vec::new()).unwrap();
    let mut data = packed.data.clone();
    data[0] ^= 0xff;
    let err = Archiver::unpack(&packed.header, &data, None, &mut Vec::new()).err().unwrap().error;
    assert!(matches!(err, ArchiveError::IntegrityCheckFailed));
    assert_eq!(err.message(), "Archive integrity check failed - file may be corrupted");
}

#[test]
fn open_payload_returns_the_checked_data() {
    let packed = Archiver::pack(&sample_files(), Some("k"), &mut Vec::new()).unwrap();
    let plain = Archiver::pack(&sample_files(), None, &mut Vec::new()).unwrap();
    let data = Archiver::open_payload(&packed.header, &packed.data, Some("k")).unwrap();
    assert_eq!(data, plain.data);
}

fn header_for(data: &[u8], entries: Vec<FileEntry>) -> ArchiveHeader {
    ArchiveHeader {
        entries,
        is_encrypted: false,
        data_hash: blake3::hash(data).as_bytes().to_vec(),
    }
}

#[test]
fn undecodable_entry_is_a_decompression_error() {
    let data = b"this is not a zstd frame".to_vec();
    let header = header_for(
        &data,
        vec![FileEntry {
            relative_path: "x".to_string(),
            original_size: 3,
            compressed_offset: 0,
            compressed_size: data.len() as u64,
        }],
    );
    let failure = Archiver::unpack(&header, &data, None, &mut Vec::new()).err().unwrap();
    assert!(matches!(failure.error, ArchiveError::DecompressionFailed(_)));
    assert!(failure.extracted.is_empty());
}

#[test]
fn entry_outside_the_data_is_reported() {
    let data = zstd::encode_all(&b"abc"[..], 3).unwrap();
    let header = header_for(
        &data,
        vec![FileEntry {
            relative_path: "x".to_string(),
            original_size: 3,
            compressed_offset: 1,
            compressed_size: data.len() as u64,
        }],
    );
    assert_eq!(Archiver::first_unfit_entry(&header, data.len()), 0);
    let failure = Archiver::unpack(&header, &data, None, &mut Vec::new()).err().unwrap();
    assert!(matches!(failure.error, ArchiveError::EntryOutOfRange));
    assert!(failure.extracted.is_empty());
}

#[test]
fn tight_entry_fits() {
    let data = zstd::encode_all(&b"abc"[..], 3).unwrap();
    let header = header_for(
        &data,
        vec![FileEntry {
            relative_path: "x".to_string(),
            original_size: 3,
            compressed_offset: 0,
            compressed_size: data.len() as u64,
        }],
    );
    assert_eq!(Archiver::first_unfit_entry(&header, data.len()), 1);
    let out = Archiver::unpack(&header, &data, None, &mut Vec::new()).unwrap();
    assert_eq!(out[0].data, b"abc".to_vec());
    assert_eq!(out[0].path, "x");
}

#[test]
fn pack_reports_progress_for_each_file() {
    let mut progress: Vec<PackProgress> = Vec::new();
    let files = sample_files();
    Archiver::pack(&files, None, &mut progress).unwrap();
    let events: Vec<(String, usize, usize)> =
        progress.into_iter().map(|p| (p.current_file, p.processed, p.total)).collect();
    assert_eq!(
        events,
        vec![
            ("/home/user/docs/a.txt".to_string(), 0, 3),
            ("/home/user/docs/b.txt".to_string(), 1, 3),
            ("/home/user/docs/sub/c.bin".to_string(), 2, 3),
        ]
    );
}

#[test]
fn unpack_reports_progress_for_each_entry() {
    let packed = Archiver::pack(&sample_files(), None, &mut Vec::new()).unwrap();
    let mut progress: Vec<PackProgress> = Vec::new();
    Archiver::unpack(&packed.header, &packed.data, None, &mut progress).unwrap();
    let events: Vec<(String, usize, usize)> =
        progress.into_iter().map(|p| (p.current_file, p.processed, p.total)).collect();
    assert_eq!(
        events,
        vec![
            ("a.txt".to_string(), 0, 3),
            ("b.txt".to_string(), 1, 3),
            ("sub/c.bin".to_string(), 2, 3),
        ]
    );
}

#[test]
fn files_without_common_directory_keep_their_paths() {
    let files = vec![file("/x/a", b"1"), file("y/b", b"2")];
    let packed = Archiver::pack(&files, None, &mut Vec::new()).unwrap();
    assert_eq!(packed.header.entries[0].relative_path, "/x/a");
    assert_eq!(packed.header.entries[1].relative_path, "y/b");
}

#[test]
fn error_messages() {
    assert_eq!(ArchiveError::InvalidFormat.message(), "Invalid archive format");
    assert_eq!(ArchiveError::UnsupportedVersion.message(), "Unsupported archive version");
    assert_eq!(ArchiveError::EncryptionFailed.message(), "Encryption failed: aead::Error");
    assert_eq!(ArchiveError::CompressionFailed("boom".to_string()).message(), "boom");
    assert_eq!(
        ArchiveError::EntryOutOfRange.message(),
        "Archive entry lies outside the archive data"
    );
}

#[test]
fn sealing_uses_the_password_digest_and_a_zero_nonce() {
    let files = sample_files();
    let plain = Archiver::pack(&files, None, &mut Vec::new()).unwrap();
    let sealed = Archiver::pack(&files, Some("secret"), &mut Vec::new()).unwrap();
    let key = *blake3::hash(b"secret").as_bytes();
    let cipher = chacha20poly1305::ChaCha20Poly1305::new(&key.into());
    let expected = cipher
        .encrypt(&chacha20poly1305::Nonce::from([0u8; 12]), &plain.data[..])
        .unwrap();
    assert_eq!(sealed.data, expected);
}

#[test]
fn append_chunk_records_offset_and_size() {
    let mut entries: Vec<FileEntry> = Vec::new();
    let mut data: Vec<u8> = vec![1, 2, 3];
    Archiver::append_chunk(&mut entries, &mut data, "a/b".to_string(), 42, &[9, 8]);
    assert_eq!(data, vec![1, 2, 3, 9, 8]);
    assert_eq!(entries.len(), 1);
    assert_eq!(entries[0].relative_path, "a/b");
    assert_eq!(entries[0].original_size, 42);
    assert_eq!(entries[0].compressed_offset, 3);
    assert_eq!(entries[0].compressed_size, 2);
}

fn entry(path: &str, offset: u64, size: u64) -> FileEntry {
    FileEntry {
        relative_path: path.to_string(),
        original_size: 0,
        compressed_offset: offset,
        compressed_size: size,
    }
}

#[test]
fn failure_keeps_the_entries_before_it() {
    let good = zstd::encode_all(&b"first"[..], 3).unwrap();
    let mut data = good.clone();
    data.extend_from_slice(b"garbage!");
    let header = header_for(
        &data,
        vec![
            entry("one", 0, good.len() as u64),
            entry("two", good.len() as u64, 8),
            entry("three", 0, 1000),
        ],
    );
    let mut progress: Vec<PackProgress> = Vec::new();
    let failure = Archiver::unpack(&header, &data, None, &mut progress).err().unwrap();
    assert!(matches!(failure.error, ArchiveError::DecompressionFailed(_)));
    assert_eq!(failure.extracted.len(), 1);
    assert_eq!(failure.extracted[0].path, "one");
    assert_eq!(failure.extracted[0].data, b"first".to_vec());
    assert_eq!(progress.iter().map(|p| p.processed).collect::<Vec<_>>(), vec![0, 1]);
}

#[test]
fn out_of_range_entry_after_good_ones() {
    let good = zstd::encode_all(&b"first"[..], 3).unwrap();
    let header = header_for(
        &good,
        vec![entry("one", 0, good.len() as u64), entry("two", 1, good.len() as u64)],
    );
    let mut progress: Vec<PackProgress> = Vec::new();
    let failure = Archiver::unpack(&header, &good, None, &mut progress).err().unwrap();
    assert!(matches!(failure.error, ArchiveError::EntryOutOfRange));
    assert_eq!(failure.extracted.len(), 1);
    assert_eq!(failure.extracted[0].data, b"first".to_vec());
    assert_eq!(progress.iter().map(|p| p.processed).collect::<Vec<_>>(), vec![0, 1]);
}

#[test]
fn extract_entries_stops_at_count() {
    let good = zstd::encode_all(&b"abc"[..], 3).unwrap();
    let header = header_for(&good, vec![entry("a", 0, good.len() as u64), entry("b", 0, 999)]);
    let out = Archiver::extract_entries(&header, &good, 1, &mut Vec::new()).unwrap();
    assert_eq!(out.len(), 1);
    assert_eq!(out[0].data, b"abc".to_vec());
}

#[test]
fn empty_password_still_encrypts() {
    let packed = Archiver::pack(&sample_files(), Some(""), &mut Vec::new()).unwrap();
    assert!(packed.header.is_encrypted);
    let out = Archiver::unpack(&packed.header, &packed.data, Some(""), &mut Vec::new()).unwrap();
    assert_eq!(out.len(), 3);
}

#[test]
fn packing_nothing_reports_nothing() {
    let mut progress: Vec<PackProgress> = Vec::new();
    let files: Vec<FileContents> = Vec::new();
    assert!(Archiver::pack(&files, None, &mut progress).is_err());
    assert!(progress.is_empty());
}

#[test]
fn failed_opening_reports_nothing() {
    let packed = Archiver::pack(&sample_files(), Some("secret"), &mut Vec::new()).unwrap();
    let mut progress: Vec<PackProgress> = Vec::new();
    let failure = Archiver::unpack(&packed.header, &packed.data, Some("nope"), &mut progress)
        .err()
        .unwrap();
    assert!(matches!(failure.error, ArchiveError::DecryptionFailed));
    assert!(progress.is_empty());
    let failure = Archiver::unpack(&packed.header, &packed.data, None, &mut progress)
        .err()
        .unwrap();
    assert!(matches!(failure.error, ArchiveError::MissingPassword));
    assert!(progress.is_empty());
}

#[test]
fn reports_are_appended_to_earlier_ones() {
    let mut progress = vec![PackProgress { current_file: "earlier".to_string(), processed: 9, total: 9 }];
    Archiver::pack(&[file("/d/x", b"x")], None, &mut progress).unwrap();
    assert_eq!(progress.len(), 2);
    assert_eq!(progress[0].current_file, "earlier");
    assert_eq!(progress[1].current_file, "/d/x");
}
