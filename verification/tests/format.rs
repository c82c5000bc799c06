use rpak::format::{frame_archive, parse_frame};
use rpak::{ArchiveError, Archiver};

fn paths(ps: &[&str]) -> Vec<String> {
    ps.iter().map(|p| p.to_string()).collect()
}

#[test]
fn common_base_of_nothing_is_empty() {
    assert_eq!(Archiver::find_common_base(&paths(&[])), "");
}

#[test]
fn common_base_of_one_file_is_its_parent() {
    assert_eq!(Archiver::find_common_base(&paths(&["/a/b/c.txt"])), "/a/b");
    assert_eq!(Archiver::find_common_base(&paths(&["c.txt"])), "");
    assert_eq!(Archiver::find_common_base(&paths(&["/"])), ".");
}

#[test]
fn common_base_of_siblings_is_their_directory() {
    assert_eq!(Archiver::find_common_base(&paths(&["/a/b/c.txt", "/a/b/d.txt"])), "/a/b");
}

#[test]
fn common_base_climbs_to_a_shared_ancestor() {
    assert_eq!(
        Archiver::find_common_base(&paths(&["/a/b/c.txt", "/a/x/d.txt", "/a/b/e/f.txt"])),
        "/a"
    );
    assert_eq!(Archiver::find_common_base(&paths(&["/a/b", "/c/d"])), "/");
}

#[test]
fn common_base_without_shared_ancestor_is_dot() {
    assert_eq!(Archiver::find_common_base(&paths(&["/x/a", "y/b"])), ".");
}

#[test]
fn every_path_lies_under_the_common_base() {
    let ps = paths(&["/srv/a/x/1", "/srv/a/y/2", "/srv/a/x/3"]);
    let base = Archiver::find_common_base(&ps);
    assert_eq!(base, "/srv/a");
    for p in &ps {
        assert!(std::path::Path::new(p).starts_with(&base));
    }
}

#[test]
fn common_base_compares_whole_components() {
    assert_eq!(Archiver::find_common_base(&paths(&["/a/bc/x", "/a/b/y"])), "/a");
}

#[test]
fn frame_layout() {
    let framed = frame_archive(&[1, 2, 3], &[9, 9]);
    assert_eq!(framed, vec![b'R', b'P', b'A', b'K', 1, 3, 0, 0, 0, 1, 2, 3, 9, 9]);
}

#[test]
fn frame_reads_back() {
    let header = vec![5u8; 300];
    let payload = vec![1u8, 2, 3, 4];
    let framed = frame_archive(&header, &payload);
    let (h, p) = parse_frame(&framed).unwrap();
    assert_eq!(h, header);
    assert_eq!(p, payload);
}

#[test]
fn frame_with_foreign_magic_is_invalid() {
    let buf = b"ZIP!\x01\x00\x00\x00\x00".to_vec();
    let err = parse_frame(&buf).err().unwrap();
    assert!(matches!(err, ArchiveError::InvalidFormat));
    let short = b"ZIP!".to_vec();
    assert!(matches!(parse_frame(&short).err().unwrap(), ArchiveError::InvalidFormat));
}

#[test]
fn frame_with_other_version_is_unsupported() {
    let buf = b"RPAK\x02".to_vec();
    let err = parse_frame(&buf).err().unwrap();
    assert!(matches!(err, ArchiveError::UnsupportedVersion));
}

#[test]
fn frame_cut_short_is_an_invalid_format() {
    for buf in [
        &b""[..],
        &b"RP"[..],
        &b"RPA"[..],
        &b"RPAK"[..],
        &b"RPAK\x01\x05\x00"[..],
        &b"RPAK\x01\x05\x00\x00\x00abcd"[..],
    ] {
        assert!(matches!(parse_frame(buf).err().unwrap(), ArchiveError::InvalidFormat));
    }
    let (h, p) = parse_frame(b"RPAK\x01\x05\x00\x00\x00abcde").unwrap();
    assert_eq!(h, b"abcde".to_vec());
    assert!(p.is_empty());
}

#[test]
fn empty_header_and_payload_frame() {
    let framed = frame_archive(&[], &[]);
    assert_eq!(framed.len(), 9);
    let (h, p) = parse_frame(&framed).unwrap();
    assert!(h.is_empty());
    assert!(p.is_empty());
}
