//! The outer frame of an `.rpak` file: the magic bytes `RPAK`, a version
//! byte, the header's length as a little-endian `u32`, the header's bytes,
//! and then the (compressed, possibly encrypted) data of all entries.
use vstd::prelude::*;
use vstd::bytes::{spec_u32_from_le_bytes, spec_u32_to_le_bytes, u32_from_le_bytes, u32_to_le_bytes};
use vstd::slice::{slice_subrange, slice_to_vec};

use crate::archiver::ArchiveError;

verus! {

/// The format version written and accepted.
pub const VERSION: u8 = 1;

/// The four magic bytes, `b"RPAK"`.
pub open spec fn spec_magic() -> Seq<u8> {
    seq![0x52u8, 0x50u8, 0x41u8, 0x4bu8]
}

/// Where the header starts: after the magic bytes, the version and the length.
pub open spec fn header_start() -> int {
    9
}

/// The bytes of a frame around `header` and `payload`. The length field
/// holds the header's length modulo 2^32, as a cast to `u32` gives it.
pub open spec fn spec_frame(header: Seq<u8>, payload: Seq<u8>) -> Seq<u8> {
    spec_magic() + seq![VERSION] + spec_u32_to_le_bytes((header.len() % 0x1_0000_0000) as u32)
        + header + payload
}

/// The header length that the bytes `5..9` of `buf` announce.
pub open spec fn announced_header_len(buf: Seq<u8>) -> int {
    spec_u32_from_le_bytes(buf.subrange(5, 9)) as int
}

/// What reading the frame of `buf` gives: the header's bytes and the payload;
/// `UnsupportedVersion` for another version; and `InvalidFormat` for foreign
/// magic bytes or a frame cut short (before its version, inside its length
/// field, or inside its header).
pub open spec fn spec_parse_frame(buf: Seq<u8>) -> Result<(Seq<u8>, Seq<u8>), ArchiveError> {
    if buf.len() < 4 || buf.subrange(0, 4) != spec_magic() || buf.len() < 5 {
        Err(ArchiveError::InvalidFormat)
    } else if buf[4] != VERSION {
        Err(ArchiveError::UnsupportedVersion)
    } else if buf.len() < 9 || buf.len() < 9 + announced_header_len(buf) {
        Err(ArchiveError::InvalidFormat)
    } else {
        let end = 9 + announced_header_len(buf);
        Ok((buf.subrange(9, end), buf.subrange(end, buf.len() as int)))
    }
}

/// Writes the frame: magic bytes, version, header length (truncated to
/// `u32` like the cast it stands for), header bytes, payload.
pub fn frame_archive(header_bytes: &[u8], payload: &[u8]) -> (out: Vec<u8>)
    ensures
        out@ == spec_frame(header_bytes@, payload@),
        out@.len() == 9 + header_bytes@.len() + payload@.len(),
        out@.subrange(0, 4) == seq![0x52u8, 0x50u8, 0x41u8, 0x4bu8],
        out@[4] == 1,
        header_bytes@.len() < 0x1_0000_0000 ==> spec_u32_from_le_bytes(out@.subrange(5, 9))
            == header_bytes@.len(),
        out@.subrange(9, 9 + header_bytes@.len() as int) == header_bytes@,
        out@.subrange(9 + header_bytes@.len() as int, out@.len() as int) == payload@,
{
    let mut out: Vec<u8> = Vec::new();
    out.push(0x52u8);
    out.push(0x50u8);
    out.push(0x41u8);
    out.push(0x4bu8);
    out.push(VERSION);
    let wide: u64 = header_bytes.len() as u64;
    let header_len: u32 = (wide % 0x1_0000_0000u64) as u32;
    let len_bytes = u32_to_le_bytes(header_len);
    out.extend_from_slice(len_bytes.as_slice());
    out.extend_from_slice(header_bytes);
    out.extend_from_slice(payload);
    assert(out@ =~= spec_frame(header_bytes@, payload@));
    proof {
        vstd::bytes::lemma_auto_spec_u32_to_from_le_bytes();
        assert(out@.subrange(0, 4) =~= seq![0x52u8, 0x50u8, 0x41u8, 0x4bu8]);
        assert(out@.subrange(5, 9) =~= len_bytes@);
        assert(out@.subrange(9, 9 + header_bytes@.len() as int) =~= header_bytes@);
        assert(out@.subrange(9 + header_bytes@.len() as int, out@.len() as int) =~= payload@);
    }
    out
}

fn has_magic(buffer: &[u8]) -> (r: bool)
    requires
        buffer@.len() >= 4,
    ensures
        r == (buffer@.subrange(0, 4) == spec_magic()),
{
    let r = buffer[0] == 0x52u8 && buffer[1] == 0x50u8 && buffer[2] == 0x41u8 && buffer[3]
        == 0x4bu8;
    if r {
        assert(buffer@.subrange(0, 4) =~= spec_magic());
    } else {
        assert(buffer@.subrange(0, 4) != spec_magic()) by {
            if buffer@.subrange(0, 4) == spec_magic() {
                assert(buffer@.subrange(0, 4)[0] == buffer@[0]);
                assert(buffer@.subrange(0, 4)[1] == buffer@[1]);
                assert(buffer@.subrange(0, 4)[2] == buffer@[2]);
                assert(buffer@.subrange(0, 4)[3] == buffer@[3]);
            }
        }
    }
    r
}

/// Reads the frame of an archive: checks the magic bytes and the version,
/// then splits off the header's bytes and the payload. A frame cut short is
/// an invalid format.
pub fn parse_frame(buffer: &[u8]) -> (r: Result<(Vec<u8>, Vec<u8>), ArchiveError>)
    ensures
        match r {
            Ok((header, payload)) => spec_parse_frame(buffer@) == Ok::<_, ArchiveError>(
                (header@, payload@),
            ),
            Err(e) => spec_parse_frame(buffer@) == Err::<(Seq<u8>, Seq<u8>), _>(e),
        },
        r matches Ok((header, payload)) ==> buffer@ == spec_frame(header@, payload@),
        r matches Ok((header, payload)) ==> buffer@.len() == 9 + header@.len() + payload@.len(),
        r matches Ok((header, payload)) ==> header@ == buffer@.subrange(9, 9 + header@.len() as int),
        buffer@.len() < 9 ==> r is Err,
{
    if buffer.len() < 4 || !has_magic(buffer) || buffer.len() < 5 {
        return Err(ArchiveError::InvalidFormat);
    }
    if buffer[4] != VERSION {
        return Err(ArchiveError::UnsupportedVersion);
    }
    if buffer.len() < 9 {
        return Err(ArchiveError::InvalidFormat);
    }
    let header_len = u32_from_le_bytes(slice_subrange(buffer, 5, 9)) as usize;
    if header_len > buffer.len() - 9 {
        return Err(ArchiveError::InvalidFormat);
    }
    let end = 9 + header_len;
    let header = slice_to_vec(slice_subrange(buffer, 9, end));
    let payload = slice_to_vec(slice_subrange(buffer, end, buffer.len()));
    proof {
        vstd::bytes::lemma_auto_spec_u32_to_from_le_bytes();
        let len_field = buffer@.subrange(5, 9);
        assert(spec_u32_to_le_bytes(spec_u32_from_le_bytes(len_field)) == len_field);
        assert((header@.len() % 0x1_0000_0000) as u32 == spec_u32_from_le_bytes(len_field));
        assert(buffer@ =~= spec_frame(header@, payload@));
    }
    Ok((header, payload))
}

/// A frame written by `frame_archive` reads back as the header and payload
/// that went in, whenever the header's length fits the `u32` length field.
pub proof fn lemma_frame_roundtrip(header: Seq<u8>, payload: Seq<u8>)
    requires
        header.len() < 0x1_0000_0000,
    ensures
        spec_parse_frame(spec_frame(header, payload)) == Ok::<_, ArchiveError>((header, payload)),
{
    vstd::bytes::lemma_auto_spec_u32_to_from_le_bytes();
    let buf = spec_frame(header, payload);
    let len_field = spec_u32_to_le_bytes((header.len() % 0x1_0000_0000) as u32);
    assert(len_field.len() == 4);
    assert(buf.subrange(0, 4) =~= spec_magic());
    assert(buf[4] == VERSION);
    assert(buf.subrange(5, 9) =~= len_field);
    assert(announced_header_len(buf) == header.len());
    assert(buf.subrange(9, 9 + header.len() as int) =~= header);
    assert(buf.subrange(9 + header.len() as int, buf.len() as int) =~= payload);
}

} // verus!
