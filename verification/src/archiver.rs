//! Packing files into an archive and taking them out again: compression of
//! each file, the entry table, the integrity hash, optional encryption, and
//! the checks made when an archive is opened.
use vstd::prelude::*;
use vstd::slice::{slice_subrange, slice_to_vec};
use vstd::string::StringExecFns;
use vstd::utf8::encode_utf8;

use crate::backends::{
    aead_opened, aead_sealed, blake3_digest, blake3_hash, chacha20poly1305_decrypt,
    chacha20poly1305_encrypt, path_has_prefix, path_parent, path_parent_of, path_starts_with,
    path_strip_prefix, path_stripped, zstd_decode_all, zstd_decoded, zstd_encode_all, zstd_encode_succeeds,
    zstd_encoded,
};

verus! {

/// One file as the archive records it: where its compressed bytes lie in
/// the archive's data and how long it was before compression.
#[derive(Debug)]
pub struct FileEntry {
    pub relative_path: String,
    pub original_size: u64,
    pub compressed_offset: u64,
    pub compressed_size: u64,
}

/// The table that precedes the data of an archive.
#[derive(Debug)]
pub struct ArchiveHeader {
    pub entries: Vec<FileEntry>,
    pub is_encrypted: bool,
    pub data_hash: Vec<u8>,
}

/// A progress report: the file being worked on and how many are done.
#[derive(Debug)]
pub struct PackProgress {
    pub current_file: String,
    pub processed: usize,
    pub total: usize,
}

impl Clone for PackProgress {
    /// A copy of the report: the same file, count and total.
    fn clone(&self) -> (r: Self)
        ensures
            r.current_file@ == self.current_file@,
            r.processed == self.processed,
            r.total == self.total,
    {
        PackProgress {
            current_file: self.current_file.clone(),
            processed: self.processed,
            total: self.total,
        }
    }
}

/// Packs and unpacks `.rpak` archives.
pub struct Archiver;

/// A file's path and its bytes: what goes into an archive and what comes out.
#[derive(Debug)]
pub struct FileContents {
    pub path: String,
    pub data: Vec<u8>,
}

/// What packing produces: the header to be written out, and the data that
/// follows it in the archive.
#[derive(Debug)]
pub struct PackedArchive {
    pub header: ArchiveHeader,
    pub data: Vec<u8>,
}

/// An unpacking that stopped: why, and the entries extracted before it.
#[derive(Debug)]
pub struct UnpackFailure {
    pub extracted: Vec<FileContents>,
    pub error: ArchiveError,
}

/// Why packing or unpacking failed.
#[derive(Debug)]
pub enum ArchiveError {
    NoFilesToPack,
    InvalidFormat,
    UnsupportedVersion,
    MissingPassword,
    IntegrityCheckFailed,
    EncryptionFailed,
    DecryptionFailed,
    /// zstd reported an error while compressing; its message.
    CompressionFailed(String),
    /// zstd reported an error while decompressing an entry; its message.
    DecompressionFailed(String),
    /// An entry's bytes lie outside the archive's data.
    EntryOutOfRange,
}

impl ArchiveError {
    /// The text a user is shown for the error.
    pub open spec fn spec_message(&self) -> Seq<char> {
        match self {
            ArchiveError::NoFilesToPack => "No files to pack"@,
            ArchiveError::InvalidFormat => "Invalid archive format"@,
            ArchiveError::UnsupportedVersion => "Unsupported archive version"@,
            ArchiveError::MissingPassword => "Archive is encrypted but no password provided"@,
            ArchiveError::IntegrityCheckFailed => "Archive integrity check failed - file may be corrupted"@,
            ArchiveError::EncryptionFailed => "Encryption failed: aead::Error"@,
            ArchiveError::DecryptionFailed => "Decryption failed - wrong password?"@,
            ArchiveError::CompressionFailed(m) => m@,
            ArchiveError::DecompressionFailed(m) => m@,
            ArchiveError::EntryOutOfRange => "Archive entry lies outside the archive data"@,
        }
    }

    /// The text a user is shown for the error.
    pub fn message(&self) -> (r: String)
        ensures
            r@ == self.spec_message(),
    {
        match self {
            ArchiveError::NoFilesToPack => String::from_str("No files to pack"),
            ArchiveError::InvalidFormat => String::from_str("Invalid archive format"),
            ArchiveError::UnsupportedVersion => String::from_str("Unsupported archive version"),
            ArchiveError::MissingPassword => String::from_str(
                "Archive is encrypted but no password provided",
            ),
            ArchiveError::IntegrityCheckFailed => String::from_str(
                "Archive integrity check failed - file may be corrupted",
            ),
            ArchiveError::EncryptionFailed => String::from_str("Encryption failed: aead::Error"),
            ArchiveError::DecryptionFailed => String::from_str("Decryption failed - wrong password?"),
            ArchiveError::CompressionFailed(m) => m.clone(),
            ArchiveError::DecompressionFailed(m) => m.clone(),
            ArchiveError::EntryOutOfRange => String::from_str(
                "Archive entry lies outside the archive data",
            ),
        }
    }
}

/// The path `"."`.
pub open spec fn dot() -> Seq<char> {
    seq!['.']
}

/// The views of a sequence of strings.
pub open spec fn string_views(s: Seq<String>) -> Seq<Seq<char>> {
    Seq::new(s.len(), |i: int| s[i]@)
}

/// Where the search for a common base starts: the first path's parent, or
/// the path itself where it has none.
pub open spec fn initial_base(first: Seq<char>) -> Seq<char> {
    match path_parent_of(first) {
        Some(q) => q,
        None => first,
    }
}

/// Climbs from `common` through its parents until `path` lies under it;
/// `None` where the parents run out first.
pub open spec fn climb(path: Seq<char>, common: Seq<char>) -> Option<Seq<char>>
    decreases common.len(),
{
    if path_has_prefix(path, common) {
        Some(common)
    } else {
        match path_parent_of(common) {
            Some(q) => if q.len() < common.len() {
                climb(path, q)
            } else {
                None
            },
            None => None,
        }
    }
}

/// Every path lies under `base` (whole components).
pub open spec fn all_under(paths: Seq<Seq<char>>, base: Seq<char>) -> bool {
    forall|k: int| 0 <= k < paths.len() ==> path_has_prefix(#[trigger] paths[k], base)
}

/// The common base after the first `n` paths have been taken in.
pub open spec fn common_after(paths: Seq<Seq<char>>, n: nat) -> Option<Seq<char>>
    decreases n,
{
    if n <= 1 {
        Some(initial_base(paths[0]))
    } else {
        match common_after(paths, (n - 1) as nat) {
            Some(c) => climb(paths[n - 1], c),
            None => None,
        }
    }
}

/// The directory that the paths of an archive are made relative to: empty for
/// no paths, the parent (or `"."`) of a single path, and otherwise the first
/// path's parent climbed until every further path lies under it, or `"."`.
pub open spec fn spec_common_base(paths: Seq<Seq<char>>) -> Seq<char> {
    if paths.len() == 0 {
        Seq::empty()
    } else if paths.len() == 1 {
        match path_parent_of(paths[0]) {
            Some(q) => q,
            None => dot(),
        }
    } else {
        match common_after(paths, paths.len()) {
            Some(c) => c,
            None => dot(),
        }
    }
}

proof fn lemma_common_after_stays_none(paths: Seq<Seq<char>>, i: nat, n: nat)
    requires
        1 <= i <= n,
        common_after(paths, i) is None,
    ensures
        common_after(paths, n) is None,
    decreases n - i,
{
    if i < n {
        lemma_common_after_stays_none(paths, i + 1, n);
    }
}

impl Archiver {
    /// The directory that the files' paths are stored relative to. Every
    /// path lies under it, unless it is the fallback `"."`.
    pub fn find_common_base(paths: &[String]) -> (r: String)
        ensures
            r@ == spec_common_base(string_views(paths@)),
            paths@.len() > 0 ==> (r@ == dot() || forall|i: int|
                0 <= i < paths@.len() ==> path_has_prefix(#[trigger] paths@[i]@, r@)),
            paths@.len() > 0 ==> (path_parent_of(paths@[0]@) matches Some(q) ==> (all_under(
                string_views(paths@),
                q,
            ) ==> r@ == q)),
    {
        let ghost pv = string_views(paths@);
        if paths.len() == 0 {
            return String::new();
        }
        if paths.len() == 1 {
            return match path_parent(paths[0].as_str()) {
                Some(q) => q,
                None => {
                    proof {
                        reveal_strlit(".");
                    }
                    String::from_str(".")
                },
            };
        }
        let mut common = match path_parent(paths[0].as_str()) {
            Some(q) => q,
            None => paths[0].clone(),
        };
        let mut i: usize = 1;
        while i < paths.len()
            invariant
                1 <= i <= paths@.len(),
                paths@.len() >= 2,
                pv == string_views(paths@),
                common_after(pv, i as nat) == Some(common@),
                forall|j: int| 0 <= j < i ==> path_has_prefix(#[trigger] pv[j], common@),
                path_parent_of(pv[0]) matches Some(q) ==> (all_under(pv, q) ==> common@ == q),
            decreases paths@.len() - i,
        {
            let ghost start = common@;
            loop
                invariant
                    1 <= i < paths@.len(),
                    pv == string_views(paths@),
                    common_after(pv, i as nat) == Some(start),
                    climb(pv[i as int], start) == climb(pv[i as int], common@),
                    forall|j: int| 0 <= j < i ==> path_has_prefix(#[trigger] pv[j], common@),
                    path_parent_of(pv[0]) matches Some(q) ==> (all_under(pv, q) ==> common@ == q),
                ensures
                    climb(pv[i as int], start) == Some(common@),
                    forall|j: int| 0 <= j <= i ==> path_has_prefix(#[trigger] pv[j], common@),
                    path_parent_of(pv[0]) matches Some(q) ==> (all_under(pv, q) ==> common@ == q),
                decreases common@.len(),
            {
                let under = path_starts_with(paths[i].as_str(), common.as_str());
                proof {
                    match path_parent_of(pv[0]) {
                        Some(q) => {
                            if all_under(pv, q) {
                                assert(path_has_prefix(pv[i as int], q));
                            }
                        },
                        None => {},
                    }
                }
                if under {
                    break ;
                }
                match path_parent(common.as_str()) {
                    Some(q) => {
                        assert forall|j: int| 0 <= j < i implies path_has_prefix(
                            #[trigger] pv[j],
                            q@,
                        ) by {
                            assert(path_has_prefix(pv[j], common@));
                        }
                        common = q;
                    },
                    None => {
                        proof {
                            lemma_common_after_stays_none(pv, (i + 1) as nat, pv.len());
                            reveal_strlit(".");
                        }
                        return String::from_str(".");
                    },
                }
            }
            i = i + 1;
        }
        assert forall|j: int| 0 <= j < paths@.len() implies path_has_prefix(
            #[trigger] paths@[j]@,
            common@,
        ) by {
            assert(pv[j] == paths@[j]@);
        }
        common
    }
}


/// The nonce used for every archive: twelve zero bytes.
pub open spec fn zero_nonce() -> Seq<u8> {
    Seq::new(12, |_i: int| 0u8)
}

/// The key derived from a password: the BLAKE3 digest of its UTF-8 bytes.
pub open spec fn password_key(password: Seq<char>) -> Seq<u8> {
    blake3_digest(encode_utf8(password))
}

/// Data of this length fits the ChaCha20 keystream (`u32::MAX - 1` blocks of
/// 64 bytes after the block that keys the MAC).
pub open spec fn sealable(len: nat) -> bool {
    len <= 274_877_906_816
}

/// A ciphertext of this length holds a message that fits the keystream.
pub open spec fn openable(len: nat) -> bool {
    len <= 274_877_906_816 + 16
}

/// The view of an optional password.
pub open spec fn password_view(password: Option<&str>) -> Option<Seq<char>> {
    match password {
        Some(p) => Some(p@),
        None => None,
    }
}

/// The compressed form of each file, at zstd level 3.
pub open spec fn chunks_of(files: Seq<FileContents>) -> Seq<Seq<u8>> {
    Seq::new(files.len(), |i: int| zstd_encoded(files[i].data@, 3))
}

/// A progress report as a path, an index and a total.
pub open spec fn progress_views(s: Seq<PackProgress>) -> Seq<(Seq<char>, nat, nat)> {
    Seq::new(s.len(), |i: int| (s[i].current_file@, s[i].processed as nat, s[i].total as nat))
}

/// The reports for the first `k` files: each file's path, its index, and the
/// number of files.
pub open spec fn file_reports(files: Seq<FileContents>, k: nat) -> Seq<(Seq<char>, nat, nat)> {
    Seq::new(k, |i: int| (files[i].path@, i as nat, files.len()))
}

/// The index of the first file from `i` on that zstd does not compress, or
/// the number of files where there is none.
pub open spec fn first_uncompressible(files: Seq<FileContents>, i: nat) -> nat
    decreases files.len() - i,
{
    if i >= files.len() {
        files.len()
    } else if !zstd_encode_succeeds(files[i as int].data@, 3) {
        i
    } else {
        first_uncompressible(files, i + 1)
    }
}

/// How many files packing reports: all of them, or those up to and
/// including the first that does not compress.
pub open spec fn pack_report_count(files: Seq<FileContents>) -> nat {
    let k = first_uncompressible(files, 0);
    if k < files.len() {
        k + 1
    } else {
        files.len()
    }
}

proof fn lemma_first_uncompressible(files: Seq<FileContents>, i: nat)
    requires
        i <= files.len(),
        forall|j: int| 0 <= j < i ==> zstd_encode_succeeds(#[trigger] files[j].data@, 3),
    ensures
        first_uncompressible(files, 0) == first_uncompressible(files, i),
    decreases i,
{
    if i > 0 {
        lemma_first_uncompressible(files, (i - 1) as nat);
    }
}

/// zstd compresses every file's bytes at level 3 without an error.
pub open spec fn all_compressible(files: Seq<FileContents>) -> bool {
    forall|i: int| 0 <= i < files.len() ==> zstd_encode_succeeds(#[trigger] files[i].data@, 3)
}

/// The chunks one after the other.
pub open spec fn concat(chunks: Seq<Seq<u8>>) -> Seq<u8>
    decreases chunks.len(),
{
    if chunks.len() == 0 {
        Seq::empty()
    } else {
        concat(chunks.drop_last()) + chunks.last()
    }
}

/// The paths of the files.
pub open spec fn file_paths(files: Seq<FileContents>) -> Seq<Seq<char>> {
    Seq::new(files.len(), |i: int| files[i].path@)
}

/// A path as stored in an archive: with `base` stripped where it lies under
/// `base`, and unchanged otherwise.
pub open spec fn relative_to(path: Seq<char>, base: Seq<char>) -> Seq<char> {
    if path_has_prefix(path, base) {
        path_stripped(path, base)
    } else {
        path
    }
}

/// The data that follows the header: the chunks, sealed with the key of the
/// password where there is one.
pub open spec fn sealed_payload(plain: Seq<u8>, password: Option<Seq<char>>) -> Seq<u8> {
    match password {
        Some(p) => aead_sealed(password_key(p), zero_nonce(), plain),
        None => plain,
    }
}

/// Entry `i` records file `i`: its relative path, its size, and where its
/// chunk lies among the chunks.
pub open spec fn entry_describes(
    e: FileEntry,
    file: FileContents,
    chunks: Seq<Seq<u8>>,
    i: int,
    base: Seq<char>,
) -> bool {
    &&& e.relative_path@ == relative_to(file.path@, base)
    &&& e.original_size == file.data@.len()
    &&& e.compressed_offset == concat(chunks.take(i)).len()
    &&& e.compressed_size == chunks[i].len()
}

/// `archive` is what packing `files` under `password` gives.
pub open spec fn packs_to(
    files: Seq<FileContents>,
    password: Option<Seq<char>>,
    archive: PackedArchive,
) -> bool {
    let chunks = chunks_of(files);
    let plain = concat(chunks);
    let base = spec_common_base(file_paths(files));
    &&& archive.header.entries@.len() == files.len()
    &&& forall|i: int|
        0 <= i < files.len() ==> entry_describes(
            #[trigger] archive.header.entries@[i],
            files[i],
            chunks,
            i,
            base,
        )
    &&& archive.header.is_encrypted == password is Some
    &&& archive.header.data_hash@ == blake3_digest(plain)
    &&& archive.data@ == sealed_payload(plain, password)
}

/// What the outside code showed while packing: each chunk decompresses to its
/// file, and the sealed data opens again under the password's key.
pub open spec fn pack_reversible(
    files: Seq<FileContents>,
    password: Option<Seq<char>>,
    archive: PackedArchive,
) -> bool {
    &&& forall|i: int|
        0 <= i < files.len() ==> zstd_decoded(#[trigger] chunks_of(files)[i]) == Some(
            files[i].data@,
        )
    &&& password matches Some(p) ==> aead_opened(password_key(p), zero_nonce(), archive.data@)
        == Some(concat(chunks_of(files)))
    &&& password is Some ==> sealable(concat(chunks_of(files)).len())
    &&& password is Some ==> archive.data@.len() == concat(chunks_of(files)).len() + 16
}

/// The archive's data after decryption, where the header says it is encrypted.
pub open spec fn opened_data(
    header: ArchiveHeader,
    payload: Seq<u8>,
    password: Option<Seq<char>>,
) -> Result<Seq<u8>, ArchiveError> {
    if header.is_encrypted {
        match password {
            None => Err(ArchiveError::MissingPassword),
            Some(p) => if !openable(payload.len()) {
                Err(ArchiveError::DecryptionFailed)
            } else {
                match aead_opened(password_key(p), zero_nonce(), payload) {
                    Some(d) => Ok(d),
                    None => Err(ArchiveError::DecryptionFailed),
                }
            },
        }
    } else {
        Ok(payload)
    }
}

/// The opened data, where its digest is the one the header records.
pub open spec fn checked_data(
    header: ArchiveHeader,
    payload: Seq<u8>,
    password: Option<Seq<char>>,
) -> Result<Seq<u8>, ArchiveError> {
    match opened_data(header, payload, password) {
        Ok(d) => if blake3_digest(d) == header.data_hash@ {
            Ok(d)
        } else {
            Err(ArchiveError::IntegrityCheckFailed)
        },
        Err(e) => Err(e),
    }
}

/// The entry's chunk lies inside data of length `len`.
pub open spec fn entry_in_range(e: FileEntry, len: nat) -> bool {
    e.compressed_offset + e.compressed_size <= len
}

/// Every entry's chunk lies inside data of length `len`.
pub open spec fn entries_in_range(entries: Seq<FileEntry>, len: nat) -> bool {
    forall|i: int| 0 <= i < entries.len() ==> entry_in_range(#[trigger] entries[i], len)
}

/// The bytes of the entry's chunk.
pub open spec fn entry_chunk(e: FileEntry, data: Seq<u8>) -> Seq<u8> {
    data.subrange(e.compressed_offset as int, e.compressed_offset + e.compressed_size)
}

/// The first `n` entries, each decompressed and paired with its path;
/// `None` where one of them does not decompress.
pub open spec fn extracted(entries: Seq<FileEntry>, data: Seq<u8>, n: nat) -> Option<
    Seq<(Seq<char>, Seq<u8>)>,
>
    decreases n,
{
    if n == 0 {
        Some(Seq::empty())
    } else {
        match extracted(entries, data, (n - 1) as nat) {
            Some(prev) => match zstd_decoded(entry_chunk(entries[n - 1], data)) {
                Some(d) => Some(prev.push((entries[n - 1].relative_path@, d))),
                None => None,
            },
            None => None,
        }
    }
}

/// The paths and bytes of files.
pub open spec fn contents_views(out: Seq<FileContents>) -> Seq<(Seq<char>, Seq<u8>)> {
    Seq::new(out.len(), |i: int| (out[i].path@, out[i].data@))
}

/// The index of the first entry from `i` on whose chunk does not lie inside
/// data of length `len`, or the number of entries where there is none.
pub open spec fn first_unfit(entries: Seq<FileEntry>, len: nat, i: nat) -> nat
    decreases entries.len() - i,
{
    if i >= entries.len() {
        entries.len()
    } else if !entry_in_range(entries[i as int], len) {
        i
    } else {
        first_unfit(entries, len, i + 1)
    }
}

/// How many of the first `n` entries decompress before the first that does
/// not.
pub open spec fn decoded_count(entries: Seq<FileEntry>, data: Seq<u8>, n: nat) -> nat
    decreases n,
{
    if n == 0 {
        0
    } else if extracted(entries, data, n) is Some {
        n
    } else {
        decoded_count(entries, data, (n - 1) as nat)
    }
}

/// What extracting the first `count` entries returns: all of them, or the
/// decompression error together with the entries decompressed before it.
pub open spec fn extraction_outcome(
    entries: Seq<FileEntry>,
    data: Seq<u8>,
    count: nat,
    r: Result<Vec<FileContents>, UnpackFailure>,
) -> bool {
    match extracted(entries, data, count) {
        Some(files) => r matches Ok(out) && contents_views(out@) == files,
        None => r matches Err(f) && f.error is DecompressionFailed && extracted(
            entries,
            data,
            decoded_count(entries, data, count),
        ) == Some(contents_views(f.extracted@)),
    }
}

/// The reports for the first `k` entries: each entry's path, its index, and
/// the number of entries.
pub open spec fn entry_reports(entries: Seq<FileEntry>, k: nat) -> Seq<(Seq<char>, nat, nat)> {
    Seq::new(k, |i: int| (entries[i].relative_path@, i as nat, entries.len()))
}

/// How many entries extracting the first `count` reports: all of them, or
/// those up to and including the first that does not decompress.
pub open spec fn extract_report_count(entries: Seq<FileEntry>, data: Seq<u8>, count: nat) -> nat {
    if extracted(entries, data, count) is Some {
        count
    } else {
        decoded_count(entries, data, count) + 1
    }
}

/// Unpacking reaches an entry that lies outside the opened data: the data
/// opens and passes its check, and every entry before the first such entry
/// decompresses.
pub open spec fn reaches_unfit_entry(
    header: ArchiveHeader,
    payload: Seq<u8>,
    password: Option<Seq<char>>,
) -> bool {
    checked_data(header, payload, password) matches Ok(d) && first_unfit(
        header.entries@,
        d.len(),
        0,
    ) < header.entries@.len() && extracted(
        header.entries@,
        d,
        first_unfit(header.entries@, d.len(), 0),
    ) is Some
}

/// How many entries unpacking reports: none where the data does not open or
/// pass its check; up to and including an entry outside the data that is
/// reached; otherwise as extraction reports the entries before the first one
/// outside the data.
pub open spec fn unpack_report_count(
    header: ArchiveHeader,
    payload: Seq<u8>,
    password: Option<Seq<char>>,
) -> nat {
    match checked_data(header, payload, password) {
        Err(_) => 0,
        Ok(d) => {
            let k = first_unfit(header.entries@, d.len(), 0);
            if reaches_unfit_entry(header, payload, password) {
                k + 1
            } else {
                extract_report_count(header.entries@, d, k)
            }
        },
    }
}

/// What unpacking returns: the error of opening or checking the data; or,
/// where an entry outside the data is reached, `EntryOutOfRange` with the
/// entries before it; or the outcome of extracting every entry before the
/// first one outside the data (all of them where there is none).
pub open spec fn unpack_outcome(
    header: ArchiveHeader,
    payload: Seq<u8>,
    password: Option<Seq<char>>,
    r: Result<Vec<FileContents>, UnpackFailure>,
) -> bool {
    match checked_data(header, payload, password) {
        Err(e) => r matches Err(f) && f.error == e && f.extracted@.len() == 0,
        Ok(d) => {
            let k = first_unfit(header.entries@, d.len(), 0);
            if reaches_unfit_entry(header, payload, password) {
                r matches Err(f) && f.error is EntryOutOfRange && extracted(header.entries@, d, k)
                    == Some(contents_views(f.extracted@))
            } else {
                extraction_outcome(header.entries@, d, k, r)
            }
        },
    }
}

proof fn lemma_extracted_stays_none(entries: Seq<FileEntry>, data: Seq<u8>, i: nat, n: nat)
    requires
        i <= n,
        extracted(entries, data, i) is None,
    ensures
        extracted(entries, data, n) is None,
    decreases n - i,
{
    if i < n {
        lemma_extracted_stays_none(entries, data, i + 1, n);
    }
}

proof fn lemma_extracted_shape(entries: Seq<FileEntry>, data: Seq<u8>, n: nat)
    requires
        n <= entries.len(),
        extracted(entries, data, n) is Some,
    ensures
        extracted(entries, data, n).unwrap().len() == n,
        forall|i: int|
            0 <= i < n ==> (#[trigger] extracted(entries, data, n).unwrap()[i]).0
                == entries[i].relative_path@,
    decreases n,
{
    if n > 0 {
        lemma_extracted_shape(entries, data, (n - 1) as nat);
    }
}

proof fn lemma_decoded_count(entries: Seq<FileEntry>, data: Seq<u8>, i: nat, n: nat)
    requires
        i < n,
        extracted(entries, data, i) is Some,
        extracted(entries, data, i + 1) is None,
    ensures
        decoded_count(entries, data, n) == i,
    decreases n - i,
{
    if n > i + 1 {
        lemma_decoded_count(entries, data, i, (n - 1) as nat);
        lemma_extracted_stays_none(entries, data, i + 1, n);
        assert(decoded_count(entries, data, n) == decoded_count(entries, data, (n - 1) as nat));
    } else {
        assert(decoded_count(entries, data, n) == decoded_count(entries, data, i));
        if i > 0 {
            assert(decoded_count(entries, data, i) == i);
        }
    }
}

proof fn lemma_first_unfit(entries: Seq<FileEntry>, len: nat, i: nat)
    requires
        i <= entries.len(),
        forall|j: int| 0 <= j < i ==> entry_in_range(#[trigger] entries[j], len),
    ensures
        first_unfit(entries, len, 0) == first_unfit(entries, len, i),
    decreases i,
{
    if i > 0 {
        lemma_first_unfit(entries, len, (i - 1) as nat);
    }
}

proof fn lemma_first_unfit_below(entries: Seq<FileEntry>, len: nat, start: nat, i: nat)
    requires
        start <= i,
        i < first_unfit(entries, len, start),
    ensures
        entry_in_range(entries[i as int], len),
    decreases i - start,
{
    if start < i {
        lemma_first_unfit_below(entries, len, start + 1, i);
    }
}

proof fn lemma_first_unfit_bound(entries: Seq<FileEntry>, len: nat, i: nat)
    requires
        i <= entries.len(),
    ensures
        i <= first_unfit(entries, len, i) <= entries.len(),
    decreases entries.len() - i,
{
    if i < entries.len() {
        lemma_first_unfit_bound(entries, len, i + 1);
    }
}

fn bytes_equal(a: &[u8], b: &[u8]) -> (r: bool)
    ensures
        r == (a@ == b@),
{
    if a.len() != b.len() {
        return false;
    }
    let mut i: usize = 0;
    while i < a.len()
        invariant
            i <= a@.len(),
            a@.len() == b@.len(),
            forall|j: int| 0 <= j < i ==> a@[j] == b@[j],
        decreases a@.len() - i,
    {
        if a[i] != b[i] {
            return false;
        }
        i = i + 1;
    }
    assert(a@ =~= b@);
    true
}

impl Archiver {
    /// The key for a password: the BLAKE3 digest of all of its UTF-8 bytes.
    fn derive_key(password: &str) -> (key: [u8; 32])
        ensures
            key@ == password_key(password@),
            key@ == blake3_digest(encode_utf8(password@)),
    {
        blake3_hash(password.as_bytes())
    }

    fn zero_nonce() -> (nonce: [u8; 12])
        ensures
            nonce@ == zero_nonce(),
    {
        let nonce: [u8; 12] = [0u8; 12];
        assert(nonce@ =~= zero_nonce());
        nonce
    }

    /// Encrypts `data` under the password's key and the zero nonce; data
    /// too long for the keystream is refused.
    fn encrypt_data(data: &[u8], password: &str) -> (r: Result<Vec<u8>, ArchiveError>)
        ensures
            r is Ok <==> sealable(data@.len()),
            r matches Ok(c) ==> c@ == aead_sealed(password_key(password@), zero_nonce(), data@),
            r matches Ok(c) ==> c@ == aead_sealed(
                blake3_digest(encode_utf8(password@)),
                Seq::new(12, |_i: int| 0u8),
                data@,
            ),
            r matches Ok(c) ==> c@.len() == data@.len() + 16,
            r matches Ok(c) ==> aead_opened(password_key(password@), zero_nonce(), c@) == Some(
                data@,
            ),
            r matches Err(e) ==> e == ArchiveError::EncryptionFailed,
    {
        if data.len() as u64 > 274_877_906_816u64 {
            return Err(ArchiveError::EncryptionFailed);
        }
        let key = Self::derive_key(password);
        let nonce = Self::zero_nonce();
        match chacha20poly1305_encrypt(&key, &nonce, data) {
            Ok(c) => Ok(c),
            Err(_) => Err(ArchiveError::EncryptionFailed),
        }
    }

    /// Decrypts `data` under the password's key and the zero nonce; data
    /// too long for the keystream is refused.
    fn decrypt_data(data: &[u8], password: &str) -> (r: Result<Vec<u8>, ArchiveError>)
        ensures
            r is Ok <==> openable(data@.len()) && aead_opened(
                password_key(password@),
                zero_nonce(),
                data@,
            ) is Some,
            r matches Ok(p) ==> aead_opened(password_key(password@), zero_nonce(), data@) == Some(
                p@,
            ),
            r matches Ok(p) ==> aead_opened(
                blake3_digest(encode_utf8(password@)),
                Seq::new(12, |_i: int| 0u8),
                data@,
            ) == Some(p@),
            r matches Ok(p) ==> p@.len() + 16 == data@.len(),
            r matches Err(e) ==> e == ArchiveError::DecryptionFailed,
    {
        if data.len() as u64 > 274_877_906_832u64 {
            return Err(ArchiveError::DecryptionFailed);
        }
        let key = Self::derive_key(password);
        let nonce = Self::zero_nonce();
        match chacha20poly1305_decrypt(&key, &nonce, data) {
            Ok(p) => Ok(p),
            Err(_) => Err(ArchiveError::DecryptionFailed),
        }
    }
}


impl Archiver {
    /// Records a compressed chunk: appends it to `data` and an entry for it
    /// to `entries`, at the offset where `data` ended.
    pub fn append_chunk(
        entries: &mut Vec<FileEntry>,
        data: &mut Vec<u8>,
        relative_path: String,
        original_size: u64,
        chunk: &[u8],
    )
        ensures
            final(data)@ == old(data)@ + chunk@,
            final(entries)@.len() == old(entries)@.len() + 1,
            final(entries)@.drop_last() == old(entries)@,
            final(entries)@.last().relative_path == relative_path,
            final(entries)@.last().original_size == original_size,
            final(entries)@.last().compressed_offset == old(data)@.len(),
            final(entries)@.last().compressed_size == chunk@.len(),
    {
        let compressed_size = chunk.len() as u64;
        let compressed_offset = data.len() as u64;
        data.extend_from_slice(chunk);
        assert(data@ =~= old(data)@ + chunk@);
        entries.push(FileEntry { relative_path, original_size, compressed_offset, compressed_size });
        assert(entries@.drop_last() =~= old(entries)@);
    }

    /// Packs `files` into an archive: each file is compressed with zstd at
    /// level 3, its chunk appended to the data and recorded in an entry under
    /// its path relative to the files' common base; the data is hashed with
    /// BLAKE3 and, where a password is given, encrypted. Reports progress
    /// before each file by appending it to `progress`; completion is the
    /// caller's to report, once the archive has been written.
    pub fn pack(
        files: &[FileContents],
        password: Option<&str>,
        progress: &mut Vec<PackProgress>,
    ) -> (r: Result<PackedArchive, ArchiveError>)
        ensures
            progress_views(final(progress)@) == progress_views(old(progress)@) + file_reports(
                files@,
                pack_report_count(files@),
            ),
            r matches Err(ArchiveError::NoFilesToPack) <==> files@.len() == 0,
            r matches Err(ArchiveError::CompressionFailed(_)) <==> files@.len() > 0
                && !all_compressible(files@),
            files@.len() > 0 && all_compressible(files@) && (password is None || sealable(
                concat(chunks_of(files@)).len(),
            )) ==> r is Ok,
            files@.len() > 0 && all_compressible(files@) && password is Some && !sealable(
                concat(chunks_of(files@)).len(),
            ) ==> r matches Err(ArchiveError::EncryptionFailed),
            r matches Err(e) ==> (e is NoFilesToPack || e is CompressionFailed
                || e is EncryptionFailed),
            r matches Ok(a) ==> packs_to(files@, password_view(password), a),
            r matches Ok(a) ==> a.header.entries@.len() == files@.len(),
            r matches Ok(a) ==> a.header.is_encrypted == password.is_some(),
            r matches Ok(a) ==> a.header.data_hash@ == blake3_digest(concat(chunks_of(files@))),
            r matches Ok(a) ==> (password is None ==> a.data@ == concat(chunks_of(files@))),
            r matches Ok(a) ==> forall|i: int|
                0 <= i < files@.len() ==> #[trigger] a.header.entries@[i].original_size
                    == files@[i].data@.len(),
            r matches Ok(a) ==> (password matches Some(p) ==> a.data@ == aead_sealed(
                blake3_digest(encode_utf8(p@)),
                Seq::new(12, |_i: int| 0u8),
                concat(chunks_of(files@)),
            )),
            r matches Ok(a) ==> pack_reversible(files@, password_view(password), a),
            r matches Ok(a) ==> a.data@.len() == concat(chunks_of(files@)).len() + if password
                is Some {
                16int
            } else {
                0int
            },
    {
        let n = files.len();
        if n == 0 {
            assert(file_reports(files@, 0) =~= Seq::<(Seq<char>, nat, nat)>::empty());
            assert(progress_views(progress@) + file_reports(files@, 0) =~= progress_views(
                progress@,
            ));
            return Err(ArchiveError::NoFilesToPack);
        }
        let mut paths: Vec<String> = Vec::new();
        let mut k: usize = 0;
        while k < n
            invariant
                k <= n,
                n == files@.len(),
                paths@.len() == k,
                forall|j: int| 0 <= j < k ==> #[trigger] paths@[j]@ == files@[j].path@,
            decreases n - k,
        {
            paths.push(files[k].path.clone());
            k = k + 1;
        }
        let base = Self::find_common_base(paths.as_slice());
        assert(string_views(paths@) =~= file_paths(files@));
        let ghost chunks = chunks_of(files@);
        let mut compressed_data: Vec<u8> = Vec::new();
        let mut entries: Vec<FileEntry> = Vec::new();
        let mut idx: usize = 0;
        assert(chunks.take(0) =~= Seq::<Seq<u8>>::empty());
        while idx < n
            invariant
                idx <= n,
                n == files@.len(),
                chunks == chunks_of(files@),
                base@ == spec_common_base(file_paths(files@)),
                progress_views(progress@) == progress_views(old(progress)@) + file_reports(
                    files@,
                    idx as nat,
                ),
                compressed_data@ == concat(chunks.take(idx as int)),
                entries@.len() == idx,
                forall|j: int|
                    0 <= j < idx ==> entry_describes(
                        #[trigger] entries@[j],
                        files@[j],
                        chunks,
                        j,
                        base@,
                    ),
                forall|j: int|
                    0 <= j < idx ==> zstd_decoded(#[trigger] chunks[j]) == Some(files@[j].data@),
                forall|j: int|
                    0 <= j < idx ==> zstd_encode_succeeds(#[trigger] files@[j].data@, 3),
            decreases n - idx,
        {
            let ghost reports_before = progress@;
            progress.push(
                PackProgress { current_file: files[idx].path.clone(), processed: idx, total: n },
            );
            assert(progress_views(progress@) =~= progress_views(old(progress)@) + file_reports(
                files@,
                (idx + 1) as nat,
            )) by {
                assert(progress_views(progress@) =~= progress_views(reports_before).push(
                    (files@[idx as int].path@, idx as nat, n as nat),
                ));
                assert(file_reports(files@, (idx + 1) as nat) =~= file_reports(files@, idx as nat).push(
                    (files@[idx as int].path@, idx as nat, n as nat),
                ));
            }
            let relative_path = match path_strip_prefix(files[idx].path.as_str(), base.as_str()) {
                Some(s) => s,
                None => files[idx].path.clone(),
            };
            let original_size = files[idx].data.len() as u64;
            let compressed = match zstd_encode_all(files[idx].data.as_slice(), 3) {
                Ok(c) => c,
                Err(e) => {
                    proof {
                        lemma_first_uncompressible(files@, idx as nat);
                    }
                    return Err(ArchiveError::CompressionFailed(e.to_string()));
                },
            };
            let ghost entries_before = entries@;
            Self::append_chunk(
                &mut entries,
                &mut compressed_data,
                relative_path,
                original_size,
                compressed.as_slice(),
            );
            assert(chunks.take(idx + 1).drop_last() =~= chunks.take(idx as int));
            assert forall|j: int| 0 <= j < idx implies entry_describes(
                #[trigger] entries@[j],
                files@[j],
                chunks,
                j,
                base@,
            ) by {
                assert(entries@.drop_last()[j] == entries@[j]);
                assert(entry_describes(entries_before[j], files@[j], chunks, j, base@));
            }
            idx = idx + 1;
        }
        assert(chunks.take(n as int) =~= chunks);
        proof {
            lemma_first_uncompressible(files@, n as nat);
        }
        let hash = blake3_hash(compressed_data.as_slice());
        let data_hash = slice_to_vec(hash.as_slice());
        let is_encrypted = password.is_some();
        let final_data = match password {
            Some(pwd) => match Self::encrypt_data(compressed_data.as_slice(), pwd) {
                Ok(c) => c,
                Err(e) => {
                    return Err(e);
                },
            },
            None => compressed_data,
        };
        let header = ArchiveHeader { entries, is_encrypted, data_hash };
        Ok(PackedArchive { header, data: final_data })
    }

    /// Opens the data that follows an archive's header: decrypts it where the
    /// header says it is encrypted, then checks its BLAKE3 digest against the
    /// one the header records.
    pub fn open_payload(header: &ArchiveHeader, payload: &[u8], password: Option<&str>) -> (r:
        Result<Vec<u8>, ArchiveError>)
        ensures
            match r {
                Ok(d) => checked_data(*header, payload@, password_view(password)) == Ok::<
                    _,
                    ArchiveError,
                >(d@),
                Err(e) => checked_data(*header, payload@, password_view(password)) == Err::<
                    Seq<u8>,
                    _,
                >(e),
            },
            r matches Ok(d) ==> blake3_digest(d@) == header.data_hash@,
            r matches Ok(d) ==> (!header.is_encrypted ==> d@ == payload@),
            header.is_encrypted && password is None ==> r matches Err(
                ArchiveError::MissingPassword,
            ),
            !header.is_encrypted && blake3_digest(payload@) != header.data_hash@ ==> r matches Err(
                ArchiveError::IntegrityCheckFailed,
            ),
    {
        let data = if header.is_encrypted {
            match password {
                None => {
                    return Err(ArchiveError::MissingPassword);
                },
                Some(pwd) => match Self::decrypt_data(payload, pwd) {
                    Ok(d) => d,
                    Err(e) => {
                        return Err(e);
                    },
                },
            }
        } else {
            slice_to_vec(payload)
        };
        let hash = blake3_hash(data.as_slice());
        if !bytes_equal(hash.as_slice(), header.data_hash.as_slice()) {
            return Err(ArchiveError::IntegrityCheckFailed);
        }
        Ok(data)
    }

    /// Decompresses the chunks of the first `count` entries of the opened
    /// `data`, in order, reporting progress before each entry by appending it
    /// to `progress`; stops at the first that does not decompress.
    pub fn extract_entries(
        header: &ArchiveHeader,
        data: &[u8],
        count: usize,
        progress: &mut Vec<PackProgress>,
    ) -> (r: Result<Vec<FileContents>, UnpackFailure>)
        requires
            count <= header.entries@.len(),
            forall|i: int| 0 <= i < count ==> entry_in_range(#[trigger] header.entries@[i], data@.len()),
        ensures
            extraction_outcome(header.entries@, data@, count as nat, r),
            progress_views(final(progress)@) == progress_views(old(progress)@) + entry_reports(
                header.entries@,
                extract_report_count(header.entries@, data@, count as nat),
            ),
    {
        let total = header.entries.len();
        let mut out: Vec<FileContents> = Vec::new();
        let mut idx: usize = 0;
        assert(contents_views(out@) =~= Seq::<(Seq<char>, Seq<u8>)>::empty());
        while idx < count
            invariant
                idx <= count,
                count <= total,
                total == header.entries@.len(),
                forall|i: int| 0 <= i < count ==> entry_in_range(#[trigger] header.entries@[i], data@.len()),
                progress_views(progress@) == progress_views(old(progress)@) + entry_reports(
                    header.entries@,
                    idx as nat,
                ),
                extracted(header.entries@, data@, idx as nat) == Some(contents_views(out@)),
            decreases count - idx,
        {
            let entry = &header.entries[idx];
            Self::report_entry(header, idx, progress);
            assert(entry_in_range(header.entries@[idx as int], data@.len()));
            let data_len = data.len();
            assert(entry.compressed_offset <= data_len && entry.compressed_size <= data_len);
            let start = entry.compressed_offset as usize;
            let end = start + entry.compressed_size as usize;
            let chunk = slice_subrange(data, start, end);
            assert(chunk@ == entry_chunk(header.entries@[idx as int], data@));
            match zstd_decode_all(chunk) {
                Ok(d) => {
                    let ghost prev = out@;
                    out.push(FileContents { path: entry.relative_path.clone(), data: d });
                    assert(contents_views(out@) =~= contents_views(prev).push(
                        (entry.relative_path@, d@),
                    ));
                },
                Err(e) => {
                    proof {
                        lemma_extracted_stays_none(
                            header.entries@,
                            data@,
                            (idx + 1) as nat,
                            count as nat,
                        );
                        lemma_decoded_count(header.entries@, data@, idx as nat, count as nat);
                    }
                    return Err(
                        UnpackFailure {
                            extracted: out,
                            error: ArchiveError::DecompressionFailed(e.to_string()),
                        },
                    );
                },
            }
            idx = idx + 1;
        }
        Ok(out)
    }

    /// Appends the progress report for entry `index`.
    fn report_entry(header: &ArchiveHeader, index: usize, progress: &mut Vec<PackProgress>)
        requires
            index < header.entries@.len(),
        ensures
            progress_views(final(progress)@) == progress_views(old(progress)@).push(
                (header.entries@[index as int].relative_path@, index as nat, header.entries@.len()),
            ),
    {
        progress.push(
            PackProgress {
                current_file: header.entries[index].relative_path.clone(),
                processed: index,
                total: header.entries.len(),
            },
        );
        assert(progress_views(progress@) =~= progress_views(old(progress)@).push(
            (header.entries@[index as int].relative_path@, index as nat, header.entries@.len()),
        ));
    }

    /// The index of the first entry whose chunk does not lie inside data of
    /// length `len`, or the number of entries where there is none.
    pub fn first_unfit_entry(header: &ArchiveHeader, len: usize) -> (r: usize)
        ensures
            r == first_unfit(header.entries@, len as nat, 0),
            r <= header.entries@.len(),
    {
        let mut i: usize = 0;
        while i < header.entries.len()
            invariant
                i <= header.entries@.len(),
                forall|j: int| 0 <= j < i ==> entry_in_range(#[trigger] header.entries@[j], len as nat),
            decreases header.entries@.len() - i,
        {
            let e = &header.entries[i];
            let limit = len as u64;
            if e.compressed_offset > limit || e.compressed_size > limit - e.compressed_offset {
                proof {
                    lemma_first_unfit(header.entries@, len as nat, i as nat);
                }
                return i;
            }
            i = i + 1;
        }
        proof {
            lemma_first_unfit(header.entries@, len as nat, i as nat);
        }
        i
    }

    /// Unpacks an archive whose header and following data have been read:
    /// opens and checks the data (`open_payload`), then decompresses the
    /// entries in order, reporting progress before each. Where it reaches an
    /// entry that lies outside the data, it stops with `EntryOutOfRange`.
    /// Every failure carries the entries extracted before it. Completion is
    /// the caller's to report, once the files have been written.
    pub fn unpack(
        header: &ArchiveHeader,
        payload: &[u8],
        password: Option<&str>,
        progress: &mut Vec<PackProgress>,
    ) -> (r: Result<Vec<FileContents>, UnpackFailure>)
        ensures
            unpack_outcome(*header, payload@, password_view(password), r),
            r is Ok ==> (header.is_encrypted ==> password is Some),
            r is Ok ==> (!header.is_encrypted ==> blake3_digest(payload@) == header.data_hash@),
            r matches Ok(out) ==> out@.len() == header.entries@.len(),
            r matches Ok(out) ==> forall|i: int|
                0 <= i < out@.len() ==> #[trigger] out@[i].path@
                    == header.entries@[i].relative_path@,
            progress_views(final(progress)@) == progress_views(old(progress)@) + entry_reports(
                header.entries@,
                unpack_report_count(*header, payload@, password_view(password)),
            ),
    {
        let data = match Self::open_payload(header, payload, password) {
            Ok(d) => d,
            Err(e) => {
                assert(progress_views(progress@) + entry_reports(header.entries@, 0)
                    =~= progress_views(progress@));
                return Err(UnpackFailure { extracted: Vec::new(), error: e });
            },
        };
        let total = header.entries.len();
        let first_unfit = Self::first_unfit_entry(header, data.len());
        let ghost reports_before = progress@;
        proof {
            assert forall|i: int| 0 <= i < first_unfit implies entry_in_range(
                #[trigger] header.entries@[i],
                data@.len(),
            ) by {
                lemma_first_unfit_below(header.entries@, data@.len(), 0, i as nat);
            }
        }
        let extracted = Self::extract_entries(header, data.as_slice(), first_unfit, progress);
        match extracted {
            Ok(files) => {
                proof {
                    lemma_extracted_shape(header.entries@, data@, first_unfit as nat);
                    assert forall|i: int| 0 <= i < files@.len() implies #[trigger] files@[i].path@
                        == header.entries@[i].relative_path@ by {
                        assert(contents_views(files@)[i].0 == files@[i].path@);
                    }
                }
                if first_unfit < total {
                    Self::report_entry(header, first_unfit, progress);
                    return Err(UnpackFailure { extracted: files, error: ArchiveError::EntryOutOfRange });
                }
                Ok(files)
            },
            Err(f) => Err(f),
        }
    }
}

/// What unpacking an archive of `files` gives back: each file's data under
/// its path relative to the files' common base.
pub open spec fn unpacked_files(files: Seq<FileContents>) -> Seq<(Seq<char>, Seq<u8>)> {
    Seq::new(
        files.len(),
        |i: int| (relative_to(files[i].path@, spec_common_base(file_paths(files))), files[i].data@),
    )
}

proof fn lemma_concat_append(a: Seq<Seq<u8>>, b: Seq<Seq<u8>>)
    ensures
        concat(a + b) == concat(a) + concat(b),
    decreases b.len(),
{
    if b.len() == 0 {
        assert(a + b =~= a);
        assert(concat(a) + concat(b) =~= concat(a));
    } else {
        lemma_concat_append(a, b.drop_last());
        assert((a + b).drop_last() =~= a + b.drop_last());
        assert((a + b).last() == b.last());
        assert(concat(a + b) =~= concat(a) + concat(b));
    }
}

proof fn lemma_chunk_in_concat(s: Seq<Seq<u8>>, i: int)
    requires
        0 <= i < s.len(),
    ensures
        concat(s.take(i)).len() + s[i].len() <= concat(s).len(),
        concat(s).subrange(
            concat(s.take(i)).len() as int,
            (concat(s.take(i)).len() + s[i].len()) as int,
        ) == s[i],
{
    let front = s.take(i + 1);
    let back = s.skip(i + 1);
    assert(s =~= front + back);
    lemma_concat_append(front, back);
    assert(front.drop_last() =~= s.take(i));
    assert(front.last() == s[i]);
    let off = concat(s.take(i)).len() as int;
    assert(concat(s).subrange(off, off + s[i].len()) =~= s[i]);
}

proof fn lemma_extracted_prefix(files: Seq<FileContents>, plain: Seq<u8>, entries: Seq<FileEntry>, k: nat)
    requires
        k <= files.len(),
        plain == concat(chunks_of(files)),
        entries.len() == files.len(),
        forall|i: int|
            0 <= i < files.len() ==> entry_describes(
                #[trigger] entries[i],
                files[i],
                chunks_of(files),
                i,
                spec_common_base(file_paths(files)),
            ),
        forall|i: int|
            0 <= i < files.len() ==> zstd_decoded(#[trigger] chunks_of(files)[i]) == Some(
                files[i].data@,
            ),
    ensures
        extracted(entries, plain, k) == Some(unpacked_files(files).take(k as int)),
    decreases k,
{
    if k == 0 {
        assert(unpacked_files(files).take(0) =~= Seq::<(Seq<char>, Seq<u8>)>::empty());
    } else {
        let i = k - 1;
        lemma_extracted_prefix(files, plain, entries, (k - 1) as nat);
        lemma_chunk_in_concat(chunks_of(files), i);
        assert(entry_describes(entries[i], files[i], chunks_of(files), i, spec_common_base(file_paths(files))));
        assert(entry_chunk(entries[i], plain) == chunks_of(files)[i]);
        assert(zstd_decoded(chunks_of(files)[i]) == Some(files[i].data@));
        assert(unpacked_files(files).take(k as int) =~= unpacked_files(files).take(i).push(
            (entries[i].relative_path@, files[i].data@),
        ));
    }
}

/// Unpacking gives back what was packed: for an archive that `pack` returned
/// for `files` under `password` (what its success promises), opening the data
/// with the same password succeeds and passes the integrity check, every
/// entry lies inside the data, and unpacking returns each file's bytes under
/// its relative path, in order.
pub proof fn lemma_unpack_inverts_pack(
    files: Seq<FileContents>,
    password: Option<Seq<char>>,
    archive: PackedArchive,
)
    requires
        packs_to(files, password, archive),
        pack_reversible(files, password, archive),
    ensures
        checked_data(archive.header, archive.data@, password) == Ok::<_, ArchiveError>(
            concat(chunks_of(files)),
        ),
        first_unfit(archive.header.entries@, concat(chunks_of(files)).len(), 0) == files.len(),
        extracted(archive.header.entries@, concat(chunks_of(files)), files.len()) == Some(
            unpacked_files(files),
        ),
        forall|r: Result<Vec<FileContents>, UnpackFailure>|
            unpack_outcome(archive.header, archive.data@, password, r) ==> (r matches Ok(out)
                && contents_views(out@) == unpacked_files(files)),
        unpack_report_count(archive.header, archive.data@, password) == files.len(),
{
    let chunks = chunks_of(files);
    let plain = concat(chunks);
    let entries = archive.header.entries@;
    assert(opened_data(archive.header, archive.data@, password) == Ok::<_, ArchiveError>(plain));
    assert forall|i: int| 0 <= i < entries.len() implies entry_in_range(
        #[trigger] entries[i],
        plain.len(),
    ) by {
        lemma_chunk_in_concat(chunks, i);
        assert(entry_describes(entries[i], files[i], chunks, i, spec_common_base(file_paths(files))));
    }
    lemma_first_unfit(entries, plain.len(), entries.len());
    lemma_extracted_prefix(files, plain, entries, files.len());
    assert(unpacked_files(files).take(files.len() as int) =~= unpacked_files(files));
}


/// The chunks of a packed archive lie back to back: the first starts at 0,
/// each ends where the next begins, and the last ends at the end of the
/// (unencrypted) data.
pub proof fn lemma_entries_contiguous(
    files: Seq<FileContents>,
    password: Option<Seq<char>>,
    archive: PackedArchive,
)
    requires
        packs_to(files, password, archive),
    ensures
        files.len() > 0 ==> archive.header.entries@[0].compressed_offset == 0,
        forall|i: int|
            0 <= i < files.len() - 1 ==> #[trigger] archive.header.entries@[i].compressed_offset
                + archive.header.entries@[i].compressed_size
                == archive.header.entries@[i + 1].compressed_offset,
        files.len() > 0 ==> archive.header.entries@[files.len() - 1].compressed_offset
            + archive.header.entries@[files.len() - 1].compressed_size == concat(
            chunks_of(files),
        ).len(),
{
    let chunks = chunks_of(files);
    let base = spec_common_base(file_paths(files));
    let entries = archive.header.entries@;
    if files.len() > 0 {
        assert(entry_describes(entries[0], files[0], chunks, 0, base));
        assert(chunks.take(0) =~= Seq::<Seq<u8>>::empty());
        let last = files.len() - 1;
        assert(entry_describes(entries[last], files[last], chunks, last, base));
        assert(chunks.take(last + 1).drop_last() =~= chunks.take(last));
        assert(chunks.take(last + 1) =~= chunks);
    }
    assert forall|i: int| 0 <= i < files.len() - 1 implies #[trigger] entries[i].compressed_offset
        + entries[i].compressed_size == entries[i + 1].compressed_offset by {
        assert(entry_describes(entries[i], files[i], chunks, i, base));
        assert(entry_describes(entries[i + 1], files[i + 1], chunks, i + 1, base));
        assert(chunks.take(i + 1).drop_last() =~= chunks.take(i));
    }
}


/// A password makes no difference to an unencrypted archive: the data
/// checked, the outcome and the progress reports are those without one.
pub proof fn lemma_password_ignored_when_plain(
    header: ArchiveHeader,
    payload: Seq<u8>,
    password: Option<Seq<char>>,
)
    requires
        !header.is_encrypted,
    ensures
        checked_data(header, payload, password) == checked_data(header, payload, None),
        unpack_report_count(header, payload, password) == unpack_report_count(header, payload, None),
        forall|r: Result<Vec<FileContents>, UnpackFailure>|
            unpack_outcome(header, payload, password, r) == unpack_outcome(header, payload, None, r),
{
}


/// The key that seals an archive is the BLAKE3 digest of all of the
/// password's UTF-8 bytes, under the twelve-byte zero nonce: the data that
/// packing writes for a password is the AEAD sealing under that key.
pub proof fn lemma_sealing_key_is_whole_password_digest(plain: Seq<u8>, password: Seq<char>)
    ensures
        sealed_payload(plain, Some(password)) == aead_sealed(
            blake3_digest(encode_utf8(password)),
            Seq::new(12, |_i: int| 0u8),
            plain,
        ),
{
    assert(zero_nonce() =~= Seq::new(12, |_i: int| 0u8));
}

/// An encrypted archive opens exactly under the key that is the BLAKE3 digest
/// of all of the given password's UTF-8 bytes: its data is what the AEAD opens
/// under that key and the zero nonce, and where that opening fails (for
/// instance under another password's key) it is `DecryptionFailed`.
pub proof fn lemma_opening_key_is_whole_password_digest(
    header: ArchiveHeader,
    payload: Seq<u8>,
    password: Seq<char>,
)
    requires
        header.is_encrypted,
        payload.len() <= 274_877_906_816 + 16,
    ensures
        opened_data(header, payload, Some(password)) == match aead_opened(
            blake3_digest(encode_utf8(password)),
            Seq::new(12, |_i: int| 0u8),
            payload,
        ) {
            Some(d) => Ok::<Seq<u8>, ArchiveError>(d),
            None => Err(ArchiveError::DecryptionFailed),
        },
{
    assert(zero_nonce() =~= Seq::new(12, |_i: int| 0u8));
}

} // verus!
