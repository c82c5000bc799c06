# rpak

A file archiver with a small window front end. An `.rpak` file holds the
magic bytes `RPAK`, a version byte, a little-endian `u32` header length, a
bincode-encoded header (one entry per file: relative path, original size,
offset and size of its zstd chunk; an encryption flag; the BLAKE3 digest of
the chunks), and then the chunks, encrypted with ChaCha20-Poly1305 under the
BLAKE3 digest of the password where one is given.

Layout:

- `src/` — the verified library (Verus):
  - `backends.rs`: the trusted wrappers around zstd, BLAKE3,
    ChaCha20-Poly1305 and `std::path`, with the names of their results;
  - `format.rs`: writing and reading the outer frame;
  - `archiver.rs`: packing, opening, checking and unpacking, the common base
    directory of the packed paths, and the proof that unpacking gives back
    what was packed;
  - `gui.rs`: the window's state and how each message changes it.
- `app/` — the program: file system access, bincode for the header, dialogs
  (rfd) and the iced window.
- `tests/` — tests of the library against the real outside crates.
