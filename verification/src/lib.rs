//! The `.rpak` archiver: zstd-compressed, optionally ChaCha20-Poly1305
//! encrypted archives with a BLAKE3 integrity hash, and the state machine
//! of the graphical front end that drives it.
pub mod archiver;
pub mod backends;
pub mod format;
pub mod gui;

pub use archiver::{
    ArchiveError, ArchiveHeader, Archiver, FileContents, FileEntry, PackProgress, PackedArchive,
    UnpackFailure,
};
pub use gui::{Action, ArchiverApp, Message, Tab};
