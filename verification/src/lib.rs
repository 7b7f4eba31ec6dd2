//! Parser for Windows Prefetch (`.pf`) files: the execution-trace artifacts
//! that Windows keeps under `C:\Windows\Prefetch`.
//!
//! The crate decodes the `MAM` compression envelope (LZ77 / XPRESS-Huffman),
//! walks the versioned binary layout (versions 17, 23, 26 and 30), and
//! returns a structured record with the executable name, load metrics,
//! memory-block trace chains, volume references, execution timestamps and
//! run counts. All offset arithmetic on the (possibly tampered) input is
//! bounds-checked, and every parse function carries a contract that pins
//! its result to a specification-level reading of the raw bytes.

pub mod common;
pub mod decompress;
pub mod lz77;
pub mod metrics;
pub mod prefetch;
pub mod trace;
pub mod volume;
pub mod xpress_huff;
