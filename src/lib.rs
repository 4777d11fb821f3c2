//! Reading and writing archives of the PHP phar format.
//!
//! The codec works on byte buffers: a reader parses an archive held in
//! memory, and a writer produces one.
pub mod bytes;
pub mod compression;
pub mod entry;
pub mod error;
pub mod format;
pub mod index;
pub mod laws;
pub mod manifest;
pub mod reader;
pub mod section;
pub mod signature;
pub mod stub;
pub mod writer;

pub use compression::Compression;
pub use error::{Open, Write};
pub use index::{FileIndex, IndexKind, MetadataMap, NameMap, NoIndex, OffsetOnly};
pub use reader::{Options, Reader};
pub use signature::{Signature, SignatureType};
pub use writer::create;
