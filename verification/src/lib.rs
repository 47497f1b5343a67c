//! Codec for the IRO archive container: a fixed header, a run of
//! length-prefixed index records and a payload region, little-endian
//! throughout.

pub mod compression;
pub mod error;
pub mod filter;
pub mod iro_archive;
pub mod iro_entry;
pub mod iro_header;
pub mod iro_parser;
pub mod laws;
pub mod naming;
pub mod pack;
pub mod path_codec;
pub mod text;
pub mod unpack;
pub mod wire;

pub use error::Error;
pub use pack::pack_archive;
pub use unpack::unpack_archive;
