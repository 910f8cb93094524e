//! Types to work with bibliographic records encoded in (normalized)
//! PICA+, the internal data format of the OCLC cataloging system.
mod bytes;
pub mod fmt;
pub mod io;
pub mod matcher;
pub mod parser;
pub mod query;
pub mod path;
pub mod primitives;
mod reader;
mod record;
mod text;

pub use record::{ByteRecord, StringRecord};

