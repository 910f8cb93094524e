//! Low-level primitives to work with (normalized) PICA+ records.
pub mod decode;
pub mod error;
pub mod field;
pub mod laws;
pub mod model;
pub mod occurrence;
pub(crate) mod parse;
pub mod record;
pub mod subfield;
pub mod tag;

pub use error::ParsePicaError;
pub use field::{Field, FieldRef};
pub use record::{Record, RecordRef};
pub use occurrence::{Occurrence, OccurrenceRef};
pub use subfield::{Subfield, SubfieldCode, SubfieldRef, SubfieldValue, SubfieldValueRef};
pub use tag::{Level, Tag, TagRef};
