//! Reading records.
pub use crate::reader::{ReadPicaError, Reader, ReaderBuilder};
