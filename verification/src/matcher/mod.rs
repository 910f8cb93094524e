//! Matchers that can be applied on records and record primitives.
pub mod builder;
pub mod error;
pub mod field;
pub mod laws;
pub mod occurrence;
pub mod operator;
pub mod options;
pub mod quantifier;
pub mod record;
pub mod subfield;
pub mod tag;

pub use builder::RecordMatcherBuilder;
pub use error::ParseMatcherError;
pub use operator::{BooleanOp, RelationalOp};
pub use options::MatcherOptions;
pub use quantifier::Quantifier;
pub use record::RecordMatcher;
pub use occurrence::OccurrenceMatcher;
pub use tag::TagMatcher;
