//! Column-type inference for delimited tabular data.
//!
//! Each column of a record stream starts with a list of candidate data
//! types; every observed value narrows the list by discarding candidates
//! that cannot explain the value.  The surviving candidates, together
//! with the per-type summary state they accumulated, form the inferred
//! schema, which can later be replayed against new records to check
//! conformance.

mod field;
mod infer;
pub mod validators;

pub use field::Field;
pub use field::Fields;
pub use infer::infer_records;
pub use infer::validate_records;
pub use infer::CsvInput;
pub use infer::InferOptions;
pub use validators::DataType;
pub use validators::Date;
pub use validators::DateTime;
pub use validators::DateTimeFormat;
pub use validators::Empty;
pub use validators::Float;
pub use validators::Integer;
pub use validators::Literal;
pub use validators::SchemaError;
pub use validators::Text;
pub use validators::Time;
pub use validators::Unique;
pub use validators::ValidationError;
