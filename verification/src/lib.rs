//! Coercion-and-error core of a schema validation engine.
//!
//! Given a host value of unknown shape, the library interprets it as a
//! requested target type under a strict (exact type match) or lax
//! (best-effort conversion) policy, and on failure produces a precisely
//! described, located error record. Many such records aggregate into one
//! reportable validation failure with a deterministic rendering.

pub mod kinds;
pub mod text;
pub mod value;
pub mod line_error;
pub mod coerce;
pub mod validation_error;

pub use kinds::ErrorKind;
pub use value::AttrEntry;
pub use value::Dec;
pub use value::MapEntry;
pub use value::Value;
pub use line_error::Context;
pub use line_error::InternalError;
pub use line_error::LocItem;
pub use line_error::ValError;
pub use line_error::ValLineError;
pub use line_error::ValResult;
pub use validation_error::ErrorRecord;
pub use validation_error::PyLineError;
pub use validation_error::ValidationError;
pub use validation_error::as_validation_err;
