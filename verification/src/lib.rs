//! Codec for the JSON wire format of the Prometheus HTTP v1 query API.
//!
//! The library decodes a response body into typed result values — the
//! success/error envelope, expression results (scalar, string, instant
//! vector, range matrix), series and label lists, target and alert-manager
//! status, and flag maps — and encodes such values back into the same
//! format. Transport concerns (HTTP, TLS, URL construction) are left to the
//! caller; the codec is a pure function from text to values and back.

pub mod api;
pub mod codec;
pub mod decode;
pub mod encode;
pub mod json;
pub mod laws;
pub mod strutil;
pub mod types;
pub mod valid;
pub mod wire;
pub mod wire_laws;

pub use json::Json;
pub use types::{
    ActiveTarget, AlertManager, AlertManagers, Data, DecodeError, DroppedTarget, Expression,
    Instant, Metric, QueryError, QueryResult, QuerySuccess, Range, Sample, SampleValue,
    StringSample, TargetHealth, Targets,
};
