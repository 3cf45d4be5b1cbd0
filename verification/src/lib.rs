//! Utilities supporting an LLM request/response pipeline: derivation of a
//! JSON Schema from a structural type descriptor, selection of a
//! token-counting tokenizer with a safe fallback, and a deterministic
//! mapping from a percentage to a numeric sampling-parameter range.
pub mod json;
pub mod range;
pub mod schema;
pub mod sanitize;
pub mod tokenizer;

pub use json::Json;
pub use json::to_pretty_string;
pub use range::map_to_range_scaled;
pub use sanitize::remove_json_wrapper;
pub use schema::FieldDescriptor;
pub use schema::SchemaError;
pub use schema::TypeDescriptor;
pub use schema::check_descriptor;
pub use schema::derive_schema;
pub use schema::fix_value_schema;
pub use tokenizer::select_tokenizer;
pub use tokenizer::TokenizerError;
