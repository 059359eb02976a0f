//! Inspection of tensor-container files produced by fine-tuning tools: the
//! header framing, the free-form metadata table, the tensor catalog and a
//! rule-based guess of the model architecture and adapter technique.

pub mod container;
pub mod header;
pub mod loader;
pub mod metadata;
pub mod model_type;
pub mod search;
pub mod text;

pub use header::{declared_length, header_size, pad_header, HeaderError, MAX_TOTAL_HEADER};
pub use container::offsets_fit_exec;
pub use loader::BatchCursor;
pub use metadata::{LoadError, LoraData};
pub use model_type::{classify, LoraType, ModelType, NetworkType};
pub use search::{contains_ignore_ascii_case, search_result, SearchResult};
