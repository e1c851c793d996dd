//! Streaming engine core: schema inference over semi-structured records,
//! row-to-column batching, per-record transforms and the runner's decisions.

pub mod api;
pub mod engine;
pub mod io;
pub mod processors;
pub mod utils;

pub use engine::error::UdoError;
pub use engine::pipeline::PipelineRunner;
pub use engine::processor::DataProcessor;
pub use engine::schema::infer_schema;
pub use utils::json::{json_rows_to_batch, parse_json};
