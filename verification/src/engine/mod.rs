pub mod batch;
pub mod config;
pub mod error;
pub mod names;
pub mod pipeline;
pub mod processor;
pub mod record;
pub mod schema;
pub mod sequential;
