pub mod dlq;
pub mod sink;
pub mod source;
