pub mod pii;
pub mod semantic;
