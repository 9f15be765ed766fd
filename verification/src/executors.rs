pub mod context;
pub mod file_system_executor;
pub mod ops;
