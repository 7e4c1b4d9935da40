pub mod error;
pub mod module_loader;
pub mod scan_stage;
pub mod task_result;
pub mod types;
