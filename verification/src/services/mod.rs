pub mod conversion;
pub mod job_table;
pub mod job_manager;
pub mod file_manager;
