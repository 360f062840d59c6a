pub mod job;
pub mod message;
