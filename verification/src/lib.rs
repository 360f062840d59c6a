pub mod clock;
pub mod config;
pub mod error;
pub mod handlers;
pub mod ids;
pub mod models;
pub mod order;
pub mod paths;
pub mod services;
pub mod text;
pub mod utils;
