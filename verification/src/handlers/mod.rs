pub mod download;
pub mod library;
pub mod status;
pub mod upload;
pub mod websocket;
