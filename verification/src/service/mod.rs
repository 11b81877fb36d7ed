//! The services behind the request handlers.

pub mod converter_service;
pub mod files_service;
pub mod stream_service;
