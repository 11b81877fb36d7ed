//! Plain data passed between the services.

pub mod chunk_details;
pub mod file_details;
pub mod file_format;
pub mod source_payload;
