//! Logic of a small video streaming service: file-name parsing, the
//! converted-file cache, byte-range chunk planning, response headers and
//! the reading of converter progress output.

pub mod dtm;
pub mod module;
pub mod service;
pub mod template;
pub mod text;
pub mod utils;
