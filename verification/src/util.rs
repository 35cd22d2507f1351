//! Building blocks of the library, one module per concern.

pub mod cache;
pub mod dev;
pub mod dirs;
pub mod file_types;
pub mod iso4;
pub mod json_out;
pub mod media;
pub mod os;
pub mod text;
pub mod traits;
pub mod web;
