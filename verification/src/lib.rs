pub mod cache;
pub mod compiler;
pub mod paths;
pub mod prepare;
pub mod protocol;
pub mod service;
pub mod strutil;
pub mod utils;
