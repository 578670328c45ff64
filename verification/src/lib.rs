pub mod analysis;
pub mod config;
pub mod json;
pub mod paths;
pub mod text;
