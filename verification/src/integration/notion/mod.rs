pub mod api;
pub mod json;
