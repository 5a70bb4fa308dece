pub mod member;
pub mod utils;
