//! The verified core of a Discord bot that tracks which server members take
//! part in which project: the member and project caches, the decisions behind
//! the slash and prefix commands, and the handling of Notion API replies.
pub mod str_map;
pub mod cache;
pub mod commands;
pub mod integration;
