//! Manages browser "userchrome" themes: the source grammar, the retrieval
//! plan, the managed preference block and the theme configuration.

pub mod commands;
pub mod config;
pub mod prefs;
pub mod retrieve;
pub mod source;
pub mod switch;
pub mod text;
