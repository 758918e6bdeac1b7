//! A library that turns a tree of executable scripts into a structured command
//! line interface: the annotation language in a script's leading comment block,
//! the resolution of command paths into command nodes, and the rendering of
//! usage, help and listings.
pub mod text;
pub mod usage_parser;
pub mod completion;
pub mod option_parser;
pub mod docs;
pub mod error;
pub mod usage;
pub mod config;
pub mod commands;
pub mod dispatch;
pub mod engine;
pub mod script;
pub mod report;
