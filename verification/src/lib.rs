//! PATH diagnostics, cleaning and shell profile planning for path-like variables.
pub mod apply;
pub mod clean;
pub mod cli;
pub mod config;
pub mod doctor;
pub mod fuzz_args;
pub mod fuzzing;
pub mod health;
pub mod human;
pub mod json;
pub mod model;
pub mod normalize;
pub mod path_env;
pub mod platform;
pub mod policy;
pub mod text;
