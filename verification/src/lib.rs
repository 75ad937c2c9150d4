//! Turns parameters of a hierarchical parameter store into environment
//! variables for a program that is about to be executed.
pub mod args;
pub mod command_builder;
pub mod env_map;
pub mod parameter_store;
pub mod params;
pub mod program_env;
pub mod text;
