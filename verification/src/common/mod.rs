//! Core functionality: errors, the settings file format, text handling and
//! utilities.

pub mod config;
pub mod error;
pub mod factorio;
pub mod output;
pub mod platform;
pub mod property_tree;
pub mod settings;
pub mod text;
pub mod utils;
