//! Forge: the verified core of a Lua-powered project scaffolder.
pub mod text;
pub mod search;
pub mod order;
pub mod strmap;
pub mod cli;
pub mod fields;
pub mod toml_doc;
pub mod config;
pub mod scaffold;
pub mod casing;
pub mod render;
pub mod manifest;
pub mod lua;
pub mod paths;
pub mod storage;
pub mod checksum;
pub mod trust;
pub mod packages;
pub mod templates;
pub mod stdlib;
