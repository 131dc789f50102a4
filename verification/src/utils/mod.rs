//! Containers.
pub mod list;
pub mod str_map;
