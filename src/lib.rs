pub mod config;
pub mod infinite_playlist;
pub mod library;
pub mod memory_source;
pub mod playlist;
pub mod views;
