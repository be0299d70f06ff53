//! Karton: the logic of a small photo album server, with its contracts.

pub mod text;
pub mod path;
pub mod youtil;
pub mod album_image;
pub mod store;
pub mod auth;
pub mod album;
pub mod cli;
pub mod server;
pub mod browser;
pub mod greeting;
