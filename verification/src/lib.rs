//! Coordinator logic of a mod manager: request tokens, download progress,
//! the package collections and their activation, and archive extraction plans.

pub mod archive;
pub mod collections;
pub mod details;
pub mod download;
pub mod extract;
pub mod frame;
pub mod legacy;
pub mod loader;
pub mod local;
pub mod package;
pub mod registry;
pub mod resolver;
pub mod setup;
pub mod startup;
pub mod text;
pub mod token;
