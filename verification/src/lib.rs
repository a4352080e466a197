//! A commit log kept in segments, and the services that append to it and read
//! from it.
pub mod auth;
pub mod bytes;
pub mod config;
pub mod error;
pub mod log;
pub mod record;
pub mod server;
pub mod text;
