//! Where the settings of the service lie, and how its connections are secured.
pub mod files;
pub mod tls;
