//! Who may do what.
pub mod authorizer;
pub mod matcher;
