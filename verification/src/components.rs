//! The components of the description: its schemas.

pub mod schemas;
