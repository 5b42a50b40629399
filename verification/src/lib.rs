//! Stock-locking auction service: products with stock that bidders lock for a
//! limited time, then confirm or release.
pub mod clock;
pub mod db;
pub mod errors;
pub mod handlers;
pub mod laws;
pub mod text;
pub mod models;
pub mod services;
