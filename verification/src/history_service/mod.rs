//! The service that keeps the games that were played.

pub mod history_error;
