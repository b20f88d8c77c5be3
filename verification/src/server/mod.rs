//! The decisions of a server that runs games for its clients.

pub mod configuration;
pub mod game_manager;
pub mod game_repository;
pub mod process_tcp_connection;
pub mod server_error;
pub mod timer;
