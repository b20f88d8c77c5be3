//! What a server and its clients tell each other.

pub mod from_server;
pub mod game_configuration;
pub mod game_history;
pub mod moves_history;
pub mod player_assignment;
pub mod player_enum;
pub mod to_server;
