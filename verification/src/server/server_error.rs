use vstd::prelude::*;

verus! {

/// What can go wrong in the server.
#[derive(Debug, Clone, Copy, PartialEq, Eq, Structural)]
pub enum ServerError {
    RedisError,
    TCPError,
    SerializationError,
    GameError,
    SaveGameError,
    LocalHistoryError,
    HistoryNotExistError,
    RabbitMQError,
}

} // verus!
