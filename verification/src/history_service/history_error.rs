use vstd::prelude::*;

verus! {

/// What can go wrong in the service that keeps the histories of games.
#[derive(Debug, Clone, Copy, PartialEq, Eq, Structural)]
pub enum HistoryError {
    MongoDBError,
    MapGameHistory,
    GameNotFound,
    DeserializeError,
    SerializeError,
    RabbitMQError,
}

} // verus!
