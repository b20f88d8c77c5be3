//! What the players agree on before a game.

use vstd::prelude::*;
use crate::ipc::player_enum::Player;
use rand::Rng;
use std::time::Duration;

verus! {

pub const DEFAULT_GAME_SIZE: usize = 3;

/// The seconds that each player has at the start of a game by default.
pub const DEFAULT_BASED_TIME: u64 = 300;

/// The seconds that a player gains with each move by default.
pub const DEFAULT_INCREMENT: u64 = 1;

/// What the players agree on before a game: the side of the board, the time
/// that each player starts with, the time gained with each move, and who
/// moves first.
#[derive(Debug)]
pub struct GameConfiguration {
    size: usize,
    based_time: Duration,
    increment: Duration,
    first_player: Player,
}

/// A configuration as a mathematical value.
pub struct GameConfigurationView {
    pub size: nat,
    pub based_time: Duration,
    pub increment: Duration,
    pub first_player: Player,
}

impl View for GameConfiguration {
    type V = GameConfigurationView;

    closed spec fn view(&self) -> GameConfigurationView {
        GameConfigurationView {
            size: self.size as nat,
            based_time: self.based_time,
            increment: self.increment,
            first_player: self.first_player,
        }
    }
}

/// The time of `secs` whole seconds: what `Duration::from_secs` returns.
pub uninterp spec fn seconds(secs: u64) -> Duration;

/// `Duration::from_secs`: the time of `secs` whole seconds.
#[verifier::external_body]
pub(crate) fn from_secs(secs: u64) -> (r: Duration)
    ensures
        r == seconds(secs),
{
    Duration::from_secs(secs)
}

/// `Rng::gen_range` on the generator of the thread: a number drawn from 0
/// and 1.
#[verifier::external_body]
fn draw() -> (r: i32)
    ensures
        0 <= r <= 1,
{
    rand::thread_rng().gen_range(0..=1)
}

impl Default for GameConfiguration {
    fn default() -> (r: Self)
        ensures
            r@ == (GameConfigurationView {
                size: DEFAULT_GAME_SIZE as nat,
                based_time: seconds(DEFAULT_BASED_TIME),
                increment: seconds(DEFAULT_INCREMENT),
                first_player: Player::Player1,
            }),
    {
        Self::new(
            DEFAULT_GAME_SIZE,
            from_secs(DEFAULT_BASED_TIME),
            from_secs(DEFAULT_INCREMENT),
            Some(Player::Player1),
        )
    }
}

impl GameConfiguration {
    pub fn size(&self) -> (r: usize)
        ensures
            r == self@.size,
    {
        self.size
    }

    /// A configuration with the given values. Where no first player is
    /// given, one of the two is drawn.
    pub fn new(size: usize, based_time: Duration, increment: Duration, first_player: Option<Player>)
        -> (r: Self)
        ensures
            r@.size == size,
            r@.based_time == based_time,
            r@.increment == increment,
            first_player matches Some(player) ==> r@.first_player == player,
    {
        let first_player = if let Some(first_player) = first_player {
            first_player
        } else {
            Player::drawn(draw())
        };
        Self { size, based_time, increment, first_player }
    }

    pub fn based_time(&self) -> (r: Duration)
        ensures
            r == self@.based_time,
    {
        self.based_time
    }

    pub fn increment(&self) -> (r: Duration)
        ensures
            r == self@.increment,
    {
        self.increment
    }

    pub fn first_player(&self) -> (r: &Player)
        ensures
            *r == self@.first_player,
    {
        &self.first_player
    }
}

} // verus!
