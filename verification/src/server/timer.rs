use vstd::prelude::*;
use crate::ipc::game_configuration::{
    from_secs, seconds, DEFAULT_BASED_TIME, DEFAULT_INCREMENT,
};
use std::time::Duration;

verus! {

/// The clocks of a game: the time that each player starts with, the time
/// gained with each move, and the time that each player has left.
#[derive(Debug)]
pub struct Timer {
    based_time: Duration,
    increment: Duration,
    player1_time: Duration,
    player2_time: Duration,
}

/// The clocks as a mathematical value.
pub struct TimerView {
    pub based_time: Duration,
    pub increment: Duration,
    pub player1_time: Duration,
    pub player2_time: Duration,
}

impl View for Timer {
    type V = TimerView;

    closed spec fn view(&self) -> TimerView {
        TimerView {
            based_time: self.based_time,
            increment: self.increment,
            player1_time: self.player1_time,
            player2_time: self.player2_time,
        }
    }
}

impl Timer {
    pub fn new(
        based_time: Duration,
        increment: Duration,
        player1_time: Duration,
        player2_time: Duration,
    ) -> (r: Self)
        ensures
            r@ == (TimerView { based_time, increment, player1_time, player2_time }),
    {
        Self { based_time, increment, player1_time, player2_time }
    }

    /// The clocks at the start of a game: both players have the time that
    /// they start with.
    pub fn started(based_time: Duration, increment: Duration) -> (r: Self)
        ensures
            r@ == (TimerView {
                based_time,
                increment,
                player1_time: based_time,
                player2_time: based_time,
            }),
    {
        Self::new(based_time, increment, based_time, based_time)
    }
}

impl Default for Timer {
    fn default() -> (r: Self)
        ensures
            r@ == (TimerView {
                based_time: seconds(DEFAULT_BASED_TIME),
                increment: seconds(DEFAULT_INCREMENT),
                player1_time: seconds(DEFAULT_BASED_TIME),
                player2_time: seconds(DEFAULT_BASED_TIME),
            }),
    {
        let based_time = from_secs(DEFAULT_BASED_TIME);
        Self::new(based_time, from_secs(DEFAULT_INCREMENT), based_time, based_time)
    }
}

} // verus!
