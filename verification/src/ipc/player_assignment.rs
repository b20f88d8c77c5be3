use vstd::prelude::*;
use crate::ipc::player_enum::Player;
use crate::player_symbol::PlayerSymbol;

verus! {

/// Which symbol each of the two players plays.
#[derive(Debug, Copy, Clone, PartialEq, Eq, Structural)]
pub struct PlayerAssignment {
    player1: PlayerSymbol,
    player2: PlayerSymbol,
}

/// An assignment as a mathematical value.
pub struct PlayerAssignmentView {
    pub player1: PlayerSymbol,
    pub player2: PlayerSymbol,
}

impl PlayerAssignmentView {
    /// The assignment in which `first_player` plays X, the symbol that moves
    /// first, and the other player plays O.
    pub open spec fn of(first_player: Player) -> PlayerAssignmentView {
        match first_player {
            Player::Player1 => PlayerAssignmentView {
                player1: PlayerSymbol::X,
                player2: PlayerSymbol::O,
            },
            Player::Player2 => PlayerAssignmentView {
                player1: PlayerSymbol::O,
                player2: PlayerSymbol::X,
            },
        }
    }

    /// The player who plays `symbol`: the first player where it is their
    /// symbol, else the second.
    pub open spec fn player_of(self, symbol: PlayerSymbol) -> Player {
        if self.player1 == symbol {
            Player::Player1
        } else {
            Player::Player2
        }
    }
}

impl View for PlayerAssignment {
    type V = PlayerAssignmentView;

    closed spec fn view(&self) -> PlayerAssignmentView {
        PlayerAssignmentView { player1: self.player1, player2: self.player2 }
    }
}

impl PlayerAssignment {
    pub fn new(first_player: Player) -> (r: Self)
        ensures
            r@ == PlayerAssignmentView::of(first_player),
    {
        match first_player {
            Player::Player1 => Self { player1: PlayerSymbol::X, player2: PlayerSymbol::O },
            Player::Player2 => Self { player1: PlayerSymbol::O, player2: PlayerSymbol::X },
        }
    }

    pub fn player1_symbol(&self) -> (r: PlayerSymbol)
        ensures
            r == self@.player1,
    {
        self.player1
    }

    pub fn player2_symbol(&self) -> (r: PlayerSymbol)
        ensures
            r == self@.player2,
    {
        self.player2
    }

    pub fn player_by_symbol(&self, symbol: PlayerSymbol) -> (r: Player)
        ensures
            r == self@.player_of(symbol),
    {
        if self.player1 == symbol {
            Player::Player1
        } else {
            Player::Player2
        }
    }
}

/// In the assignment made for a first player, the two players play
/// different symbols, the first player plays X, and each player is the
/// player of their own symbol.
pub proof fn lemma_assignment_of(first_player: Player)
    ensures
        PlayerAssignmentView::of(first_player).player2 == PlayerAssignmentView::of(
            first_player,
        ).player1.opposite(),
        PlayerAssignmentView::of(first_player).player_of(PlayerSymbol::X) == first_player,
        PlayerAssignmentView::of(first_player).player_of(
            PlayerAssignmentView::of(first_player).player1,
        ) == Player::Player1,
        PlayerAssignmentView::of(first_player).player_of(
            PlayerAssignmentView::of(first_player).player2,
        ) == Player::Player2,
{
}

} // verus!
