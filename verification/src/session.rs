//! One turn of a game as the table it is played at sees it: what to show or
//! ask next, and what becomes of a player's answer.

use crate::board::TicTacToe;
use crate::rules::{is_free, mover, outcome, place, GameOver, PLAYER_ONE};
use crate::value::is_best_move;
use vstd::prelude::*;

verus! {

/// What a turn comes to.
#[derive(Clone, Copy, Debug, PartialEq, Eq, Structural)]
pub enum Step {
    /// The game has ended without a winner.
    Drawn,
    /// The game has ended, won by the player with this mark.
    Won(char),
    /// The game goes on, and the player with this mark is to name a cell.
    Ask(char),
    /// The game goes on, and the computer has just marked this cell.
    Replied(usize),
}

/// Whether the move to make on `b` is a person's to choose: the first player
/// is always a person, the second unless the computer plays.
pub open spec fn person_to_move(b: Seq<char>, vs_computer: bool) -> bool {
    mover(b) == PLAYER_ONE || !vs_computer
}

impl TicTacToe {
    /// Takes the game one turn further without anybody's help, and says what
    /// the turn came to. A game that has ended is left alone and its result
    /// is told. When the move is a person's, the board is left alone and the
    /// person is to be asked. Otherwise the computer makes its best move.
    pub fn advance(&mut self, vs_computer: bool) -> (step: Step)
        requires
            old(self).wf(),
        ensures
            final(self).wf(),
            match outcome(old(self)@) {
                GameOver::Draw => step == Step::Drawn && final(self)@ == old(self)@,
                GameOver::Winner(player) => {
                    step == Step::Won(player) && final(self)@ == old(self)@
                },
                GameOver::OnGoing => if person_to_move(old(self)@, vs_computer) {
                    step == Step::Ask(mover(old(self)@)) && final(self)@ == old(self)@
                } else {
                    &&& step matches Step::Replied(cell)
                    &&& is_best_move(old(self)@, cell as int)
                    &&& final(self)@ == place(old(self)@, cell as int)
                },
            },
    {
        match self.game_over() {
            GameOver::Draw => {
                return Step::Drawn;
            },
            GameOver::Winner(player) => {
                return Step::Won(player);
            },
            GameOver::OnGoing => {},
        }
        let turn = self.turn_to_move();
        if turn == PLAYER_ONE || !vs_computer {
            Step::Ask(turn)
        } else {
            let mv = self.best_move();
            let cell = mv as usize;
            self.make_move(cell);
            Step::Replied(cell)
        }
    }

    /// Takes a person's answer: the cell they named, if they named one. The
    /// move is made when the cell is on the board and free; otherwise the
    /// board is left alone. Says whether the move was made.
    pub fn enter(&mut self, entry: Option<usize>) -> (accepted: bool)
        requires
            old(self).wf(),
        ensures
            final(self).wf(),
            accepted <==> (entry matches Some(mv) && is_free(old(self)@, mv as int)),
            accepted ==> final(self)@ == place(old(self)@, entry.unwrap() as int),
            !accepted ==> final(self)@ == old(self)@,
    {
        match entry {
            Some(mv) => {
                if self.is_move_valid(mv) {
                    self.make_move(mv);
                    true
                } else {
                    false
                }
            },
            None => false,
        }
    }
}

} // verus!
