//! The positions that can come up in a game, and what holds of all of them.
//!
//! A game starts from the empty board. A move may be made while the game
//! goes on, into a free cell, by the player whose turn it is. The positions
//! that such a game passes through are the reachable ones.

use crate::rules::{
    count_marks, has_line, initial_board, is_free, is_full, lemma_place_counts,
    lemma_place_gives_no_line_to_other, marks_of, marks_placed, mover, outcome, place,
    well_formed, GameOver, PLAYER_ONE, PLAYER_TWO,
};
use vstd::prelude::*;

verus! {

/// The board after the moves in `moves` have been made, in order, from the
/// empty board.
pub open spec fn play(moves: Seq<int>) -> Seq<char>
    decreases moves.len(),
{
    if moves.len() == 0 {
        initial_board()
    } else {
        place(play(moves.drop_last()), moves.last())
    }
}

/// Whether each move in `moves` was legal when it was made: the game was
/// still going on, and the cell was free.
pub open spec fn legal_play(moves: Seq<int>) -> bool
    decreases moves.len(),
{
    moves.len() == 0 || {
        let before = play(moves.drop_last());
        &&& legal_play(moves.drop_last())
        &&& outcome(before) is OnGoing
        &&& is_free(before, moves.last())
    }
}

/// Whether board `b` comes up in some game played by the rules.
pub open spec fn reachable(b: Seq<char>) -> bool {
    exists|moves: Seq<int>| legal_play(moves) && #[trigger] play(moves) == b
}

/// Whether the players have taken turns: the first player has as many marks
/// as the second, or one more.
pub open spec fn balanced(b: Seq<char>) -> bool {
    let ones = marks_of(b, PLAYER_ONE);
    let twos = marks_of(b, PLAYER_TWO);
    ones == twos || ones == twos + 1
}

/// The empty board is well formed and holds no mark; the game on it goes on,
/// and it is where every game starts.
pub proof fn lemma_initial_board()
    ensures
        well_formed(initial_board()),
        marks_of(initial_board(), PLAYER_ONE) == 0,
        marks_of(initial_board(), PLAYER_TWO) == 0,
        outcome(initial_board()) is OnGoing,
        reachable(initial_board()),
{
    reveal_with_fuel(count_marks, 10);
    assert(play(Seq::<int>::empty()) == initial_board());
}

/// A legal move made from a reachable position leads to a reachable position.
pub proof fn lemma_reachable_step(b: Seq<char>, idx: int)
    requires
        reachable(b),
        outcome(b) is OnGoing,
        is_free(b, idx),
    ensures
        reachable(place(b, idx)),
{
    let moves = choose|moves: Seq<int>| legal_play(moves) && #[trigger] play(moves) == b;
    let longer = moves.push(idx);
    assert(longer.drop_last() =~= moves);
    assert(play(longer) == place(b, idx));
}

/// What holds after any game played by the rules: the board is well formed,
/// it holds one mark for each move made, the players have taken turns, and
/// at most one of them owns a line.
pub proof fn lemma_play(moves: Seq<int>)
    requires
        legal_play(moves),
    ensures
        well_formed(play(moves)),
        marks_placed(play(moves)) == moves.len(),
        balanced(play(moves)),
        !(has_line(play(moves), PLAYER_ONE) && has_line(play(moves), PLAYER_TWO)),
    decreases moves.len(),
{
    if moves.len() == 0 {
        lemma_initial_board();
    } else {
        let before = play(moves.drop_last());
        lemma_play(moves.drop_last());
        lemma_place_counts(before, moves.last());
        if mover(before) == PLAYER_ONE {
            lemma_place_gives_no_line_to_other(before, moves.last(), PLAYER_TWO);
        } else {
            lemma_place_gives_no_line_to_other(before, moves.last(), PLAYER_ONE);
        }
    }
}

/// On a reachable board the state of the game is well defined: the two
/// players never both own a line, so exactly one of "the first player has
/// won", "the second player has won", "draw" and "the game goes on" holds,
/// and each is told by the lines and the free cells alone.
pub proof fn lemma_reachable_outcome(b: Seq<char>)
    requires
        reachable(b),
    ensures
        well_formed(b),
        balanced(b),
        !(has_line(b, PLAYER_ONE) && has_line(b, PLAYER_TWO)),
        outcome(b) == GameOver::Winner(PLAYER_ONE) <==> has_line(b, PLAYER_ONE),
        outcome(b) == GameOver::Winner(PLAYER_TWO) <==> has_line(b, PLAYER_TWO),
        outcome(b) is Draw <==> !has_line(b, PLAYER_ONE) && !has_line(b, PLAYER_TWO) && is_full(b),
        outcome(b) is OnGoing <==> !has_line(b, PLAYER_ONE) && !has_line(b, PLAYER_TWO)
            && !is_full(b),
{
    let moves = choose|moves: Seq<int>| legal_play(moves) && #[trigger] play(moves) == b;
    lemma_play(moves);
}

} // verus!
