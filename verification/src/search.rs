//! The opponent: an exhaustive search of the game tree that skips the
//! branches which cannot change its answer.

use crate::board::TicTacToe;
use crate::rules::{
    is_free, is_full, legal_moves, lemma_clear_undoes_place, lemma_full_iff_no_moves,
    lemma_legal_moves, lemma_place_counts, outcome, place, GameOver, PLAYER_ONE,
};
use crate::value::{
    agrees_in_window, is_best_move, lemma_best_move_keeps_value, lemma_empty_window,
    lemma_minimax_value_range, lemma_pruned_value_range, lemma_pruned_value_sound, maximizing,
    minimax_value, move_value, prefers, pruned_scan, pruned_value, smallest_cells_score,
    terminal_score,
};
use vstd::pervasive::unreached;
use vstd::prelude::*;

verus! {

impl TicTacToe {
    /// The score of a finished game: `1` if the first player has won, `-1`
    /// if the second has, `0` for a draw. A game that still goes on has no
    /// score, and must not be asked for one.
    pub fn evaluate(&self) -> (score: i8)
        requires
            self.wf(),
            !(outcome(self@) is OnGoing),
        ensures
            score == terminal_score(self@),
    {
        match self.game_over() {
            GameOver::Draw => 0,
            GameOver::Winner(player) => {
                if player == PLAYER_ONE {
                    1
                } else {
                    -1
                }
            },
            GameOver::OnGoing => unreached(),
        }
    }

    /// Searches the position inside the window from `alpha` to `beta` and
    /// returns what it finds, leaving the board as it was.
    ///
    /// The legal moves are tried in ascending order. Each is made, searched
    /// and taken back; its score updates the running best and narrows the
    /// window, and the moves that remain once the window is empty are
    /// skipped. With a window that holds every score, the score returned is
    /// the value of the position. More generally, with a window that is not
    /// empty, it is the value when the value lies strictly inside the window,
    /// and otherwise lies between the value and the bound the value does not
    /// clear. With an empty window only the first move is ever tried, and
    /// what comes back is the score of the game played into the smallest
    /// free cells.
    pub fn minimax(&mut self, alpha: i8, beta: i8) -> (score: i8)
        requires
            old(self).wf(),
        ensures
            final(self).wf(),
            final(self)@ == old(self)@,
            score == pruned_value(old(self)@, alpha as int, beta as int),
            -1 <= score <= 1,
            alpha < -1 && 1 < beta ==> score == minimax_value(old(self)@),
            alpha < beta ==> agrees_in_window(
                minimax_value(old(self)@),
                score as int,
                alpha as int,
                beta as int,
            ),
            alpha >= beta ==> score == smallest_cells_score(old(self)@),
        decreases legal_moves(old(self)@).len(),
    {
        let ghost b = self@;
        proof {
            lemma_minimax_value_range(b);
            lemma_pruned_value_range(b, alpha as int, beta as int);
            if alpha < beta {
                lemma_pruned_value_sound(b, alpha as int, beta as int);
            } else {
                lemma_empty_window(b, alpha as int, beta as int);
            }
        }
        match self.game_over() {
            GameOver::OnGoing => {},
            _ => {
                return self.evaluate();
            },
        }
        let maximize = self.turn_to_move() == PLAYER_ONE;
        let moves = self.get_all_moves();
        let mut low = alpha;
        let mut high = beta;
        let mut k: usize = 0;
        if maximize {
            let mut best: i8 = i8::MIN;
            while k < moves.len()
                invariant_except_break
                    k <= moves.len(),
                    pruned_value(b, alpha as int, beta as int) == pruned_scan(
                        b,
                        k as nat,
                        low as int,
                        high as int,
                        best as int,
                    ),
                invariant
                    self.wf(),
                    self@ == b,
                    b == old(self)@,
                    moves@ == legal_moves(b),
                    maximizing(b),
                ensures
                    best == pruned_value(b, alpha as int, beta as int),
                decreases moves.len() - k,
            {
                let pos = moves[k];
                proof {
                    lemma_legal_moves(b);
                    lemma_place_counts(b, pos as int);
                    lemma_clear_undoes_place(b, pos as int);
                }
                self.make_move(pos);
                let eval = self.minimax(low, high);
                self.undo_move(pos);
                if eval > best {
                    best = eval;
                }
                if eval > low {
                    low = eval;
                }
                if high <= low {
                    break ;
                }
                k = k + 1;
            }
            best
        } else {
            let mut best: i8 = i8::MAX;
            while k < moves.len()
                invariant_except_break
                    k <= moves.len(),
                    pruned_value(b, alpha as int, beta as int) == pruned_scan(
                        b,
                        k as nat,
                        low as int,
                        high as int,
                        best as int,
                    ),
                invariant
                    self.wf(),
                    self@ == b,
                    b == old(self)@,
                    moves@ == legal_moves(b),
                    !maximizing(b),
                ensures
                    best == pruned_value(b, alpha as int, beta as int),
                decreases moves.len() - k,
            {
                let pos = moves[k];
                proof {
                    lemma_legal_moves(b);
                    lemma_place_counts(b, pos as int);
                    lemma_clear_undoes_place(b, pos as int);
                }
                self.make_move(pos);
                let eval = self.minimax(low, high);
                self.undo_move(pos);
                if eval < best {
                    best = eval;
                }
                if eval < high {
                    high = eval;
                }
                if high <= low {
                    break ;
                }
                k = k + 1;
            }
            best
        }
    }

    /// The move to make for the player whose turn it is, or `-1` when the
    /// board has no free cell. The board is left as it was.
    ///
    /// Every legal move is made, searched with the widest window and taken
    /// back. The first player gets the move with the highest value, the
    /// second the one with the lowest; among equals the smallest cell wins.
    pub fn best_move(&mut self) -> (mv: i8)
        requires
            old(self).wf(),
        ensures
            final(self).wf(),
            final(self)@ == old(self)@,
            mv == -1 <==> is_full(old(self)@),
            mv != -1 ==> is_best_move(old(self)@, mv as int),
            mv != -1 && outcome(old(self)@) is OnGoing ==> {
                move_value(old(self)@, mv as int) == minimax_value(old(self)@)
            },
    {
        let ghost b = self@;
        let maximize = self.turn_to_move() == PLAYER_ONE;
        let moves = self.get_all_moves();
        proof {
            lemma_legal_moves(b);
            lemma_full_iff_no_moves(b);
        }
        let mut evaluations: Vec<(i8, i8)> = Vec::new();
        let mut k: usize = 0;
        while k < moves.len()
            invariant
                self.wf(),
                self@ == b,
                moves@ == legal_moves(b),
                k <= moves.len(),
                evaluations.len() == k,
                forall|j: int|
                    0 <= j < k ==> {
                        &&& (#[trigger] evaluations[j]).0 == moves[j]
                        &&& evaluations[j].1 == move_value(b, moves[j] as int)
                    },
            decreases moves.len() - k,
        {
            let pos = moves[k];
            proof {
                lemma_legal_moves(b);
                lemma_clear_undoes_place(b, pos as int);
                lemma_minimax_value_range(place(b, pos as int));
            }
            self.make_move(pos);
            let score = self.minimax(i8::MIN, i8::MAX);
            self.undo_move(pos);
            evaluations.push((pos as i8, score));
            k = k + 1;
        }
        if evaluations.len() == 0 {
            return -1;
        }
        let mut chosen: usize = 0;
        let mut j: usize = 1;
        while j < evaluations.len()
            invariant
                evaluations.len() == moves.len(),
                1 <= j <= evaluations.len(),
                chosen < j,
                maximize == maximizing(b),
                forall|i: int|
                    0 <= i < j ==> !prefers(
                        b,
                        (#[trigger] evaluations[i]).1 as int,
                        evaluations[chosen as int].1 as int,
                    ),
                forall|i: int|
                    0 <= i < chosen ==> prefers(
                        b,
                        evaluations[chosen as int].1 as int,
                        (#[trigger] evaluations[i]).1 as int,
                    ),
            decreases evaluations.len() - j,
        {
            let score = evaluations[j].1;
            let leader = evaluations[chosen].1;
            if (maximize && score > leader) || (!maximize && score < leader) {
                chosen = j;
            }
            j = j + 1;
        }
        let mv = evaluations[chosen].0;
        proof {
            let idx = mv as int;
            assert forall|c: int| is_free(b, c) implies !prefers(
                b,
                #[trigger] move_value(b, c),
                move_value(b, idx),
            ) by {
                let i = choose|i: int| 0 <= i < moves.len() && moves[i] == c as usize;
                assert(evaluations[i].1 == move_value(b, c));
            }
            assert forall|c: int| is_free(b, c) && c < idx implies prefers(
                b,
                move_value(b, idx),
                #[trigger] move_value(b, c),
            ) by {
                let i = choose|i: int| 0 <= i < moves.len() && moves[i] == c as usize;
                assert(evaluations[i].1 == move_value(b, c));
            }
            if outcome(b) is OnGoing {
                lemma_best_move_keeps_value(b, idx);
            }
        }
        mv
    }
}

} // verus!
