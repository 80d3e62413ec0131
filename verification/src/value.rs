//! What a position is worth under best play, and what a search that skips
//! hopeless branches returns for it.
//!
//! Scores are taken from the first player's side: `1` when the first player
//! wins, `-1` when the second does, `0` for a draw. The first player picks
//! replies that raise the score, the second player replies that lower it.

use crate::rules::{
    has_line, is_free, legal_moves, lemma_full_iff_no_moves, lemma_legal_moves,
    lemma_place_counts, lemma_place_gives_no_line_to_other, mover, outcome, place, GameOver,
    CELLS, PLAYER_ONE,
};
use vstd::prelude::*;

verus! {

/// The score of a finished game: `1` for a win of the first player, `-1` for
/// a win of the second, `0` otherwise.
pub open spec fn terminal_score(b: Seq<char>) -> int {
    match outcome(b) {
        GameOver::Winner(player) => if player == PLAYER_ONE {
            1
        } else {
            -1
        },
        _ => 0,
    }
}

/// Whether the player to move on `b` is the one who raises the score.
pub open spec fn maximizing(b: Seq<char>) -> bool {
    mover(b) == PLAYER_ONE
}

/// The larger of two scores.
pub open spec fn higher(x: int, y: int) -> int {
    if x >= y {
        x
    } else {
        y
    }
}

/// The smaller of two scores.
pub open spec fn lower(x: int, y: int) -> int {
    if x <= y {
        x
    } else {
        y
    }
}

/// Whether the player to move on `b` would rather have score `x` than `y`.
pub open spec fn prefers(b: Seq<char>, x: int, y: int) -> bool {
    if maximizing(b) {
        x > y
    } else {
        x < y
    }
}

/// The score of position `b` when both players play as well as can be
/// played: the score of the game if it is over, and otherwise the best, for
/// the player to move, of the values of the positions one move away.
pub open spec fn minimax_value(b: Seq<char>) -> int
    decreases legal_moves(b).len(), legal_moves(b).len() + 1,
    when b.len() == CELLS
{
    if outcome(b) is OnGoing {
        best_reply(b, 0)
    } else {
        terminal_score(b)
    }
}

/// The best, for the player to move on `b`, of the values reached by the
/// legal moves from the `k`-th on. With no move left it is the score of a
/// loss for that player.
pub open spec fn best_reply(b: Seq<char>, k: nat) -> int
    decreases legal_moves(b).len(), legal_moves(b).len() - k,
    when b.len() == CELLS
{
    let moves = legal_moves(b);
    if k >= moves.len() {
        if maximizing(b) {
            -1
        } else {
            1
        }
    } else {
        proof {
            lemma_legal_moves(b);
            lemma_place_counts(b, moves[k as int] as int);
        }
        let here = minimax_value(place(b, moves[k as int] as int));
        let later = best_reply(b, k + 1);
        if maximizing(b) {
            higher(here, later)
        } else {
            lower(here, later)
        }
    }
}

/// The value of the position reached from `b` by marking cell `idx`.
pub open spec fn move_value(b: Seq<char>, idx: int) -> int {
    minimax_value(place(b, idx))
}

/// Whether marking cell `idx` is the move to make on `b`: it is legal, no
/// legal move leads to a position the player to move would rather have, and
/// every legal move at a smaller cell leads to a strictly worse one.
pub open spec fn is_best_move(b: Seq<char>, idx: int) -> bool {
    &&& is_free(b, idx)
    &&& forall|j: int|
        is_free(b, j) ==> !prefers(b, #[trigger] move_value(b, j), move_value(b, idx))
    &&& forall|j: int|
        is_free(b, j) && j < idx ==> prefers(b, move_value(b, idx), #[trigger] move_value(b, j))
}

/// What a search of `b` inside the window from `alpha` to `beta` returns: the
/// score of the game if it is over, and otherwise the outcome of going
/// through the legal moves with the running best at its starting value.
pub open spec fn pruned_value(b: Seq<char>, alpha: int, beta: int) -> int
    decreases legal_moves(b).len(), legal_moves(b).len() + 1,
    when b.len() == CELLS
{
    if outcome(b) is OnGoing {
        let start = if maximizing(b) {
            i8::MIN as int
        } else {
            i8::MAX as int
        };
        pruned_scan(b, 0, alpha, beta, start)
    } else {
        terminal_score(b)
    }
}

/// The outcome of going through the legal moves on `b` from the `k`-th on,
/// in order, with `best` the best score found among the earlier ones. Each
/// move is searched inside the current window; its score updates the running
/// best and narrows the window from the side of the player to move; once the
/// window is empty the remaining moves are skipped.
pub open spec fn pruned_scan(b: Seq<char>, k: nat, alpha: int, beta: int, best: int) -> int
    decreases legal_moves(b).len(), legal_moves(b).len() - k,
    when b.len() == CELLS
{
    let moves = legal_moves(b);
    if k >= moves.len() {
        best
    } else {
        proof {
            lemma_legal_moves(b);
            lemma_place_counts(b, moves[k as int] as int);
        }
        let eval = pruned_value(place(b, moves[k as int] as int), alpha, beta);
        if maximizing(b) {
            let best = higher(best, eval);
            let alpha = higher(alpha, eval);
            if beta <= alpha {
                best
            } else {
                pruned_scan(b, k + 1, alpha, beta, best)
            }
        } else {
            let best = lower(best, eval);
            let beta = lower(beta, eval);
            if beta <= alpha {
                best
            } else {
                pruned_scan(b, k + 1, alpha, beta, best)
            }
        }
    }
}

/// The score of the game that is played out from `b` when every move goes
/// to the smallest free cell.
pub open spec fn smallest_cells_score(b: Seq<char>) -> int
    decreases legal_moves(b).len(),
    when b.len() == CELLS
{
    if outcome(b) is OnGoing {
        proof {
            lemma_full_iff_no_moves(b);
            lemma_legal_moves(b);
            lemma_place_counts(b, legal_moves(b)[0] as int);
        }
        smallest_cells_score(place(b, legal_moves(b)[0] as int))
    } else {
        terminal_score(b)
    }
}

/// How the score `found` by a search inside the window from `alpha` to
/// `beta` stands to the true `value` of the position searched. When the
/// value lies strictly inside the window, the score is the value. When the
/// value lies on or outside a bound, the score lies between the value and
/// that bound.
pub open spec fn agrees_in_window(value: int, found: int, alpha: int, beta: int) -> bool {
    &&& alpha < value < beta ==> found == value
    &&& value <= alpha ==> value <= found <= alpha
    &&& value >= beta ==> beta <= found <= value
}

/// The value of a position is one of `-1`, `0` and `1`.
pub proof fn lemma_minimax_value_range(b: Seq<char>)
    requires
        b.len() == CELLS,
    ensures
        -1 <= minimax_value(b) <= 1,
    decreases legal_moves(b).len(), legal_moves(b).len() + 1,
{
    if outcome(b) is OnGoing {
        lemma_best_reply_range(b, 0);
    }
}

/// The best reply from any point of the move list is one of `-1`, `0`, `1`.
proof fn lemma_best_reply_range(b: Seq<char>, k: nat)
    requires
        b.len() == CELLS,
    ensures
        -1 <= best_reply(b, k) <= 1,
    decreases legal_moves(b).len(), legal_moves(b).len() - k,
{
    let moves = legal_moves(b);
    if k < moves.len() {
        lemma_legal_moves(b);
        lemma_place_counts(b, moves[k as int] as int);
        lemma_minimax_value_range(place(b, moves[k as int] as int));
        lemma_best_reply_range(b, k + 1);
    }
}

/// The best reply among the moves from the `k`-th on is reached by one of
/// them, and none of them reaches anything the player to move would prefer.
proof fn lemma_best_reply_is_best(b: Seq<char>, k: nat)
    requires
        b.len() == CELLS,
    ensures
        forall|j: int|
            k <= j < legal_moves(b).len() ==> !prefers(
                b,
                move_value(b, #[trigger] legal_moves(b)[j] as int),
                best_reply(b, k),
            ),
        k < legal_moves(b).len() ==> exists|j: int|
            k <= j < legal_moves(b).len() && move_value(b, #[trigger] legal_moves(b)[j] as int)
                == best_reply(b, k),
    decreases legal_moves(b).len() - k,
{
    let moves = legal_moves(b);
    if k < moves.len() {
        lemma_best_reply_is_best(b, k + 1);
        lemma_legal_moves(b);
        lemma_place_counts(b, moves[k as int] as int);
        lemma_minimax_value_range(place(b, moves[k as int] as int));
        let here = move_value(b, moves[k as int] as int);
        let later = best_reply(b, k + 1);
        assert(best_reply(b, k) == if maximizing(b) {
            higher(here, later)
        } else {
            lower(here, later)
        });
    }
}

/// While the game goes on, the value of a position is the best of the values
/// its legal moves lead to: one of them leads to a position of that value,
/// and none to a position the player to move would rather have.
pub proof fn lemma_value_is_best_of_moves(b: Seq<char>)
    requires
        b.len() == CELLS,
        outcome(b) is OnGoing,
    ensures
        forall|idx: int|
            is_free(b, idx) ==> !prefers(b, #[trigger] move_value(b, idx), minimax_value(b)),
        exists|idx: int| is_free(b, idx) && #[trigger] move_value(b, idx) == minimax_value(b),
{
    lemma_legal_moves(b);
    lemma_full_iff_no_moves(b);
    lemma_best_reply_is_best(b, 0);
}

/// While the game goes on, the best move leads to a position whose value is
/// the value of the position it is made from.
pub proof fn lemma_best_move_keeps_value(b: Seq<char>, idx: int)
    requires
        b.len() == CELLS,
        outcome(b) is OnGoing,
        is_best_move(b, idx),
    ensures
        move_value(b, idx) == minimax_value(b),
{
    lemma_value_is_best_of_moves(b);
}

/// A move that completes a line for the player who makes it wins the game
/// there and then, so a position that offers such a move is worth a win to
/// the player to move.
pub proof fn lemma_completing_move_wins(b: Seq<char>, idx: int)
    requires
        b.len() == CELLS,
        outcome(b) is OnGoing,
        is_free(b, idx),
        has_line(place(b, idx), mover(b)),
    ensures
        outcome(place(b, idx)) == GameOver::Winner(mover(b)),
        move_value(b, idx) == if maximizing(b) {
            1int
        } else {
            -1int
        },
        minimax_value(b) == move_value(b, idx),
{
    if !maximizing(b) {
        lemma_place_gives_no_line_to_other(b, idx, PLAYER_ONE);
    }
    lemma_minimax_value_range(b);
    lemma_value_is_best_of_moves(b);
}

/// Skipping branches changes nothing that matters. Inside any window that is
/// not empty, the pruned search finds the value of the position when that
/// value lies strictly inside the window, and otherwise a score between the
/// value and the bound that the value does not clear.
pub proof fn lemma_pruned_value_sound(b: Seq<char>, alpha: int, beta: int)
    requires
        b.len() == CELLS,
        i8::MIN <= alpha < beta <= i8::MAX,
    ensures
        agrees_in_window(minimax_value(b), pruned_value(b, alpha, beta), alpha, beta),
    decreases legal_moves(b).len(), legal_moves(b).len() + 1,
{
    if outcome(b) is OnGoing {
        lemma_full_iff_no_moves(b);
        lemma_minimax_value_range(b);
        if maximizing(b) {
            lemma_pruned_scan_sound(b, 0, alpha, beta, i8::MIN as int);
        } else {
            lemma_pruned_scan_sound(b, 0, alpha, beta, i8::MAX as int);
        }
    }
}

/// The step behind `lemma_pruned_value_sound`. Going through the moves from
/// the `k`-th on, with a running best that has not reached into the window,
/// ends with a score that agrees with the better of that running best and
/// the best reply among those moves.
proof fn lemma_pruned_scan_sound(b: Seq<char>, k: nat, alpha: int, beta: int, best: int)
    requires
        b.len() == CELLS,
        i8::MIN <= alpha < beta <= i8::MAX,
        maximizing(b) ==> i8::MIN <= best <= alpha,
        !maximizing(b) ==> beta <= best <= i8::MAX,
    ensures
        k >= legal_moves(b).len() ==> pruned_scan(b, k, alpha, beta, best) == best,
        k < legal_moves(b).len() ==> agrees_in_window(
            if maximizing(b) {
                higher(best, best_reply(b, k))
            } else {
                lower(best, best_reply(b, k))
            },
            pruned_scan(b, k, alpha, beta, best),
            alpha,
            beta,
        ),
    decreases legal_moves(b).len(), legal_moves(b).len() - k,
{
    let moves = legal_moves(b);
    if k < moves.len() {
        lemma_legal_moves(b);
        let child = place(b, moves[k as int] as int);
        lemma_place_counts(b, moves[k as int] as int);
        lemma_pruned_value_sound(child, alpha, beta);
        lemma_minimax_value_range(child);
        let eval = pruned_value(child, alpha, beta);
        let here = minimax_value(child);
        let later = best_reply(b, k + 1);
        assert(best_reply(b, k) == if maximizing(b) {
            higher(here, later)
        } else {
            lower(here, later)
        });
        if maximizing(b) {
            let raised = higher(alpha, eval);
            if raised < beta {
                lemma_pruned_scan_sound(b, k + 1, raised, beta, higher(best, eval));
            }
        } else {
            let lowered = lower(beta, eval);
            if alpha < lowered {
                lemma_pruned_scan_sound(b, k + 1, alpha, lowered, lower(best, eval));
            }
        }
    }
}

/// With the widest window the pruned search returns the value of the
/// position, whatever the position.
pub proof fn lemma_full_window_exact(b: Seq<char>)
    requires
        b.len() == CELLS,
    ensures
        pruned_value(b, i8::MIN as int, i8::MAX as int) == minimax_value(b),
{
    lemma_minimax_value_range(b);
    lemma_pruned_value_sound(b, i8::MIN as int, i8::MAX as int);
}

/// Whatever the window, the pruned search returns one of `-1`, `0`, `1`.
pub proof fn lemma_pruned_value_range(b: Seq<char>, alpha: int, beta: int)
    requires
        b.len() == CELLS,
    ensures
        -1 <= pruned_value(b, alpha, beta) <= 1,
    decreases legal_moves(b).len(), legal_moves(b).len() + 1,
{
    if outcome(b) is OnGoing {
        lemma_full_iff_no_moves(b);
        if maximizing(b) {
            lemma_pruned_scan_range(b, 0, alpha, beta, i8::MIN as int);
        } else {
            lemma_pruned_scan_range(b, 0, alpha, beta, i8::MAX as int);
        }
    }
}

/// The step behind `lemma_pruned_value_range`: once a move has been searched
/// the running best is a score, and it stays one.
proof fn lemma_pruned_scan_range(b: Seq<char>, k: nat, alpha: int, beta: int, best: int)
    requires
        b.len() == CELLS,
        maximizing(b) ==> best <= 1,
        !maximizing(b) ==> -1 <= best,
    ensures
        k < legal_moves(b).len() || -1 <= best <= 1 ==> -1 <= pruned_scan(b, k, alpha, beta, best)
            <= 1,
    decreases legal_moves(b).len(), legal_moves(b).len() - k,
{
    let moves = legal_moves(b);
    if k < moves.len() {
        lemma_legal_moves(b);
        let child = place(b, moves[k as int] as int);
        lemma_place_counts(b, moves[k as int] as int);
        lemma_pruned_value_range(child, alpha, beta);
        let eval = pruned_value(child, alpha, beta);
        if maximizing(b) {
            lemma_pruned_scan_range(b, k + 1, higher(alpha, eval), beta, higher(best, eval));
        } else {
            lemma_pruned_scan_range(b, k + 1, alpha, lower(beta, eval), lower(best, eval));
        }
    }
}

/// With an empty window the search never looks past the first move it
/// tries: it returns the score of the game in which every move goes to the
/// smallest free cell.
pub proof fn lemma_empty_window(b: Seq<char>, alpha: int, beta: int)
    requires
        b.len() == CELLS,
        alpha >= beta,
    ensures
        pruned_value(b, alpha, beta) == smallest_cells_score(b),
    decreases legal_moves(b).len(),
{
    if outcome(b) is OnGoing {
        lemma_full_iff_no_moves(b);
        lemma_legal_moves(b);
        let child = place(b, legal_moves(b)[0] as int);
        lemma_place_counts(b, legal_moves(b)[0] as int);
        lemma_empty_window(child, alpha, beta);
        lemma_pruned_value_range(child, alpha, beta);
    }
}

} // verus!
