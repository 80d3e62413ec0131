//! The board of a game in play, and the operations that read and change it.

use crate::rules::{
    clear, count_marks, free_below, has_line, holds_line, initial_board, is_free, is_mark,
    label, legal_moves, lemma_legal_moves, line, marks_of, marks_placed, mover, outcome, place,
    well_formed, GameOver, CELLS, LINES, PLAYER_ONE, PLAYER_TWO,
};
use vstd::prelude::*;

verus! {

/// A game of tic-tac-toe: nine cells, numbered row by row from the top left.
#[derive(Debug)]
pub struct TicTacToe {
    board: Vec<char>,
}

impl View for TicTacToe {
    type V = Seq<char>;

    /// The nine cells, in order.
    closed spec fn view(&self) -> Seq<char> {
        self.board@
    }
}

/// The three cells of winning line `k`.
fn winning_line(k: usize) -> (cells: (usize, usize, usize))
    requires
        k < LINES,
    ensures
        (cells.0 as int, cells.1 as int, cells.2 as int) == line(k as int),
        cells.0 < CELLS,
        cells.1 < CELLS,
        cells.2 < CELLS,
{
    if k == 0 {
        (0, 1, 2)
    } else if k == 1 {
        (3, 4, 5)
    } else if k == 2 {
        (6, 7, 8)
    } else if k == 3 {
        (0, 3, 6)
    } else if k == 4 {
        (1, 4, 7)
    } else if k == 5 {
        (2, 5, 8)
    } else if k == 6 {
        (0, 4, 8)
    } else {
        (2, 4, 6)
    }
}

/// The digit that labels the free cell at position `idx`.
fn digit(idx: usize) -> (c: char)
    requires
        idx < CELLS,
    ensures
        c == label(idx as int),
{
    ('0' as u8 + idx as u8) as char
}

impl TicTacToe {
    /// Every operation expects, and keeps, a well-formed board.
    pub open spec fn wf(&self) -> bool {
        well_formed(self@)
    }

    /// A game in which no move has been made.
    pub fn new() -> (game: Self)
        ensures
            game.wf(),
            game@ == initial_board(),
    {
        let board = vec!['0', '1', '2', '3', '4', '5', '6', '7', '8'];
        TicTacToe { board }
    }

    /// The cells as they stand, for display.
    pub fn board(&self) -> (cells: &Vec<char>)
        ensures
            cells@ == self@,
    {
        &self.board
    }

    /// How many cells hold the mark `player`.
    fn count(&self, player: char) -> (n: u8)
        requires
            self.wf(),
        ensures
            n == marks_of(self@, player),
    {
        let mut n: u8 = 0;
        let mut i: usize = 0;
        while i < CELLS
            invariant
                self.wf(),
                i <= CELLS,
                n <= i,
                n == count_marks(self@, player, i as nat),
            decreases CELLS - i,
        {
            if self.board[i] == player {
                n = n + 1;
            }
            i = i + 1;
        }
        n
    }

    /// The mark of the player whose turn it is: the first player moves
    /// whenever they have no more marks on the board than the second.
    pub fn turn_to_move(&self) -> (player: char)
        requires
            self.wf(),
        ensures
            player == mover(self@),
    {
        let ones = self.count(PLAYER_ONE);
        let twos = self.count(PLAYER_TWO);
        if ones <= twos {
            PLAYER_ONE
        } else {
            PLAYER_TWO
        }
    }

    /// Marks cell `mv` for the player whose turn it is. A cell that is
    /// already marked is overwritten.
    pub fn make_move(&mut self, mv: usize)
        requires
            old(self).wf(),
            mv < CELLS,
        ensures
            final(self).wf(),
            final(self)@ == place(old(self)@, mv as int),
    {
        let turn = self.turn_to_move();
        self.board.set(mv, turn);
    }

    /// Gives cell `mv` back its label, which takes back a move made there.
    pub fn undo_move(&mut self, mv: usize)
        requires
            old(self).wf(),
            mv < CELLS,
        ensures
            final(self).wf(),
            final(self)@ == clear(old(self)@, mv as int),
    {
        let c = digit(mv);
        self.board.set(mv, c);
    }

    /// Whether `mv` names a cell of the board that is still free.
    pub fn is_move_valid(&self, mv: usize) -> (valid: bool)
        requires
            self.wf(),
        ensures
            valid == is_free(self@, mv as int),
    {
        if mv >= self.board.len() {
            return false;
        }
        self.board[mv] != PLAYER_ONE && self.board[mv] != PLAYER_TWO
    }

    /// Whether `player` owns one of the eight lines.
    fn owns_line(&self, player: char) -> (owns: bool)
        requires
            self.wf(),
        ensures
            owns == has_line(self@, player),
    {
        let mut k: usize = 0;
        while k < LINES
            invariant
                self.wf(),
                k <= LINES,
                forall|j: int| 0 <= j < k ==> !holds_line(self@, j, player),
            decreases LINES - k,
        {
            let (x, y, z) = winning_line(k);
            if player == self.board[x] && self.board[x] == self.board[y] && self.board[y]
                == self.board[z] {
                return true;
            }
            k = k + 1;
        }
        false
    }

    /// Where the game stands. A line of the first player is reported before
    /// one of the second; with no line, the game goes on while a cell is free.
    pub fn game_over(&self) -> (state: GameOver)
        requires
            self.wf(),
        ensures
            state == outcome(self@),
    {
        if self.owns_line(PLAYER_ONE) {
            return GameOver::Winner(PLAYER_ONE);
        }
        if self.owns_line(PLAYER_TWO) {
            return GameOver::Winner(PLAYER_TWO);
        }
        let mut i: usize = 0;
        while i < CELLS
            invariant
                self.wf(),
                i <= CELLS,
                !has_line(self@, PLAYER_ONE),
                !has_line(self@, PLAYER_TWO),
                forall|j: int| 0 <= j < i ==> !is_free(self@, j),
            decreases CELLS - i,
        {
            if self.board[i] != PLAYER_ONE && self.board[i] != PLAYER_TWO {
                return GameOver::OnGoing;
            }
            i = i + 1;
        }
        assert forall|j: int| 0 <= j < self@.len() implies is_mark(#[trigger] self@[j]) by {
            assert(!is_free(self@, j));
        }
        GameOver::Draw
    }

    /// The legal moves: every free cell, once, in ascending order. There are
    /// nine of them less the number of marks on the board.
    pub fn get_all_moves(&self) -> (moves: Vec<usize>)
        requires
            self.wf(),
        ensures
            moves@ == legal_moves(self@),
            moves.len() == CELLS - marks_placed(self@),
            moves@.no_duplicates(),
            forall|k: int| 0 <= k < moves.len() ==> is_free(self@, (#[trigger] moves[k]) as int),
            forall|j: int, k: int|
                0 <= j < k < moves.len() ==> (#[trigger] moves[j]) < (#[trigger] moves[k]),
            forall|i: int| #[trigger] is_free(self@, i) ==> moves@.contains(i as usize),
    {
        let mut moves: Vec<usize> = Vec::new();
        let mut pos: usize = 0;
        while pos < CELLS
            invariant
                self.wf(),
                pos <= CELLS,
                moves@ == free_below(self@, pos as nat),
            decreases CELLS - pos,
        {
            if self.board[pos] != PLAYER_ONE && self.board[pos] != PLAYER_TWO {
                moves.push(pos);
            }
            pos = pos + 1;
        }
        proof {
            lemma_legal_moves(self@);
        }
        moves
    }
}

} // verus!
