//! The rules of the game, stated over a board seen as a sequence of nine cells.
//!
//! A cell holds either the mark of one of the two players or, while it is
//! still free, the digit that names its own position. Everything a game needs
//! to know (whose turn it is, which moves are legal, whether somebody has won)
//! is derived from the cells alone.

use vstd::prelude::*;

verus! {

/// Mark of the player who moves first.
pub const PLAYER_ONE: char = 'X';

/// Mark of the player who moves second.
pub const PLAYER_TWO: char = 'O';

/// Number of cells on the board.
pub const CELLS: usize = 9;

/// Number of winning lines: three rows, three columns, two diagonals.
pub const LINES: usize = 8;

/// Where a game stands.
#[derive(Clone, Copy, Debug, PartialEq, Eq, Structural)]
pub enum GameOver {
    /// The player with this mark owns a complete line.
    Winner(char),
    /// Every cell is marked and nobody owns a line.
    Draw,
    /// Nobody owns a line and at least one cell is free.
    OnGoing,
}

/// Whether `c` is the mark of a player.
pub open spec fn is_mark(c: char) -> bool {
    c == PLAYER_ONE || c == PLAYER_TWO
}

/// The digit shown by the free cell at position `idx`.
pub open spec fn label(idx: int) -> char {
    ('0' as u8 + idx) as char
}

/// The board before the first move: every cell shows its own position.
pub open spec fn initial_board() -> Seq<char> {
    Seq::new(CELLS as nat, |i: int| label(i))
}

/// A board has nine cells, and each cell holds a mark or its own label.
pub open spec fn well_formed(b: Seq<char>) -> bool {
    &&& b.len() == CELLS
    &&& forall|i: int| 0 <= i < CELLS ==> is_mark(#[trigger] b[i]) || b[i] == label(i)
}

/// Whether `idx` names a cell of the board that no player has marked.
pub open spec fn is_free(b: Seq<char>, idx: int) -> bool {
    0 <= idx < b.len() && !is_mark(b[idx])
}

/// One if `cond` holds, zero if not.
pub open spec fn one_if(cond: bool) -> nat {
    if cond {
        1
    } else {
        0
    }
}

/// How many of the first `n` cells hold the mark `player`.
pub open spec fn count_marks(b: Seq<char>, player: char, n: nat) -> nat
    decreases n,
{
    if n == 0 {
        0
    } else {
        count_marks(b, player, (n - 1) as nat) + one_if(b[n - 1] == player)
    }
}

/// How many cells of the board hold the mark `player`.
pub open spec fn marks_of(b: Seq<char>, player: char) -> nat {
    count_marks(b, player, b.len())
}

/// How many cells of the board are marked, by either player.
pub open spec fn marks_placed(b: Seq<char>) -> nat {
    marks_of(b, PLAYER_ONE) + marks_of(b, PLAYER_TWO)
}

/// The player to move: the first player unless they are ahead in marks.
pub open spec fn mover(b: Seq<char>) -> char {
    if marks_of(b, PLAYER_ONE) <= marks_of(b, PLAYER_TWO) {
        PLAYER_ONE
    } else {
        PLAYER_TWO
    }
}

/// The board after the player to move has marked cell `idx`.
pub open spec fn place(b: Seq<char>, idx: int) -> Seq<char> {
    b.update(idx, mover(b))
}

/// The board after cell `idx` has been given back its label.
pub open spec fn clear(b: Seq<char>, idx: int) -> Seq<char> {
    b.update(idx, label(idx))
}

/// The three cells of winning line `k`: rows first, then columns, then the
/// two diagonals.
pub open spec fn line(k: int) -> (int, int, int) {
    if k == 0 {
        (0, 1, 2)
    } else if k == 1 {
        (3, 4, 5)
    } else if k == 2 {
        (6, 7, 8)
    } else if k == 3 {
        (0, 3, 6)
    } else if k == 4 {
        (1, 4, 7)
    } else if k == 5 {
        (2, 5, 8)
    } else if k == 6 {
        (0, 4, 8)
    } else {
        (2, 4, 6)
    }
}

/// Whether all three cells of line `k` hold the mark `player`.
pub open spec fn holds_line(b: Seq<char>, k: int, player: char) -> bool {
    let (x, y, z) = line(k);
    b[x] == player && b[y] == player && b[z] == player
}

/// Whether `player` owns at least one of the eight lines.
pub open spec fn has_line(b: Seq<char>, player: char) -> bool {
    ||| holds_line(b, 0, player)
    ||| holds_line(b, 1, player)
    ||| holds_line(b, 2, player)
    ||| holds_line(b, 3, player)
    ||| holds_line(b, 4, player)
    ||| holds_line(b, 5, player)
    ||| holds_line(b, 6, player)
    ||| holds_line(b, 7, player)
}

/// Whether no cell of the board is free.
pub open spec fn is_full(b: Seq<char>) -> bool {
    forall|i: int| 0 <= i < b.len() ==> is_mark(#[trigger] b[i])
}

/// Where the game stands on board `b`. The first player's lines are looked
/// for before the second player's.
pub open spec fn outcome(b: Seq<char>) -> GameOver {
    if has_line(b, PLAYER_ONE) {
        GameOver::Winner(PLAYER_ONE)
    } else if has_line(b, PLAYER_TWO) {
        GameOver::Winner(PLAYER_TWO)
    } else if is_full(b) {
        GameOver::Draw
    } else {
        GameOver::OnGoing
    }
}

/// The free cells among the first `n`, in ascending order.
pub open spec fn free_below(b: Seq<char>, n: nat) -> Seq<usize>
    decreases n,
{
    if n == 0 {
        Seq::empty()
    } else {
        let lower = free_below(b, (n - 1) as nat);
        if is_free(b, n - 1) {
            lower.push((n - 1) as usize)
        } else {
            lower
        }
    }
}

/// The legal moves on board `b`: its free cells, in ascending order.
pub open spec fn legal_moves(b: Seq<char>) -> Seq<usize> {
    free_below(b, CELLS as nat)
}

/// Writing `c` into cell `idx` changes the count of `player` among the first
/// `n` cells only through that cell.
proof fn lemma_count_marks_update(b: Seq<char>, idx: int, c: char, player: char, n: nat)
    requires
        0 <= idx < b.len(),
        n <= b.len(),
    ensures
        count_marks(b.update(idx, c), player, n) + one_if(idx < n && b[idx] == player)
            == count_marks(b, player, n) + one_if(idx < n && c == player),
    decreases n,
{
    if n > 0 {
        lemma_count_marks_update(b, idx, c, player, (n - 1) as nat);
    }
}

/// The free cells among the first `n` are listed once each, in ascending
/// order, and together with the marked cells they make up all `n`.
proof fn lemma_free_below(b: Seq<char>, n: nat)
    requires
        n <= b.len(),
        n <= CELLS,
    ensures
        free_below(b, n).len() + count_marks(b, PLAYER_ONE, n) + count_marks(b, PLAYER_TWO, n)
            == n,
        forall|k: int|
            0 <= k < free_below(b, n).len() ==> {
                &&& (#[trigger] free_below(b, n)[k]) < n
                &&& is_free(b, free_below(b, n)[k] as int)
            },
        forall|j: int, k: int|
            0 <= j < k < free_below(b, n).len() ==> {
                (#[trigger] free_below(b, n)[j]) < (#[trigger] free_below(b, n)[k])
            },
        forall|i: int|
            0 <= i < n && #[trigger] is_free(b, i) ==> free_below(b, n).contains(i as usize),
    decreases n,
{
    if n > 0 {
        let lower = free_below(b, (n - 1) as nat);
        let all = free_below(b, n);
        lemma_free_below(b, (n - 1) as nat);
        assert forall|i: int| 0 <= i < n && #[trigger] is_free(b, i) implies all.contains(
            i as usize,
        ) by {
            if i < n - 1 {
                let k = choose|k: int| 0 <= k < lower.len() && lower[k] == i as usize;
                assert(all[k] == i as usize);
            } else {
                assert(all[all.len() - 1] == i as usize);
            }
        }
    }
}

/// The legal moves are exactly the free cells, listed once each in strictly
/// ascending order, and there are nine less the number of marks placed.
pub proof fn lemma_legal_moves(b: Seq<char>)
    requires
        b.len() == CELLS,
    ensures
        legal_moves(b).len() == CELLS - marks_placed(b),
        legal_moves(b).no_duplicates(),
        forall|k: int|
            0 <= k < legal_moves(b).len() ==> is_free(b, (#[trigger] legal_moves(b)[k]) as int),
        forall|j: int, k: int|
            0 <= j < k < legal_moves(b).len() ==> {
                (#[trigger] legal_moves(b)[j]) < (#[trigger] legal_moves(b)[k])
            },
        forall|i: int| #[trigger] is_free(b, i) ==> legal_moves(b).contains(i as usize),
{
    lemma_free_below(b, CELLS as nat);
}

/// A board is full exactly when it has no legal move.
pub proof fn lemma_full_iff_no_moves(b: Seq<char>)
    requires
        b.len() == CELLS,
    ensures
        is_full(b) <==> legal_moves(b).len() == 0,
{
    lemma_legal_moves(b);
    if legal_moves(b).len() == 0 {
        assert forall|i: int| 0 <= i < b.len() implies is_mark(#[trigger] b[i]) by {
            if is_free(b, i) {
                assert(legal_moves(b).contains(i as usize));
            }
        }
    } else {
        assert(is_free(b, legal_moves(b)[0] as int));
    }
}

/// Marking a free cell adds one mark for the player to move, none for the
/// other player, and takes one legal move away.
pub proof fn lemma_place_counts(b: Seq<char>, idx: int)
    requires
        b.len() == CELLS,
        is_free(b, idx),
    ensures
        marks_of(place(b, idx), PLAYER_ONE) == marks_of(b, PLAYER_ONE) + one_if(
            mover(b) == PLAYER_ONE,
        ),
        marks_of(place(b, idx), PLAYER_TWO) == marks_of(b, PLAYER_TWO) + one_if(
            mover(b) == PLAYER_TWO,
        ),
        legal_moves(place(b, idx)).len() + 1 == legal_moves(b).len(),
{
    lemma_count_marks_update(b, idx, mover(b), PLAYER_ONE, b.len());
    lemma_count_marks_update(b, idx, mover(b), PLAYER_TWO, b.len());
    lemma_legal_moves(b);
    lemma_legal_moves(place(b, idx));
}

/// Marking a cell and then clearing the same cell gives back the board as it
/// was, provided the cell was free.
pub proof fn lemma_clear_undoes_place(b: Seq<char>, idx: int)
    requires
        well_formed(b),
        is_free(b, idx),
    ensures
        clear(place(b, idx), idx) == b,
{
}

/// A move leaves the lines of the player who did not make it as they were
/// or breaks them: it never gives that player a line.
pub proof fn lemma_place_gives_no_line_to_other(b: Seq<char>, idx: int, other: char)
    requires
        b.len() == CELLS,
        0 <= idx < CELLS,
        other != mover(b),
        !has_line(b, other),
    ensures
        !has_line(place(b, idx), other),
{
}

} // verus!
