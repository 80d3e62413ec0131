use tictactoe::{GameOver, TicTacToe};

fn after(moves: &[usize]) -> TicTacToe {
    let mut game = TicTacToe::new();
    for &mv in moves {
        game.make_move(mv);
    }
    game
}

/// The value of the position by a search that skips nothing.
fn plain_value(game: &mut TicTacToe) -> i8 {
    match game.game_over() {
        GameOver::OnGoing => {}
        GameOver::Draw => return 0,
        GameOver::Winner(player) => return if player == 'X' { 1 } else { -1 },
    }
    let raise = game.turn_to_move() == 'X';
    let mut best: Option<i8> = None;
    for mv in game.get_all_moves() {
        game.make_move(mv);
        let value = plain_value(game);
        game.undo_move(mv);
        best = match best {
            None => Some(value),
            Some(so_far) if raise => Some(so_far.max(value)),
            Some(so_far) => Some(so_far.min(value)),
        };
    }
    best.unwrap()
}

/// Every position of a game that is at most `plies` moves old.
fn positions(plies: usize) -> Vec<Vec<usize>> {
    let mut found = vec![vec![]];
    let mut layer: Vec<Vec<usize>> = vec![vec![]];
    for _ in 0..plies {
        let mut next = Vec::new();
        for opening in &layer {
            let game = after(opening);
            if game.game_over() != GameOver::OnGoing {
                continue;
            }
            for mv in game.get_all_moves() {
                let mut longer = opening.clone();
                longer.push(mv);
                next.push(longer);
            }
        }
        found.extend(next.iter().cloned());
        layer = next;
    }
    found
}

#[test]
fn evaluate_scores_a_win_of_the_first_player() {
    let game = after(&[0, 3, 1, 4, 2]);
    assert_eq!(game.game_over(), GameOver::Winner('X'));
    assert_eq!(game.evaluate(), 1);
}

#[test]
fn evaluate_scores_a_win_of_the_second_player() {
    let game = after(&[0, 3, 1, 4, 8, 5]);
    assert_eq!(game.game_over(), GameOver::Winner('O'));
    assert_eq!(game.evaluate(), -1);
}

#[test]
fn evaluate_scores_a_draw() {
    let game = after(&[0, 2, 1, 3, 5, 4, 6, 7, 8]);
    assert_eq!(game.game_over(), GameOver::Draw);
    assert_eq!(game.evaluate(), 0);
}

#[test]
fn empty_board_is_a_forced_draw() {
    let mut game = TicTacToe::new();
    assert_eq!(game.minimax(i8::MIN, i8::MAX), 0);
    assert_eq!(game.board(), TicTacToe::new().board());
    let mv = game.best_move();
    assert_eq!(mv, 0);
    game.make_move(mv as usize);
    assert_eq!(game.minimax(i8::MIN, i8::MAX), 0);
}

#[test]
fn first_player_completes_a_line() {
    let mut game = after(&[0, 3, 1, 4]);
    assert_eq!(game.turn_to_move(), 'X');
    assert_eq!(game.minimax(i8::MIN, i8::MAX), 1);
    assert_eq!(game.best_move(), 2);
    assert_eq!(game.board(), &vec!['X', 'X', '2', 'O', 'O', '5', '6', '7', '8']);
}

#[test]
fn second_player_completes_a_line() {
    let mut game = after(&[0, 3, 2, 4, 7]);
    assert_eq!(game.turn_to_move(), 'O');
    assert_eq!(game.minimax(i8::MIN, i8::MAX), -1);
    assert_eq!(game.best_move(), 5);
    assert_eq!(game.board(), &vec!['X', '1', 'X', 'O', 'O', '5', '6', 'X', '8']);
}

#[test]
fn second_player_takes_the_first_of_two_wins() {
    let mut game = after(&[0, 3, 1, 4, 8]);
    assert_eq!(game.turn_to_move(), 'O');
    assert_eq!(game.minimax(i8::MIN, i8::MAX), -1);
    assert_eq!(game.best_move(), 2);
}

#[test]
fn second_player_blocks_a_line() {
    let mut game = after(&[0, 4, 1]);
    assert_eq!(game.turn_to_move(), 'O');
    assert_eq!(game.best_move(), 2);
    assert_eq!(game.minimax(i8::MIN, i8::MAX), 0);
}

#[test]
fn first_player_blocks_a_line() {
    let mut game = after(&[0, 4, 8, 1]);
    assert_eq!(game.turn_to_move(), 'X');
    assert_eq!(game.best_move(), 7);
    assert_eq!(game.minimax(i8::MIN, i8::MAX), 0);
}

#[test]
fn equal_moves_go_to_the_smallest_cell() {
    let mut game = TicTacToe::new();
    assert_eq!(game.best_move(), 0);
    let mut game = after(&[4]);
    assert_eq!(game.best_move(), 0);
    let mut game = after(&[0, 3, 1, 4, 8]);
    game.undo_move(8);
    game.make_move(7);
    game.undo_move(7);
    assert_eq!(game.board(), &vec!['X', 'X', '2', 'O', 'O', '5', '6', '7', '8']);
    assert_eq!(game.best_move(), 2);
}

#[test]
fn reply_to_a_corner_is_the_center() {
    let mut game = after(&[0]);
    assert_eq!(game.best_move(), 4);
    assert_eq!(game.minimax(i8::MIN, i8::MAX), 0);
}

#[test]
fn edge_reply_to_the_center_loses() {
    let mut game = after(&[4, 1]);
    assert_eq!(game.minimax(i8::MIN, i8::MAX), 1);
    let mut game = after(&[4, 0]);
    assert_eq!(game.minimax(i8::MIN, i8::MAX), 0);
}

#[test]
fn no_move_on_a_full_board() {
    let mut game = after(&[0, 2, 1, 3, 5, 4, 6, 7, 8]);
    assert_eq!(game.best_move(), -1);
    assert_eq!(game.minimax(i8::MIN, i8::MAX), 0);
}

#[test]
fn best_move_after_the_game_is_won_is_the_first_free_cell() {
    let mut game = after(&[0, 3, 1, 4, 2]);
    assert_eq!(game.game_over(), GameOver::Winner('X'));
    assert_eq!(game.best_move(), 5);
    assert_eq!(game.minimax(i8::MIN, i8::MAX), 1);
    assert_eq!(game.minimax(0, 0), 1);
}

#[test]
fn search_leaves_the_board_as_it_was() {
    for opening in positions(2) {
        let mut game = after(&opening);
        let before = game.board().clone();
        game.minimax(i8::MIN, i8::MAX);
        assert_eq!(game.board(), &before);
        game.minimax(0, 1);
        assert_eq!(game.board(), &before);
        game.best_move();
        assert_eq!(game.board(), &before);
    }
}

#[test]
fn pruned_search_equals_plain_search() {
    for opening in positions(3) {
        let mut game = after(&opening);
        let value = plain_value(&mut game);
        assert_eq!(game.minimax(i8::MIN, i8::MAX), value);
        assert_eq!(game.minimax(-2, 2), value);
    }
}

#[test]
fn pruned_search_equals_plain_search_late_in_the_game() {
    for opening in [
        vec![4, 0, 8, 2, 1],
        vec![4, 0, 8, 2, 1, 7],
        vec![0, 4, 8, 1, 7, 6],
        vec![0, 4, 8, 1, 7, 6, 2],
        vec![2, 4, 6, 0, 8, 5, 3],
    ] {
        let mut game = after(&opening);
        let value = plain_value(&mut game);
        assert_eq!(game.minimax(i8::MIN, i8::MAX), value);
    }
}

#[test]
fn score_agrees_with_the_value_in_every_window() {
    for opening in positions(2) {
        let mut game = after(&opening);
        let value = plain_value(&mut game);
        for alpha in -3i8..=3 {
            for beta in (alpha + 1)..=4 {
                let score = game.minimax(alpha, beta);
                assert!((-1..=1).contains(&score));
                if alpha < value && value < beta {
                    assert_eq!(score, value);
                }
                if value <= alpha {
                    assert!(value <= score && score <= alpha);
                }
                if value >= beta {
                    assert!(beta <= score && score <= value);
                }
            }
        }
    }
}

#[test]
fn empty_window_follows_the_smallest_cells() {
    let mut game = TicTacToe::new();
    assert_eq!(game.minimax(0, 0), 1);
    assert_eq!(game.minimax(1, -1), 1);
    let mut game = after(&[4]);
    assert_eq!(game.minimax(0, 0), 0);
    assert_eq!(game.minimax(i8::MAX, i8::MIN), 0);
    let mut game = after(&[0, 4, 8]);
    assert_eq!(game.minimax(0, 0), 1);
    assert_eq!(game.minimax(i8::MIN, i8::MAX), 0);
}

#[test]
fn narrow_window_cuts_off_at_the_bound() {
    let mut game = after(&[0, 3, 1, 4]);
    assert_eq!(game.minimax(-1, 0), 1);
    assert_eq!(game.minimax(1, 2), 1);
    let mut game = after(&[0, 3, 1, 4, 8]);
    assert_eq!(game.minimax(0, 1), -1);
    assert_eq!(game.minimax(-2, -1), -1);
}

#[test]
fn best_move_is_the_first_with_the_best_value() {
    for opening in positions(3) {
        let mut game = after(&opening);
        let raise = game.turn_to_move() == 'X';
        let moves = game.get_all_moves();
        let mut values = Vec::new();
        for &mv in &moves {
            game.make_move(mv);
            values.push(plain_value(&mut game));
            game.undo_move(mv);
        }
        let best = if raise { *values.iter().max().unwrap() } else { *values.iter().min().unwrap() };
        let first = moves[values.iter().position(|v| *v == best).unwrap()];
        assert_eq!(game.best_move(), first as i8);
        if game.game_over() == GameOver::OnGoing {
            assert_eq!(best, plain_value(&mut game));
        }
    }
}

#[test]
fn best_play_from_the_start_ends_in_a_draw() {
    let mut game = TicTacToe::new();
    let mut plies = 0;
    while game.game_over() == GameOver::OnGoing {
        let mv = game.best_move();
        assert!(mv >= 0);
        assert!(game.is_move_valid(mv as usize));
        game.make_move(mv as usize);
        plies += 1;
    }
    assert_eq!(plies, 9);
    assert_eq!(game.game_over(), GameOver::Draw);
    assert_eq!(game.evaluate(), 0);
}
