use rust_othello::{Board, GridPosition, Piece, Player};

fn black_player() -> Player {
    Player { name: "Albert Einstein", piece: Piece::BLACK }
}

fn white_player() -> Player {
    Player { name: "Marie Curie", piece: Piece::WHITE }
}

fn count_empty(board: &Board) -> usize {
    let mut n = 0;
    for y in 0..board.rows() {
        for x in 0..board.cols() {
            if board.is_empty(GridPosition::new(x as i16, y as i16)) {
                n += 1;
            }
        }
    }
    n
}

#[test]
fn in_board() {
    let grid: grid::Grid<Piece> = grid::Grid::new(2, 2);
    let board = Board::set_board(grid);

    // assert true
    assert!(board.in_board(GridPosition::new(0, 0)));
    assert!(board.in_board(GridPosition::new(0, 1)));
    assert!(board.in_board(GridPosition::new(1, 0)));
    assert!(board.in_board(GridPosition::new(1, 1)));

    // assert false (see the '!')
    assert!(!board.in_board(GridPosition::new(-1, 0)));
    assert!(!board.in_board(GridPosition::new(0, -1)));
    assert!(!board.in_board(GridPosition::new(-1, -1)));
    assert!(!board.in_board(GridPosition::new(0, 2)));
    assert!(!board.in_board(GridPosition::new(2, 0)));
    assert!(!board.in_board(GridPosition::new(2, 2)));
}

#[test]
fn line_tracing_stops_at_the_edge() {
    let board = Board::default();
    let end = board.get_end_line(GridPosition::new(3, 3), GridPosition::new(1, 0));
    assert_eq!(end, GridPosition::new(7, 3));
    let line = board.get_line(GridPosition::new(3, 3), GridPosition::new(1, 1));
    assert_eq!(
        line,
        vec![
            GridPosition::new(4, 4),
            GridPosition::new(5, 5),
            GridPosition::new(6, 6),
            GridPosition::new(7, 7),
        ]
    );
    let up = board.get_line(GridPosition::new(2, 1), GridPosition::new(0, -1));
    assert_eq!(up, vec![GridPosition::new(2, 0)]);
}

#[test]
fn default_board_is_standard_opening() {
    let board = Board::default();
    assert_eq!(board.rows(), 8);
    assert_eq!(board.cols(), 8);
    assert_eq!(board.get(GridPosition::new(3, 4)), Piece::BLACK);
    assert_eq!(board.get(GridPosition::new(4, 3)), Piece::BLACK);
    assert_eq!(board.get(GridPosition::new(3, 3)), Piece::WHITE);
    assert_eq!(board.get(GridPosition::new(4, 4)), Piece::WHITE);
    assert_eq!(count_empty(&board), 60);
    assert!(!board.is_full());
    assert!(!board.is_finish());
}

#[test]
fn opening_capture_scenario() {
    // 8x8 standard opening: playing black at (2,3) captures white at (3,3).
    let mut board = Board::default();
    assert!(board.is_valid_move(GridPosition::new(2, 3), Piece::BLACK));
    board.update(GridPosition::new(2, 3), Piece::BLACK);
    assert_eq!(board.get(GridPosition::new(2, 3)), Piece::BLACK);
    assert_eq!(board.get(GridPosition::new(3, 3)), Piece::BLACK);
    assert_eq!(board.score(black_player()), 4);
    assert_eq!(board.score(white_player()), 1);
}

#[test]
fn occupied_cell_is_invalid_and_unchanged() {
    let board = Board::default();
    assert!(!board.is_valid_move(GridPosition::new(3, 3), Piece::BLACK));
    assert!(!board.is_valid_move(GridPosition::new(4, 3), Piece::BLACK));
    // the board is untouched by the rejected attempts
    assert_eq!(board.get(GridPosition::new(3, 3)), Piece::WHITE);
    assert_eq!(board.get(GridPosition::new(4, 3)), Piece::BLACK);
    assert_eq!(board.score(black_player()), 2);
    assert_eq!(board.score(white_player()), 2);
    assert_eq!(count_empty(&board), 60);
}

#[test]
fn neighbors_all_empty_or_own_is_invalid() {
    // A cell whose neighbors are all empty captures nothing.
    let board = Board::default();
    assert!(!board.is_valid_move(GridPosition::new(0, 0), Piece::BLACK));
    assert!(!board.is_valid_move(GridPosition::new(1, 4), Piece::BLACK));

    // A cell adjacent only to the mover's own color captures nothing.
    let mut own = Board::with_size(4, 4);
    own.set(GridPosition::new(1, 1), Piece::BLACK);
    assert!(!own.is_valid_move(GridPosition::new(0, 0), Piece::BLACK));
}

#[test]
fn valid_moves_of_opening_in_row_major_order() {
    let board = Board::default();
    let black_moves = board.get_valid_moves(Piece::BLACK);
    assert_eq!(
        black_moves,
        vec![
            GridPosition::new(3, 2),
            GridPosition::new(2, 3),
            GridPosition::new(5, 4),
            GridPosition::new(4, 5),
        ]
    );
    let white_moves = board.get_valid_moves(Piece::WHITE);
    assert_eq!(
        white_moves,
        vec![
            GridPosition::new(4, 2),
            GridPosition::new(5, 3),
            GridPosition::new(2, 4),
            GridPosition::new(3, 5),
        ]
    );
    assert!(board.can_play(Piece::BLACK));
    assert!(board.can_play(Piece::WHITE));
}

#[test]
fn every_reported_move_rechecks_as_valid() {
    let board = Board::default();
    for piece in [Piece::BLACK, Piece::WHITE] {
        for position in board.get_valid_moves(piece) {
            assert!(board.is_empty(position));
            assert!(board.is_valid_move(position, piece));
        }
    }
}

#[test]
fn full_board_is_finished() {
    let mut board = Board::with_size(2, 2);
    for y in 0..2 {
        for x in 0..2 {
            board.set(GridPosition::new(x, y), Piece::BLACK);
        }
    }
    assert!(board.is_full());
    assert!(!board.can_play(Piece::BLACK));
    assert!(!board.can_play(Piece::WHITE));
    assert!(board.is_finish());
}

#[test]
fn nonfull_board_without_moves_is_finished() {
    let mut board = Board::with_size(2, 2);
    board.set(GridPosition::new(0, 0), Piece::BLACK);
    assert!(!board.is_full());
    assert!(!board.can_play(Piece::BLACK));
    assert!(!board.can_play(Piece::WHITE));
    assert!(board.is_finish());
}

#[test]
fn scores_and_empty_cells_partition_the_board() {
    let mut board = Board::default();
    let total = board.rows() * board.cols();
    let sum = board.score(black_player()) as usize + board.score(white_player()) as usize
        + count_empty(&board);
    assert_eq!(sum, total);

    board.update(GridPosition::new(2, 3), Piece::BLACK);
    let sum = board.score(black_player()) as usize + board.score(white_player()) as usize
        + count_empty(&board);
    assert_eq!(sum, total);
}

#[test]
fn reset_restores_the_opening() {
    let mut board = Board::default();
    board.update(GridPosition::new(2, 3), Piece::BLACK);
    board.reset();
    assert_eq!(board.get(GridPosition::new(2, 3)), Piece::EMPTY);
    assert_eq!(board.get(GridPosition::new(3, 4)), Piece::BLACK);
    assert_eq!(board.get(GridPosition::new(4, 3)), Piece::BLACK);
    assert_eq!(board.get(GridPosition::new(3, 3)), Piece::WHITE);
    assert_eq!(board.get(GridPosition::new(4, 4)), Piece::WHITE);
    assert_eq!(count_empty(&board), 60);
}

#[test]
fn update_flips_a_long_line() {
    // A row of white pieces bounded by black on both ends after the move.
    let mut board = Board::with_size(8, 8);
    for x in 1..7 {
        board.set(GridPosition::new(x, 0), Piece::WHITE);
    }
    board.set(GridPosition::new(7, 0), Piece::BLACK);
    assert!(board.is_valid_move(GridPosition::new(0, 0), Piece::BLACK));
    board.update(GridPosition::new(0, 0), Piece::BLACK);
    for x in 0..8 {
        assert_eq!(board.get(GridPosition::new(x, 0)), Piece::BLACK);
    }
    // nothing outside the captured line changed
    assert_eq!(board.score(black_player()), 8);
    assert_eq!(board.score(white_player()), 0);
}

#[test]
fn update_leaves_noncapturing_directions_unchanged() {
    // Black captures to the right only; the white piece below the move,
    // unbounded by black, stays white.
    let mut board = Board::with_size(8, 8);
    board.set(GridPosition::new(1, 0), Piece::WHITE);
    board.set(GridPosition::new(2, 0), Piece::BLACK);
    board.set(GridPosition::new(0, 1), Piece::WHITE);
    board.update(GridPosition::new(0, 0), Piece::BLACK);
    assert_eq!(board.get(GridPosition::new(0, 0)), Piece::BLACK);
    assert_eq!(board.get(GridPosition::new(1, 0)), Piece::BLACK);
    assert_eq!(board.get(GridPosition::new(2, 0)), Piece::BLACK);
    assert_eq!(board.get(GridPosition::new(0, 1)), Piece::WHITE);
}
