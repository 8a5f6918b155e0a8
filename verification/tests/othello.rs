use rust_othello::{GridPosition, Othello, Piece, Player};

fn new_game() -> Othello {
    let black = Player { name: "Albert Einstein", piece: Piece::BLACK };
    let white = Player { name: "Marie Curie", piece: Piece::WHITE };
    Othello::new(black, white)
}

#[test]
fn new_game_starts_with_black() {
    let game = new_game();
    assert_eq!(game.current_player.piece, Piece::BLACK);
    assert!(!game.gameover);
    assert!(game.current_move.is_none());
    assert_eq!(game.score(), (2, 2));
}

#[test]
fn click_records_a_valid_move() {
    // Cell (2,3) spans pixels [200,300) x [300,400).
    let mut game = new_game();
    game.click(GridPosition::new(250, 350));
    assert_eq!(game.current_move, Some(GridPosition::new(2, 3)));
    assert!(game.current_player_has_played);
}

#[test]
fn click_on_invalid_cell_changes_nothing() {
    let mut game = new_game();
    // (3,3) is occupied, (0,0) captures nothing, (0,0) pixel is off-screen.
    game.click(GridPosition::new(350, 350));
    game.click(GridPosition::new(50, 50));
    game.click(GridPosition::new(0, 0));
    assert!(game.current_move.is_none());
    assert!(!game.current_player_has_played);
}

#[test]
fn update_applies_move_and_passes_turn() {
    let mut game = new_game();
    game.click(GridPosition::new(250, 350));
    game.update();
    assert_eq!(game.score(), (4, 1));
    assert_eq!(game.current_player.piece, Piece::WHITE);
    assert!(!game.current_player_has_played);
    assert!(!game.gameover);
}

#[test]
fn update_without_pending_move_waits() {
    let mut game = new_game();
    game.update();
    assert_eq!(game.score(), (2, 2));
    assert_eq!(game.current_player.piece, Piece::BLACK);
}

#[test]
fn next_player_alternates() {
    let game = new_game();
    assert_eq!(game.next_player().piece, Piece::WHITE);
}

#[test]
fn reset_restores_a_fresh_game() {
    let mut game = new_game();
    game.click(GridPosition::new(250, 350));
    game.update();
    game.reset();
    assert_eq!(game.score(), (2, 2));
    assert_eq!(game.current_player.piece, Piece::BLACK);
    assert!(game.current_move.is_none());
    assert!(!game.current_player_has_played);
    assert!(!game.gameover);
}

#[test]
fn finished_board_sets_gameover() {
    let black = Player { name: "Albert Einstein", piece: Piece::BLACK };
    let white = Player { name: "Marie Curie", piece: Piece::WHITE };
    let mut board = rust_othello::Board::with_size(2, 2);
    board.set(GridPosition::new(0, 0), Piece::BLACK);
    let mut game = Othello::new(black, white).set_board(board);
    assert!(game.is_over());
    game.update();
    assert!(game.gameover);
    game.update();
    assert!(game.gameover);
}
