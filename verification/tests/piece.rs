use rust_othello::Piece;

#[test]
fn board_fmt() {
    let piece_black = Piece::BLACK;
    let piece_white = Piece::WHITE;
    let piece_empty = Piece::EMPTY;

    assert_eq!("BLACK", piece_black.text().as_str());
    assert_eq!("WHITE", piece_white.text().as_str());
    assert_eq!("EMPTY", piece_empty.text().as_str());
}

#[test]
fn default() {
    assert_eq!(Piece::default(), Piece::EMPTY);
}

#[test]
fn next_swaps_colors() {
    assert_eq!(Piece::BLACK.next(), Piece::WHITE);
    assert_eq!(Piece::WHITE.next(), Piece::BLACK);
    assert_eq!(Piece::EMPTY.next(), Piece::EMPTY);
}
