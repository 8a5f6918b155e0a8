use rust_othello::{Piece, Player};

#[test]
fn fmt_player() {
    let player_one = Player { name: "Valentin Colin", piece: Piece::WHITE };
    let player_two = Player { name: "Colin Valentin", piece: Piece::BLACK };

    assert_eq!("Valentin Colin (WHITE)", player_one.text().as_str());
    assert_eq!("Colin Valentin (BLACK)", player_two.text().as_str());
}
