//! The turn controller: whose turn it is, applying a chosen move, passing
//! turns, and detecting the end of the game.

use vstd::prelude::*;

use crate::board::{
    can_play_spec, cell, count_cells, finished, initial_cell, pos_in, total_cells, update_result,
    valid_move, Board, Piece, GRID_COLS, GRID_ROWS,
};
use crate::grid_position::{GridPosition, CELL_HEIGHT, CELL_WIDTH, SCREEN_HEIGHT, SCREEN_WIDTH};
use crate::player::Player;

verus! {

/// Main structure of the game that holds all state necessary to play.
pub struct Othello {
    pub board: Board,
    pub player_black: Player,
    pub player_white: Player,
    pub current_player: Player,
    pub current_move: Option<GridPosition>,
    pub current_player_has_played: bool,
    pub gameover: bool,
}

impl Othello {
    /// A game is well formed when its board is, the two players hold
    /// complementary pieces, the current player is one of the two, and a
    /// recorded move is a cell of the board.
    pub open spec fn wf(&self) -> bool {
        &&& self.board.wf()
        &&& self.player_black.piece == Piece::BLACK
        &&& self.player_white.piece == Piece::WHITE
        &&& (self.current_player == self.player_black || self.current_player
            == self.player_white)
        &&& (self.current_player_has_played ==> self.current_move is Some)
        &&& (match self.current_move {
            Some(m) => pos_in(self.board@, m.x as int, m.y as int),
            None => true,
        })
    }

    /// The player who moves after the current one.
    pub open spec fn spec_next_player(&self) -> Player {
        if self.current_player.piece == Piece::BLACK {
            self.player_white
        } else {
            self.player_black
        }
    }

    /// The grid cell a pixel position falls in.
    pub open spec fn grid_cell_of(position: GridPosition) -> GridPosition {
        GridPosition {
            x: (position.x as int / CELL_WIDTH as int) as i16,
            y: (position.y as int / CELL_HEIGHT as int) as i16,
        }
    }

    /// A click at this pixel position lands on the screen and names a valid
    /// move of the current player.
    pub open spec fn click_hits(&self, position: GridPosition) -> bool {
        &&& 0 < position.x < SCREEN_WIDTH && 0 < position.y < SCREEN_HEIGHT
        &&& pos_in(
            self.board@,
            Self::grid_cell_of(position).x as int,
            Self::grid_cell_of(position).y as int,
        )
        &&& valid_move(
            self.board@,
            Self::grid_cell_of(position).x as int,
            Self::grid_cell_of(position).y as int,
            self.current_player.piece,
        )
    }

    /// Create a new game on a freshly seeded default board. Black moves
    /// first: the starting side is a fixed configuration choice of this
    /// library.
    pub fn new(player_black: Player, player_white: Player) -> (r: Self)
        requires
            player_black.piece == Piece::BLACK,
            player_white.piece == Piece::WHITE,
        ensures
            r.wf(),
            r.board@.len() == GRID_ROWS,
            forall|y: int| 0 <= y < GRID_ROWS ==> (#[trigger] r.board@[y]).len() == GRID_COLS,
            forall|x2: int, y2: int|
                pos_in(r.board@, x2, y2) ==> #[trigger] cell(r.board@, x2, y2) == initial_cell(
                    GRID_ROWS as int,
                    GRID_COLS as int,
                    x2,
                    y2,
                ),
            r.player_black == player_black,
            r.player_white == player_white,
            r.current_player == player_black,
            r.current_move is None,
            !r.current_player_has_played,
            !r.gameover,
    {
        Othello {
            board: Board::default(),
            player_black,
            player_white,
            current_player: player_black,
            current_move: None,
            current_player_has_played: false,
            gameover: false,
        }
    }

    /// Reset the game: the board back to the opening position, black to
    /// move, no move pending, not over.
    pub fn reset(&mut self)
        requires
            old(self).wf(),
            old(self).board@.len() >= 2,
            old(self).board@[0].len() >= 2,
        ensures
            final(self).wf(),
            final(self).board@.len() == old(self).board@.len(),
            forall|r: int|
                0 <= r < old(self).board@.len() ==> (#[trigger] final(self).board@[r]).len()
                    == old(self).board@[r].len(),
            forall|x2: int, y2: int|
                pos_in(old(self).board@, x2, y2) ==> #[trigger] cell(final(self).board@, x2, y2)
                    == initial_cell(
                    old(self).board@.len() as int,
                    old(self).board@[0].len() as int,
                    x2,
                    y2,
                ),
            final(self).player_black == old(self).player_black,
            final(self).player_white == old(self).player_white,
            final(self).current_player == old(self).player_black,
            final(self).current_move is None,
            !final(self).current_player_has_played,
            !final(self).gameover,
    {
        self.board.reset();
        self.current_player = self.player_black;
        self.current_move = None;
        self.current_player_has_played = false;
        self.gameover = false;
    }

    /// Set the board of the game, as a builder right after creation.
    pub fn set_board(self, board: Board) -> (r: Self)
        requires
            self.wf(),
            self.current_move is None,
            board.wf(),
        ensures
            r.wf(),
            r.board == board,
            r.player_black == self.player_black,
            r.player_white == self.player_white,
            r.current_player == self.current_player,
            r.current_move is None,
            r.current_player_has_played == self.current_player_has_played,
            r.gameover == self.gameover,
    {
        Othello { board, ..self }
    }

    /// Ask if the game is over: neither side has a legal move on the board.
    pub fn is_over(&self) -> (r: bool)
        requires
            self.wf(),
        ensures
            r == finished(self.board@),
    {
        self.board.is_finish()
    }

    /// Return the player who has to play after the current one.
    pub fn next_player(&self) -> (r: Player)
        requires
            self.wf(),
        ensures
            r == self.spec_next_player(),
    {
        if self.current_player.piece == Piece::BLACK {
            self.player_white
        } else {
            self.player_black
        }
    }

    /// Record a click at a pixel position: when it lands on the screen and
    /// names a valid move of the current player, remember that move as
    /// played; otherwise change nothing.
    pub fn click(&mut self, position: GridPosition)
        requires
            old(self).wf(),
        ensures
            final(self).wf(),
            final(self).board == old(self).board,
            final(self).player_black == old(self).player_black,
            final(self).player_white == old(self).player_white,
            final(self).current_player == old(self).current_player,
            final(self).gameover == old(self).gameover,
            old(self).click_hits(position) ==> final(self).current_move == Some(
                Self::grid_cell_of(position),
            ) && final(self).current_player_has_played,
            !old(self).click_hits(position) ==> final(self).current_move
                == old(self).current_move && final(self).current_player_has_played
                == old(self).current_player_has_played,
    {
        if position.in_screen() {
            let grid_pos = position.into_grid();
            if self.board.in_board(grid_pos) {
                if self.board.is_valid_move(grid_pos, self.current_player.piece) {
                    self.current_move = Some(grid_pos);
                    self.current_player_has_played = true;
                }
            }
        }
    }

    /// Advance the game by one decision step, as the event loop does once
    /// per frame: a finished board ends the game; a recorded move is applied
    /// and the turn passes to the other player; a player without a legal
    /// move is skipped; otherwise the game waits for input.
    pub fn update(&mut self)
        requires
            old(self).wf(),
        ensures
            final(self).wf(),
            final(self).player_black == old(self).player_black,
            final(self).player_white == old(self).player_white,
            old(self).gameover ==> *final(self) == *old(self),
            !old(self).gameover && finished(old(self).board@) ==> *final(self) == (Othello {
                gameover: true,
                ..*old(self)
            }),
            !old(self).gameover && !finished(old(self).board@)
                && old(self).current_player_has_played ==> update_result(
                old(self).board@,
                old(self).current_move.unwrap().x as int,
                old(self).current_move.unwrap().y as int,
                old(self).current_player.piece,
                final(self).board@,
            ) && final(self).current_player == old(self).spec_next_player()
                && !final(self).current_player_has_played && final(self).current_move
                == old(self).current_move && !final(self).gameover,
            !old(self).gameover && !finished(old(self).board@)
                && !old(self).current_player_has_played && !can_play_spec(
                old(self).board@,
                old(self).current_player.piece,
            ) ==> *final(self) == (Othello {
                current_player: old(self).spec_next_player(),
                ..*old(self)
            }),
            !old(self).gameover && !finished(old(self).board@)
                && !old(self).current_player_has_played && can_play_spec(
                old(self).board@,
                old(self).current_player.piece,
            ) ==> *final(self) == *old(self),
    {
        if !self.gameover {
            if self.is_over() {
                self.gameover = true;
            } else if self.current_player_has_played {
                match self.current_move {
                    Some(m) => {
                        self.board.update(m, self.current_player.piece);
                        self.current_player_has_played = false;
                        let np = self.next_player();
                        self.current_player = np;
                    },
                    None => {
                        proof {
                            assert(false);
                        }
                    },
                }
            } else {
                if !self.board.can_play(self.current_player.piece) {
                    let np = self.next_player();
                    self.current_player = np;
                }
            }
        }
    }

    /// The score of the game: how many cells each player owns, black first.
    pub fn score(&self) -> (r: (u8, u8))
        requires
            self.wf(),
            total_cells(self.board@) <= 255,
        ensures
            r.0 as nat == count_cells(self.board@, Piece::BLACK),
            r.1 as nat == count_cells(self.board@, Piece::WHITE),
    {
        (self.board.score(self.player_black), self.board.score(self.player_white))
    }
}

} // verus!
