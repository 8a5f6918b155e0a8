//! A module that describes players.

use vstd::prelude::*;
use vstd::string::StringExecFns;

use crate::board::Piece;

verus! {

/// A player: a display name and the piece color the player places.
#[derive(Clone, Copy, PartialEq, Eq, Debug)]
pub struct Player {
    pub name: &'static str,
    pub piece: Piece,
}

impl Player {
    /// The player as text: the name, then the piece in parentheses.
    pub fn text(&self) -> (r: String)
        ensures
            r@ == self.name@ + seq![' ', '('] + self.piece.spec_text() + seq![')'],
    {
        proof {
            reveal_strlit(" (");
            reveal_strlit(")");
        }
        let pt = self.piece.text();
        let r = self.name.to_owned().concat(" (").concat(pt.as_str()).concat(")");
        proof {
            assert(r@ =~= self.name@ + seq![' ', '('] + self.piece.spec_text() + seq![')']);
        }
        r
    }
}

} // verus!
