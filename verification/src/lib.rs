//! Scans a player's stored chess games for two patterns: the bongcloud
//! opening (king to its second rank on move two) and en passant captures,
//! counting both the positions where such a capture was available and the
//! times one was played.

use vstd::prelude::*;

pub mod text;
pub mod extract;
pub mod scan;
pub mod replay;
pub mod bongcloud;
pub mod analyze;

verus! {

/// One side's record in a stored game.
pub struct Participant {
    pub rating: i32,
    pub result: String,
    pub id: String,
    pub username: String,
    pub uuid: String,
}

/// One stored game: its identifier, the raw notation text (absent when the
/// game holds no move text), the starting-arrangement descriptor, and the two
/// sides.
pub struct GameRecord {
    pub url: String,
    pub pgn: Option<String>,
    pub initial_setup: String,
    pub white: Participant,
    pub black: Participant,
}

/// The arrangement descriptor every analyzable game must start from.
pub open spec fn standard_fen() -> Seq<char> {
    "rnbqkbnr/pppppppp/8/8/8/8/PPPPPPPP/RNBQKBNR w KQkq - 0 1"@
}

/// A game is open to analysis only when its notation text is present and it
/// began from the standard arrangement.
pub open spec fn standard_game(g: GameRecord) -> bool {
    g.pgn is Some && g.initial_setup@ == standard_fen()
}

/// Decides whether a starting-arrangement descriptor is the standard one.
pub fn is_standard_setup(setup: &String) -> (r: bool)
    ensures
        r == (setup@ == standard_fen()),
{
    let std_setup: String = String::from_str(
        "rnbqkbnr/pppppppp/8/8/8/8/PPPPPPPP/RNBQKBNR w KQkq - 0 1",
    );
    *setup == std_setup
}

} // verus!
