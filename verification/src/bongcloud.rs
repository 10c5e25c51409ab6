//! The bongcloud detector: a pure substring test over the untouched notation
//! text. The opening is visible at a fixed spot of the notation — the king
//! stepping to its second rank on move two — so one literal per side
//! suffices, with no replay. Each hit raises a global sighting count, and the
//! analyzed user's count too when that side's name matches case-insensitively.

use vstd::prelude::*;

use crate::GameRecord;
use crate::standard_game;
use crate::is_standard_setup;
use crate::text::contains_seq;
use crate::text::contains_pattern;
use crate::text::chars_vec;
use crate::text::lower_of;
use crate::text::same_user;

verus! {

/// The literal that marks the first-moving side's king on e2 at move two.
pub open spec fn ke2_mark() -> Seq<char> {
    seq![' ', '2', '.', ' ', 'K', 'e', '2']
}

/// The literal that marks the second-moving side's king on e7 at move two.
pub open spec fn ke7_mark() -> Seq<char> {
    seq![' ', '2', '.', '.', '.', ' ', 'K', 'e', '7']
}

/// How many bongcloud sightings a game shows, either side.
pub open spec fn bc_sightings(g: GameRecord) -> int {
    if !standard_game(g) {
        0
    } else {
        (if contains_seq(g.pgn.unwrap()@, ke2_mark()) {
            1int
        } else {
            0int
        }) + (if contains_seq(g.pgn.unwrap()@, ke7_mark()) {
            1int
        } else {
            0int
        })
    }
}

/// How many bongclouds of a game the analyzed user played: a sighting counts
/// only when the matching side's name folds to the analyzed name.
pub open spec fn bc_mine(g: GameRecord, user: Seq<char>) -> int {
    if !standard_game(g) {
        0
    } else {
        (if contains_seq(g.pgn.unwrap()@, ke2_mark()) && lower_of(g.white.username@) == lower_of(
            user,
        ) {
            1int
        } else {
            0int
        }) + (if contains_seq(g.pgn.unwrap()@, ke7_mark()) && lower_of(g.black.username@)
            == lower_of(user) {
            1int
        } else {
            0int
        })
    }
}

/// Counts a game's bongcloud sightings and the analyzed user's share.
pub fn detect_bongcloud(game: &GameRecord, username: &str) -> (r: (i32, i32))
    ensures
        r.0 as int == bc_sightings(*game),
        r.1 as int == bc_mine(*game, username@),
        0 <= r.1 <= r.0 <= 2,
{
    if !is_standard_setup(&game.initial_setup) {
        return (0, 0);
    }
    match &game.pgn {
        None => (0, 0),
        Some(p) => {
            let chars: Vec<char> = chars_vec(p.as_str());
            let ke2: Vec<char> = vec![' ', '2', '.', ' ', 'K', 'e', '2'];
            let ke7: Vec<char> = vec![' ', '2', '.', '.', '.', ' ', 'K', 'e', '7'];
            proof {
                assert(ke2@ =~= ke2_mark());
                assert(ke7@ =~= ke7_mark());
            }
            let mut sightings: i32 = 0;
            let mut mine: i32 = 0;
            if contains_pattern(&chars, &ke2) {
                sightings = sightings + 1;
                if same_user(game.white.username.as_str(), username) {
                    mine = mine + 1;
                }
            }
            if contains_pattern(&chars, &ke7) {
                sightings = sightings + 1;
                if same_user(game.black.username.as_str(), username) {
                    mine = mine + 1;
                }
            }
            (sightings, mine)
        },
    }
}

/// Attribution of a sighted first-side bongcloud: a matching first-side name
/// adds it to the user's count; when neither name matches, the user's count
/// stays zero while the sighting still counts.
pub proof fn lemma_bongcloud_attribution(g: GameRecord, user: Seq<char>)
    requires
        standard_game(g),
        contains_seq(g.pgn.unwrap()@, ke2_mark()),
    ensures
        lower_of(g.white.username@) == lower_of(user) ==> bc_mine(g, user) == 1 + (
        if contains_seq(g.pgn.unwrap()@, ke7_mark()) && lower_of(g.black.username@) == lower_of(
            user,
        ) {
            1int
        } else {
            0int
        }),
        lower_of(g.white.username@) != lower_of(user) && lower_of(g.black.username@) != lower_of(
            user,
        ) ==> bc_mine(g, user) == 0 && bc_sightings(g) >= 1,
{
}

} // verus!
