//! Per-game analysis and the totals over a game collection: the bongcloud
//! counts, the heuristic scanner's advisory counts, and the replay engine's
//! authoritative en passant counts. A game that cannot be analyzed — no
//! notation text, a non-standard start, a variant marker, no first-move
//! marker — contributes nothing and is never an error.

use vstd::prelude::*;
use vstd::math::min;

use crate::GameRecord;
use crate::standard_game;
use crate::is_standard_setup;
use crate::text::lower_of;
use crate::text::same_user;
use crate::extract::extract_spec;
use crate::extract::extract_moves;
use crate::scan::HalfMoveToken;
use crate::scan::count_flagged;
use crate::scan::count_flagged_user;
use crate::scan::scan_en_passant;
use crate::scan::scanned_texts;
use crate::standard_fen;
use crate::replay::replay_game;
use crate::replay::ReplayStatus;
use crate::replay::board_of_fen;
use crate::replay::replayed_upto;
use crate::replay::possible_count;
use crate::replay::played_count;
use crate::replay::token_texts;
use crate::replay::lemma_replayed_upto_bounds;
use crate::replay::lemma_replay_counts_bounded;
use crate::bongcloud::bc_sightings;
use crate::bongcloud::bc_mine;
use crate::bongcloud::detect_bongcloud;

verus! {

/// A game reaches the scanner and the simulator only when its text is
/// present, its start is standard, and extraction accepts the text.
pub open spec fn replayable(g: GameRecord) -> bool {
    standard_game(g) && extract_spec(g.pgn.unwrap()@) is Some
}

/// The sanitized tokens of a replayable game.
pub open spec fn game_tokens(g: GameRecord) -> Seq<Seq<char>> {
    extract_spec(g.pgn.unwrap()@).unwrap()
}

/// How many plies of a replayable game the engine replays: the run of
/// resolving tokens among the game's scanner-rewritten tokens, from the
/// standard initial position.
pub open spec fn game_replay_plies(g: GameRecord) -> int {
    replayed_upto(
        board_of_fen(standard_fen()),
        scanned_texts(game_tokens(g)),
        game_tokens(g).len() as int,
    )
}

/// One game's en-passant-possible count for the user: zero unless the game
/// is replayable, else the possible events of its replayed prefix.
pub open spec fn game_possible(g: GameRecord, user: Seq<char>) -> int {
    if !replayable(g) {
        0
    } else {
        possible_count(
            board_of_fen(standard_fen()),
            scanned_texts(game_tokens(g)),
            lower_of(g.white.username@) == lower_of(user),
            lower_of(g.black.username@) == lower_of(user),
            game_replay_plies(g),
        )
    }
}

/// One game's en-passant-played count for the user: zero unless the game is
/// replayable, else the played events of its replayed prefix.
pub open spec fn game_played(g: GameRecord, user: Seq<char>) -> int {
    if !replayable(g) {
        0
    } else {
        played_count(
            board_of_fen(standard_fen()),
            scanned_texts(game_tokens(g)),
            lower_of(g.white.username@) == lower_of(user),
            lower_of(g.black.username@) == lower_of(user),
            game_replay_plies(g),
        )
    }
}

/// Per game, the played count never exceeds the possible count and neither
/// falls below zero.
pub proof fn lemma_game_counts(g: GameRecord, user: Seq<char>)
    ensures
        0 <= game_played(g, user) <= game_possible(g, user),
{
    if replayable(g) {
        let b0 = board_of_fen(standard_fen());
        let s = scanned_texts(game_tokens(g));
        lemma_replayed_upto_bounds(b0, s, game_tokens(g).len() as int);
        lemma_replay_counts_bounded(
            b0,
            s,
            lower_of(g.white.username@) == lower_of(user),
            lower_of(g.black.username@) == lower_of(user),
            game_replay_plies(g),
        );
    }
}

/// Everything one game contributes: bongcloud sightings and the user's
/// share, the simulator's possible and played counts, the heuristic's
/// flagged and played counts, and whether the replay ran to the end.
pub struct GameAnalysis {
    pub bongcloud_sightings: i32,
    pub bongclouds: i32,
    pub ep_possible: usize,
    pub ep_played: usize,
    pub heuristic_flagged: usize,
    pub heuristic_played: usize,
    pub replayed_normally: bool,
}

/// Analyzes one game for the given user name.
pub fn analyze_game(game: &GameRecord, username: &str) -> (r: GameAnalysis)
    ensures
        r.bongcloud_sightings as int == bc_sightings(*game),
        r.bongclouds as int == bc_mine(*game, username@),
        r.ep_possible as int == game_possible(*game, username@),
        r.ep_played as int == game_played(*game, username@),
        r.replayed_normally == (replayable(*game) && game_replay_plies(*game) == game_tokens(
            *game,
        ).len()),
        r.ep_played <= r.ep_possible,
        r.heuristic_played <= r.heuristic_flagged,
        !replayable(*game) ==> r.ep_possible == 0 && r.ep_played == 0 && r.heuristic_flagged == 0
            && r.heuristic_played == 0 && !r.replayed_normally,
        replayable(*game) ==> {
            &&& r.heuristic_flagged as int == count_flagged(
                game_tokens(*game),
                game_tokens(*game).len() as int,
            )
            &&& r.heuristic_played as int == count_flagged_user(
                game_tokens(*game),
                game_tokens(*game).len() as int,
                lower_of(game.white.username@) == lower_of(username@),
                lower_of(game.black.username@) == lower_of(username@),
            )
            &&& r.ep_possible <= game_tokens(*game).len()
        },
        lower_of(game.white.username@) != lower_of(username@) && lower_of(game.black.username@)
            != lower_of(username@) ==> r.ep_possible == 0 && r.ep_played == 0
            && r.heuristic_played == 0,
{
    let (sightings, mine): (i32, i32) = detect_bongcloud(game, username);
    if !is_standard_setup(&game.initial_setup) {
        return GameAnalysis {
            bongcloud_sightings: sightings,
            bongclouds: mine,
            ep_possible: 0,
            ep_played: 0,
            heuristic_flagged: 0,
            heuristic_played: 0,
            replayed_normally: false,
        };
    }
    match &game.pgn {
        None => GameAnalysis {
            bongcloud_sightings: sightings,
            bongclouds: mine,
            ep_possible: 0,
            ep_played: 0,
            heuristic_flagged: 0,
            heuristic_played: 0,
            replayed_normally: false,
        },
        Some(p) => {
            match extract_moves(p.as_str()) {
                None => GameAnalysis {
                    bongcloud_sightings: sightings,
                    bongclouds: mine,
                    ep_possible: 0,
                    ep_played: 0,
                    heuristic_flagged: 0,
                    heuristic_played: 0,
                    replayed_normally: false,
                },
                Some(toks) => {
                    let white_is_user: bool = same_user(game.white.username.as_str(), username);
                    let black_is_user: bool = same_user(game.black.username.as_str(), username);
                    let (scanned, flagged, heur_played): (Vec<HalfMoveToken>, usize, usize) =
                        scan_en_passant(&toks, white_is_user, black_is_user);
                    proof {
                        if !white_is_user && !black_is_user {
                            crate::scan::lemma_count_flagged_user_none(
                                toks.deep_view(),
                                toks@.len() as int,
                            );
                        }
                    }
                    let outcome = replay_game(&scanned, white_is_user, black_is_user);
                    proof {
                        assert(game_tokens(*game) == toks.deep_view());
                        assert(token_texts(scanned@) =~= scanned_texts(toks.deep_view()));
                    }
                    GameAnalysis {
                        bongcloud_sightings: sightings,
                        bongclouds: mine,
                        ep_possible: outcome.possible,
                        ep_played: outcome.played,
                        heuristic_flagged: flagged,
                        heuristic_played: heur_played,
                        replayed_normally: match outcome.status {
                            ReplayStatus::Normal => true,
                            ReplayStatus::Failed(_) => false,
                        },
                    }
                },
            }
        },
    }
}

/// Adds without leaving `i32`: the exact sum when it fits, else the top.
fn sat_add_i32(a: i32, b: i32) -> (r: i32)
    requires
        a >= 0,
        b >= 0,
    ensures
        r as int == min(a as int + b as int, i32::MAX as int),
{
    if a > i32::MAX - b {
        i32::MAX
    } else {
        a + b
    }
}

/// A `usize` count as an `i32`: exact when it fits, else the top.
fn sat_usize_to_i32(x: usize) -> (r: i32)
    ensures
        r as int == min(x as int, i32::MAX as int),
{
    if x > i32::MAX as usize {
        i32::MAX
    } else {
        x as i32
    }
}

/// The user's bongcloud count over the first `n` games.
pub open spec fn bc_mine_total(games: Seq<GameRecord>, user: Seq<char>, n: int) -> int
    decreases n,
{
    if n <= 0 {
        0
    } else {
        bc_mine_total(games, user, n - 1) + bc_mine(games[n - 1], user)
    }
}

/// The total never falls below zero.
proof fn lemma_bc_total_nonneg(games: Seq<GameRecord>, user: Seq<char>, n: int)
    requires
        n >= 0,
    ensures
        bc_mine_total(games, user, n) >= 0,
    decreases n,
{
    if n > 0 {
        lemma_bc_total_nonneg(games, user, n - 1);
    }
}

/// Counts the bongclouds the analyzed user played over all games, capped at
/// the counter's top.
pub fn count_bongclouds(games: &Vec<GameRecord>, username: &str) -> (r: i32)
    ensures
        r as int == min(bc_mine_total(games@, username@, games@.len() as int), i32::MAX as int),
        r >= 0,
{
    let mut total: i32 = 0;
    let mut i: usize = 0;
    while i < games.len()
        invariant
            i <= games@.len(),
            total as int == min(bc_mine_total(games@, username@, i as int), i32::MAX as int),
            total >= 0,
        decreases games@.len() - i,
    {
        proof {
            lemma_bc_total_nonneg(games@, username@, i as int);
        }
        let (_, mine): (i32, i32) = detect_bongcloud(&games[i], username);
        total = sat_add_i32(total, mine);
        i += 1;
    }
    total
}

/// The user's en-passant-possible events over the first `n` games.
pub open spec fn possible_total(games: Seq<GameRecord>, user: Seq<char>, n: int) -> int
    decreases n,
{
    if n <= 0 {
        0
    } else {
        possible_total(games, user, n - 1) + game_possible(games[n - 1], user)
    }
}

/// The user's en-passant-played events over the first `n` games.
pub open spec fn played_total(games: Seq<GameRecord>, user: Seq<char>, n: int) -> int
    decreases n,
{
    if n <= 0 {
        0
    } else {
        played_total(games, user, n - 1) + game_played(games[n - 1], user)
    }
}

/// The totals stay ordered and never fall below zero.
proof fn lemma_totals_bounds(games: Seq<GameRecord>, user: Seq<char>, n: int)
    requires
        n >= 0,
    ensures
        0 <= played_total(games, user, n) <= possible_total(games, user, n),
    decreases n,
{
    if n > 0 {
        lemma_totals_bounds(games, user, n - 1);
        lemma_game_counts(games[n - 1], user);
    }
}

/// A total over the first `n` games reads only those games.
proof fn lemma_totals_prefix(s1: Seq<GameRecord>, s2: Seq<GameRecord>, user: Seq<char>, n: int)
    requires
        forall|i: int| 0 <= i < n ==> s1[i] == s2[i],
    ensures
        possible_total(s1, user, n) == possible_total(s2, user, n),
        played_total(s1, user, n) == played_total(s2, user, n),
    decreases n,
{
    if n > 0 {
        lemma_totals_prefix(s1, s2, user, n - 1);
    }
}

/// The per-game results combine by plain integer addition: the totals of a
/// concatenation of two game collections are the sums of the collections'
/// totals, so the order in which per-game results are reduced cannot change
/// the outcome.
pub proof fn lemma_totals_concat(a: Seq<GameRecord>, b: Seq<GameRecord>, user: Seq<char>)
    ensures
        possible_total(a + b, user, a.len() + b.len() as int) == possible_total(a, user, a.len() as int)
            + possible_total(b, user, b.len() as int),
        played_total(a + b, user, a.len() + b.len() as int) == played_total(a, user, a.len() as int)
            + played_total(b, user, b.len() as int),
    decreases b.len(),
{
    if b.len() == 0 {
        assert(a + b =~= a);
    } else {
        let bf = b.drop_last();
        lemma_totals_concat(a, bf, user);
        let n = a.len() + b.len() as int;
        assert((a + b)[n - 1] == b.last());
        assert(forall|i: int| 0 <= i < n - 1 ==> (a + b)[i] == (a + bf)[i]);
        lemma_totals_prefix(a + b, a + bf, user, n - 1);
        assert(forall|i: int| 0 <= i < b.len() - 1 ==> b[i] == bf[i]);
        lemma_totals_prefix(b, bf, user, b.len() - 1);
        assert(b[b.len() - 1] == b.last());
    }
}

/// Counts, over all games, the plies where the analyzed user could capture
/// en passant and the plies where the user played one, by the replay engine.
/// Each total is exactly the per-game sum, capped at the counter's top; the
/// played total never exceeds the possible total, and a collection with no
/// replayable game yields zero.
pub fn count_en_passant(games: &Vec<GameRecord>, username: &str) -> (r: (i32, i32))
    ensures
        r.0 as int == min(possible_total(games@, username@, games@.len() as int), i32::MAX as int),
        r.1 as int == min(played_total(games@, username@, games@.len() as int), i32::MAX as int),
        0 <= r.1 <= r.0,
        (forall|j: int| 0 <= j < games@.len() ==> !replayable(games@[j])) ==> r == (0i32, 0i32),
        (forall|j: int|
            0 <= j < games@.len() ==> lower_of((#[trigger] games@[j]).white.username@) != lower_of(
                username@,
            ) && lower_of(games@[j].black.username@) != lower_of(username@)) ==> r == (
        0i32,
        0i32,
        ),
{
    let mut possible: i32 = 0;
    let mut played: i32 = 0;
    let mut i: usize = 0;
    while i < games.len()
        invariant
            i <= games@.len(),
            possible as int == min(possible_total(games@, username@, i as int), i32::MAX as int),
            played as int == min(played_total(games@, username@, i as int), i32::MAX as int),
            0 <= played <= possible,
            (forall|j: int| 0 <= j < i ==> !replayable(games@[j])) ==> possible == 0 && played
                == 0,
            (forall|j: int|
                0 <= j < i ==> lower_of((#[trigger] games@[j]).white.username@) != lower_of(
                    username@,
                ) && lower_of(games@[j].black.username@) != lower_of(username@)) ==> possible == 0
                && played == 0,
        decreases games@.len() - i,
    {
        proof {
            lemma_totals_bounds(games@, username@, i as int);
            lemma_game_counts(games@[i as int], username@);
        }
        let a: GameAnalysis = analyze_game(&games[i], username);
        possible = sat_add_i32(possible, sat_usize_to_i32(a.ep_possible));
        played = sat_add_i32(played, sat_usize_to_i32(a.ep_played));
        i += 1;
    }
    (possible, played)
}

/// The per-user report: the bongcloud total and the two en passant totals.
pub struct Report {
    pub bongclouds: i32,
    pub en_passant_possible: i32,
    pub en_passant_played: i32,
}

/// Builds the report for one user over the whole game collection: each
/// total is exactly the per-game sum, capped at the counter's top.
pub fn build_report(games: &Vec<GameRecord>, username: &str) -> (r: Report)
    ensures
        r.bongclouds as int == min(
            bc_mine_total(games@, username@, games@.len() as int),
            i32::MAX as int,
        ),
        r.en_passant_possible as int == min(
            possible_total(games@, username@, games@.len() as int),
            i32::MAX as int,
        ),
        r.en_passant_played as int == min(
            played_total(games@, username@, games@.len() as int),
            i32::MAX as int,
        ),
        0 <= r.en_passant_played <= r.en_passant_possible,
{
    let bongclouds: i32 = count_bongclouds(games, username);
    let (possible, played): (i32, i32) = count_en_passant(games, username);
    Report { bongclouds, en_passant_possible: possible, en_passant_played: played }
}

} // verus!
