//! Replay of a game's sanitized tokens through the legal-chess rules engine,
//! ply by ply. Before each ply the simulator asks whether an en passant
//! capture is available; if so it records a possible event for the side to
//! move, and a played event too when the resolved move lands on the capture
//! destination. A token the engine cannot resolve ends the game's replay at
//! that ply; what was replayed before it keeps its contribution.
//!
//! The rules engine is the `chess` crate, consumed through a narrow trusted
//! boundary: construct the initial position, resolve-and-apply one token, and
//! read the en passant square. Each engine answer is deterministic in its
//! arguments, so it carries an uninterpreted name; the per-ply decisions and
//! the whole replay are verified exactly against a recursion over those
//! names.

use vstd::prelude::*;

use crate::standard_fen;
use crate::scan::HalfMoveToken;
use crate::scan::mover_is_user;

verus! {

/// The `chess` crate's board: an opaque position value owned by one replay.
#[verifier::external_type_specification]
#[verifier::external_body]
pub struct ExBoard(chess::Board);

/// The board the engine builds from an arrangement descriptor.
pub uninterp spec fn board_of_fen(s: Seq<char>) -> chess::Board;

/// The en passant square the engine reports for a board, as file and rank
/// indices of the capturable pawn, if any.
pub uninterp spec fn ep_of(b: chess::Board) -> Option<(u8, u8)>;

/// The destination square, as file and rank indices, of the move the engine
/// resolves a token to on a board; `None` when it refuses the token.
pub uninterp spec fn san_dest_of(b: chess::Board, t: Seq<char>) -> Option<(u8, u8)>;

/// The board after the engine applies a resolved token to a board.
pub uninterp spec fn board_after_of(b: chess::Board, t: Seq<char>) -> chess::Board;

/// Relies on `chess::Board::default`: the standard initial position, built
/// from the standard arrangement descriptor.
#[verifier::external_body]
fn initial_board() -> (b: chess::Board)
    ensures
        b == board_of_fen(standard_fen()),
{
    chess::Board::default()
}

/// Relies on `chess::ChessMove::from_san` and `chess::Board::make_move_new`.
/// `from_san` resolves a token against the current position, drawing only
/// from the legal-move generator, or fails; a legal move never captures a
/// king, so applying it cannot hit `make_move`'s panic. Both answers are
/// functions of the board and the token alone: the resolved destination's
/// file and rank indices (each below 8) and the next position carry the
/// names `san_dest_of` and `board_after_of`.
#[verifier::external_body]
fn resolve_and_apply(board: &chess::Board, token: &Vec<char>) -> (r: Option<(chess::Board, u8, u8)>)
    ensures
        (r is Some) == (san_dest_of(*board, token@) is Some),
        r matches Some((nb, f, rk)) ==> nb == board_after_of(*board, token@) && Some((f, rk))
            == san_dest_of(*board, token@) && f < 8 && rk < 8,
{
    let text: String = token.iter().collect();
    match chess::ChessMove::from_san(board, &text) {
        Ok(mv) => {
            let next = board.make_move_new(mv);
            let dest = mv.get_dest();
            Some((next, dest.get_file().to_index() as u8, dest.get_rank().to_index() as u8))
        },
        Err(_) => None,
    }
}

/// Relies on `chess::Board::en_passant`: the square of the pawn that can be
/// captured en passant, if any, as file and rank indices — the name `ep_of`.
/// Every board the crate constructs keeps that pawn on its owner's fourth
/// rank, index 3 for the first-moving side and 4 for the second.
#[verifier::external_body]
fn ep_pawn_square(board: &chess::Board) -> (r: Option<(u8, u8)>)
    ensures
        r == ep_of(*board),
        r matches Some((f, rk)) ==> f < 8 && (rk == 3 || rk == 4),
{
    match (*board).en_passant() {
        Some(sq) => Some((sq.get_file().to_index() as u8, sq.get_rank().to_index() as u8)),
        None => None,
    }
}

/// Where a capture of the en passant pawn at `(f, rk)` lands: the same file,
/// on the square the pawn passed over when it advanced two ranks.
pub open spec fn ep_capture_dest(f: u8, rk: u8) -> (u8, u8) {
    (f, if rk == 4 {
        5u8
    } else {
        2u8
    })
}

/// The move about to be played consumes the available en passant capture:
/// its destination is the capture destination of the en passant pawn.
pub open spec fn ep_match(ep: Option<(u8, u8)>, dest_f: u8, dest_r: u8) -> bool {
    match ep {
        Some((f, rk)) => (dest_f, dest_r) == ep_capture_dest(f, rk),
        None => false,
    }
}

/// Decides, from the en passant square before the move and the resolved
/// move's destination, whether en passant was available and whether the move
/// consumed it; exact, and a capture is never played without being available.
pub fn ply_decision(ep: Option<(u8, u8)>, dest_f: u8, dest_r: u8) -> (r: (bool, bool))
    ensures
        r.0 == (ep is Some),
        r.1 == ep_match(ep, dest_f, dest_r),
        r.1 ==> r.0,
{
    match ep {
        Some((f, rk)) => {
            let dest_rank: u8 = if rk == 4 {
                5
            } else {
                2
            };
            (true, dest_f == f && dest_r == dest_rank)
        },
        None => (false, false),
    }
}

/// Whether the token consumes the en passant capture available on `b`.
pub open spec fn ply_played_ep(b: chess::Board, t: Seq<char>) -> bool {
    san_dest_of(b, t) matches Some((f, rk)) && ep_match(ep_of(b), f, rk)
}

/// What replaying one token yields: the resulting position, owned by the
/// running replay alone, whether en passant was available right before the
/// ply, and whether the move consumed it.
pub struct SimulatedPly {
    pub board: chess::Board,
    pub ep_available: bool,
    pub played_ep: bool,
}

/// Replays one token on the given position: reads the en passant square,
/// resolves and applies the token, and decides the two en passant facts —
/// each pinned to the engine's named answers. `None` exactly when the engine
/// cannot resolve the token.
pub fn simulate_ply(board: &chess::Board, text: &Vec<char>) -> (r: Option<SimulatedPly>)
    ensures
        (r is Some) == (san_dest_of(*board, text@) is Some),
        r matches Some(p) ==> {
            &&& p.board == board_after_of(*board, text@)
            &&& p.ep_available == (ep_of(*board) is Some)
            &&& p.played_ep == ply_played_ep(*board, text@)
            &&& (p.played_ep ==> p.ep_available)
        },
{
    let ep: Option<(u8, u8)> = ep_pawn_square(board);
    match resolve_and_apply(board, text) {
        None => None,
        Some((next, dest_f, dest_r)) => {
            let (ep_available, played_ep): (bool, bool) = ply_decision(ep, dest_f, dest_r);
            Some(SimulatedPly { board: next, ep_available, played_ep })
        },
    }
}

/// The position after the first `i` tokens, from the start board `b0`.
pub open spec fn board_at(b0: chess::Board, toks: Seq<Seq<char>>, i: int) -> chess::Board
    decreases i,
{
    if i <= 0 {
        b0
    } else {
        board_after_of(board_at(b0, toks, i - 1), toks[i - 1])
    }
}

/// How many consecutive tokens from the start resolve, looking at the first
/// `n`: the ply count of the replayed prefix.
pub open spec fn replayed_upto(b0: chess::Board, toks: Seq<Seq<char>>, n: int) -> int
    decreases n,
{
    if n <= 0 {
        0
    } else {
        let r = replayed_upto(b0, toks, n - 1);
        if r == n - 1 && san_dest_of(board_at(b0, toks, n - 1), toks[n - 1]) is Some {
            n
        } else {
            r
        }
    }
}

/// The en-passant-possible events among the first `n` plies that the
/// analyzed user is credited with: en passant available before the ply, side
/// to move by parity matching the user.
pub open spec fn possible_count(
    b0: chess::Board,
    toks: Seq<Seq<char>>,
    wu: bool,
    bu: bool,
    n: int,
) -> int
    decreases n,
{
    if n <= 0 {
        0
    } else {
        possible_count(b0, toks, wu, bu, n - 1) + if ep_of(board_at(b0, toks, n - 1)) is Some
            && mover_is_user(n - 1, wu, bu) {
            1int
        } else {
            0int
        }
    }
}

/// The en-passant-played events among the first `n` plies credited to the
/// analyzed user: the resolved move consumes the available capture.
pub open spec fn played_count(
    b0: chess::Board,
    toks: Seq<Seq<char>>,
    wu: bool,
    bu: bool,
    n: int,
) -> int
    decreases n,
{
    if n <= 0 {
        0
    } else {
        played_count(b0, toks, wu, bu, n - 1) + if ply_played_ep(board_at(b0, toks, n - 1), toks[n
            - 1]) && mover_is_user(n - 1, wu, bu) {
            1int
        } else {
            0int
        }
    }
}

/// A played event implies a possible event the same ply, so the counts stay
/// ordered and bounded by the plies seen.
pub proof fn lemma_replay_counts_bounded(
    b0: chess::Board,
    toks: Seq<Seq<char>>,
    wu: bool,
    bu: bool,
    n: int,
)
    requires
        n >= 0,
    ensures
        0 <= played_count(b0, toks, wu, bu, n) <= possible_count(b0, toks, wu, bu, n) <= n,
    decreases n,
{
    if n > 0 {
        lemma_replay_counts_bounded(b0, toks, wu, bu, n - 1);
    }
}

/// The replayed prefix is never negative and never longer than what was
/// looked at.
pub proof fn lemma_replayed_upto_bounds(b0: chess::Board, toks: Seq<Seq<char>>, n: int)
    requires
        n >= 0,
    ensures
        0 <= replayed_upto(b0, toks, n) <= n,
    decreases n,
{
    if n > 0 {
        lemma_replayed_upto_bounds(b0, toks, n - 1);
    }
}

/// Once a ply fails, the replayed prefix never grows.
proof fn lemma_replayed_stops(b0: chess::Board, toks: Seq<Seq<char>>, i: int, n: int)
    requires
        0 <= i < n,
        replayed_upto(b0, toks, i) == i,
        san_dest_of(board_at(b0, toks, i), toks[i]) is None,
    ensures
        replayed_upto(b0, toks, n) == i,
    decreases n,
{
    if n > i + 1 {
        lemma_replayed_stops(b0, toks, i, n - 1);
    }
}

/// The texts of a token sequence, in order.
pub open spec fn token_texts(toks: Seq<HalfMoveToken>) -> Seq<Seq<char>> {
    Seq::new(toks.len(), |i: int| toks[i].text@)
}

/// How a replay ended: every token resolved and applied, or the engine
/// refused the token at the recorded 0-based position.
pub enum ReplayStatus {
    Normal,
    Failed(usize),
}

/// One game's replay result: the en-passant-possible and -played counts
/// attributed to the analyzed user, the number of plies replayed, and how
/// the replay ended.
pub struct ReplayOutcome {
    pub possible: usize,
    pub played: usize,
    pub plies: usize,
    pub status: ReplayStatus,
}

/// Replays the tokens from the standard initial position. Every field is
/// fixed by the recursion over the engine's named answers: the replayed
/// prefix is the run of resolving tokens, the counts are the user-credited
/// events of exactly that prefix — so what was gathered before a failure is
/// retained — and the status is normal precisely when every token resolved.
pub fn replay_game(toks: &Vec<HalfMoveToken>, white_is_user: bool, black_is_user: bool) -> (r:
    ReplayOutcome)
    ensures
        ({
            let b0 = board_of_fen(standard_fen());
            let s = token_texts(toks@);
            &&& r.plies == replayed_upto(b0, s, toks@.len() as int)
            &&& r.possible == possible_count(b0, s, white_is_user, black_is_user, r.plies as int)
            &&& r.played == played_count(b0, s, white_is_user, black_is_user, r.plies as int)
        }),
        r.played <= r.possible <= r.plies <= toks@.len(),
        (r.status is Normal) <==> r.plies == toks@.len(),
        r.status matches ReplayStatus::Failed(p) ==> r.plies == p && p < toks@.len(),
        !white_is_user && !black_is_user ==> r.possible == 0 && r.played == 0,
{
    let ghost b0 = board_of_fen(standard_fen());
    let ghost s = token_texts(toks@);
    let mut board: chess::Board = initial_board();
    let mut possible: usize = 0;
    let mut played: usize = 0;
    let mut i: usize = 0;
    while i < toks.len()
        invariant
            i <= toks@.len(),
            b0 == board_of_fen(standard_fen()),
            s == token_texts(toks@),
            board == board_at(b0, s, i as int),
            replayed_upto(b0, s, i as int) == i as int,
            possible == possible_count(b0, s, white_is_user, black_is_user, i as int),
            played == played_count(b0, s, white_is_user, black_is_user, i as int),
            played <= possible <= i,
            !white_is_user && !black_is_user ==> possible == 0 && played == 0,
        decreases toks@.len() - i,
    {
        assert(toks@[i as int].text@ == s[i as int]);
        match simulate_ply(&board, &toks[i].text) {
            None => {
                proof {
                    lemma_replayed_stops(b0, s, i as int, toks@.len() as int);
                }
                return ReplayOutcome { possible, played, plies: i, status: ReplayStatus::Failed(i) };
            },
            Some(ply) => {
                // Side to move by ply parity: 0-based even plies are white's.
                let is_user: bool = if i % 2 == 0 {
                    white_is_user
                } else {
                    black_is_user
                };
                assert(is_user == mover_is_user(i as int, white_is_user, black_is_user));
                if ply.ep_available && is_user {
                    possible = possible + 1;
                    if ply.played_ep {
                        played = played + 1;
                    }
                }
                board = ply.board;
            },
        }
        i += 1;
    }
    ReplayOutcome { possible, played, plies: i, status: ReplayStatus::Normal }
}

} // verus!
