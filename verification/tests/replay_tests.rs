use chess_patterns::replay::replay_game;
use chess_patterns::replay::simulate_ply;
use chess_patterns::replay::ReplayStatus;
use chess_patterns::scan::scan_en_passant;
use chess_patterns::scan::HalfMoveToken;

fn tokens(texts: &[&str]) -> Vec<Vec<char>> {
    texts.iter().map(|t| t.chars().collect()).collect()
}

fn scanned(texts: &[&str], white_is_user: bool, black_is_user: bool) -> Vec<HalfMoveToken> {
    let (out, _, _) = scan_en_passant(&tokens(texts), white_is_user, black_is_user);
    out
}

#[test]
fn counts_en_passant_played_by_white() {
    let toks = scanned(&["e4", "Nf6", "e5", "d5", "exd6"], true, false);
    let r = replay_game(&toks, true, false);
    assert!(matches!(r.status, ReplayStatus::Normal));
    assert_eq!(r.plies, 5);
    assert_eq!(r.possible, 1);
    assert_eq!(r.played, 1);
}

#[test]
fn counts_available_but_untaken_en_passant() {
    let toks = scanned(&["e4", "Nf6", "e5", "d5", "Nc3"], true, false);
    let r = replay_game(&toks, true, false);
    assert!(matches!(r.status, ReplayStatus::Normal));
    assert_eq!(r.possible, 1);
    assert_eq!(r.played, 0);
}

#[test]
fn attributes_nothing_to_the_other_side() {
    let toks = scanned(&["e4", "Nf6", "e5", "d5", "exd6"], false, true);
    let r = replay_game(&toks, false, true);
    assert_eq!(r.possible, 0);
    assert_eq!(r.played, 0);
    assert!(matches!(r.status, ReplayStatus::Normal));
}

#[test]
fn unresolvable_token_fails_at_that_ply_and_keeps_earlier_plies() {
    let toks = scanned(&["e4", "e5", "Qxh8"], true, true);
    let r = replay_game(&toks, true, true);
    assert!(matches!(r.status, ReplayStatus::Failed(2)));
    assert_eq!(r.plies, 2);
    assert_eq!(r.possible, 0);
    assert_eq!(r.played, 0);
}

#[test]
fn played_never_exceeds_possible() {
    let lists: [&[&str]; 3] = [
        &["e4", "Nf6", "e5", "d5", "exd6"],
        &["e4", "Nf6", "e5", "d5", "Nc3"],
        &["d4", "e5", "dxe5", "f5", "exf6"],
    ];
    for texts in lists.iter() {
        let toks = scanned(texts, true, true);
        let r = replay_game(&toks, true, true);
        assert!(r.played <= r.possible);
        assert!(r.possible <= r.plies);
    }
}

#[test]
fn black_en_passant_capture_is_counted_for_black() {
    let white_toks = scanned(&["a4", "c5", "a5", "b5", "axb6"], true, false);
    let r = replay_game(&white_toks, true, false);
    assert!(matches!(r.status, ReplayStatus::Normal));
    assert_eq!(r.played, 1);
    let black_toks = scanned(&["Nf3", "e5", "Nc3", "e4", "d4", "exd3"], false, true);
    let rb = replay_game(&black_toks, false, true);
    assert!(matches!(rb.status, ReplayStatus::Normal));
    assert_eq!(rb.possible, 1);
    assert_eq!(rb.played, 1);
}

#[test]
fn simulate_ply_reports_the_en_passant_facts_of_each_ply() {
    let chars = |s: &str| -> Vec<char> { s.chars().collect() };
    let b0 = chess::Board::default();
    assert!(simulate_ply(&b0, &chars("Ke4")).is_none());
    let p1 = simulate_ply(&b0, &chars("e4")).unwrap();
    assert!(!p1.ep_available);
    let p2 = simulate_ply(&p1.board, &chars("Nf6")).unwrap();
    let p3 = simulate_ply(&p2.board, &chars("e5")).unwrap();
    let p4 = simulate_ply(&p3.board, &chars("d5")).unwrap();
    assert!(!p4.ep_available);
    let p5 = simulate_ply(&p4.board, &chars("exd6 e.p.")).unwrap();
    assert!(p5.ep_available);
    assert!(p5.played_ep);
}

#[test]
fn empty_game_replays_normally_to_zero() {
    let toks: Vec<HalfMoveToken> = Vec::new();
    let r = replay_game(&toks, true, true);
    assert!(matches!(r.status, ReplayStatus::Normal));
    assert_eq!(r.plies, 0);
    assert_eq!(r.possible, 0);
    assert_eq!(r.played, 0);
}
