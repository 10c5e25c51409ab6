use chess_patterns::GameRecord;
use chess_patterns::Participant;
use chess_patterns::analyze::analyze_game;
use chess_patterns::analyze::build_report;
use chess_patterns::analyze::count_bongclouds;
use chess_patterns::analyze::count_en_passant;
use chess_patterns::bongcloud::detect_bongcloud;

const STANDARD: &str = "rnbqkbnr/pppppppp/8/8/8/8/PPPPPPPP/RNBQKBNR w KQkq - 0 1";

fn participant(name: &str) -> Participant {
    Participant {
        rating: 1500,
        result: "win".to_string(),
        id: format!("https://example.org/player/{}", name),
        username: name.to_string(),
        uuid: format!("uuid-{}", name),
    }
}

fn game(pgn: Option<&str>, setup: &str, white: &str, black: &str) -> GameRecord {
    GameRecord {
        url: "https://example.org/game/1".to_string(),
        pgn: pgn.map(|p| p.to_string()),
        initial_setup: setup.to_string(),
        white: participant(white),
        black: participant(black),
    }
}

#[test]
fn bongcloud_by_white_counts_for_matching_user_any_case() {
    let g = game(Some("[Event \"x\"]\n1. e4 e5 2. Ke2 Nc6 3. Ke1 Nf6"), STANDARD, "Alice", "Bob");
    let games = vec![g];
    assert_eq!(count_bongclouds(&games, "ALICE"), 1);
    assert_eq!(count_bongclouds(&games, "alice"), 1);
    assert_eq!(count_bongclouds(&games, "Bob"), 0);
}

#[test]
fn bongcloud_sighting_counts_even_for_unrelated_user() {
    let g = game(Some("x\n1. e4 e5 2. Ke2 Nc6"), STANDARD, "Alice", "Bob");
    let (sightings, mine) = detect_bongcloud(&g, "Carol");
    assert_eq!(sightings, 1);
    assert_eq!(mine, 0);
}

#[test]
fn bongcloud_by_black_counts_for_black_user() {
    let g = game(Some("x\n1. e4 e5 2. Nf3 Ke7 3. d4 d6"), STANDARD, "Alice", "Bob");
    let (sightings, mine) = detect_bongcloud(&g, "bob");
    assert_eq!(sightings, 0, "the move-two marker for black is ` 2... Ke7`");
    let g2 = game(Some("x\n1. e4 e5 2. Nf3 2... Ke7"), STANDARD, "Alice", "Bob");
    let (s2, m2) = detect_bongcloud(&g2, "bob");
    assert_eq!(s2, 1);
    assert_eq!(m2, 1);
}

#[test]
fn both_sides_bongcloud_in_one_game() {
    let g = game(Some("x\n1. e4 e5 2. Ke2 2... Ke7"), STANDARD, "Alice", "Alice");
    let (sightings, mine) = detect_bongcloud(&g, "ALICE");
    assert_eq!(sightings, 2);
    assert_eq!(mine, 2);
}

#[test]
fn nonstandard_setup_contributes_nothing() {
    let g = game(
        Some("x\n1. e4 e5 2. Ke2 d5 3. exd5 c5 4. d4 cxd3"),
        "rnbqkbnr/pppppppp/8/8/8/8/PPPPPPPP/RNBQKBNR b KQkq - 0 1",
        "Alice",
        "Bob",
    );
    let a = analyze_game(&g, "Alice");
    assert_eq!(a.bongcloud_sightings, 0);
    assert_eq!(a.bongclouds, 0);
    assert_eq!(a.ep_possible, 0);
    assert_eq!(a.ep_played, 0);
    assert_eq!(a.heuristic_flagged, 0);
    assert_eq!(a.heuristic_played, 0);
}

#[test]
fn absent_notation_contributes_nothing() {
    let g = game(None, STANDARD, "Alice", "Bob");
    let a = analyze_game(&g, "Alice");
    assert_eq!(a.bongclouds, 0);
    assert_eq!(a.ep_possible, 0);
    assert_eq!(a.ep_played, 0);
    assert_eq!(a.heuristic_flagged, 0);
    assert_eq!(a.heuristic_played, 0);
}

#[test]
fn game_without_first_move_marker_is_excluded_entirely() {
    let g = game(Some("[Result \"1-0\"]"), STANDARD, "Alice", "Bob");
    let a = analyze_game(&g, "Alice");
    assert!(!a.replayed_normally);
    assert_eq!(a.ep_possible, 0);
    assert_eq!(a.ep_played, 0);
    assert_eq!(a.heuristic_flagged, 0);
    assert_eq!(a.heuristic_played, 0);
    let games = vec![game(Some("[Result \"1-0\"]"), STANDARD, "Alice", "Bob")];
    assert_eq!(count_en_passant(&games, "Alice"), (0, 0));
    assert_eq!(count_bongclouds(&games, "Alice"), 0);
}

#[test]
fn variant_game_is_excluded_from_replay() {
    let g = game(Some("[Variant \"x\"]\n1. e4 e5"), STANDARD, "Alice", "Bob");
    let a = analyze_game(&g, "Alice");
    assert_eq!(a.ep_possible, 0);
    assert_eq!(a.heuristic_flagged, 0);
}

#[test]
fn full_pipeline_counts_en_passant_for_the_player_who_took_it() {
    let g = game(Some("[Event \"x\"]\n1. e4 Nf6 2. e5 d5 3. exd6 1-0"), STANDARD, "Alice", "Bob");
    let a = analyze_game(&g, "aLiCe");
    assert!(a.replayed_normally);
    assert_eq!(a.ep_possible, 1);
    assert_eq!(a.ep_played, 1);
    assert_eq!(a.heuristic_flagged, 1);
    assert_eq!(a.heuristic_played, 1);
    let b = analyze_game(&g, "Bob");
    assert_eq!(b.ep_possible, 0);
    assert_eq!(b.ep_played, 0);
}

#[test]
fn totals_add_up_across_games() {
    let games = vec![
        game(Some("x\n1. e4 Nf6 2. e5 d5 3. exd6 1-0"), STANDARD, "Alice", "Bob"),
        game(Some("x\n1. e4 Nf6 2. e5 d5 3. Nc3 d4"), STANDARD, "Alice", "Bob"),
        game(Some("x\n1. e4 e5 2. Ke2 Nc6"), STANDARD, "Alice", "Bob"),
        game(None, STANDARD, "Alice", "Bob"),
    ];
    let report = build_report(&games, "alice");
    assert_eq!(report.bongclouds, 1);
    assert_eq!(report.en_passant_possible, 2);
    assert_eq!(report.en_passant_played, 1);
    let (possible, played) = count_en_passant(&games, "bob");
    assert_eq!(possible, 0);
    assert_eq!(played, 0);
}

#[test]
fn stripped_promotion_token_still_replays() {
    let g = game(
        Some("x\n1. e4 d5 2. exd5 c6 3. dxc6 Qd7 4. cxb7 Qd8 5. bxa8=Q+ 0-1"),
        STANDARD,
        "Alice",
        "Bob",
    );
    let a = analyze_game(&g, "alice");
    assert!(a.replayed_normally);
    assert_eq!(a.ep_possible, 0);
    assert_eq!(a.ep_played, 0);
}

#[test]
fn castling_replays_through_the_pipeline() {
    let g = game(
        Some("x\n1. e4 e5 2. Nf3 Nc6 3. Bc4 Bc5 4. O-O Nf6 1/2-1/2"),
        STANDARD,
        "Alice",
        "Bob",
    );
    let a = analyze_game(&g, "alice");
    assert!(a.replayed_normally);
}

#[test]
fn replay_failure_keeps_earlier_contributions() {
    let g = game(
        Some("x\n1. e4 Nf6 2. e5 d5 3. Nc3 Qxh1"),
        STANDARD,
        "Alice",
        "Bob",
    );
    let a = analyze_game(&g, "alice");
    assert!(!a.replayed_normally);
    assert_eq!(a.ep_possible, 1);
    assert_eq!(a.ep_played, 0);
}
