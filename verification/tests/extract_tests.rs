use chess_patterns::extract::extract_moves;

fn texts(toks: &Vec<Vec<char>>) -> Vec<String> {
    toks.iter().map(|t| t.iter().collect()).collect()
}

#[test]
fn extracts_and_sanitizes_tokens() {
    let pgn = "[Event \"x\"]\n1. e4 e5 2. Nf3 {a comment} Nc6 3. Bb5+ a6 1-0";
    let toks = extract_moves(pgn).unwrap();
    assert_eq!(texts(&toks), vec!["e4", "e5", "Nf3", "Nc6", "Bb5", "a6"]);
}

#[test]
fn strips_promotion_and_check_marks() {
    let pgn = "x\n1. e4 d5 2. exd5 c6 3. dxc6 Qd7 4. cxb7 Qd8 5. bxa8=Q+ 0-1";
    let toks = extract_moves(pgn).unwrap();
    assert_eq!(
        texts(&toks),
        vec!["e4", "d5", "exd5", "c6", "dxc6", "Qd7", "cxb7", "Qd8", "bxa8Q"]
    );
}

#[test]
fn rejects_variant_games() {
    let pgn = "[Variant \"Chess960\"]\n1. e4 e5 1/2-1/2";
    assert!(extract_moves(pgn).is_none());
}

#[test]
fn rejects_text_without_first_move_marker() {
    let pgn = "[Result \"1-0\"] aborted before any move";
    assert!(extract_moves(pgn).is_none());
}

#[test]
fn empty_movetext_gives_empty_sequence() {
    let pgn = "header\n1. ";
    let toks = extract_moves(pgn).unwrap();
    assert_eq!(toks.len(), 0);
}

#[test]
fn retokenizing_own_output_is_identity() {
    let pgn = "[Event \"x\"]\n1. e4 e5 2. Nf3 Nc6 3. Bb5+ a6 4. bxa8=Q 1/2-1/2";
    let toks = extract_moves(pgn).unwrap();
    let joined: Vec<String> = texts(&toks);
    let rejoined = format!("\n1. {}", joined.join(" "));
    let again = extract_moves(&rejoined).unwrap();
    assert_eq!(texts(&again), joined);
}

#[test]
fn splits_on_unicode_whitespace() {
    let pgn = "x\n1. e4\u{00A0}e5 2.\u{2009}Nf3\u{3000}Nc6";
    let toks = extract_moves(pgn).unwrap();
    assert_eq!(texts(&toks), vec!["e4", "e5", "Nf3", "Nc6"]);
}

#[test]
fn drops_termination_markers_only_as_whole_tokens_contain() {
    let pgn = "h\n1. e4 1-0";
    let toks = extract_moves(pgn).unwrap();
    assert_eq!(texts(&toks), vec!["e4"]);
}
