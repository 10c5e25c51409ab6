use chess_patterns::scan::scan_en_passant;

fn tokens(texts: &[&str]) -> Vec<Vec<char>> {
    texts.iter().map(|t| t.chars().collect()).collect()
}

fn text_of(t: &Vec<char>) -> String {
    t.iter().collect()
}

#[test]
fn flags_capture_one_rank_behind_a_fifth_rank_advance() {
    let toks = tokens(&["e4", "d5", "exd5", "c5", "d4", "cxd3"]);
    let (out, flagged, played) = scan_en_passant(&toks, false, true);
    assert_eq!(flagged, 1);
    assert_eq!(played, 1);
    assert!(out[5].flagged);
    assert_eq!(text_of(&out[5].text), "cxd3 e.p.");
    assert_eq!(out[5].index, 6);
    for i in 0..5 {
        assert!(!out[i].flagged);
        assert_eq!(out[i].index, i + 1);
    }
}

#[test]
fn attributes_flagged_capture_by_ply_parity() {
    let toks = tokens(&["e4", "d5", "exd5", "c5", "d4", "cxd3"]);
    let (_, flagged, played_as_white) = scan_en_passant(&toks, true, false);
    assert_eq!(flagged, 1);
    assert_eq!(played_as_white, 0);
    let (_, _, played_as_neither) = scan_en_passant(&toks, false, false);
    assert_eq!(played_as_neither, 0);
}

#[test]
fn flags_white_capture_behind_black_fifth_rank_advance() {
    let toks = tokens(&["e4", "Nf6", "e5", "d5", "exd6"]);
    let (out, flagged, played) = scan_en_passant(&toks, true, false);
    assert_eq!(flagged, 1);
    assert_eq!(played, 1);
    assert!(out[4].flagged);
    assert_eq!(text_of(&out[4].text), "exd6 e.p.");
}

#[test]
fn does_not_flag_capture_on_mismatched_file_or_rank() {
    let toks = tokens(&["e4", "d5", "exd5", "c5", "d4", "cxb4"]);
    let (out, flagged, played) = scan_en_passant(&toks, true, true);
    assert_eq!(flagged, 0);
    assert_eq!(played, 0);
    assert!(out.iter().all(|t| !t.flagged));
}

#[test]
fn does_not_flag_without_preceding_advance() {
    let toks = tokens(&["Nf3", "exd3"]);
    let (_, flagged, played) = scan_en_passant(&toks, true, true);
    assert_eq!(flagged, 0);
    assert_eq!(played, 0);
}

#[test]
fn empty_token_list_scans_to_nothing() {
    let toks = tokens(&[]);
    let (out, flagged, played) = scan_en_passant(&toks, true, true);
    assert_eq!(out.len(), 0);
    assert_eq!(flagged, 0);
    assert_eq!(played, 0);
}
