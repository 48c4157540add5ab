use codeoid::fuzzy::{is_boundary, score, EXACT_BONUS};

#[test]
fn empty_needle_matches_anything() {
    assert_eq!(score("", "anything"), Some(0));
}

#[test]
fn non_subsequence_returns_none() {
    assert!(score("xyz", "export").is_none());
    assert!(score("zzz", "").is_none());
}

#[test]
fn exact_match_wins_big() {
    let exact = score("help", "help").unwrap();
    let fuzzy = score("hlp", "help").unwrap();
    assert!(exact < fuzzy);
    assert_eq!(exact, EXACT_BONUS);
}

#[test]
fn exact_is_case_insensitive() {
    assert_eq!(score("HELP", "help"), Some(EXACT_BONUS));
}

#[test]
fn prefix_beats_scattered() {
    // "mo" as a prefix of "model" ranks better (lower) than the same
    // characters scattered through "autonomous".
    let prefix = score("mo", "model").unwrap();
    let scattered = score("mo", "autonomous").unwrap();
    assert!(prefix < scattered, "prefix {prefix} scattered {scattered}");
}

#[test]
fn word_boundary_rewarded() {
    let boundary = score("nb", "new-branch").unwrap();
    let buried = score("ew", "new").unwrap();
    assert!(boundary < buried);
}

#[test]
fn consecutive_beats_gapped() {
    let consecutive = score("ex", "export").unwrap();
    let gapped = score("et", "export").unwrap();
    assert!(consecutive < gapped);
}

#[test]
fn exact_values_in_tenths() {
    // e at 0 (boundary), x at 1 (consecutive, position 1).
    assert_eq!(score("ex", "export"), Some(-149));
    // e at 0 (boundary), t at 5 (gap of 4, position 5).
    assert_eq!(score("et", "export"), Some(-15));
    // n at 0 (boundary), b at 4 after '-' (boundary, gap 3, position 4).
    assert_eq!(score("nb", "new-branch"), Some(-136));
    // m at 6, o at 7 (consecutive), no boundaries.
    assert_eq!(score("mo", "autonomous"), Some(-37));
    // h (boundary), l after a gap of 1, p consecutive.
    assert_eq!(score("hlp", "help"), Some(-125));
}

#[test]
fn camel_case_counts_as_boundary() {
    // f at 0 (boundary); B at 3 follows lowercase o (boundary), gap 2.
    assert_eq!(score("fb", "fooBar"), Some(-157));
}

#[test]
fn non_ascii_compares_exactly() {
    assert_eq!(score("é", "café"), Some(3));
    assert!(score("É", "café").is_none());
}

#[test]
fn needle_case_does_not_matter() {
    assert_eq!(score("EX", "export"), score("ex", "export"));
    assert_eq!(score("Nb", "new-branch"), score("nB", "new-branch"));
}

#[test]
fn some_exactly_for_subsequences() {
    assert!(score("xp", "export").is_some());
    assert!(score("px", "export").is_none());
    assert!(score("exports", "export").is_none());
}

#[test]
fn boundary_detection() {
    let hay: Vec<char> = "new-branchName".chars().collect();
    assert!(is_boundary(&hay, 0));
    assert!(!is_boundary(&hay, 1));
    assert!(is_boundary(&hay, 4));
    assert!(is_boundary(&hay, 10));
    assert!(!is_boundary(&hay, 11));
}

#[test]
fn candidate_case_keeps_matching() {
    assert!(score("ab", "AB-x").is_some());
    assert!(score("ab", "ab-x").is_some());
    assert!(score("ba", "AB-x").is_none());
}
