use devconsole::{match_and_sort, subsequence_match};

#[test]
fn test_exact_match() {
    let result = subsequence_match("help", "help").unwrap();
    assert_eq!(result.indices, vec![0, 1, 2, 3]);
    assert!(result.score > 4);
}

#[test]
fn test_subsequence_match() {
    let result = subsequence_match("sgr", "sv_gravity").unwrap();
    assert_eq!(result.indices, vec![0, 3, 4]);
}

#[test]
fn test_no_match() {
    assert!(subsequence_match("xyz", "hello").is_none());
    assert!(subsequence_match("abc", "ab").is_none());
}

#[test]
fn test_empty_pattern() {
    let result = subsequence_match("", "anything").unwrap();
    assert_eq!(result.score, 0);
    assert!(result.indices.is_empty());
}

#[test]
fn test_case_insensitive() {
    assert!(subsequence_match("HELP", "help").is_some());
    assert!(subsequence_match("help", "HELP").is_some());
    assert!(subsequence_match("HeLp", "hElP").is_some());
}

#[test]
fn test_word_boundary_bonus() {
    let result1 = subsequence_match("svg", "sv_gravity").unwrap();
    let result2 = subsequence_match("svg", "saving").unwrap();
    assert!(result1.score > result2.score);
}

#[test]
fn test_consecutive_bonus() {
    let result1 = subsequence_match("hel", "help").unwrap();
    let result2 = subsequence_match("hel", "h_e_l_p").unwrap();
    assert!(result1.score > result2.score);
}

#[test]
fn test_prefix_bonus() {
    let result1 = subsequence_match("sv", "sv_cheats").unwrap();
    let result2 = subsequence_match("sv", "csv_data").unwrap();
    assert!(result1.score > result2.score);
}

#[test]
fn test_match_and_sort() {
    let candidates = ["sv_gravity", "sv_cheats", "cl_showfps", "saving"];

    let results = match_and_sort("sv", &candidates);

    assert_eq!(results.len(), 3);
    assert!(results[0].0.starts_with("sv_"));
    assert!(results[1].0.starts_with("sv_"));
}

#[test]
fn svg_matches_sv_gravity_at_word_starts() {
    let result = subsequence_match("svg", "sv_gravity").unwrap();
    assert_eq!(result.indices, vec![0, 1, 3]);
    // s: 1 + 5 (start); v: 1 + 10 (adjacent); g: 1 + 5 (after '_'); prefix: none.
    assert_eq!(result.score, 23);
}

#[test]
fn exact_score_of_full_prefix() {
    // h: 1+5, e: 1+10, l: 1+10, p: 1+10, prefix: 20.
    assert_eq!(subsequence_match("help", "help").unwrap().score, 59);
}

#[test]
fn saving_scores_lower_than_sv_gravity() {
    let a = subsequence_match("svg", "sv_gravity").unwrap();
    let b = subsequence_match("svg", "saving").unwrap();
    assert_eq!(b.score, 8);
    assert!(a.score > b.score);
}

#[test]
fn ties_are_ordered_by_name() {
    let candidates = ["b_x", "a_x", "c_x"];
    let results = match_and_sort("x", &candidates);
    let names: Vec<&str> = results.iter().map(|r| r.0).collect();
    assert_eq!(names, vec!["a_x", "b_x", "c_x"]);
}

#[test]
fn sort_puts_higher_score_first() {
    let candidates = ["saving", "sv_gravity"];
    let results = match_and_sort("svg", &candidates);
    assert_eq!(results[0].0, "sv_gravity");
    assert_eq!(results[1].0, "saving");
}
