use qrscan::position_markers::{
    is_symmetric, is_valid_match, ratios_match, scan_line, ScanResult,
};

fn line_of(text: &str) -> Vec<bool> {
    text.chars().map(|c| c == 'W').collect()
}

fn result(start: usize, runs: (usize, usize, usize, usize, usize)) -> ScanResult {
    ScanResult {
        start,
        end: start + runs.0 + runs.1 + runs.2 + runs.3 + runs.4 - 1,
        black_border1_count: runs.0,
        white_inner1_count: runs.1,
        black_inner_count: runs.2,
        white_inner2_count: runs.3,
        black_border2_count: runs.4,
    }
}

#[test]
fn all_white_line_has_no_matches() {
    for len in [0usize, 1, 7, 63, 1000] {
        let line = vec![true; len];
        assert_eq!(scan_line(&line).len(), 0);
    }
}

#[test]
fn all_black_line_has_no_matches() {
    let line = vec![false; 63];
    assert_eq!(scan_line(&line).len(), 0);
}

#[test]
fn exact_pattern_is_found() {
    // one white, then 1:1:3:1:1, then one white
    let line = line_of("WBWBBBWBW");
    let results = scan_line(&line);
    assert_eq!(results.len(), 1);
    let r = &results[0];
    assert_eq!(r.start, 1);
    assert_eq!(r.end, 7);
    assert_eq!(r.black_border1_count, 1);
    assert_eq!(r.white_inner1_count, 1);
    assert_eq!(r.black_inner_count, 3);
    assert_eq!(r.white_inner2_count, 1);
    assert_eq!(r.black_border2_count, 1);
}

#[test]
fn scaled_pattern_is_found() {
    // the same signature at three pixels per module
    let line = line_of("WBBBWWWBBBBBBBBBWWWBBBW");
    let results = scan_line(&line);
    assert_eq!(results.len(), 1);
    let r = &results[0];
    assert_eq!(r.start, 1);
    assert_eq!(r.black_inner_count, 9);
}

#[test]
fn backtracking_recovers_pattern_after_long_black_prefix() {
    // a long black prefix, then a valid 1:1:3:1:1 pattern: the first
    // candidate swallows the prefix and fails validation; backtracking must
    // still find the real pattern, starting at position 8
    let line = line_of("BBBBBBBWBWBBBWBW");
    let results = scan_line(&line);
    assert_eq!(results.len(), 1);
    let r = &results[0];
    assert_eq!(r.start, 8);
    assert_eq!(r.end, 14);
    assert_eq!(r.black_border1_count, 1);
    assert_eq!(r.white_inner1_count, 1);
    assert_eq!(r.black_inner_count, 3);
    assert_eq!(r.white_inner2_count, 1);
    assert_eq!(r.black_border2_count, 1);
}

#[test]
fn pattern_at_line_start_is_found() {
    let line = line_of("BWBBBWBW");
    let results = scan_line(&line);
    assert_eq!(results.len(), 1);
    assert_eq!(results[0].start, 0);
}

#[test]
fn two_adjacent_patterns_are_both_found() {
    let line = line_of("WBWBBBWBWWBWBBBWBW");
    let results = scan_line(&line);
    assert_eq!(results.len(), 2);
    assert_eq!(results[0].start, 1);
    assert_eq!(results[1].start, 10);
}

#[test]
fn symmetry_accepts_balanced_runs() {
    assert!(is_symmetric(&result(0, (1, 1, 3, 1, 1))));
    assert!(is_symmetric(&result(0, (3, 3, 9, 3, 3))));
    // |7-1| + |1-3| = 8 against total 12: 8/12 is not below 0.4
    assert!(!is_symmetric(&result(0, (7, 1, 3, 3, 1))));
    // |3-2| + |2-3| = 2 against total 10: 0.2 is below 0.4
    assert!(is_symmetric(&result(0, (3, 2, 7, 3, 2))));
}

#[test]
fn ratios_accept_near_nominal_runs() {
    assert!(ratios_match(&result(0, (1, 1, 3, 1, 1))));
    assert!(ratios_match(&result(0, (3, 3, 9, 3, 3))));
    // a 4:4:9:4:4 pattern still fits: each run is within half a module
    assert!(ratios_match(&result(0, (4, 4, 9, 4, 4))));
    // a 1:1:9:1:1 pattern: the inner run is far too long
    assert!(!ratios_match(&result(0, (1, 1, 9, 1, 1))));
    // an all-equal 3:3:3:3:3 pattern: the inner run is far too short
    assert!(!ratios_match(&result(0, (3, 3, 3, 3, 3))));
}

#[test]
fn valid_match_requires_both_predicates() {
    assert!(is_valid_match(&result(5, (2, 2, 6, 2, 2))));
    assert!(!is_valid_match(&result(5, (7, 1, 3, 3, 1))));
    assert!(!is_valid_match(&result(5, (3, 3, 3, 3, 3))));
}

#[test]
fn middle_and_size_report_the_inner_run() {
    // start 8, runs 1:1:3:1:1 -> middle at 8 + 1 + 1 + 1.5 pixels, size 7 modules of 3/3 px
    let r = result(8, (1, 1, 3, 1, 1));
    assert_eq!(r.middle(), 2944); // 11.5 pixels in fixed-point units
    assert_eq!(r.size(), 1792); // 7 pixels
    let r3 = result(0, (3, 3, 9, 3, 3));
    assert_eq!(r3.middle(), 256 * 6 + 128 * 9); // 10.5 pixels
    assert_eq!(r3.size(), 21 * 256); // 21 pixels
}
