use lint_filter::hunk_map::{all_hunks_fit, build_hunk_map, ChangeKind, FileChange, Hunk, HunkMap};
use lint_filter::location::{parse_lint_location, remove_ansi_colors};
use lint_filter::pipeline::{filter_lines, line_matches};
use lint_filter::ranges::is_number_in_sorted_ranges;

fn change(path: &str, kind: ChangeKind, hunks: &[(u32, u32)]) -> FileChange {
    FileChange {
        path: path.to_string(),
        kind,
        hunks: hunks
            .iter()
            .map(|&(new_start, new_lines)| Hunk { new_start, new_lines })
            .collect(),
    }
}

fn single_file_map() -> HunkMap {
    let mut map = HunkMap::new();
    map.add_range("a.py", (10, 13));
    map
}

fn strings(lines: &[&str]) -> Vec<String> {
    lines.iter().map(|l| l.to_string()).collect()
}

#[test]
fn test_python_regex() {
    let (filename, line) =
        parse_lint_location("pysrc/main.py:753:89: E501 Line too long").unwrap();
    assert_eq!(filename, "pysrc/main.py");
    assert_eq!(line, 753);
}

#[test]
fn search_matches_linear_scan_on_disjoint_ranges() {
    let lists: Vec<Vec<(u32, u32)>> = vec![
        vec![],
        vec![(3, 3)],
        vec![(1, 2), (4, 7), (9, 9), (12, 20)],
        vec![(0, 0), (2, 5), (6, 6), (8, 11), (15, 16), (18, 30)],
    ];
    for ranges in &lists {
        for n in 0..40u32 {
            let expected = ranges.iter().any(|&(s, e)| s <= n && n <= e);
            assert_eq!(is_number_in_sorted_ranges(ranges, n), expected, "{:?} {}", ranges, n);
        }
    }
}

#[test]
fn empty_ranges_hold_nothing() {
    for n in [0u32, 1, 7, u32::MAX] {
        assert!(!is_number_in_sorted_ranges(&[], n));
    }
}

#[test]
fn range_bounds_are_inclusive() {
    let ranges = [(5u32, 8u32)];
    assert!(!is_number_in_sorted_ranges(&ranges, 4));
    assert!(is_number_in_sorted_ranges(&ranges, 5));
    assert!(is_number_in_sorted_ranges(&ranges, 8));
    assert!(!is_number_in_sorted_ranges(&ranges, 9));
}

#[test]
fn hunk_map_keeps_modified_files_only() {
    let changes = vec![
        change("src.py", ChangeKind::Modified, &[(10, 3), (50, 1)]),
        change("new.py", ChangeKind::Added, &[(1, 20)]),
        change("old.py", ChangeKind::Deleted, &[(0, 0)]),
    ];
    let map = build_hunk_map(&changes);
    assert_eq!(map.get("src.py"), Some(&vec![(10, 13), (50, 51)]));
    assert_eq!(map.get("new.py"), None);
    assert_eq!(map.get("old.py"), None);
}

#[test]
fn hunk_map_skips_modified_file_without_hunks() {
    let changes = vec![
        change("mode_only.py", ChangeKind::Modified, &[]),
        change("moved.py", ChangeKind::Renamed, &[(4, 1)]),
    ];
    let map = build_hunk_map(&changes);
    assert_eq!(map.get("mode_only.py"), None);
    assert_eq!(map.get("moved.py"), None);
}

#[test]
fn hunk_map_appends_ranges_of_a_repeated_path() {
    let changes = vec![
        change("a.rs", ChangeKind::Modified, &[(1, 0)]),
        change("b.rs", ChangeKind::Modified, &[(7, 2)]),
        change("a.rs", ChangeKind::Modified, &[(30, 4)]),
    ];
    let map = build_hunk_map(&changes);
    assert_eq!(map.get("a.rs"), Some(&vec![(1, 1), (30, 34)]));
    assert_eq!(map.get("b.rs"), Some(&vec![(7, 9)]));
}

#[test]
fn line_just_past_a_hunk_counts_as_changed() {
    let map = build_hunk_map(&vec![change("f.py", ChangeKind::Modified, &[(10, 3)])]);
    assert!(!line_matches(&map, "f.py:9: before"));
    assert!(line_matches(&map, "f.py:10: first"));
    assert!(line_matches(&map, "f.py:13: one past the end"));
    assert!(!line_matches(&map, "f.py:14: after"));
}

#[test]
fn location_after_color_codes() {
    let plain = remove_ansi_colors("\x1b[31mfile.py:12: error\x1b[0m");
    assert_eq!(plain, "file.py:12: error");
    assert_eq!(parse_lint_location(&plain), Some(("file.py".to_string(), 12)));
}

#[test]
fn summary_line_has_no_location() {
    assert_eq!(parse_lint_location("Summary: 3 errors"), None);
    assert_eq!(parse_lint_location(""), None);
    assert_eq!(parse_lint_location("no colon at all 42"), None);
}

#[test]
fn colon_needs_text_before_it() {
    assert_eq!(parse_lint_location(":5"), None);
    assert_eq!(parse_lint_location(":5 a:6"), Some((":5 a".to_string(), 6)));
}

#[test]
fn location_starts_on_its_own_line() {
    assert_eq!(parse_lint_location("header\nb.py:3: x"), Some(("b.py".to_string(), 3)));
    assert_eq!(parse_lint_location("x\n:3"), None);
}

#[test]
fn line_number_must_fit_u32() {
    assert_eq!(
        parse_lint_location("a.py:4294967295: x"),
        Some(("a.py".to_string(), u32::MAX))
    );
    assert_eq!(parse_lint_location("a.py:4294967296: x"), None);
    assert_eq!(parse_lint_location("a.py:99999999999:1: x"), None);
}

#[test]
fn windows_style_path_keeps_first_numeric_colon() {
    assert_eq!(
        parse_lint_location("C:\\src\\m.py:8:1: W1"),
        Some(("C:\\src\\m.py".to_string(), 8))
    );
}

#[test]
fn color_codes_are_removed() {
    assert_eq!(remove_ansi_colors("\x1b[1;32mok\x1b[0m done"), "ok done");
    assert_eq!(remove_ansi_colors("\x1b[m"), "");
    assert_eq!(remove_ansi_colors("\x1b[x1m"), "\x1b[x1m");
    assert_eq!(remove_ansi_colors("\x1b[12"), "\x1b[12");
    assert_eq!(remove_ansi_colors("plain ✓ text"), "plain ✓ text");
}

#[test]
fn filter_keeps_lines_in_changed_ranges() {
    let map = single_file_map();
    let input = strings(&["a.py:11: msg1", "a.py:20: msg2", "b.py:5: msg3"]);
    let outcome = filter_lines(&map, &input);
    assert_eq!(outcome.lines, strings(&["a.py:11: msg1"]));
    assert!(outcome.matched);
    assert_eq!(outcome.exit_code(), 1);
}

#[test]
fn filter_without_matches() {
    let map = single_file_map();
    let outcome = filter_lines(&map, &strings(&["b.py:1: x"]));
    assert!(outcome.lines.is_empty());
    assert!(!outcome.matched);
    assert_eq!(outcome.exit_code(), 0);
}

#[test]
fn filter_emits_colored_lines_verbatim() {
    let map = single_file_map();
    let input = strings(&["\x1b[1ma.py\x1b[0m:12: colored", "summary"]);
    let outcome = filter_lines(&map, &input);
    assert_eq!(outcome.lines, strings(&["\x1b[1ma.py\x1b[0m:12: colored"]));
}

#[test]
fn filter_twice_gives_the_same_output() {
    let map = single_file_map();
    let input = strings(&["a.py:10: x", "a.py:9: y", "a.py:13: z", "c.py:11: w"]);
    let first = filter_lines(&map, &input);
    let second = filter_lines(&map, &input);
    assert_eq!(first.lines, second.lines);
    assert_eq!(first.matched, second.matched);
    let again = filter_lines(&map, &first.lines);
    assert_eq!(again.lines, first.lines);
}

#[test]
fn hunk_end_overflow_is_detected_for_modified_files_only() {
    let fits = vec![
        change("a.py", ChangeKind::Modified, &[(u32::MAX - 1, 1)]),
        change("b.py", ChangeKind::Added, &[(u32::MAX, 5)]),
    ];
    assert!(all_hunks_fit(&fits));
    let overflows = vec![change("a.py", ChangeKind::Modified, &[(1, 1), (u32::MAX, 1)])];
    assert!(!all_hunks_fit(&overflows));
}

#[test]
fn non_ascii_digit_after_first_colon_gives_no_location() {
    assert_eq!(parse_lint_location("a:\u{663} b:5"), None);
    assert_eq!(parse_lint_location("a:5\u{663}"), None);
    assert_eq!(parse_lint_location("a:\u{FF11}2: x"), None);
    assert_eq!(parse_lint_location("a:x b:\u{1D7CE}"), None);
    assert_eq!(parse_lint_location("a:x b:7"), Some(("a:x b".to_string(), 7)));
}

#[test]
fn parser_agrees_with_the_location_pattern() {
    let pattern = regex::Regex::new(r"(.+?):(\d+)").unwrap();
    let samples = [
        "pysrc/main.py:753:89: E501 Line too long",
        "a:\u{663} b:5",
        "a:5\u{663}",
        "a:x b:7",
        ":5 a:6",
        "x:\u{1D7D8}\u{1D7D9}",
        "q:\u{11BF3}:4",
        "r:12\u{1E5F1}",
        "s:4294967295",
        "t:4294967296",
        "Summary: 3 errors",
        "m\u{e9}tier.py:0010: z",
        "",
    ];
    for line in samples {
        let expected = pattern.captures(line).and_then(|c| {
            let name = c.get(1)?.as_str().to_string();
            let number = c.get(2)?.as_str().parse::<u32>().ok()?;
            Some((name, number))
        });
        assert_eq!(parse_lint_location(line), expected, "{:?}", line);
    }
}

#[test]
fn unsorted_ranges_are_still_searched_exactly() {
    let mut map = HunkMap::new();
    map.add_range("u.py", (1, 10));
    map.add_range("u.py", (2, 3));
    map.add_range("u.py", (40, 45));
    for n in 0..50u32 {
        let expected = (1..=10).contains(&n) || (40..=45).contains(&n);
        assert_eq!(map.contains("u.py", n), expected, "{}", n);
    }
    assert!(line_matches(&map, "u.py:5: inside the first range"));
    assert!(!map.contains("v.py", 5));
}
