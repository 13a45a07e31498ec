use file_concatenator::matcher::FileFilter;
use file_concatenator::matcher::FilterError;

fn build(patterns: Vec<&str>) -> FileFilter {
    let patterns: Vec<String> = patterns.into_iter().map(|p| p.to_string()).collect();
    FileFilter::new(&patterns).unwrap()
}

#[test]
fn test_empty_patterns_select_everything() {
    let filter = build(vec![]);
    assert!(filter.should_process("/a/b/c.ts"));
    assert!(filter.should_process("Makefile"));
    assert!(filter.should_process("/deep/path/with.no.extension"));
}

#[test]
fn test_exclusion_wins_over_inclusion() {
    let filter = build(vec!["**/*.ts", "!**/node_modules/**"]);
    assert!(filter.should_process("/p/src/a.ts"));
    assert!(!filter.should_process("/p/node_modules/a.ts"));
    // excluded even though the include side matches it
    assert!(!filter.should_process("/p/node_modules/deep/b.ts"));
}

#[test]
fn test_exclusion_only_patterns_select_nothing() {
    // a lone exclusion clears the include-everything default, so nothing
    // matches the (empty) include side
    let filter = build(vec!["!**/*.log"]);
    assert!(!filter.should_process("/a/b.txt"));
    assert!(!filter.should_process("/a/b.log"));
}

#[test]
fn test_extensionless_files_match_wildcards() {
    let filter = build(vec!["**/*"]);
    assert!(filter.should_process("/src/Makefile"));
}

#[test]
fn test_invalid_pattern_reports_first_offender() {
    let patterns: Vec<String> = vec!["**/*.ts".to_string(), "a[b".to_string(), "c[d".to_string()];
    let err = match FileFilter::new(&patterns) {
        Err(e) => e,
        Ok(_) => panic!("expected an error"),
    };
    let FilterError::InvalidPattern(pattern, message) = err;
    assert_eq!(pattern, "a[b");
    assert!(!message.is_empty());
}

#[test]
fn test_invalid_exclusion_keeps_marker_in_report() {
    let patterns: Vec<String> = vec!["!a[b".to_string()];
    let err = match FileFilter::new(&patterns) {
        Err(e) => e,
        Ok(_) => panic!("expected an error"),
    };
    let FilterError::InvalidPattern(pattern, _) = err;
    assert_eq!(pattern, "!a[b");
}
