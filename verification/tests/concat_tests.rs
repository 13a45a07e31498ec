use file_concatenator::engine::concatenate_files;
use file_concatenator::engine::Config;
use file_concatenator::engine::EngineError;
use file_concatenator::matcher::FilterError;
use file_concatenator::walker::FileEntry;
use file_concatenator::walker::FsNode;

fn file(path: &str, content: &str) -> FsNode {
    FsNode::File(FileEntry {
        path: path.to_string(),
        canonical: path.to_string(),
        bytes: content.as_bytes().to_vec(),
    })
}

/// The tree the original exercises: file1.txt (unmatched by *.ts), file2.ts,
/// subdir/file3.ts, node_modules/file4.ts, and the freshly created output
/// file, which the walk sees because it lies inside the root.
fn test_snapshot() -> FsNode {
    FsNode::Dir(vec![
        file("/test/output.txt", ""),
        file("/test/file1.txt", "Content of file1"),
        file("/test/file2.ts", "Content of file2"),
        FsNode::Dir(vec![file("/test/subdir/file3.ts", "Content of file3")]),
        FsNode::Dir(vec![file("/test/node_modules/file4.ts", "Content of file4")]),
    ])
}

fn config(patterns: Vec<&str>, max_depth: usize, write_filenames: bool, write_tree: bool, comment_style: &str, buffer_size: usize) -> Config {
    Config {
        patterns: patterns.into_iter().map(|p| p.to_string()).collect(),
        max_depth,
        write_filenames,
        write_tree,
        comment_style: comment_style.to_string(),
        buffer_size,
        output_canonical: "/test/output.txt".to_string(),
    }
}

fn run(cfg: &Config, tree_text: &str) -> String {
    let bytes = concatenate_files(cfg, &test_snapshot(), tree_text).unwrap();
    String::from_utf8(bytes).unwrap()
}

#[test]
fn test_wildcard_include() {
    let cfg = config(vec!["**/*.ts"], usize::MAX, false, false, "//", 8192);
    let output_content = run(&cfg, "");
    assert!(!output_content.contains("Content of file1"));
    assert!(output_content.contains("Content of file2"));
    assert!(output_content.contains("Content of file3"));
    assert!(output_content.contains("Content of file4"));
}

#[test]
fn test_wildcard_exclude() {
    let cfg = config(
        vec!["**/*.ts", "!**/node_modules/**"],
        usize::MAX,
        false,
        false,
        "//",
        8192,
    );
    let output_content = run(&cfg, "");
    assert!(!output_content.contains("Content of file1"));
    assert!(output_content.contains("Content of file2"));
    assert!(output_content.contains("Content of file3"));
    assert!(!output_content.contains("Content of file4"));
}

#[test]
fn test_multiple_patterns() {
    let cfg = config(
        vec!["**/*.ts", "**/*.txt", "!**/node_modules/**"],
        usize::MAX,
        false,
        false,
        "//",
        8192,
    );
    let output_content = run(&cfg, "");
    assert!(output_content.contains("Content of file1"));
    assert!(output_content.contains("Content of file2"));
    assert!(output_content.contains("Content of file3"));
    assert!(!output_content.contains("Content of file4"));
}

#[test]
fn test_no_patterns() {
    let cfg = config(vec![], usize::MAX, false, false, "//", 8192);
    let output_content = run(&cfg, "");
    assert!(output_content.contains("Content of file1"));
    assert!(output_content.contains("Content of file2"));
    assert!(output_content.contains("Content of file3"));
    assert!(output_content.contains("Content of file4"));
}

#[test]
fn test_max_depth() {
    let cfg = config(vec!["**/*.ts"], 0, false, false, "//", 8192);
    let output_content = run(&cfg, "");
    assert!(output_content.contains("Content of file2"));
    assert!(!output_content.contains("Content of file3"));
    assert!(!output_content.contains("Content of file4"));
}

#[test]
fn test_comment_style() {
    let cfg = config(vec!["**/*.ts"], usize::MAX, true, false, "#", 8192);
    let output_content = run(&cfg, "");
    assert!(output_content.contains("# "));
    assert!(!output_content.contains("// "));
}

#[test]
fn test_write_filenames() {
    let cfg = config(vec!["**/*.ts"], usize::MAX, true, false, "//", 8192);
    let output_content = run(&cfg, "");
    assert!(output_content.contains("// "));
    assert!(output_content.contains("file2.ts"));
    assert!(output_content.contains("file3.ts"));
}

#[test]
fn test_write_tree() {
    let mut tree = termtree::Tree::new("test".to_string());
    tree.push(termtree::Tree::new("output.txt".to_string()));
    tree.push(termtree::Tree::new("file1.txt".to_string()));
    tree.push(termtree::Tree::new("file2.ts".to_string()));
    let mut subdir = termtree::Tree::new("subdir".to_string());
    subdir.push(termtree::Tree::new("file3.ts".to_string()));
    tree.push(subdir);
    let mut node_modules = termtree::Tree::new("node_modules".to_string());
    node_modules.push(termtree::Tree::new("file4.ts".to_string()));
    tree.push(node_modules);
    let tree_text = tree.to_string();

    let cfg = config(vec!["**/*.ts"], usize::MAX, false, true, "//", 8192);
    let output_content = run(&cfg, &tree_text);
    assert!(output_content.contains("subdir"));
    assert!(output_content.contains("node_modules"));
    assert!(output_content.contains("file2.ts"));
    assert!(output_content.contains("file3.ts"));
    assert!(output_content.contains("file4.ts"));
}

#[test]
fn test_buffer_size() {
    // minimum buffer size: buffering must not change the output
    let cfg = config(vec!["**/*.ts"], usize::MAX, false, false, "//", 1);
    let output_content = run(&cfg, "");
    assert!(output_content.contains("Content of file2"));
    assert!(output_content.contains("Content of file3"));
    assert!(output_content.contains("Content of file4"));
}

#[test]
fn test_buffer_size_equivalence() {
    let small = config(vec!["**/*.ts"], usize::MAX, true, true, "//", 1);
    let large = config(vec!["**/*.ts"], usize::MAX, true, true, "//", 8192);
    assert_eq!(run(&small, "tree\n"), run(&large, "tree\n"));
}

#[test]
fn test_rerun_identical() {
    let cfg = config(vec!["**/*.ts", "!**/node_modules/**"], usize::MAX, true, true, "//", 8192);
    assert_eq!(run(&cfg, "tree\n"), run(&cfg, "tree\n"));
}

#[test]
fn test_output_file_not_reread() {
    // the output file carries leftovers of an earlier run; they must not be
    // copied into the new output
    let root = FsNode::Dir(vec![
        file("/test/output.txt", "OLD OUTPUT DATA"),
        file("/test/file2.ts", "Content of file2"),
    ]);
    let cfg = config(vec![], usize::MAX, false, false, "//", 8192);
    let bytes = concatenate_files(&cfg, &root, "").unwrap();
    let output_content = String::from_utf8(bytes).unwrap();
    assert!(!output_content.contains("OLD OUTPUT DATA"));
    assert!(output_content.contains("Content of file2"));
}

#[test]
fn test_depth_zero_no_patterns() {
    // with no patterns and the ceiling at the root, only root-level files
    // appear
    let cfg = config(vec![], 0, false, false, "//", 8192);
    let output_content = run(&cfg, "");
    assert!(output_content.contains("Content of file1"));
    assert!(output_content.contains("Content of file2"));
    assert!(!output_content.contains("Content of file3"));
    assert!(!output_content.contains("Content of file4"));
}

#[test]
fn test_provenance_lines_exact() {
    let cfg = config(vec!["**/*.ts"], usize::MAX, true, false, "#", 8192);
    let output_content = run(&cfg, "");
    assert!(output_content.contains("# /test/file2.ts\n"));
    assert!(output_content.contains("# /test/subdir/file3.ts\n"));
    for line in output_content.lines() {
        assert!(!line.starts_with("// "));
    }
}

#[test]
fn test_exact_output_bytes() {
    let root = FsNode::Dir(vec![
        file("/test/a.ts", "alpha"),
        file("/test/b.ts", "beta\n"),
    ]);
    let cfg = Config {
        patterns: vec!["**/*.ts".to_string()],
        max_depth: usize::MAX,
        write_filenames: true,
        write_tree: true,
        comment_style: "//".to_string(),
        buffer_size: 8192,
        output_canonical: "/test/out.txt".to_string(),
    };
    let bytes = concatenate_files(&cfg, &root, "the tree\n").unwrap();
    let expected = "the tree\n\n// /test/a.ts\nalpha\n// /test/b.ts\nbeta\n\n";
    assert_eq!(String::from_utf8(bytes).unwrap(), expected);
}

#[test]
fn test_invalid_pattern_aborts_run() {
    let cfg = config(vec!["a[b"], usize::MAX, false, false, "//", 8192);
    let err = concatenate_files(&cfg, &test_snapshot(), "").unwrap_err();
    match err {
        EngineError::Filter(FilterError::InvalidPattern(pattern, message)) => {
            assert_eq!(pattern, "a[b");
            assert!(!message.is_empty());
        },
        other => panic!("expected a filter error, got {:?}", other),
    }
}

#[test]
fn test_empty_root() {
    let root = FsNode::Dir(vec![]);
    let cfg = config(vec![], usize::MAX, true, false, "//", 8192);
    let bytes = concatenate_files(&cfg, &root, "").unwrap();
    assert!(bytes.is_empty());
}
