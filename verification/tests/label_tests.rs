use file_concatenator::paths::label;

#[test]
fn test_label() {
    let path = "/tmp/test/file.txt";
    assert_eq!(label(path), "file.txt");

    let path = "/tmp/test/";
    assert_eq!(label(path), "test");
}

#[test]
fn test_label_bare_name() {
    assert_eq!(label("file.txt"), "file.txt");
}

#[test]
fn test_label_trailing_slashes() {
    assert_eq!(label("a/b///"), "b");
}

#[test]
fn test_label_all_slashes_is_empty() {
    assert_eq!(label("///"), "");
    assert_eq!(label(""), "");
}
