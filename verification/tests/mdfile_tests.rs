use mdvault::embedding::Embedding;
use mdvault::mdfile::MDFile;

// Setter / getter behaviour

#[test]
fn test_get_set_yaml() {
    let mut mdfile = MDFile::new(None, "# Test\n\nThis is a test file.".to_string());
    mdfile.set_yaml("key: value".to_string());

    let expected = Some(&"key: value".to_string());
    let actual = mdfile.get_yaml();
    assert_eq!(actual, expected);
}

#[test]
fn test_add_yaml_key() {
    let mut mdfile = MDFile::new(None, "# Test\n\nThis is a test file.".to_string());
    mdfile.add_yaml_key("key".to_string(), "value".to_string());

    let expected = Some("value".to_string());
    let actual = mdfile.get_yaml_key("key");
    assert_eq!(actual, expected);
}

#[test]
fn test_get_yaml_key() {
    let mut mdfile = MDFile::new(None, "# Test\n\nThis is a test file.".to_string());
    mdfile.set_yaml("key: value".to_string());

    let expected = Some("value".to_string());
    let actual = mdfile.get_yaml_key("key");
    assert_eq!(actual, expected);
}

#[test]
fn test_get_set_body() {
    let mut mdfile = MDFile::new(None, "# Test\n\nThis is a test file.".to_string());
    mdfile.set_body("# New Test\n\nThis is a new test file.".to_string());

    let expected = "# New Test\n\nThis is a new test file.".to_string();
    let actual = mdfile.get_body();
    assert_eq!(actual, &expected);
}

// Serialization behaviour

#[test]
fn test_from_string_with_yaml() {
    let contents = "---\nkey: value\n---\n# Test\n\nThis is a test file.".to_string();

    let actual = MDFile::from_string(contents);
    let expected = MDFile::new(
        Some("key: value".to_string()),
        "# Test\n\nThis is a test file.".to_string(),
    );
    assert_eq!(actual, expected);
}

#[test]
fn test_to_string_with_yaml() {
    let mdfile = MDFile::new(
        Some("key: value".to_string()),
        "# Test\n\nThis is a test file.".to_string(),
    );
    let actual = mdfile.to_string();
    let expected = "---\nkey: value\n---\n# Test\n\nThis is a test file.".to_string();
    assert_eq!(actual, expected);
}

#[test]
fn test_from_string_without_yaml() {
    let contents = "# Test\n\nThis is a test file.".to_string();

    let actual = MDFile::from_string(contents);
    let expected = MDFile::new(None, "# Test\n\nThis is a test file.".to_string());
    assert_eq!(actual, expected);
}

#[test]
fn test_to_string_without_yaml() {
    let mdfile = MDFile::new(None, "# Test\n\nThis is a test file.".to_string());
    let actual = mdfile.to_string();
    let expected = "# Test\n\nThis is a test file.".to_string();
    assert_eq!(actual, expected);
}

#[test]
fn test_from_string() {
    let contents = "---\nkey: value\n---\n# Test\n\nThis is a test file.".to_string();

    let actual = MDFile::from_string(contents);
    assert_eq!(actual.get_yaml(), Some(&"key: value".to_string()));
    assert_eq!(actual.get_yaml_key("key"), Some("value".to_string()));
    assert_eq!(actual.get_body(), "# Test\n\nThis is a test file.");
}

#[test]
fn test_to_string() {
    let mut mdfile = MDFile::new(None, "# Test\n\nThis is a test file.".to_string());
    mdfile.add_yaml_key("key".to_string(), "value".to_string());
    let actual = mdfile.to_string();
    let expected = "---\nkey: value\n---\n# Test\n\nThis is a test file.".to_string();
    assert_eq!(actual, expected);
}

// Frame grammar edge cases

#[test]
fn test_from_string_open_fence_without_close() {
    let actual = MDFile::from_string("---\nno closing fence here".to_string());
    assert_eq!(actual.get_yaml(), None);
    assert_eq!(actual.get_body(), "---\nno closing fence here");
}

#[test]
fn test_from_string_empty_front_matter() {
    let actual = MDFile::from_string("---\n---\nbody".to_string());
    assert_eq!(actual.get_yaml(), Some(&"".to_string()));
    assert_eq!(actual.get_body(), "body");
}

#[test]
fn test_from_string_close_fence_mid_line() {
    let actual = MDFile::from_string("---\na----r".to_string());
    assert_eq!(actual.get_yaml(), Some(&"a".to_string()));
    assert_eq!(actual.get_body(), "-r");
}

#[test]
fn test_render_parse_render_idempotent() {
    let texts = [
        "---\nkey: value\n---\nbody",
        "---\na\n---\nb\n---\nc",
        "plain body only",
        "---\nunclosed",
        "---\n---\n",
        "",
    ];
    for t in texts {
        let once = MDFile::from_string(t.to_string()).to_string();
        let twice = MDFile::from_string(once.clone()).to_string();
        assert_eq!(twice, once);
    }
}

// Embedding invalidation

#[test]
fn test_set_body_clears_embedding() {
    let mut mdfile = MDFile::new(None, "text".to_string());
    mdfile.set_embedding(Embedding::new(vec![1, 2, 3]).unwrap());
    assert!(mdfile.get_embedding().is_some());
    mdfile.set_body("other text".to_string());
    assert!(mdfile.get_embedding().is_none());
}

#[test]
fn test_add_yaml_key_clears_embedding() {
    let mut mdfile = MDFile::new(None, "text".to_string());
    mdfile.set_embedding(Embedding::new(vec![1, 2, 3]).unwrap());
    mdfile.add_yaml_key("key".to_string(), "value".to_string());
    assert!(mdfile.get_embedding().is_none());
}

#[test]
fn test_set_yaml_clears_embedding_only_on_change() {
    let mut mdfile = MDFile::new(Some("key: value".to_string()), "text".to_string());
    mdfile.set_embedding(Embedding::new(vec![4, 5]).unwrap());
    mdfile.set_yaml("key: value".to_string());
    assert!(mdfile.get_embedding().is_some());
    mdfile.set_yaml("key: other".to_string());
    assert!(mdfile.get_embedding().is_none());
}

#[test]
fn test_embedding_rejects_out_of_range() {
    assert!(Embedding::new(vec![0, 1 << 62]).is_none());
    assert!(Embedding::new(vec![0, -(1 << 62)]).is_none());
    assert!(Embedding::new(vec![0, 1 << 30]).is_some());
}
