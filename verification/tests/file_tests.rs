use mdvault::error::Error;
use mdvault::file::File;
use mdvault::file::merge_notes;
use mdvault::mdfile::MDFile;

#[test]
fn test_read() {
    let path = "test.md".to_string();
    let last_modified: Option<u128> = None;
    let contents: String = "# Test\n\nThis is a test file.".to_string();
    let ext: &str = "md";
    let actual = File::new_raw(path, ext, contents.clone(), last_modified).unwrap();
    let expected_mdfile = MDFile::from_string(contents);
    let expected = File::from_mdfile("test.md".to_string(), expected_mdfile);
    assert_eq!(actual, expected);
}

#[test]
fn mod_test_read() {
    let path = "test.md".to_string();
    let last_modified: Option<u128> = None;
    let contents: String = "# Test\n\nThis is a test file.".to_string();
    let ext: &str = "md";
    let actual = File::new_raw(path, ext, contents.clone(), last_modified).unwrap();
    let expected = File::from_mdfile("test.md".to_string(), MDFile::from_string(contents));
    let _ = (actual, expected);
}

#[test]
fn test_new_raw_rejects_unknown_extension() {
    let actual = File::new_raw("test.txt".to_string(), "txt", "text".to_string(), None);
    match actual {
        Err(Error::UnsupportedFileType(p)) => assert_eq!(p, "test.txt"),
        other => panic!("expected UnsupportedFileType, got {:?}", other),
    }
}

#[test]
fn test_merge_notes_concatenates_rendered_documents() {
    let a = File::from_mdfile(
        "a.md".to_string(),
        MDFile::new(Some("key: value".to_string()), "first".to_string()),
    );
    let b = File::from_mdfile("b.md".to_string(), MDFile::new(None, "second".to_string()));
    let notes = merge_notes(&vec![a, b]);
    assert_eq!(notes, "---\nkey: value\n---\nfirst\n\nsecond\n\n");
}
